//! The fast unlock features.

use vstd::prelude::*;

use crate::js_tokens::{tokens_of, Kind, Tokens};
use crate::patch::objects::{
    bool_of, bool_value, brace_before, enclosing_brace, field_of, has_mapping, has_object_mapping,
    mappings_view, object_around, single_ident, single_ident_of, ObjectView,
};
use crate::patch::patterns::{
    allowance_guarded, allowance_guarded_atoms, allowance_patched, allowance_patched_atoms,
    allowed_binding, allowed_binding_atoms, auth_chatgpt, auth_chatgpt_atoms, conversation_guarded,
    conversation_guarded_atoms, conversation_patched, conversation_patched_atoms,
    intelligence_anchor, intelligence_anchor_atoms, intelligence_guarded,
    intelligence_guarded_atoms, intelligence_patched, intelligence_patched_atoms, nullable_auth,
    nullable_auth_atoms, request_state, request_state_atoms, speed_guarded, speed_guarded_atoms,
    speed_patched, speed_patched_atoms, AL_ALLOWED, AL_AUTH, AL_DATA, AL_LOADING, CV_ALLOWED,
    CV_BASE, CV_EFFECTIVE, CV_FALLBACK, CV_MODEL, CV_REQUEST, CV_SELECTED,
};
use crate::patch::{
    edits_view, hit_of, lemma_match_is_hit, match_site, optional_edits_view, pattern_sites,
    present, rule_sites, sites_view, Detector, Edit, EditSpec, Feature, FeatureRole, PatchSet,
    PatternRule, SetSpec, Site, SiteSpec,
};
use crate::text::{concat, joined, starts_with, str_eq, texts};
use crate::token_match::{
    any_in, any_match, find, hits_view, lemma_after_atoms, lemma_bool_bound, lemma_ident_bound,
    matches_of, token_bytes, token_range, token_text, unbound, unmatched, Atom, Hit, Matched,
    BOOL_SLOTS, ID_SLOTS, SPAN_SLOTS,
};

verus! {

/// Text of the identifier that a slot is bound to.
pub open spec fn bound_text(s: Seq<char>, m: Matched, slot: usize) -> Seq<char> {
    token_text(s, m.ids[slot as int]->0)
}

/// Bytes of a span.
pub open spec fn span_bytes(s: Seq<char>, m: Matched, slot: int) -> Option<(int, int)> {
    match m.spans[slot] {
        Some((start, end)) => token_bytes(s, start, end),
        None => None,
    }
}

/// A replacement of a span.
pub open spec fn span_edit(s: Seq<char>, m: Matched, slot: int, replacement: Seq<char>) -> Option<
    EditSpec,
> {
    match span_bytes(s, m, slot) {
        Some((start, end)) => Some(EditSpec { start, end, replacement }),
        None => None,
    }
}

pub open spec fn only_edit(edit: Option<EditSpec>) -> Option<Seq<EditSpec>> {
    match edit {
        Some(edit) => Some(seq![edit]),
        None => None,
    }
}

fn edit_span(tokens: &Tokens<'_>, hit: &Hit, slot: usize, replacement: String) -> (edit: Option<
    Edit,
>)
    requires
        slot < hit@.spans.len(),
    ensures
        match edit {
            Some(edit) => span_edit(tokens.source(), hit@, slot as int, replacement@) == Some(
                edit@,
            ),
            None => span_edit(tokens.source(), hit@, slot as int, replacement@) is None,
        },
{
    match hit.span(tokens, slot) {
        Some(range) => Some(Edit { range, replacement }),
        None => None,
    }
}

fn single_edit(edit: Option<Edit>) -> (edits: Option<Vec<Edit>>)
    ensures
        optional_edits_view(edits) == only_edit(
            match edit {
                Some(edit) => Some(edit@),
                None => None,
            },
        ),
{
    match edit {
        Some(edit) => {
            let edits = vec![edit];
            assert(edits_view(edits@) =~= seq![edit@]);
            Some(edits)
        },
        None => None,
    }
}

/// A match has all its slots.
proof fn lemma_hit_slots(s: Seq<char>, pattern: Seq<Atom>, m: Matched)
    requires
        hit_of(s, pattern, m),
    ensures
        m.ids.len() == ID_SLOTS,
        m.spans.len() == SPAN_SLOTS,
        m.bools.len() == BOOL_SLOTS,
        m.start <= m.end <= tokens_of(s).len(),
        crate::token_match::ids_inside(s, m.ids),
{
    lemma_after_atoms(s, pattern, pattern.len() as int, unmatched(m.start, unbound()));
}

fn remove_captured_span(tokens: &Tokens<'_>, hit: &Hit) -> (edits: Option<Vec<Edit>>)
    requires
        hit@.spans.len() == SPAN_SLOTS,
    ensures
        optional_edits_view(edits) == only_edit(
            span_edit(tokens.source(), hit@, 0, Seq::empty()),
        ),
{
    let edit = edit_span(tokens, hit, 0, String::new());
    single_edit(edit)
}

// ---------------------------------------------------------------------------
// Speed setting

pub struct SpeedSetting;

impl PatternRule for SpeedSetting {
    open spec fn guarded_pattern(&self) -> Seq<Atom> {
        speed_guarded_atoms()
    }

    open spec fn patched_pattern(&self) -> Seq<Atom> {
        speed_patched_atoms()
    }

    open spec fn in_context(&self, s: Seq<char>, m: Matched) -> bool {
        true
    }

    open spec fn edits_for(&self, s: Seq<char>, m: Matched) -> Option<Seq<EditSpec>> {
        only_edit(span_edit(s, m, 0, Seq::empty()))
    }

    fn guarded(&self) -> Vec<Atom> {
        speed_guarded()
    }

    fn patched(&self) -> Vec<Atom> {
        speed_patched()
    }

    fn validate(&self, tokens: &Tokens<'_>, hit: &Hit) -> bool {
        true
    }

    fn rewrite(&self, tokens: &Tokens<'_>, hit: &Hit) -> Option<Vec<Edit>> {
        proof {
            lemma_hit_slots(tokens.source(), self.guarded_pattern(), hit@);
        }
        remove_captured_span(tokens, hit)
    }
}

// ---------------------------------------------------------------------------
// Allowance

pub struct Allowance;

/// Every identifier of a match of the allowance is bound.
proof fn lemma_allowance_bound(s: Seq<char>, m: Matched)
    requires
        hit_of(s, allowance_guarded_atoms(), m) || hit_of(s, allowance_patched_atoms(), m),
    ensures
        m.ids.len() == ID_SLOTS,
        forall|slot: int| 0 <= slot <= AL_ALLOWED ==> (#[trigger] m.ids[slot]) is Some,
{
    let guarded = allowance_guarded_atoms();
    let patched = allowance_patched_atoms();
    reveal(allowance_guarded_atoms);
    reveal(allowance_patched_atoms);
    if hit_of(s, guarded, m) {
        lemma_hit_slots(s, guarded, m);
        lemma_ident_bound(s, guarded, m.start, unbound(), 2);
        lemma_ident_bound(s, guarded, m.start, unbound(), 4);
        lemma_ident_bound(s, guarded, m.start, unbound(), 12);
        lemma_ident_bound(s, guarded, m.start, unbound(), 14);
        lemma_ident_bound(s, guarded, m.start, unbound(), 17);
        lemma_ident_bound(s, guarded, m.start, unbound(), 21);
    } else {
        lemma_hit_slots(s, patched, m);
        lemma_ident_bound(s, patched, m.start, unbound(), 2);
        lemma_ident_bound(s, patched, m.start, unbound(), 4);
        lemma_ident_bound(s, patched, m.start, unbound(), 12);
        lemma_ident_bound(s, patched, m.start, unbound(), 14);
        lemma_ident_bound(s, patched, m.start, unbound(), 17);
        lemma_ident_bound(s, patched, m.start, unbound(), 21);
    }
    assert(m.ids[0] is Some && m.ids[1] is Some && m.ids[2] is Some);
    assert(m.ids[3] is Some && m.ids[4] is Some && m.ids[5] is Some);
}

pub open spec fn saturating_difference(a: int, b: int) -> int {
    if a < b {
        0
    } else {
        a - b
    }
}

/// The keys that an allowance is returned under.
pub open spec fn allowance_mapping(m: Matched) -> Seq<(Seq<char>, int)> {
    seq![
        ("isServiceTierAllowed"@, m.ids[AL_ALLOWED as int]->0),
        ("isLoading"@, m.ids[AL_LOADING as int]->0),
    ]
}

impl PatternRule for Allowance {
    open spec fn guarded_pattern(&self) -> Seq<Atom> {
        allowance_guarded_atoms()
    }

    open spec fn patched_pattern(&self) -> Seq<Atom> {
        allowance_patched_atoms()
    }

    open spec fn in_context(&self, s: Seq<char>, m: Matched) -> bool {
        let near = saturating_difference(m.start, 180);
        &&& any_match(s, near, m.start, auth_chatgpt_atoms(), m.ids)
        &&& any_match(s, near, m.start, nullable_auth_atoms(), m.ids)
        &&& has_mapping(s, m.end, 240, allowance_mapping(m))
    }

    open spec fn edits_for(&self, s: Seq<char>, m: Matched) -> Option<Seq<EditSpec>> {
        let loading = bound_text(s, m, AL_LOADING);
        let auth = bound_text(s, m, AL_AUTH);
        let data = bound_text(s, m, AL_DATA);
        only_edit(
            span_edit(
                s,
                m,
                0,
                joined(
                    seq![
                        "!"@,
                        loading,
                        "&&("@,
                        auth,
                        "?"@,
                        data,
                        "!=null&&"@,
                        data,
                        "?.requirements?.featureRequirements?.fast_mode!==!1:!0)"@,
                    ],
                ),
            ),
        )
    }

    fn guarded(&self) -> Vec<Atom> {
        allowance_guarded()
    }

    fn patched(&self) -> Vec<Atom> {
        allowance_patched()
    }

    fn validate(&self, tokens: &Tokens<'_>, hit: &Hit) -> bool {
        let ghost s = tokens.source();
        proof {
            lemma_allowance_bound(s, hit@);
            if hit_of(s, self.guarded_pattern(), hit@) {
                lemma_hit_slots(s, self.guarded_pattern(), hit@);
            } else {
                lemma_hit_slots(s, self.patched_pattern(), hit@);
            }
        }
        let before = hit.start;
        let start = if before < 180 {
            0
        } else {
            before - 180
        };
        let auth = auth_chatgpt();
        let nullable = nullable_auth();
        if !any_in(tokens, start..before, auth.as_slice(), Some(hit)) || !any_in(
            tokens,
            start..before,
            nullable.as_slice(),
            Some(hit),
        ) {
            return false;
        }
        let expected: [(&str, usize); 2] = [
            ("isServiceTierAllowed", hit.ident(AL_ALLOWED)),
            ("isLoading", hit.ident(AL_LOADING)),
        ];
        proof {
            assert(mappings_view(expected@) =~= allowance_mapping(hit@));
        }
        has_object_mapping(tokens, hit.end, 240, &expected)
    }

    fn rewrite(&self, tokens: &Tokens<'_>, hit: &Hit) -> Option<Vec<Edit>> {
        let ghost s = tokens.source();
        proof {
            lemma_allowance_bound(s, hit@);
            lemma_hit_slots(s, self.guarded_pattern(), hit@);
        }
        let loading = tokens.text(hit.ident(AL_LOADING));
        let auth = tokens.text(hit.ident(AL_AUTH));
        let data = tokens.text(hit.ident(AL_DATA));
        let parts: [&str; 9] = [
            "!",
            loading,
            "&&(",
            auth,
            "?",
            data,
            "!=null&&",
            data,
            "?.requirements?.featureRequirements?.fast_mode!==!1:!0)",
        ];
        proof {
            assert(texts(parts@) =~= seq![
                "!"@,
                loading@,
                "&&("@,
                auth@,
                "?"@,
                data@,
                "!=null&&"@,
                data@,
                "?.requirements?.featureRequirements?.fast_mode!==!1:!0)"@,
            ]);
        }
        let edit = edit_span(tokens, hit, 0, concat(&parts));
        single_edit(edit)
    }
}

// ---------------------------------------------------------------------------
// Allowance of a request

/// The site of an allowance of a request.
pub open spec fn request_site(s: Seq<char>, m: Matched) -> Option<SiteSpec> {
    match_site(
        s,
        m,
        if m.bools[0] == Some(true) {
            Some(Seq::empty())
        } else {
            only_edit(span_edit(s, m, 0, "!0"@))
        },
    )
}

pub open spec fn request_sites(s: Seq<char>) -> Seq<SiteSpec> {
    present(matches_of(s, request_state_atoms()).map_values(|m: Matched| request_site(s, m)))
}

fn request_edits(tokens: &Tokens<'_>, hit: &Hit) -> (edits: Option<Vec<Edit>>)
    requires
        hit_of(tokens.source(), request_state_atoms(), hit@),
    ensures
        optional_edits_view(edits) == (if hit@.bools[0] == Some(true) {
            Some(Seq::<EditSpec>::empty())
        } else {
            only_edit(span_edit(tokens.source(), hit@, 0, "!0"@))
        }),
{
    proof {
        let s = tokens.source();
        lemma_hit_slots(s, request_state_atoms(), hit@);
        reveal(request_state_atoms);
        lemma_bool_bound(s, request_state_atoms(), hit@.start, unbound(), 22);
    }
    if hit.boolean(0) {
        let edits: Vec<Edit> = Vec::new();
        assert(edits_view(edits@) =~= Seq::<EditSpec>::empty());
        Some(edits)
    } else {
        let edit = edit_span(tokens, hit, 0, "!0".to_owned());
        single_edit(edit)
    }
}

fn detect_request_allowance(tokens: &Tokens<'_>) -> (sites: Vec<Site>)
    ensures
        sites_view(sites@) == request_sites(tokens.source()),
{
    let ghost s = tokens.source();
    let pattern = request_state();
    let hits = find(tokens, pattern.as_slice());
    let ghost matches = matches_of(s, request_state_atoms());
    let ghost site_of = |m: Matched| request_site(s, m);
    let mut sites: Vec<Site> = Vec::new();
    let mut k: usize = 0;
    assert(sites_view(sites@) =~= present(matches.map_values(site_of).take(0)));
    while k < hits.len()
        invariant
            s == tokens.source(),
            k <= hits@.len(),
            hits_view(hits@) == matches,
            matches == matches_of(s, request_state_atoms()),
            site_of == (|m: Matched| request_site(s, m)),
            sites_view(sites@) == present(matches.map_values(site_of).take(k as int)),
        decreases hits.len() - k,
    {
        let hit = &hits[k];
        let ghost kept = sites@;
        proof {
            assert(hit@ == matches[k as int]);
            lemma_match_is_hit(s, request_state_atoms(), k as int);
            assert(matches.map_values(site_of).take(k + 1).drop_last() =~= matches.map_values(
                site_of,
            ).take(k as int));
        }
        if let Some(edits) = request_edits(tokens, hit) {
            if let Some(range) = token_range(tokens, hit.start, hit.end) {
                let site = Site { range, edits };
                sites.push(site);
                assert(sites_view(sites@) =~= sites_view(kept).push(site@));
            }
        }
        k += 1;
    }
    assert(matches.map_values(site_of).take(k as int) =~= matches.map_values(site_of));
    sites
}

// ---------------------------------------------------------------------------
// Tier of a conversation

pub struct ConversationFallback;

/// Every identifier that a match of either pattern uses later is bound.
proof fn lemma_conversation_bound(s: Seq<char>, m: Matched)
    requires
        hit_of(s, conversation_guarded_atoms(), m) || hit_of(s, conversation_patched_atoms(), m),
    ensures
        m.ids.len() == ID_SLOTS,
        m.ids[CV_EFFECTIVE as int] is Some,
        m.ids[CV_BASE as int] is Some,
        m.ids[CV_REQUEST as int] is Some,
        m.ids[CV_ALLOWED as int] is Some,
        m.ids[CV_FALLBACK as int] is Some,
        m.ids[CV_MODEL as int] is Some,
        m.ids[CV_SELECTED as int] is Some,
{
    let guarded = conversation_guarded_atoms();
    let patched = conversation_patched_atoms();
    reveal(conversation_guarded_atoms);
    reveal(conversation_patched_atoms);
    if hit_of(s, guarded, m) {
        lemma_hit_slots(s, guarded, m);
        lemma_ident_bound(s, guarded, m.start, unbound(), 0);
        lemma_ident_bound(s, guarded, m.start, unbound(), 69);
        lemma_ident_bound(s, guarded, m.start, unbound(), 84);
        lemma_ident_bound(s, guarded, m.start, unbound(), 71);
        lemma_ident_bound(s, guarded, m.start, unbound(), 65);
        lemma_ident_bound(s, guarded, m.start, unbound(), 82);
        lemma_ident_bound(s, guarded, m.start, unbound(), 75);
    } else {
        lemma_hit_slots(s, patched, m);
        lemma_ident_bound(s, patched, m.start, unbound(), 0);
        lemma_ident_bound(s, patched, m.start, unbound(), 30);
        lemma_ident_bound(s, patched, m.start, unbound(), 43);
        lemma_ident_bound(s, patched, m.start, unbound(), 32);
        lemma_ident_bound(s, patched, m.start, unbound(), 26);
        lemma_ident_bound(s, patched, m.start, unbound(), 41);
        lemma_ident_bound(s, patched, m.start, unbound(), 34);
    }
}

/// The keys that the tier is returned under.
pub open spec fn conversation_mapping(m: Matched) -> Seq<(Seq<char>, int)> {
    seq![
        ("selectedServiceTier"@, m.ids[CV_SELECTED as int]->0),
        ("serviceTierForRequest"@, m.ids[CV_REQUEST as int]->0),
    ]
}

/// The call that gives the tier of a request.
pub open spec fn fallback_call(s: Seq<char>, m: Matched) -> Seq<char> {
    joined(
        seq![
            bound_text(s, m, CV_FALLBACK),
            "("@,
            bound_text(s, m, CV_MODEL),
            ","@,
            bound_text(s, m, CV_EFFECTIVE),
            ","@,
            bound_text(s, m, CV_ALLOWED),
            ")"@,
        ],
    )
}

impl PatternRule for ConversationFallback {
    open spec fn guarded_pattern(&self) -> Seq<Atom> {
        conversation_guarded_atoms()
    }

    open spec fn patched_pattern(&self) -> Seq<Atom> {
        conversation_patched_atoms()
    }

    open spec fn in_context(&self, s: Seq<char>, m: Matched) -> bool {
        &&& any_match(
            s,
            saturating_difference(m.start, 600),
            m.start,
            allowed_binding_atoms(),
            m.ids,
        )
        &&& has_mapping(s, m.end, 1800, conversation_mapping(m))
    }

    open spec fn edits_for(&self, s: Seq<char>, m: Matched) -> Option<Seq<EditSpec>> {
        match (
            span_edit(s, m, 0, bound_text(s, m, CV_BASE)),
            span_edit(s, m, 1, fallback_call(s, m)),
        ) {
            (Some(tier), Some(request)) => Some(seq![tier, request]),
            _ => None,
        }
    }

    fn guarded(&self) -> Vec<Atom> {
        conversation_guarded()
    }

    fn patched(&self) -> Vec<Atom> {
        conversation_patched()
    }

    fn validate(&self, tokens: &Tokens<'_>, hit: &Hit) -> bool {
        let ghost s = tokens.source();
        proof {
            lemma_conversation_bound(s, hit@);
            if hit_of(s, self.guarded_pattern(), hit@) {
                lemma_hit_slots(s, self.guarded_pattern(), hit@);
            } else {
                lemma_hit_slots(s, self.patched_pattern(), hit@);
            }
        }
        let start = if hit.start < 600 {
            0
        } else {
            hit.start - 600
        };
        let binding = allowed_binding();
        if !any_in(tokens, start..hit.start, binding.as_slice(), Some(hit)) {
            return false;
        }
        let expected: [(&str, usize); 2] = [
            ("selectedServiceTier", hit.ident(CV_SELECTED)),
            ("serviceTierForRequest", hit.ident(CV_REQUEST)),
        ];
        proof {
            assert(mappings_view(expected@) =~= conversation_mapping(hit@));
        }
        has_object_mapping(tokens, hit.end, 1800, &expected)
    }

    fn rewrite(&self, tokens: &Tokens<'_>, hit: &Hit) -> Option<Vec<Edit>> {
        let ghost s = tokens.source();
        proof {
            lemma_conversation_bound(s, hit@);
            lemma_hit_slots(s, self.guarded_pattern(), hit@);
        }
        let effective = tokens.text(hit.ident(CV_EFFECTIVE));
        let fallback = tokens.text(hit.ident(CV_FALLBACK));
        let model = tokens.text(hit.ident(CV_MODEL));
        let allowed = tokens.text(hit.ident(CV_ALLOWED));
        let base = tokens.text(hit.ident(CV_BASE));
        let parts: [&str; 8] = [fallback, "(", model, ",", effective, ",", allowed, ")"];
        proof {
            assert(texts(parts@) =~= seq![
                fallback@,
                "("@,
                model@,
                ","@,
                effective@,
                ","@,
                allowed@,
                ")"@,
            ]);
        }
        let tier = edit_span(tokens, hit, 0, base.to_owned());
        let request = edit_span(tokens, hit, 1, concat(&parts));
        match (tier, request) {
            (Some(tier), Some(request)) => {
                let edits = vec![tier, request];
                assert(edits_view(edits@) =~= seq![tier@, request@]);
                Some(edits)
            },
            _ => None,
        }
    }
}

// ---------------------------------------------------------------------------
// Intelligence menu

pub struct IntelligenceMenu;

impl PatternRule for IntelligenceMenu {
    open spec fn guarded_pattern(&self) -> Seq<Atom> {
        intelligence_guarded_atoms()
    }

    open spec fn patched_pattern(&self) -> Seq<Atom> {
        intelligence_patched_atoms()
    }

    open spec fn in_context(&self, s: Seq<char>, m: Matched) -> bool {
        let near = if m.end + 64 < tokens_of(s).len() {
            m.end + 64
        } else {
            tokens_of(s).len() as int
        };
        any_match(s, m.end, near, intelligence_anchor_atoms(), unbound())
    }

    open spec fn edits_for(&self, s: Seq<char>, m: Matched) -> Option<Seq<EditSpec>> {
        only_edit(span_edit(s, m, 0, Seq::empty()))
    }

    fn guarded(&self) -> Vec<Atom> {
        intelligence_guarded()
    }

    fn patched(&self) -> Vec<Atom> {
        intelligence_patched()
    }

    fn validate(&self, tokens: &Tokens<'_>, hit: &Hit) -> bool {
        let ghost s = tokens.source();
        proof {
            if hit_of(s, self.guarded_pattern(), hit@) {
                lemma_hit_slots(s, self.guarded_pattern(), hit@);
            } else {
                lemma_hit_slots(s, self.patched_pattern(), hit@);
            }
        }
        let n = tokens.len();
        let near = if 64 < n - hit.end {
            hit.end + 64
        } else {
            n
        };
        let anchor = intelligence_anchor();
        any_in(tokens, hit.end..near, anchor.as_slice(), None)
    }

    fn rewrite(&self, tokens: &Tokens<'_>, hit: &Hit) -> Option<Vec<Edit>> {
        proof {
            lemma_hit_slots(tokens.source(), self.guarded_pattern(), hit@);
        }
        remove_captured_span(tokens, hit)
    }
}

// ---------------------------------------------------------------------------
// Slash command

/// Tokens `i` to `i + 2` give the identifier of token `binding` a service tier's name.
pub open spec fn assigns_tier_id(s: Seq<char>, i: int, binding: int) -> bool {
    &&& token_text(s, i) == token_text(s, binding)
    &&& token_text(s, i + 1) == "="@
    &&& tokens_of(s)[i + 2].kind == Kind::Template
    &&& "`service-tier:${"@.is_prefix_of(token_text(s, i + 2))
}

/// The block around an object gives the identifier of token `binding` a service tier's
/// name before the object.
pub open spec fn names_tier(s: Seq<char>, object: (int, int), binding: int) -> bool {
    match brace_before(s, object.0 - 1, Seq::empty()) {
        Some(scope) => exists|i: int|
            scope < i < saturating_difference(object.0, 2) && #[trigger] assigns_tier_id(
                s,
                i,
                binding,
            ),
        None => false,
    }
}

pub open spec fn command_fields() -> Seq<Seq<char>> {
    seq!["title"@, "description"@, "Icon"@, "onSelect"@, "dependencies"@]
}

/// An object describes the slash command of a service tier.
pub open spec fn is_tier_command(s: Seq<char>, object: (int, int)) -> bool {
    &&& bool_of(s, field_of(s, object, "requiresEmptyComposer"@)) == Some(false)
    &&& single_ident_of(s, field_of(s, object, "id"@)) matches Some(id)
    &&& names_tier(s, object, id)
    &&& forall|k: int|
        0 <= k < command_fields().len() ==> single_ident_of(
            s,
            field_of(s, object, #[trigger] command_fields()[k]),
        ) is Some
}

/// Edits that make the command of an object always enabled.
pub open spec fn enabling_edits(s: Seq<char>, object: (int, int)) -> Option<Seq<EditSpec>> {
    let enabled = field_of(s, object, "enabled"@);
    if bool_of(s, enabled) == Some(true) {
        Some(Seq::empty())
    } else if single_ident_of(s, enabled) is Some {
        let (first, after) = enabled->0;
        match token_bytes(s, first, after) {
            Some((start, end)) => Some(seq![EditSpec { start, end, replacement: "!0"@ }]),
            None => None,
        }
    } else {
        None
    }
}

/// The site of the slash command that token `i` belongs to.
pub open spec fn slash_command_site(s: Seq<char>, i: int) -> Option<SiteSpec> {
    match object_around(s, i) {
        Some(object) => if is_tier_command(s, object) {
            match (token_bytes(s, object.0, object.1 + 1), enabling_edits(s, object)) {
                (Some((start, end)), Some(edits)) => Some(SiteSpec { start, end, edits }),
                _ => None,
            }
        } else {
            None
        },
        None => None,
    }
}

pub open spec fn anchored_command_site(s: Seq<char>, i: int) -> Option<SiteSpec> {
    if token_text(s, i) == "requiresEmptyComposer"@ {
        slash_command_site(s, i)
    } else {
        None
    }
}

pub open spec fn slash_command_sites(s: Seq<char>) -> Seq<SiteSpec> {
    present(Seq::new(tokens_of(s).len(), |i: int| anchored_command_site(s, i)))
}

fn has_service_tier_id(tokens: &Tokens<'_>, object: ObjectView, binding: usize) -> (yes: bool)
    requires
        object.open <= object.close < tokens@.len(),
        binding < tokens@.len(),
    ensures
        yes == names_tier(tokens.source(), object.braces(), binding as int),
{
    let ghost s = tokens.source();
    if object.open == 0 {
        return false;
    }
    match enclosing_brace(tokens, object.open - 1) {
        None => false,
        Some(scope) => {
            let end: usize = if object.open < 2 {
                0
            } else {
                object.open - 2
            };
            let mut index: usize = scope + 1;
            while index < end
                invariant
                    s == tokens.source(),
                    scope < index,
                    binding < tokens@.len(),
                    0 < object.open < tokens@.len(),
                    end == saturating_difference(object.open as int, 2),
                    brace_before(s, object.open - 1, Seq::empty()) == Some(scope as int),
                    forall|i: int| scope < i < index ==> !#[trigger] assigns_tier_id(
                        s,
                        i,
                        binding as int,
                    ),
                decreases end - index,
            {
                if str_eq(tokens.text(index), tokens.text(binding)) && str_eq(
                    tokens.text(index + 1),
                    "=",
                ) && tokens.kind(index + 2) == Kind::Template && starts_with(
                    tokens.text(index + 2),
                    "`service-tier:${",
                ) {
                    assert(assigns_tier_id(s, index as int, binding as int));
                    return true;
                }
                assert(!assigns_tier_id(s, index as int, binding as int));
                index += 1;
            }
            false
        },
    }
}

fn ident_field(tokens: &Tokens<'_>, object: ObjectView, key: &str) -> (value: Option<usize>)
    requires
        object.open <= object.close < tokens@.len(),
    ensures
        match value {
            Some(value) => {
                &&& single_ident_of(
                    tokens.source(),
                    field_of(tokens.source(), object.braces(), key@),
                ) == Some(value as int)
                &&& value < tokens@.len()
            },
            None => single_ident_of(
                tokens.source(),
                field_of(tokens.source(), object.braces(), key@),
            ) is None,
        },
{
    match object.field(tokens, key) {
        Some(range) => single_ident(tokens, &range),
        None => None,
    }
}

fn describes_tier_command(tokens: &Tokens<'_>, object: ObjectView) -> (yes: bool)
    requires
        object.open <= object.close < tokens@.len(),
    ensures
        yes == is_tier_command(tokens.source(), object.braces()),
{
    let ghost s = tokens.source();
    let ghost braces = object.braces();
    let empty = match object.field(tokens, "requiresEmptyComposer") {
        Some(range) => bool_value(tokens, &range),
        None => None,
    };
    match empty {
        Some(false) => {},
        _ => {
            return false;
        },
    }
    match ident_field(tokens, object, "id") {
        Some(id) => {
            if !has_service_tier_id(tokens, object, id) {
                return false;
            }
        },
        None => {
            return false;
        },
    }
    let keys: [&str; 5] = ["title", "description", "Icon", "onSelect", "dependencies"];
    assert(texts(keys@) =~= command_fields());
    let mut k: usize = 0;
    while k < keys.len()
        invariant
            s == tokens.source(),
            braces == object.braces(),
            object.open <= object.close < tokens@.len(),
            k <= keys@.len(),
            texts(keys@) == command_fields(),
            forall|j: int|
                0 <= j < k ==> single_ident_of(
                    s,
                    field_of(s, braces, #[trigger] command_fields()[j]),
                ) is Some,
        decreases keys.len() - k,
    {
        assert(texts(keys@)[k as int] == keys@[k as int]@);
        if ident_field(tokens, object, keys[k]).is_none() {
            assert(single_ident_of(s, field_of(s, braces, command_fields()[k as int])) is None);
            return false;
        }
        k += 1;
    }
    assert(keys@.len() == command_fields().len());
    true
}

fn enable_edits(tokens: &Tokens<'_>, object: ObjectView) -> (edits: Option<Vec<Edit>>)
    requires
        object.open <= object.close < tokens@.len(),
    ensures
        optional_edits_view(edits) == enabling_edits(tokens.source(), object.braces()),
{
    match object.field(tokens, "enabled") {
        None => None,
        Some(enabled) => {
            if let Some(true) = bool_value(tokens, &enabled) {
                let edits: Vec<Edit> = Vec::new();
                assert(edits_view(edits@) =~= Seq::<EditSpec>::empty());
                return Some(edits);
            }
            match single_ident(tokens, &enabled) {
                None => None,
                Some(_) => match token_range(tokens, enabled.start, enabled.end) {
                    None => None,
                    Some(range) => {
                        let edit = Edit { range, replacement: "!0".to_owned() };
                        let edits = vec![edit];
                        assert(edits_view(edits@) =~= seq![edit@]);
                        Some(edits)
                    },
                },
            }
        },
    }
}

/// The site of the slash command that a token belongs to.
pub fn slash_command_at(tokens: &Tokens<'_>, index: usize) -> (site: Option<Site>)
    requires
        index < tokens@.len(),
    ensures
        match site {
            Some(site) => slash_command_site(tokens.source(), index as int) == Some(site@),
            None => slash_command_site(tokens.source(), index as int) is None,
        },
{
    match ObjectView::enclosing(tokens, index) {
        None => None,
        Some(object) => {
            if !describes_tier_command(tokens, object) {
                return None;
            }
            let n = tokens.len();
            match (
                token_range(tokens, object.open, object.close + 1),
                enable_edits(tokens, object),
            ) {
                (Some(range), Some(edits)) => Some(Site { range, edits }),
                _ => None,
            }
        },
    }
}

fn detect_slash_command(tokens: &Tokens<'_>) -> (sites: Vec<Site>)
    ensures
        sites_view(sites@) == slash_command_sites(tokens.source()),
{
    let ghost s = tokens.source();
    let ghost items = Seq::new(tokens_of(s).len(), |i: int| anchored_command_site(s, i));
    let mut sites: Vec<Site> = Vec::new();
    let mut index: usize = 0;
    assert(sites_view(sites@) =~= present(items.take(0)));
    while index < tokens.len()
        invariant
            s == tokens.source(),
            items == Seq::new(tokens_of(s).len(), |i: int| anchored_command_site(s, i)),
            index <= tokens@.len(),
            sites_view(sites@) == present(items.take(index as int)),
        decreases tokens@.len() - index,
    {
        let ghost kept = sites@;
        assert(items.take(index + 1).drop_last() =~= items.take(index as int));
        if str_eq(tokens.text(index), "requiresEmptyComposer") {
            if let Some(site) = slash_command_at(tokens, index) {
                sites.push(site);
                assert(sites_view(sites@) =~= sites_view(kept).push(site@));
            }
        }
        index += 1;
    }
    assert(items.take(index as int) =~= items);
    sites
}

// ---------------------------------------------------------------------------
// The patch set

/// How the sites of a fast unlock feature are found.
#[derive(Clone, Copy)]
pub enum FastRule {
    SpeedSetting,
    Allowance,
    RequestAllowance,
    ConversationFallback,
    IntelligenceMenu,
    SlashCommand,
}

impl Detector for FastRule {
    open spec fn sites(&self, source: Seq<char>) -> Seq<SiteSpec> {
        match *self {
            FastRule::SpeedSetting => rule_sites(SpeedSetting, source),
            FastRule::Allowance => rule_sites(Allowance, source),
            FastRule::RequestAllowance => request_sites(source),
            FastRule::ConversationFallback => rule_sites(ConversationFallback, source),
            FastRule::IntelligenceMenu => rule_sites(IntelligenceMenu, source),
            FastRule::SlashCommand => slash_command_sites(source),
        }
    }

    fn detect(&self, tokens: &Tokens<'_>) -> Vec<Site> {
        match *self {
            FastRule::SpeedSetting => pattern_sites(tokens, &SpeedSetting),
            FastRule::Allowance => pattern_sites(tokens, &Allowance),
            FastRule::RequestAllowance => detect_request_allowance(tokens),
            FastRule::ConversationFallback => pattern_sites(tokens, &ConversationFallback),
            FastRule::IntelligenceMenu => pattern_sites(tokens, &IntelligenceMenu),
            FastRule::SlashCommand => detect_slash_command(tokens),
        }
    }
}

/// The fast unlock features.
#[verifier::opaque]
pub open spec fn fast_features() -> Seq<Feature<FastRule>> {
    seq![
        Feature {
            id: "speed-setting-option-count",
            label: "Speed setting",
            role: FeatureRole::UiEntry,
            anchors: &["isServiceTierAllowed", "availableOptions"],
            detector: FastRule::SpeedSetting,
        },
        Feature {
            id: "speed-service-tier-allowance",
            label: "Speed service tier allowance",
            role: FeatureRole::Core,
            anchors: &[
                "featureRequirements",
                "authMethod",
                "fast_mode",
                "isServiceTierAllowed",
            ],
            detector: FastRule::Allowance,
        },
        Feature {
            id: "speed-service-tier-request-allowance",
            label: "Speed service tier request allowance",
            role: FeatureRole::Core,
            anchors: &["authMethod", "priority"],
            detector: FastRule::RequestAllowance,
        },
        Feature {
            id: "speed-service-tier-conversation-fallback",
            label: "Speed service tier conversation fallback",
            role: FeatureRole::Core,
            anchors: &["serviceTierForRequest", "selectedServiceTier", "isServiceTierAllowed"],
            detector: FastRule::ConversationFallback,
        },
        Feature {
            id: "intelligence-speed-menu-options",
            label: "Composer Intelligence Speed menu",
            role: FeatureRole::UiEntry,
            anchors: &["composer.openModelPicker", "availableOptions"],
            detector: FastRule::IntelligenceMenu,
        },
        Feature {
            id: "service-tier-slash-command",
            label: "Fast slash command",
            role: FeatureRole::UiEntry,
            anchors: &["requiresEmptyComposer", "service-tier:${"],
            detector: FastRule::SlashCommand,
        },
    ]
}

/// The fast unlock patch set, for specifications.
pub open spec fn fast_set() -> SetSpec<FastRule> {
    SetSpec { id: "fast-unlock"@, label: "Fast unlock"@, features: fast_features() }
}

/// The fast unlock patch set.
pub fn patch_set() -> (set: PatchSet<FastRule>)
    ensures
        set@ == fast_set(),
{
    let features = vec![
        Feature {
            id: "speed-setting-option-count",
            label: "Speed setting",
            role: FeatureRole::UiEntry,
            anchors: &["isServiceTierAllowed", "availableOptions"],
            detector: FastRule::SpeedSetting,
        },
        Feature {
            id: "speed-service-tier-allowance",
            label: "Speed service tier allowance",
            role: FeatureRole::Core,
            anchors: &[
                "featureRequirements",
                "authMethod",
                "fast_mode",
                "isServiceTierAllowed",
            ],
            detector: FastRule::Allowance,
        },
        Feature {
            id: "speed-service-tier-request-allowance",
            label: "Speed service tier request allowance",
            role: FeatureRole::Core,
            anchors: &["authMethod", "priority"],
            detector: FastRule::RequestAllowance,
        },
        Feature {
            id: "speed-service-tier-conversation-fallback",
            label: "Speed service tier conversation fallback",
            role: FeatureRole::Core,
            anchors: &["serviceTierForRequest", "selectedServiceTier", "isServiceTierAllowed"],
            detector: FastRule::ConversationFallback,
        },
        Feature {
            id: "intelligence-speed-menu-options",
            label: "Composer Intelligence Speed menu",
            role: FeatureRole::UiEntry,
            anchors: &["composer.openModelPicker", "availableOptions"],
            detector: FastRule::IntelligenceMenu,
        },
        Feature {
            id: "service-tier-slash-command",
            label: "Fast slash command",
            role: FeatureRole::UiEntry,
            anchors: &["requiresEmptyComposer", "service-tier:${"],
            detector: FastRule::SlashCommand,
        },
    ];
    proof {
        reveal(fast_features);
        assert(features@ =~= fast_features());
    }
    PatchSet { id: "fast-unlock", label: "Fast unlock", features }
}

} // verus!
