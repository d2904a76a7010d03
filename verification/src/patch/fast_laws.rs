//! Where the sites of the fast unlock features stand, and what their edits write.

use vstd::prelude::*;

use crate::js_tokens::{tokens_of, Kind};
use crate::patch::fast::{
    Allowance, ConversationFallback, FastRule, IntelligenceMenu, SpeedSetting,
};
use crate::patch::objects::{
    after_bracket, bool_of, brace_before, close_from, field_of, has_mapping, mapping_at, maps_to,
    object_around, opening_of, single_ident_of,
};
use crate::patch::patterns::{
    allowance_guarded_atoms, allowance_patched_atoms, allowed_binding_atoms, auth_chatgpt_atoms,
    conversation_guarded_atoms, conversation_patched_atoms, intelligence_anchor_atoms,
    intelligence_guarded_atoms, intelligence_patched_atoms, nullable_auth_atoms,
    request_state_atoms, speed_guarded_atoms, speed_patched_atoms,
};
use crate::patch::{
    guarded_site, hit_of, patched_site, present, Detector, EditSpec, PatternRule, SiteSpec,
};
use crate::text::{byte_offset, joined};
use crate::token_match::{
    after_atom, after_atoms, any_match, lemma_after_atoms, lemma_matches_before, matched_at, matches_before, matches_of,
    token_text, unbound, unmatched, Atom, Matched,
};

verus! {

// ---------------------------------------------------------------------------
// Matches and their sites

/// The bytes of the tokens from `first` to before `after`.
pub open spec fn bytes_from(s: Seq<char>, first: int) -> int {
    byte_offset(s, tokens_of(s)[first].start)
}

pub open spec fn bytes_to(s: Seq<char>, after: int) -> int {
    byte_offset(s, tokens_of(s)[after - 1].end)
}

/// A match over some tokens, with a span of it.
pub open spec fn spans(m: Matched, slot: int) -> bool {
    m.spans[slot] matches Some((first, after)) && m.start <= first < after <= m.end
}

/// The edit that writes a text over a span of a match.
pub open spec fn over_span(s: Seq<char>, m: Matched, slot: int, text: Seq<char>) -> EditSpec {
    EditSpec {
        start: bytes_from(s, (m.spans[slot]->0).0),
        end: bytes_to(s, (m.spans[slot]->0).1),
        replacement: text,
    }
}

/// The site of a match with some edits.
pub open spec fn site_over(s: Seq<char>, m: Matched, edits: Seq<EditSpec>) -> SiteSpec {
    SiteSpec { start: bytes_from(s, m.start), end: bytes_to(s, m.end), edits }
}

/// The word that a slot of a match stands for.
pub open spec fn word(s: Seq<char>, m: Matched, slot: int) -> Seq<char> {
    token_text(s, m.ids[slot]->0)
}

proof fn lemma_present_has<T>(items: Seq<Option<T>>, k: int)
    requires
        0 <= k < items.len(),
        items[k] is Some,
    ensures
        present(items).contains(items[k]->0),
    decreases items.len(),
{
    let rest = items.drop_last();
    let all = present(items);
    if k == rest.len() {
        assert(all[all.len() - 1] == items[k]->0);
    } else {
        lemma_present_has(rest, k);
        assert(rest[k] == items[k]);
        let j = choose|j: int| 0 <= j < present(rest).len() && present(rest)[j] == items[k]->0;
        assert(all[j] == items[k]->0);
    }
}

proof fn lemma_present_from<T>(items: Seq<Option<T>>, item: T) -> (k: int)
    requires
        present(items).contains(item),
    ensures
        0 <= k < items.len(),
        items[k] == Some(item),
    decreases items.len(),
{
    let rest = items.drop_last();
    let all = present(items);
    let j = choose|j: int| 0 <= j < all.len() && all[j] == item;
    if items.last() is Some && j == all.len() - 1 {
        items.len() - 1
    } else {
        assert(present(rest)[j] == item);
        lemma_present_from(rest, item)
    }
}

proof fn lemma_match_listed(s: Seq<char>, pattern: Seq<Atom>, m: Matched) -> (k: int)
    requires
        hit_of(s, pattern, m),
    ensures
        0 <= k < matches_of(s, pattern).len(),
        matches_of(s, pattern)[k] == m,
{
    lemma_matches_before(s, pattern, tokens_of(s).len() as int);
    assert(matched_at(s, m.start, pattern, unbound()) is Some);
    let all = matches_before(s, pattern, tokens_of(s).len() as int);
    assert(all.contains(m));
    choose|k: int| 0 <= k < all.len() && all[k] == m
}

proof fn lemma_extent(s: Seq<char>, pattern: Seq<Atom>, m: Matched)
    requires
        hit_of(s, pattern, m),
    ensures
        0 <= m.start <= m.end,
        m.end <= tokens_of(s).len(),
{
    lemma_after_atoms(s, pattern, pattern.len() as int, unmatched(m.start, unbound()));
}

proof fn lemma_guarded_match<R: PatternRule>(rule: R, s: Seq<char>, m: Matched)
    requires
        hit_of(s, rule.guarded_pattern(), m),
        guarded_site(rule, s, m) is Some,
    ensures
        crate::patch::rule_sites(rule, s).contains(guarded_site(rule, s, m)->0),
{
    let k = lemma_match_listed(s, rule.guarded_pattern(), m);
    let items = matches_of(s, rule.guarded_pattern()).map_values(
        |m: Matched| guarded_site(rule, s, m),
    );
    assert(items[k] == guarded_site(rule, s, m));
    lemma_present_has(items, k);
    let first = present(items);
    let j = choose|j: int| 0 <= j < first.len() && first[j] == guarded_site(rule, s, m)->0;
    assert(crate::patch::rule_sites(rule, s)[j] == first[j]);
}

proof fn lemma_patched_match<R: PatternRule>(rule: R, s: Seq<char>, m: Matched)
    requires
        hit_of(s, rule.patched_pattern(), m),
        patched_site(rule, s, m) is Some,
    ensures
        crate::patch::rule_sites(rule, s).contains(patched_site(rule, s, m)->0),
{
    let k = lemma_match_listed(s, rule.patched_pattern(), m);
    let items = matches_of(s, rule.patched_pattern()).map_values(
        |m: Matched| patched_site(rule, s, m),
    );
    assert(items[k] == patched_site(rule, s, m));
    lemma_present_has(items, k);
    let first = present(
        matches_of(s, rule.guarded_pattern()).map_values(|m: Matched| guarded_site(rule, s, m)),
    );
    let second = present(items);
    let j = choose|j: int| 0 <= j < second.len() && second[j] == patched_site(rule, s, m)->0;
    assert(crate::patch::rule_sites(rule, s)[first.len() + j] == second[j]);
}

proof fn lemma_site_from<R: PatternRule>(rule: R, s: Seq<char>, site: SiteSpec) -> (m: Matched)
    requires
        crate::patch::rule_sites(rule, s).contains(site),
    ensures
        rule.in_context(s, m),
        hit_of(s, rule.guarded_pattern(), m) && guarded_site(rule, s, m) == Some(site) || hit_of(
            s,
            rule.patched_pattern(),
            m,
        ) && patched_site(rule, s, m) == Some(site),
{
    let guarded = matches_of(s, rule.guarded_pattern());
    let patched = matches_of(s, rule.patched_pattern());
    let first = guarded.map_values(|m: Matched| guarded_site(rule, s, m));
    let second = patched.map_values(|m: Matched| patched_site(rule, s, m));
    let all = crate::patch::rule_sites(rule, s);
    let j = choose|j: int| 0 <= j < all.len() && all[j] == site;
    if j < present(first).len() {
        assert(present(first)[j] == site);
        let k = lemma_present_from(first, site);
        crate::patch::lemma_match_is_hit(s, rule.guarded_pattern(), k);
        guarded[k]
    } else {
        assert(present(second)[j - present(first).len()] == site);
        let k = lemma_present_from(second, site);
        crate::patch::lemma_match_is_hit(s, rule.patched_pattern(), k);
        patched[k]
    }
}

/// An object that starts with a key gives it, and another, to the words of two tokens.
pub open spec fn returns_two(
    s: Seq<char>,
    at: int,
    first: (Seq<char>, Seq<char>),
    second: (Seq<char>, Seq<char>),
) -> bool {
    &&& 0 <= at < tokens_of(s).len()
    &&& token_text(s, at) == first.0
    &&& object_around(s, at) matches Some(object)
    &&& gives(s, object, first.0, first.1)
    &&& gives(s, object, second.0, second.1)
}

/// An object has a word as its value for a key.
pub open spec fn gives(s: Seq<char>, object: (int, int), key: Seq<char>, value: Seq<char>) -> bool {
    &&& field_of(s, object, key) matches Some((first, after))
    &&& after == first + 1
    &&& 0 <= first < tokens_of(s).len()
    &&& tokens_of(s)[first].kind == Kind::Ident
    &&& token_text(s, first) == value
}

proof fn lemma_two_mapped(
    s: Seq<char>,
    from: int,
    limit: int,
    first: (Seq<char>, int),
    second: (Seq<char>, int),
)
    requires
        0 <= from,
    ensures
        has_mapping(s, from, limit, seq![first, second]) <==> exists|at: int|
            from <= at < from + limit && #[trigger] returns_two(
                s,
                at,
                (first.0, token_text(s, first.1)),
                (second.0, token_text(s, second.1)),
            ),
{
    let expected = seq![first, second];
    let one = (first.0, token_text(s, first.1));
    let two = (second.0, token_text(s, second.1));
    assert(expected[0] == first && expected[1] == second);
    assert forall|at: int| 0 <= at < tokens_of(s).len() implies #[trigger] returns_two(
        s,
        at,
        one,
        two,
    ) == mapping_at(s, at, expected) by {
        if mapping_at(s, at, expected) {
            let object = object_around(s, at)->0;
            assert(maps_to(s, object, expected[0].0, expected[0].1));
            assert(maps_to(s, object, expected[1].0, expected[1].1));
        }
        if returns_two(s, at, one, two) {
            let object = object_around(s, at)->0;
            assert forall|k: int| 0 <= k < expected.len() implies maps_to(
                s,
                object,
                (#[trigger] expected[k]).0,
                expected[k].1,
            ) by {
                assert(k == 0 || k == 1);
            }
        }
    }
    if has_mapping(s, from, limit, expected) {
        let at = choose|at: int|
            from <= at < from + limit && at < tokens_of(s).len() && #[trigger] mapping_at(
                s,
                at,
                expected,
            );
        assert(returns_two(s, at, one, two));
    }
    if exists|at: int| from <= at < from + limit && #[trigger] returns_two(s, at, one, two) {
        let at = choose|at: int|
            from <= at < from + limit && #[trigger] returns_two(s, at, one, two);
        assert(mapping_at(s, at, expected));
    }
}

/// Every span lies inside the match.
spec fn spans_inside(m: Matched) -> bool {
    forall|slot: int|
        0 <= slot < m.spans.len() ==> (#[trigger] m.spans[slot] matches Some((first, after))
            ==> m.start <= first <= after <= m.end)
}

proof fn lemma_spans_inside(s: Seq<char>, pattern: Seq<Atom>, k: int, start: int)
    requires
        0 <= start,
        0 <= k <= pattern.len(),
    ensures
        after_atoms(s, pattern, k, unmatched(start, unbound())) matches Some(m) ==> spans_inside(m),
    decreases k,
{
    let from = unmatched(start, unbound());
    if k > 0 {
        lemma_spans_inside(s, pattern, k - 1, start);
        lemma_after_atoms(s, pattern, k - 1, from);
        lemma_after_atoms(s, pattern, k, from);
        if let Some(m) = after_atoms(s, pattern, k - 1, from) {
            if let Some(next) = after_atom(s, m, pattern[k - 1]) {
                assert(m.end <= next.end) by {
                    assert(after_atoms(s, pattern, k, from) == Some(next));
                }
                assert forall|slot: int| 0 <= slot < next.spans.len() implies (
                #[trigger] next.spans[slot] matches Some((first, after)) ==> next.start <= first
                    <= after <= next.end) by {
                    assert(m.spans[slot] matches Some((first, after)) ==> m.start <= first <= after
                        <= m.end);
                }
            }
        }
    }
}

proof fn lemma_closed_span_stays(s: Seq<char>, pattern: Seq<Atom>, k: int, n: int, from: Matched, slot: int)
    requires
        0 <= k <= n <= pattern.len(),
        0 <= slot < 4,
        0 <= from.start <= from.end,
        from.spans.len() == 4,
        crate::token_match::ids_inside(s, from.ids),
        after_atoms(s, pattern, n, from) is Some,
        after_atoms(s, pattern, k, from) matches Some(m) && (m.spans[slot] matches Some(
            (first, after),
        ) && first < after),
    ensures
        after_atoms(s, pattern, n, from)->0.spans[slot] == after_atoms(
            s,
            pattern,
            k,
            from,
        )->0.spans[slot],
    decreases n - k,
{
    if k < n {
        lemma_after_atoms(s, pattern, k, from);
        lemma_after_atoms(s, pattern, k + 1, from);
        lemma_reached(s, pattern, k + 1, n, from);
        let m = after_atoms(s, pattern, k, from)->0;
        let next = after_atoms(s, pattern, k + 1, from)->0;
        assert(after_atom(s, m, pattern[k]) == Some(next));
        assert(next.spans[slot] == m.spans[slot]);
        lemma_closed_span_stays(s, pattern, k + 1, n, from, slot);
    }
}

proof fn lemma_reached(s: Seq<char>, pattern: Seq<Atom>, k: int, n: int, from: Matched)
    requires
        0 <= k <= n,
        after_atoms(s, pattern, n, from) is Some,
    ensures
        after_atoms(s, pattern, k, from) is Some,
    decreases n - k,
{
    if k < n {
        lemma_reached(s, pattern, k + 1, n, from);
    }
}

proof fn lemma_moves_on(s: Seq<char>, pattern: Seq<Atom>, k: int, n: int, from: Matched)
    requires
        0 <= k <= n <= pattern.len(),
        after_atoms(s, pattern, n, from) is Some,
    ensures
        after_atoms(s, pattern, k, from) is Some,
        after_atoms(s, pattern, k, from)->0.end <= after_atoms(s, pattern, n, from)->0.end,
    decreases n - k,
{
    if k < n {
        lemma_moves_on(s, pattern, k + 1, n, from);
    }
}

/// A pattern with a word in it matches at least one token.
proof fn lemma_not_empty(s: Seq<char>, pattern: Seq<Atom>, j: int, m: Matched)
    requires
        hit_of(s, pattern, m),
        0 <= j < pattern.len(),
        pattern[j] is Ident,
    ensures
        m.start < m.end,
{
    let from = unmatched(m.start, unbound());
    lemma_moves_on(s, pattern, j + 1, pattern.len() as int, from);
    lemma_moves_on(s, pattern, j, j + 1, from);
    lemma_moves_on(s, pattern, 0, j, from);
}

/// A span that a pattern ends is bound, and holds at least one token.
proof fn lemma_span_bound(s: Seq<char>, pattern: Seq<Atom>, j: int, m: Matched)
    requires
        hit_of(s, pattern, m),
        0 <= j < pattern.len(),
        pattern[j] is End,
        pattern[j]->End_0 < 4,
    ensures
        m.spans.len() == 4,
        spans(m, pattern[j]->End_0 as int),
{
    let from = unmatched(m.start, unbound());
    let n = pattern.len() as int;
    let slot = pattern[j]->End_0 as int;
    lemma_after_atoms(s, pattern, n, from);
    lemma_spans_inside(s, pattern, n, m.start);
    lemma_reached(s, pattern, j, n, from);
    lemma_reached(s, pattern, j + 1, n, from);
    lemma_after_atoms(s, pattern, j, from);
    lemma_spans_inside(s, pattern, j, m.start);
    let early = after_atoms(s, pattern, j, from)->0;
    let next = after_atoms(s, pattern, j + 1, from)->0;
    assert(after_atom(s, early, pattern[j]) == Some(next));
    lemma_closed_span_stays(s, pattern, j + 1, n, from, slot);
    assert(m.spans[slot] == next.spans[slot]);
}

// ---------------------------------------------------------------------------
// The allowance

/// What the allowance becomes: it no longer asks for the sign-in, except for what the
/// requirements say of one.
pub open spec fn allowance_text(loading: Seq<char>, auth: Seq<char>, data: Seq<char>) -> Seq<char> {
    "!"@ + loading + "&&("@ + auth + "?"@ + data + "!=null&&"@ + data
        + "?.requirements?.featureRequirements?.fast_mode!==!1:!0)"@
}

proof fn lemma_allowance_text(loading: Seq<char>, auth: Seq<char>, data: Seq<char>)
    ensures
        joined(
            seq![
                "!"@,
                loading,
                "&&("@,
                auth,
                "?"@,
                data,
                "!=null&&"@,
                data,
                "?.requirements?.featureRequirements?.fast_mode!==!1:!0)"@,
            ],
        ) == allowance_text(loading, auth, data),
{
    reveal_with_fuel(joined, 10);
    let parts = seq![
        "!"@,
        loading,
        "&&("@,
        auth,
        "?"@,
        data,
        "!=null&&"@,
        data,
        "?.requirements?.featureRequirements?.fast_mode!==!1:!0)"@,
    ];
    assert(joined(parts) =~= allowance_text(loading, auth, data));
}

/// The sign-in is tested and read among the 180 tokens before a match, and the allowance is
/// returned among the 240 tokens behind it.
pub open spec fn allowance_stands(s: Seq<char>, m: Matched, test: int, read: int, at: int) -> bool {
    &&& 0 <= test
    &&& m.start - 180 <= test < m.start
    &&& matched_at(s, test, auth_chatgpt_atoms(), m.ids) is Some
    &&& 0 <= read
    &&& m.start - 180 <= read < m.start
    &&& matched_at(s, read, nullable_auth_atoms(), m.ids) is Some
    &&& m.end <= at < m.end + 240
    &&& returns_two(
        s,
        at,
        ("isServiceTierAllowed"@, word(s, m, 5)),
        ("isLoading"@, word(s, m, 2)),
    )
}

proof fn lemma_allowance_context(s: Seq<char>, m: Matched, test: int, read: int, at: int)
    requires
        0 <= m.end,
        allowance_stands(s, m, test, read, at),
    ensures
        Allowance.in_context(s, m),
{
    let first = ("isServiceTierAllowed"@, m.ids[5]->0);
    let second = ("isLoading"@, m.ids[2]->0);
    lemma_two_mapped(s, m.end, 240, first, second);
    assert(crate::patch::fast::allowance_mapping(m) =~= seq![first, second]);
    let near = crate::patch::fast::saturating_difference(m.start, 180);
    assert(near <= test < m.start && near <= read < m.start);
    assert(any_match(s, near, m.start, auth_chatgpt_atoms(), m.ids));
    assert(any_match(s, near, m.start, nullable_auth_atoms(), m.ids));
    assert(returns_two(
        s,
        at,
        (first.0, token_text(s, first.1)),
        (second.0, token_text(s, second.1)),
    ));
}

/// An allowance whose surroundings are there is a site, wherever in the source it stands.
pub proof fn lemma_allowance_is_a_site(
    s: Seq<char>,
    m: Matched,
    test: int,
    read: int,
    at: int,
)
    requires
        hit_of(s, allowance_guarded_atoms(), m),
        allowance_stands(s, m, test, read, at),
    ensures
        spans(m, 0),
        FastRule::Allowance.sites(s).contains(
            site_over(
                s,
                m,
                seq![
                    over_span(
                        s,
                        m,
                        0,
                        allowance_text(word(s, m, 2), word(s, m, 4), word(s, m, 0)),
                    ),
                ],
            ),
        ),
{
    let pattern = allowance_guarded_atoms();
    assert(pattern[37] == Atom::End(0) && pattern.len() == 39) by {
        reveal(allowance_guarded_atoms);
    }
    lemma_span_bound(s, pattern, 37, m);
    lemma_extent(s, pattern, m);
    lemma_allowance_text(word(s, m, 2), word(s, m, 4), word(s, m, 0));
    lemma_allowance_context(s, m, test, read, at);
    lemma_guarded_match(Allowance, s, m);
}

/// An allowance that is already patched is a site without edits, in the same surroundings.
pub proof fn lemma_patched_allowance_is_a_site(
    s: Seq<char>,
    m: Matched,
    test: int,
    read: int,
    at: int,
)
    requires
        hit_of(s, allowance_patched_atoms(), m),
        allowance_stands(s, m, test, read, at),
    ensures
        FastRule::Allowance.sites(s).contains(site_over(s, m, Seq::empty())),
{
    let pattern = allowance_patched_atoms();
    lemma_extent(s, pattern, m);
    assert(pattern.len() > 2 && pattern[2] is Ident) by {
        reveal(allowance_patched_atoms);
    }
    lemma_not_empty(s, pattern, 2, m);
    lemma_allowance_context(s, m, test, read, at);
    lemma_patched_match(Allowance, s, m);
}

/// Every site of the allowance is a match in these surroundings.
pub proof fn lemma_allowance_sites_stand(s: Seq<char>, site: SiteSpec) -> (found: (
    Matched,
    int,
    int,
    int,
))
    requires
        FastRule::Allowance.sites(s).contains(site),
    ensures
        allowance_stands(s, found.0, found.1, found.2, found.3),
        hit_of(s, allowance_guarded_atoms(), found.0) && site.edits.len() == 1 || hit_of(
            s,
            allowance_patched_atoms(),
            found.0,
        ) && site.edits.len() == 0,
        site == site_over(s, found.0, site.edits),
{
    let m = lemma_site_from(Allowance, s, site);
    if hit_of(s, allowance_guarded_atoms(), m) {
        lemma_extent(s, allowance_guarded_atoms(), m);
    } else {
        lemma_extent(s, allowance_patched_atoms(), m);
    }
    lemma_two_mapped(
        s,
        m.end,
        240,
        ("isServiceTierAllowed"@, m.ids[5]->0),
        ("isLoading"@, m.ids[2]->0),
    );
    let near: int = if m.start < 180 {
        0
    } else {
        m.start - 180
    };
    let test = choose|i: int|
        near <= i < m.start && (#[trigger] matched_at(s, i, auth_chatgpt_atoms(), m.ids)) is Some;
    let read = choose|i: int|
        near <= i < m.start && (#[trigger] matched_at(s, i, nullable_auth_atoms(), m.ids)) is Some;
    let at = choose|at: int|
        m.end <= at < m.end + 240 && #[trigger] returns_two(
            s,
            at,
            ("isServiceTierAllowed"@, word(s, m, 5)),
            ("isLoading"@, word(s, m, 2)),
        );
    (m, test, read, at)
}

// ---------------------------------------------------------------------------
// The speed setting

/// The speed setting loses its test for the allowance, whatever surrounds it, and where it has
/// none it is a site without edits.
pub proof fn lemma_speed_setting_is_a_site(s: Seq<char>, m: Matched)
    ensures
        hit_of(s, speed_guarded_atoms(), m) ==> spans(m, 0)
            && FastRule::SpeedSetting.sites(s).contains(
            site_over(s, m, seq![over_span(s, m, 0, Seq::empty())]),
        ),
        hit_of(s, speed_patched_atoms(), m) ==> FastRule::SpeedSetting.sites(s).contains(
            site_over(s, m, Seq::empty()),
        ),
{
    let guarded = speed_guarded_atoms();
    let patched = speed_patched_atoms();
    assert(guarded.len() > 15 && guarded[15] == Atom::End(0)) by {
        reveal(speed_guarded_atoms);
    }
    assert(patched.len() > 1 && patched[1] is Ident) by {
        reveal(speed_patched_atoms);
    }
    if hit_of(s, guarded, m) {
        lemma_span_bound(s, guarded, 15, m);
        lemma_extent(s, guarded, m);
        lemma_guarded_match(SpeedSetting, s, m);
    }
    if hit_of(s, patched, m) {
        lemma_extent(s, patched, m);
        lemma_not_empty(s, patched, 1, m);
        lemma_patched_match(SpeedSetting, s, m);
    }
}

/// Every site of the speed setting is such a match.
pub proof fn lemma_speed_setting_sites(s: Seq<char>, site: SiteSpec) -> (m: Matched)
    requires
        FastRule::SpeedSetting.sites(s).contains(site),
    ensures
        hit_of(s, speed_guarded_atoms(), m) && site.edits.len() == 1 || hit_of(
            s,
            speed_patched_atoms(),
            m,
        ) && site.edits.len() == 0,
        site == site_over(s, m, site.edits),
{
    lemma_site_from(SpeedSetting, s, site)
}

// ---------------------------------------------------------------------------
// The allowance of a request

/// A request is allowed without the sign-in it asks for: its answer becomes true, unless it is
/// so already.
pub proof fn lemma_request_allowance_is_a_site(s: Seq<char>, m: Matched)
    requires
        hit_of(s, request_state_atoms(), m),
    ensures
        spans(m, 0),
        m.bools[0] is Some,
        FastRule::RequestAllowance.sites(s).contains(
            site_over(
                s,
                m,
                if m.bools[0] == Some(true) {
                    Seq::empty()
                } else {
                    seq![over_span(s, m, 0, seq!['!', '0'])]
                },
            ),
        ),
{
    let pattern = request_state_atoms();
    assert(pattern.len() > 23 && pattern[23] == Atom::End(0) && pattern[22] == Atom::CaptureBool(0))
        by {
        reveal(request_state_atoms);
    }
    reveal_strlit("!0");
    assert("!0"@ =~= seq!['!', '0']);
    lemma_span_bound(s, pattern, 23, m);
    lemma_extent(s, pattern, m);
    crate::token_match::lemma_bool_bound(s, pattern, m.start, unbound(), 22);
    let k = lemma_match_listed(s, pattern, m);
    let items = matches_of(s, pattern).map_values(
        |m: Matched| crate::patch::fast::request_site(s, m),
    );
    assert(items[k] == crate::patch::fast::request_site(s, m));
    lemma_present_has(items, k);
}

/// Every site of the allowance of a request is such a match.
pub proof fn lemma_request_allowance_sites(s: Seq<char>, site: SiteSpec) -> (m: Matched)
    requires
        FastRule::RequestAllowance.sites(s).contains(site),
    ensures
        hit_of(s, request_state_atoms(), m),
        site == site_over(s, m, site.edits),
        site.edits.len() == 0 <==> m.bools[0] == Some(true),
{
    let all = matches_of(s, request_state_atoms());
    let items = all.map_values(|m: Matched| crate::patch::fast::request_site(s, m));
    let k = lemma_present_from(items, site);
    crate::patch::lemma_match_is_hit(s, request_state_atoms(), k);
    all[k]
}

// ---------------------------------------------------------------------------
// The tier of a conversation

/// The call that a request takes its tier from.
pub open spec fn tier_call(s: Seq<char>, m: Matched) -> Seq<char> {
    word(s, m, 7) + seq!['('] + word(s, m, 8) + seq![','] + word(s, m, 0) + seq![','] + word(
        s,
        m,
        6,
    ) + seq![')']
}

proof fn lemma_tier_call(s: Seq<char>, m: Matched)
    ensures
        crate::patch::fast::fallback_call(s, m) == tier_call(s, m),
{
    reveal_with_fuel(joined, 9);
    reveal_strlit("(");
    reveal_strlit(",");
    reveal_strlit(")");
    assert("("@ =~= seq!['(']);
    assert(","@ =~= seq![',']);
    assert(")"@ =~= seq![')']);
    assert(crate::patch::fast::fallback_call(s, m) =~= tier_call(s, m));
}

/// The allowance is bound among the 600 tokens before a match, and the tiers are returned among
/// the 1800 tokens behind it.
pub open spec fn conversation_stands(s: Seq<char>, m: Matched, bound: int, at: int) -> bool {
    &&& 0 <= bound
    &&& m.start - 600 <= bound < m.start
    &&& matched_at(s, bound, allowed_binding_atoms(), m.ids) is Some
    &&& m.end <= at < m.end + 1800
    &&& returns_two(
        s,
        at,
        ("selectedServiceTier"@, word(s, m, 9)),
        ("serviceTierForRequest"@, word(s, m, 5)),
    )
}

proof fn lemma_conversation_context(s: Seq<char>, m: Matched, bound: int, at: int)
    requires
        0 <= m.end,
        conversation_stands(s, m, bound, at),
    ensures
        ConversationFallback.in_context(s, m),
{
    let first = ("selectedServiceTier"@, m.ids[9]->0);
    let second = ("serviceTierForRequest"@, m.ids[5]->0);
    lemma_two_mapped(s, m.end, 1800, first, second);
    assert(crate::patch::fast::conversation_mapping(m) =~= seq![first, second]);
    let near = crate::patch::fast::saturating_difference(m.start, 600);
    assert(near <= bound < m.start);
    assert(any_match(s, near, m.start, allowed_binding_atoms(), m.ids));
    assert(returns_two(
        s,
        at,
        (first.0, token_text(s, first.1)),
        (second.0, token_text(s, second.1)),
    ));
}

/// A conversation's tier whose surroundings are there is a site, wherever in the source it
/// stands: the tier becomes the one of the settings, and a request asks for it.
pub proof fn lemma_conversation_is_a_site(s: Seq<char>, m: Matched, bound: int, at: int)
    requires
        conversation_stands(s, m, bound, at),
    ensures
        hit_of(s, conversation_guarded_atoms(), m) ==> {
            &&& spans(m, 0)
            &&& spans(m, 1)
            &&& FastRule::ConversationFallback.sites(s).contains(
                site_over(
                    s,
                    m,
                    seq![
                        over_span(s, m, 0, word(s, m, 4)),
                        over_span(s, m, 1, tier_call(s, m)),
                    ],
                ),
            )
        },
        hit_of(s, conversation_patched_atoms(), m)
            ==> FastRule::ConversationFallback.sites(s).contains(site_over(s, m, Seq::empty())),
{
    let guarded = conversation_guarded_atoms();
    let patched = conversation_patched_atoms();
    assert(guarded.len() > 73 && guarded[44] == Atom::End(0) && guarded[73] == Atom::End(1)) by {
        reveal(conversation_guarded_atoms);
    }
    assert(patched.len() > 0 && patched[0] is Ident) by {
        reveal(conversation_patched_atoms);
    }
    lemma_tier_call(s, m);
    if hit_of(s, guarded, m) {
        lemma_span_bound(s, guarded, 44, m);
        lemma_span_bound(s, guarded, 73, m);
        lemma_extent(s, guarded, m);
        lemma_conversation_context(s, m, bound, at);
        lemma_guarded_match(ConversationFallback, s, m);
    }
    if hit_of(s, patched, m) {
        lemma_extent(s, patched, m);
        lemma_not_empty(s, patched, 0, m);
        lemma_conversation_context(s, m, bound, at);
        lemma_patched_match(ConversationFallback, s, m);
    }
}

/// Every site of a conversation's tier is a match in these surroundings.
pub proof fn lemma_conversation_sites_stand(s: Seq<char>, site: SiteSpec) -> (found: (
    Matched,
    int,
    int,
))
    requires
        FastRule::ConversationFallback.sites(s).contains(site),
    ensures
        conversation_stands(s, found.0, found.1, found.2),
        hit_of(s, conversation_guarded_atoms(), found.0) && site.edits.len() == 2 || hit_of(
            s,
            conversation_patched_atoms(),
            found.0,
        ) && site.edits.len() == 0,
        site == site_over(s, found.0, site.edits),
{
    let m = lemma_site_from(ConversationFallback, s, site);
    if hit_of(s, conversation_guarded_atoms(), m) {
        lemma_extent(s, conversation_guarded_atoms(), m);
    } else {
        lemma_extent(s, conversation_patched_atoms(), m);
    }
    lemma_two_mapped(
        s,
        m.end,
        1800,
        ("selectedServiceTier"@, m.ids[9]->0),
        ("serviceTierForRequest"@, m.ids[5]->0),
    );
    let near: int = if m.start < 600 {
        0
    } else {
        m.start - 600
    };
    let bound = choose|i: int|
        near <= i < m.start && (#[trigger] matched_at(s, i, allowed_binding_atoms(), m.ids)) is Some;
    let at = choose|at: int|
        m.end <= at < m.end + 1800 && #[trigger] returns_two(
            s,
            at,
            ("selectedServiceTier"@, word(s, m, 9)),
            ("serviceTierForRequest"@, word(s, m, 5)),
        );
    (m, bound, at)
}

// ---------------------------------------------------------------------------
// The menu

/// The name of the command that opens the menu is among the 64 tokens behind a match.
pub open spec fn menu_stands(s: Seq<char>, m: Matched, at: int) -> bool {
    &&& m.end <= at < m.end + 64
    &&& at < tokens_of(s).len()
    &&& matched_at(s, at, intelligence_anchor_atoms(), unbound()) is Some
}

/// A menu entry that has its command behind it is a site and loses its further condition.
pub proof fn lemma_menu_entry_is_a_site(s: Seq<char>, m: Matched, at: int)
    requires
        menu_stands(s, m, at),
    ensures
        hit_of(s, intelligence_guarded_atoms(), m) ==> spans(m, 0)
            && FastRule::IntelligenceMenu.sites(s).contains(
            site_over(s, m, seq![over_span(s, m, 0, Seq::empty())]),
        ),
        hit_of(s, intelligence_patched_atoms(), m) ==> FastRule::IntelligenceMenu.sites(
            s,
        ).contains(site_over(s, m, Seq::empty())),
{
    let guarded = intelligence_guarded_atoms();
    let patched = intelligence_patched_atoms();
    assert(guarded.len() > 6 && guarded[6] == Atom::End(0)) by {
        reveal(intelligence_guarded_atoms);
    }
    assert(patched.len() > 3 && patched[3] is Ident) by {
        reveal(intelligence_patched_atoms);
    }
    if hit_of(s, guarded, m) {
        lemma_span_bound(s, guarded, 6, m);
        lemma_extent(s, guarded, m);
        assert(IntelligenceMenu.in_context(s, m));
        lemma_guarded_match(IntelligenceMenu, s, m);
    }
    if hit_of(s, patched, m) {
        lemma_extent(s, patched, m);
        lemma_not_empty(s, patched, 3, m);
        assert(IntelligenceMenu.in_context(s, m));
        lemma_patched_match(IntelligenceMenu, s, m);
    }
}

/// Every site of the menu is a match with its command behind it.
pub proof fn lemma_menu_sites_stand(s: Seq<char>, site: SiteSpec) -> (found: (Matched, int))
    requires
        FastRule::IntelligenceMenu.sites(s).contains(site),
    ensures
        menu_stands(s, found.0, found.1),
        hit_of(s, intelligence_guarded_atoms(), found.0) && site.edits.len() == 1 || hit_of(
            s,
            intelligence_patched_atoms(),
            found.0,
        ) && site.edits.len() == 0,
        site == site_over(s, found.0, site.edits),
{
    let m = lemma_site_from(IntelligenceMenu, s, site);
    let at = choose|i: int|
        m.end <= i < m.end + 64 && i < tokens_of(s).len() && (#[trigger] matched_at(
            s,
            i,
            intelligence_anchor_atoms(),
            unbound(),
        )) is Some;
    (m, at)
}

// ---------------------------------------------------------------------------
// The slash command

/// An object has some word as its value for a key.
pub open spec fn gives_word(s: Seq<char>, object: (int, int), key: Seq<char>) -> bool {
    &&& field_of(s, object, key) matches Some((first, after))
    &&& after == first + 1
    &&& 0 <= first < tokens_of(s).len()
    &&& tokens_of(s)[first].kind == Kind::Ident
}

/// A word is given the name of a service tier at three tokens.
pub open spec fn names_service_tier(s: Seq<char>, at: int, name: Seq<char>) -> bool {
    &&& token_text(s, at) == name
    &&& token_text(s, at + 1) == "="@
    &&& tokens_of(s)[at + 2].kind == Kind::Template
    &&& "`service-tier:${"@.is_prefix_of(token_text(s, at + 2))
}

/// Token `key` stands in an object that describes the command of a service tier, whose name is
/// given at token `named` of the block around it.
pub open spec fn command_stands(s: Seq<char>, key: int, object: (int, int), named: int) -> bool {
    &&& 0 <= key < tokens_of(s).len()
    &&& token_text(s, key) == "requiresEmptyComposer"@
    &&& object_around(s, key) == Some(object)
    &&& bool_of(s, field_of(s, object, "requiresEmptyComposer"@)) == Some(false)
    &&& gives_word(s, object, "id"@)
    &&& brace_before(s, object.0 - 1, Seq::empty()) matches Some(scope)
    &&& scope < named && named + 2 < object.0
    &&& names_service_tier(s, named, token_text(s, (field_of(s, object, "id"@)->0).0))
    &&& gives_word(s, object, "title"@)
    &&& gives_word(s, object, "description"@)
    &&& gives_word(s, object, "Icon"@)
    &&& gives_word(s, object, "onSelect"@)
    &&& gives_word(s, object, "dependencies"@)
}

proof fn lemma_tier_command(s: Seq<char>, key: int, object: (int, int), named: int)
    requires
        command_stands(s, key, object, named),
    ensures
        crate::patch::fast::is_tier_command(s, object),
{
    let fields = crate::patch::fast::command_fields();
    assert(fields =~= seq!["title"@, "description"@, "Icon"@, "onSelect"@, "dependencies"@]);
    assert forall|k: int| 0 <= k < fields.len() implies single_ident_of(
        s,
        field_of(s, object, #[trigger] fields[k]),
    ) is Some by {
        assert(k == 0 || k == 1 || k == 2 || k == 3 || k == 4);
    }
    let id = (field_of(s, object, "id"@)->0).0;
    assert(single_ident_of(s, field_of(s, object, "id"@)) == Some(id));
    assert(crate::patch::fast::assigns_tier_id(s, named, id));
    assert(crate::patch::fast::names_tier(s, object, id));
}

proof fn lemma_braces_inside(s: Seq<char>, i: int, stack: Seq<Seq<char>>)
    requires
        i < tokens_of(s).len(),
    ensures
        brace_before(s, i, stack) matches Some(open) ==> 0 <= open <= i && token_text(s, open)
            == "{"@,
    decreases i + 1,
{
    if i >= 0 {
        let text = token_text(s, i);
        match opening_of(text) {
            Some(open) => {
                lemma_braces_inside(s, i - 1, stack.push(open));
            },
            None => {
                lemma_braces_inside(s, i - 1, stack);
                if stack.len() > 0 {
                    lemma_braces_inside(s, i - 1, stack.drop_last());
                }
            },
        }
    }
}

proof fn lemma_close_inside(s: Seq<char>, i: int, stack: Seq<Seq<char>>)
    ensures
        close_from(s, i, stack) matches Some(close) ==> i <= close < tokens_of(s).len(),
    decreases tokens_of(s).len() - i,
{
    if i < tokens_of(s).len() {
        if let Some(next) = after_bracket(stack, token_text(s, i)) {
            lemma_close_inside(s, i + 1, next);
        }
    }
}

/// The command of a service tier is a site over its object. Its `enabled` becomes true where it
/// is a word, stays where it is true, and where it is anything else there is no site.
pub proof fn lemma_slash_command_is_a_site(
    s: Seq<char>,
    key: int,
    object: (int, int),
    named: int,
)
    requires
        command_stands(s, key, object, named),
    ensures
        ({
            let enabled = field_of(s, object, "enabled"@);
            let start = bytes_from(s, object.0);
            let end = bytes_to(s, object.1 + 1);
            &&& bool_of(s, enabled) == Some(true) ==> FastRule::SlashCommand.sites(s).contains(
                (SiteSpec { start, end, edits: Seq::empty() }),
            )
            &&& gives_word(s, object, "enabled"@) && bool_of(s, enabled) != Some(true)
                ==> FastRule::SlashCommand.sites(s).contains(
                (SiteSpec {
                    start,
                    end,
                    edits: seq![
                        EditSpec {
                            start: bytes_from(s, (enabled->0).0),
                            end: bytes_to(s, (enabled->0).1),
                            replacement: seq!['!', '0'],
                        },
                    ],
                }),
            )
        }),
{
    lemma_tier_command(s, key, object, named);
    reveal_strlit("!0");
    assert("!0"@ =~= seq!['!', '0']);
    lemma_braces_inside(s, key, Seq::empty());
    lemma_close_inside(s, object.0, Seq::empty());
    let items = Seq::new(
        tokens_of(s).len(),
        |i: int| crate::patch::fast::anchored_command_site(s, i),
    );
    let site = crate::patch::fast::anchored_command_site(s, key);
    assert(items[key] == site);
    if site is Some {
        lemma_present_has(items, key);
    }
}

/// Every site of the slash command is such an object.
pub proof fn lemma_slash_command_sites(s: Seq<char>, site: SiteSpec) -> (found: (
    int,
    (int, int),
    int,
))
    requires
        FastRule::SlashCommand.sites(s).contains(site),
    ensures
        command_stands(s, found.0, found.1, found.2),
        bool_of(s, field_of(s, found.1, "enabled"@)) == Some(true) && site.edits.len() == 0
            || gives_word(s, found.1, "enabled"@) && site.edits.len() == 1,
        site.start == bytes_from(s, (found.1).0),
        site.end == bytes_to(s, (found.1).1 + 1),
{
    let items = Seq::new(
        tokens_of(s).len(),
        |i: int| crate::patch::fast::anchored_command_site(s, i),
    );
    let key = lemma_present_from(items, site);
    let object = object_around(s, key)->0;
    let fields = crate::patch::fast::command_fields();
    assert(fields =~= seq!["title"@, "description"@, "Icon"@, "onSelect"@, "dependencies"@]);
    assert(single_ident_of(s, field_of(s, object, fields[0])) is Some);
    assert(single_ident_of(s, field_of(s, object, fields[1])) is Some);
    assert(single_ident_of(s, field_of(s, object, fields[2])) is Some);
    assert(single_ident_of(s, field_of(s, object, fields[3])) is Some);
    assert(single_ident_of(s, field_of(s, object, fields[4])) is Some);
    let id = single_ident_of(s, field_of(s, object, "id"@))->0;
    let scope = brace_before(s, object.0 - 1, Seq::empty())->0;
    lemma_braces_inside(s, key, Seq::empty());
    lemma_braces_inside(s, object.0 - 1, Seq::empty());
    let named = choose|i: int|
        scope < i < crate::patch::fast::saturating_difference(object.0, 2)
            && #[trigger] crate::patch::fast::assigns_tier_id(s, i, id);
    (key, object, named)
}

} // verus!
