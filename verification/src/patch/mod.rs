//! Edits, the sites that they belong to, and the features that ask for them.

use std::ops::Range;
use vstd::prelude::*;

use crate::js_tokens::Tokens;
use crate::text::{contains, contains_text, str_eq, Text};
use crate::token_match::{
    find, hits_view, lemma_matches_before, matched_at, matches_before, matches_of, token_bytes,
    token_range, unbound, Atom, Hit, Matched,
};
use crate::js_tokens::tokens_of;

pub mod anchor_laws;
pub mod code_laws;
pub mod edits;
pub mod fast;
pub mod fast_laws;
pub mod object_laws;
pub mod objects;
pub mod patterns;
pub mod plan_laws;
pub mod planner;
pub mod run_laws;

verus! {

/// What a feature is for.
#[derive(Clone, Copy, Debug, PartialEq, Eq, Structural)]
pub enum FeatureRole {
    /// Nothing works without it.
    Core,
    /// An entry point that the user sees.
    UiEntry,
}

/// A replacement of some bytes of a source.
#[verifier::ext_equal]
pub struct EditSpec {
    pub start: int,
    pub end: int,
    pub replacement: Seq<char>,
}

/// A place in a source and the edits that patch it.
#[verifier::ext_equal]
pub struct SiteSpec {
    pub start: int,
    pub end: int,
    pub edits: Seq<EditSpec>,
}

#[derive(Debug, PartialEq, Eq)]
pub struct Edit {
    pub range: Range<usize>,
    pub replacement: String,
}

impl View for Edit {
    type V = EditSpec;

    open spec fn view(&self) -> EditSpec {
        EditSpec {
            start: self.range.start as int,
            end: self.range.end as int,
            replacement: self.replacement@,
        }
    }
}

#[derive(Debug, PartialEq, Eq)]
pub struct Site {
    /// Bytes that identify this site, patched or not.
    pub range: Range<usize>,
    /// Empty when this site is already patched.
    pub edits: Vec<Edit>,
}

pub open spec fn edits_view(edits: Seq<Edit>) -> Seq<EditSpec> {
    edits.map_values(|edit: Edit| edit@)
}

impl View for Site {
    type V = SiteSpec;

    open spec fn view(&self) -> SiteSpec {
        SiteSpec {
            start: self.range.start as int,
            end: self.range.end as int,
            edits: edits_view(self.edits@),
        }
    }
}

pub open spec fn sites_view(sites: Seq<Site>) -> Seq<SiteSpec> {
    sites.map_values(|site: Site| site@)
}

impl Edit {
    /// Whether two edits are the same.
    pub fn same(&self, other: &Edit) -> (yes: bool)
        ensures
            yes == (self@ == other@),
    {
        self.range.start == other.range.start && self.range.end == other.range.end && str_eq(
            self.replacement.as_str(),
            other.replacement.as_str(),
        )
    }

    /// A copy of this edit.
    pub fn copy(&self) -> (edit: Edit)
        ensures
            edit@ == self@,
    {
        Edit {
            range: self.range.start..self.range.end,
            replacement: self.replacement.as_str().to_owned(),
        }
    }
}

impl Site {
    /// Whether two sites are the same.
    pub fn same(&self, other: &Site) -> (yes: bool)
        ensures
            yes == (self@ == other@),
    {
        if self.range.start != other.range.start || self.range.end != other.range.end {
            return false;
        }
        if self.edits.len() != other.edits.len() {
            assert(self@.edits.len() != other@.edits.len());
            return false;
        }
        let mut k: usize = 0;
        while k < self.edits.len()
            invariant
                k <= self.edits@.len() == other.edits@.len(),
                forall|j: int| 0 <= j < k ==> #[trigger] self.edits@[j]@ == other.edits@[j]@,
            decreases self.edits.len() - k,
        {
            if !self.edits[k].same(&other.edits[k]) {
                assert(self@.edits[k as int] != other@.edits[k as int]);
                return false;
            }
            k += 1;
        }
        assert(self@.edits =~= other@.edits);
        true
    }
}

/// Finds the sites of a feature in a source.
pub trait Detector {
    /// The sites in a source, none unless a detector says otherwise.
    open spec fn sites(&self, source: Seq<char>) -> Seq<SiteSpec> {
        Seq::empty()
    }

    fn detect(&self, tokens: &Tokens<'_>) -> (sites: Vec<Site>)
        ensures
            sites_view(sites@) == self.sites(tokens.source()),
    ;
}

/// A change to the program that may ask for edits in any source.
pub struct Feature<D> {
    pub id: &'static str,
    pub label: &'static str,
    pub role: FeatureRole,
    /// Texts that every source with a site of this feature holds.
    pub anchors: &'static [&'static str],
    pub detector: D,
}

/// Features that are patched together.
pub struct PatchSet<D> {
    pub id: &'static str,
    pub label: &'static str,
    pub features: Vec<Feature<D>>,
}

/// Features that are patched together, for specifications.
pub struct SetSpec<D> {
    pub id: Seq<char>,
    pub label: Seq<char>,
    pub features: Seq<Feature<D>>,
}

impl<D> View for PatchSet<D> {
    type V = SetSpec<D>;

    open spec fn view(&self) -> SetSpec<D> {
        SetSpec { id: self.id@, label: self.label@, features: self.features@ }
    }
}

/// The first of each of the sites.
pub open spec fn distinct_sites(sites: Seq<SiteSpec>) -> Seq<SiteSpec>
    decreases sites.len(),
{
    if sites.len() == 0 {
        Seq::empty()
    } else {
        let before = distinct_sites(sites.drop_last());
        if before.contains(sites.last()) {
            before
        } else {
            before.push(sites.last())
        }
    }
}

/// Distinct sites are the same sites, each once.
pub proof fn lemma_distinct_sites(sites: Seq<SiteSpec>)
    ensures
        distinct_sites(sites).no_duplicates(),
        forall|site: SiteSpec| #[trigger]
            distinct_sites(sites).contains(site) <==> sites.contains(site),
    decreases sites.len(),
{
    if sites.len() > 0 {
        let rest = sites.drop_last();
        let last = sites.last();
        lemma_distinct_sites(rest);
        let before = distinct_sites(rest);
        let all = distinct_sites(sites);
        assert(sites =~= rest.push(last));
        assert forall|site: SiteSpec| #[trigger] all.contains(site) <==> sites.contains(site) by {
            if sites.contains(site) {
                let k = choose|k: int| 0 <= k < sites.len() && sites[k] == site;
                if k < rest.len() {
                    assert(rest[k] == site);
                    assert(before.contains(site));
                    let j = choose|j: int| 0 <= j < before.len() && before[j] == site;
                    assert(all[j] == site);
                } else if !before.contains(last) {
                    assert(all[all.len() - 1] == last);
                }
            }
            if all.contains(site) {
                let k = choose|k: int| 0 <= k < all.len() && all[k] == site;
                if k < before.len() {
                    assert(before.contains(before[k]));
                    assert(rest.contains(site));
                    let j = choose|j: int| 0 <= j < rest.len() && rest[j] == site;
                    assert(sites[j] == site);
                } else {
                    assert(sites[sites.len() - 1] == site);
                }
            }
        }
        assert(all.no_duplicates()) by {
            assert forall|i: int, j: int|
                0 <= i < all.len() && 0 <= j < all.len() && i != j implies all[i] != all[j] by {
                if i == before.len() {
                    assert(before.contains(before[j]));
                } else if j == before.len() {
                    assert(before.contains(before[i]));
                }
            }
        }
    }
}

impl<D: Detector> Feature<D> {
    /// The sites of this feature in a source.
    pub open spec fn sites(&self, source: Seq<char>) -> Seq<SiteSpec> {
        distinct_sites(self.detector.sites(source))
    }

    /// Every anchor occurs in the source.
    pub open spec fn active_in(&self, source: Seq<char>) -> bool {
        forall|k: int|
            0 <= k < self.anchors@.len() ==> contains_text(source, (#[trigger] self.anchors@[k])@)
    }

    /// Finds the sites of this feature, each once.
    pub fn detect_sites(&self, tokens: &Tokens<'_>) -> (sites: Vec<Site>)
        ensures
            sites_view(sites@) == self.sites(tokens.source()),
    {
        let found = self.detector.detect(tokens);
        let ghost items = found@;
        let ghost all = sites_view(items);
        let mut sites: Vec<Site> = Vec::new();
        assert(sites_view(sites@) =~= distinct_sites(all.take(0)));
        for site in rest: found
            invariant
                rest.seq() == items,
                all == sites_view(items),
                sites_view(sites@) == distinct_sites(all.take(rest.index() as int)),
        {
            let ghost kept = sites@;
            let ghost k = rest.index() as int;
            proof {
                assert(site@ == all[k]);
                assert(all.take(k + 1).drop_last() =~= all.take(k));
            }
            if !contains_site(&sites, &site) {
                sites.push(site);
                assert(sites_view(sites@) =~= sites_view(kept).push(all[k]));
            }
        }
        assert(all.take(all.len() as int) =~= all);
        sites
    }

    /// Whether a source can have sites of this feature.
    pub fn is_active(&self, source: &str) -> (yes: bool)
        ensures
            yes == self.active_in(source@),
    {
        let text = Text::new(source);
        let mut k: usize = 0;
        while k < self.anchors.len()
            invariant
                text@ == source@,
                k <= self.anchors@.len(),
                forall|j: int|
                    0 <= j < k ==> contains_text(source@, (#[trigger] self.anchors@[j])@),
            decreases self.anchors.len() - k,
        {
            if !contains(&text, self.anchors[k]) {
                assert(!contains_text(source@, self.anchors@[k as int]@));
                return false;
            }
            k += 1;
        }
        true
    }
}

fn contains_site(sites: &Vec<Site>, site: &Site) -> (yes: bool)
    ensures
        yes == sites_view(sites@).contains(site@),
{
    let mut k: usize = 0;
    while k < sites.len()
        invariant
            k <= sites@.len(),
            forall|j: int| 0 <= j < k ==> #[trigger] sites_view(sites@)[j] != site@,
        decreases sites.len() - k,
    {
        if sites[k].same(site) {
            assert(sites_view(sites@)[k as int] == site@);
            return true;
        }
        k += 1;
    }
    false
}

// ---------------------------------------------------------------------------
// Sites of patterns

/// The values that are there.
pub open spec fn present<T>(items: Seq<Option<T>>) -> Seq<T>
    decreases items.len(),
{
    if items.len() == 0 {
        Seq::empty()
    } else {
        let before = present(items.drop_last());
        match items.last() {
            Some(item) => before.push(item),
            None => before,
        }
    }
}

/// No value is there exactly where each is missing.
pub proof fn lemma_present_empty<T>(items: Seq<Option<T>>)
    ensures
        present(items).len() == 0 <==> forall|k: int|
            0 <= k < items.len() ==> (#[trigger] items[k]) is None,
    decreases items.len(),
{
    if items.len() > 0 {
        let rest = items.drop_last();
        lemma_present_empty(rest);
        if present(items).len() == 0 {
            assert forall|k: int| 0 <= k < items.len() implies (#[trigger] items[k]) is None by {
                if k < rest.len() {
                    assert(rest[k] is None);
                }
            }
        } else if forall|k: int| 0 <= k < items.len() ==> (#[trigger] items[k]) is None {
            assert forall|k: int| 0 <= k < rest.len() implies (#[trigger] rest[k]) is None by {
                assert(items[k] is None);
            }
            assert(items[items.len() - 1] is None);
        }
    }
}

/// The parts one after another.
pub open spec fn chained<T>(parts: Seq<Seq<T>>) -> Seq<T>
    decreases parts.len(),
{
    if parts.len() == 0 {
        Seq::empty()
    } else {
        chained(parts.drop_last()) + parts.last()
    }
}

/// What is chained comes from one of the parts.
pub proof fn lemma_chained_contains<T>(parts: Seq<Seq<T>>, item: T) -> (i: int)
    requires
        chained(parts).contains(item),
    ensures
        0 <= i < parts.len(),
        parts[i].contains(item),
    decreases parts.len(),
{
    let rest = parts.drop_last();
    let all = chained(parts);
    let k = choose|k: int| 0 <= k < all.len() && all[k] == item;
    if k < chained(rest).len() {
        assert(chained(rest)[k] == item);
        lemma_chained_contains(rest, item)
    } else {
        assert(parts.last()[k - chained(rest).len()] == item);
        parts.len() - 1
    }
}

/// Nothing is chained exactly where each part is empty.
pub proof fn lemma_chained_empty<T>(parts: Seq<Seq<T>>)
    ensures
        chained(parts).len() == 0 <==> forall|k: int|
            0 <= k < parts.len() ==> (#[trigger] parts[k]).len() == 0,
    decreases parts.len(),
{
    if parts.len() > 0 {
        let rest = parts.drop_last();
        lemma_chained_empty(rest);
        if chained(parts).len() == 0 {
            assert forall|k: int| 0 <= k < parts.len() implies (
            #[trigger] parts[k]).len() == 0 by {
                if k < rest.len() {
                    assert(rest[k].len() == 0);
                }
            }
        } else if forall|k: int| 0 <= k < parts.len() ==> (#[trigger] parts[k]).len() == 0 {
            assert forall|k: int| 0 <= k < rest.len() implies (#[trigger] rest[k]).len() == 0 by {
                assert(parts[k].len() == 0);
            }
            assert(parts[parts.len() - 1].len() == 0);
        }
    }
}

/// A site over the tokens of a match.
pub open spec fn match_site(s: Seq<char>, m: Matched, edits: Option<Seq<EditSpec>>) -> Option<
    SiteSpec,
> {
    match (token_bytes(s, m.start, m.end), edits) {
        (Some((start, end)), Some(edits)) => Some(SiteSpec { start, end, edits }),
        _ => None,
    }
}

/// A pair of patterns, one for code to patch and one for patched code.
pub trait PatternRule {
    spec fn guarded_pattern(&self) -> Seq<Atom>;

    spec fn patched_pattern(&self) -> Seq<Atom>;

    /// The surroundings of a match are those of a site.
    spec fn in_context(&self, s: Seq<char>, m: Matched) -> bool;

    /// Edits that patch a match of the guarded pattern.
    spec fn edits_for(&self, s: Seq<char>, m: Matched) -> Option<Seq<EditSpec>>;

    fn guarded(&self) -> (pattern: Vec<Atom>)
        ensures
            pattern@ == self.guarded_pattern(),
    ;

    fn patched(&self) -> (pattern: Vec<Atom>)
        ensures
            pattern@ == self.patched_pattern(),
    ;

    fn validate(&self, tokens: &Tokens<'_>, hit: &Hit) -> (yes: bool)
        requires
            hit_of(tokens.source(), self.guarded_pattern(), hit@) || hit_of(
                tokens.source(),
                self.patched_pattern(),
                hit@,
            ),
        ensures
            yes == self.in_context(tokens.source(), hit@),
    ;

    fn rewrite(&self, tokens: &Tokens<'_>, hit: &Hit) -> (edits: Option<Vec<Edit>>)
        requires
            hit_of(tokens.source(), self.guarded_pattern(), hit@),
        ensures
            optional_edits_view(edits) == self.edits_for(tokens.source(), hit@),
    ;
}

/// A match of the pattern in the source.
pub open spec fn hit_of(s: Seq<char>, pattern: Seq<Atom>, m: Matched) -> bool {
    0 <= m.start < tokens_of(s).len() && matched_at(s, m.start, pattern, unbound()) == Some(m)
}

pub open spec fn optional_edits_view(edits: Option<Vec<Edit>>) -> Option<Seq<EditSpec>> {
    match edits {
        Some(edits) => Some(edits_view(edits@)),
        None => None,
    }
}

/// The site of a match of the guarded pattern.
pub open spec fn guarded_site<R: PatternRule>(rule: R, s: Seq<char>, m: Matched) -> Option<
    SiteSpec,
> {
    if rule.in_context(s, m) {
        match_site(s, m, rule.edits_for(s, m))
    } else {
        None
    }
}

/// The site of a match of the patched pattern.
pub open spec fn patched_site<R: PatternRule>(rule: R, s: Seq<char>, m: Matched) -> Option<
    SiteSpec,
> {
    if rule.in_context(s, m) {
        match_site(s, m, Some(Seq::empty()))
    } else {
        None
    }
}

/// The sites of a rule: those to patch, then those already patched.
pub open spec fn rule_sites<R: PatternRule>(rule: R, s: Seq<char>) -> Seq<SiteSpec> {
    present(
        matches_of(s, rule.guarded_pattern()).map_values(|m: Matched| guarded_site(rule, s, m)),
    ) + present(
        matches_of(s, rule.patched_pattern()).map_values(|m: Matched| patched_site(rule, s, m)),
    )
}

/// Finds the sites of a rule.
pub fn pattern_sites<R: PatternRule>(tokens: &Tokens<'_>, rule: &R) -> (sites: Vec<Site>)
    ensures
        sites_view(sites@) == rule_sites(*rule, tokens.source()),
{
    let ghost s = tokens.source();
    let mut sites: Vec<Site> = Vec::new();

    let pattern = rule.guarded();
    let hits = find(tokens, pattern.as_slice());
    let ghost matches = matches_of(s, rule.guarded_pattern());
    let ghost site_of = |m: Matched| guarded_site(*rule, s, m);
    let mut k: usize = 0;
    assert(sites_view(sites@) =~= present(matches.map_values(site_of).take(0)));
    while k < hits.len()
        invariant
            s == tokens.source(),
            k <= hits@.len(),
            hits_view(hits@) == matches,
            matches == matches_of(s, rule.guarded_pattern()),
            site_of == (|m: Matched| guarded_site(*rule, s, m)),
            sites_view(sites@) == present(matches.map_values(site_of).take(k as int)),
        decreases hits.len() - k,
    {
        let hit = &hits[k];
        let ghost kept = sites@;
        proof {
            assert(hit@ == matches[k as int]);
            lemma_match_is_hit(s, rule.guarded_pattern(), k as int);
            assert(matches.map_values(site_of).take(k + 1).drop_last() =~= matches.map_values(
                site_of,
            ).take(k as int));
        }
        if rule.validate(tokens, hit) {
            if let Some(range) = token_range(tokens, hit.start, hit.end) {
                if let Some(edits) = rule.rewrite(tokens, hit) {
                    let site = Site { range, edits };
                    sites.push(site);
                    assert(sites_view(sites@) =~= sites_view(kept).push(site@));
                }
            }
        }
        k += 1;
    }
    assert(matches.map_values(site_of).take(k as int) =~= matches.map_values(site_of));
    let ghost first = sites_view(sites@);

    let pattern = rule.patched();
    let hits = find(tokens, pattern.as_slice());
    let ghost matches = matches_of(s, rule.patched_pattern());
    let ghost site_of = |m: Matched| patched_site(*rule, s, m);
    let mut k: usize = 0;
    assert(sites_view(sites@) =~= first + present(matches.map_values(site_of).take(0)));
    while k < hits.len()
        invariant
            s == tokens.source(),
            k <= hits@.len(),
            hits_view(hits@) == matches,
            matches == matches_of(s, rule.patched_pattern()),
            site_of == (|m: Matched| patched_site(*rule, s, m)),
            sites_view(sites@) == first + present(matches.map_values(site_of).take(k as int)),
        decreases hits.len() - k,
    {
        let hit = &hits[k];
        let ghost kept = sites@;
        let ghost done = present(matches.map_values(site_of).take(k as int));
        proof {
            assert(hit@ == matches[k as int]);
            lemma_match_is_hit(s, rule.patched_pattern(), k as int);
            assert(matches.map_values(site_of).take(k + 1).drop_last() =~= matches.map_values(
                site_of,
            ).take(k as int));
        }
        if rule.validate(tokens, hit) {
            if let Some(range) = token_range(tokens, hit.start, hit.end) {
                let site = Site { range, edits: Vec::new() };
                assert(site@.edits =~= Seq::empty());
                sites.push(site);
                assert(sites_view(sites@) =~= sites_view(kept).push(site@));
                assert((first + done).push(site@) =~= first + done.push(site@));
            }
        }
        k += 1;
    }
    assert(matches.map_values(site_of).take(k as int) =~= matches.map_values(site_of));
    sites
}

pub proof fn lemma_match_is_hit(s: Seq<char>, pattern: Seq<Atom>, k: int)
    requires
        0 <= k < matches_of(s, pattern).len(),
    ensures
        hit_of(s, pattern, matches_of(s, pattern)[k]),
{
    lemma_matches_before(s, pattern, tokens_of(s).len() as int);
    assert(matches_of(s, pattern)[k] == matches_before(s, pattern, tokens_of(s).len() as int)[k]);
}

} // verus!
