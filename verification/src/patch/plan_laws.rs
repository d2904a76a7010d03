//! What a plan says and does, told from the sources and the sites in them.

use vstd::prelude::*;
use vstd::utf8::*;

use crate::patch::edits::{edited, edits_fit, lemma_sorted_edits, valid_span};
use crate::patch::planner::{
    all_conflicts, all_problems, conflict_message, conflicts_from, edit_conflicts, edit_is_invalid,
    feature_problems, feature_reports, feature_sites, first_report, has_sites, invalid_reason,
    is_missing, missing_message, misses, plan_of, resource_edits, resource_keys, resource_problems,
    scanned, site_count, site_edits, site_problem, total_sites, FeatureReportSpec, PatchStatus,
    ResourceSpec,
};
use crate::patch::{
    chained, distinct_sites, lemma_distinct_sites, present, Detector, EditSpec, Feature,
    FeatureRole, SetSpec, SiteSpec,
};
use crate::text::{byte_offset, contains_text, decimal, joined};
use crate::text_map::rank;

verus! {

// ---------------------------------------------------------------------------
// Where a feature shows

/// A text occurs in a source.
pub open spec fn occurs(content: Seq<char>, part: Seq<char>) -> bool {
    exists|before: Seq<char>, after: Seq<char>| #[trigger] (before + part + after) == content
}

/// A feature shows in a source that holds each of its anchors and in which it is detected.
pub open spec fn shows<D: Detector>(feature: Feature<D>, content: Seq<char>) -> bool {
    &&& forall|k: int| 0 <= k < feature.anchors@.len() ==> occurs(
        content,
        (#[trigger] feature.anchors@[k])@,
    )
    &&& feature.detector.sites(content).len() > 0
}

proof fn lemma_occurs(content: Seq<char>, part: Seq<char>)
    ensures
        occurs(content, part) <==> contains_text(content, part),
{
    if occurs(content, part) {
        let (before, after) = choose|before: Seq<char>, after: Seq<char>| #[trigger]
            (before + part + after) == content;
        let i = before.len() as int;
        assert((before + part + after).subrange(i, i + part.len()) =~= part);
        assert(crate::text::literal_at(content, i, part));
    }
    if contains_text(content, part) {
        let i = choose|i: int| crate::text::literal_at(content, i, part);
        let before = content.take(i);
        let after = content.skip(i + part.len());
        assert(before + part + after =~= content);
    }
}

proof fn lemma_shows<D: Detector>(feature: Feature<D>, content: Seq<char>)
    ensures
        shows(feature, content) <==> feature_sites(feature, content).len() > 0,
        shows(feature, content) ==> feature_sites(feature, content) == distinct_sites(
            feature.detector.sites(content),
        ),
{
    let found = feature.detector.sites(content);
    lemma_distinct_sites(found);
    if found.len() > 0 {
        assert(found.contains(found[0]));
        assert(distinct_sites(found).contains(found[0]));
    } else {
        assert(distinct_sites(found).len() == 0);
    }
    if feature.active_in(content) {
        assert forall|k: int| 0 <= k < feature.anchors@.len() implies occurs(
            content,
            (#[trigger] feature.anchors@[k])@,
        ) by {
            lemma_occurs(content, feature.anchors@[k]@);
        }
    }
    if shows(feature, content) {
        assert forall|k: int| 0 <= k < feature.anchors@.len() implies contains_text(
            content,
            (#[trigger] feature.anchors@[k])@,
        ) by {
            lemma_occurs(content, feature.anchors@[k]@);
        }
    }
}

/// A feature shows in none of the sources.
pub open spec fn shows_nowhere<D: Detector>(
    feature: Feature<D>,
    resources: Seq<ResourceSpec>,
) -> bool {
    forall|r: int| 0 <= r < resources.len() ==> !shows(feature, (#[trigger] resources[r]).content)
}

proof fn lemma_counts_add<D: Detector>(feature: Feature<D>, resources: Seq<ResourceSpec>)
    ensures
        0 <= total_sites(feature, resources, true),
        0 <= total_sites(feature, resources, false),
        total_sites(feature, resources, true) + total_sites(feature, resources, false) == 0
            <==> shows_nowhere(feature, resources),
    decreases resources.len(),
{
    if resources.len() > 0 {
        let rest = resources.drop_last();
        let last = resources.last();
        lemma_counts_add(feature, rest);
        lemma_count_is_filter(feature_sites(feature, last.content));
        lemma_shows(feature, last.content);
        if shows_nowhere(feature, rest) && !shows(feature, last.content) {
            assert forall|r: int| 0 <= r < resources.len() implies !shows(
                feature,
                (#[trigger] resources[r]).content,
            ) by {
                if r < rest.len() {
                    assert(rest[r] == resources[r]);
                }
            }
        }
        if shows_nowhere(feature, resources) {
            assert forall|r: int| 0 <= r < rest.len() implies !shows(
                feature,
                (#[trigger] rest[r]).content,
            ) by {
                assert(rest[r] == resources[r]);
            }
            assert(resources[resources.len() - 1] == last);
        }
    }
}

proof fn lemma_count_is_filter(sites: Seq<SiteSpec>)
    ensures
        site_count(sites, true) == sites.filter(|site: SiteSpec| site.edits.len() > 0).len(),
        site_count(sites, false) == sites.filter(|site: SiteSpec| site.edits.len() == 0).len(),
        site_count(sites, true) + site_count(sites, false) == sites.len(),
    decreases sites.len(),
{
    reveal(Seq::filter);
    if sites.len() > 0 {
        lemma_count_is_filter(sites.drop_last());
    }
}

/// A source adds to the count of each feature the sites it has: those with edits to what is to
/// patch, those without to what is patched.
pub proof fn lemma_source_adds_its_sites<D: Detector>(
    feature: Feature<D>,
    resources: Seq<ResourceSpec>,
    last: ResourceSpec,
)
    ensures
        ({
            let all = resources.push(last);
            let sites = distinct_sites(feature.detector.sites(last.content));
            &&& shows(feature, last.content) ==> {
                &&& total_sites(feature, all, true) == total_sites(feature, resources, true)
                    + sites.filter(|site: SiteSpec| site.edits.len() > 0).len()
                &&& total_sites(feature, all, false) == total_sites(feature, resources, false)
                    + sites.filter(|site: SiteSpec| site.edits.len() == 0).len()
            }
            &&& !shows(feature, last.content) ==> total_sites(feature, all, true) == total_sites(
                feature,
                resources,
                true,
            ) && total_sites(feature, all, false) == total_sites(feature, resources, false)
        }),
{
    let all = resources.push(last);
    assert(all.drop_last() =~= resources);
    lemma_shows(feature, last.content);
    lemma_count_is_filter(feature_sites(feature, last.content));
}

/// The report lists each feature of the set with its counts, whatever the plan comes to.
pub proof fn lemma_report_lists_the_features<D: Detector>(
    set: SetSpec<D>,
    resources: Seq<ResourceSpec>,
    f: int,
)
    requires
        0 <= f < set.features.len(),
    ensures
        ({
            let report = plan_of(set, resources).report;
            let feature = set.features[f];
            let guarded = total_sites(feature, resources, true);
            let patched = total_sites(feature, resources, false);
            &&& report.id == set.id
            &&& report.label == set.label
            &&& report.features.len() == set.features.len()
            &&& report.features[f].id == feature.id@
            &&& report.features[f].label == feature.label@
            &&& report.features[f].role == feature.role
            &&& guarded <= usize::MAX ==> report.features[f].guarded_sites == guarded
            &&& patched <= usize::MAX ==> report.features[f].patched_sites == patched
        }),
{
}

// ---------------------------------------------------------------------------
// What the messages say

proof fn lemma_present_keeps<T>(items: Seq<Option<T>>, k: int)
    requires
        0 <= k < items.len(),
        items[k] is Some,
    ensures
        present(items).contains(items[k]->0),
    decreases items.len(),
{
    let rest = items.drop_last();
    let all = present(items);
    if k == rest.len() {
        assert(all[all.len() - 1] == items[k]->0);
    } else {
        lemma_present_keeps(rest, k);
        let j = choose|j: int| 0 <= j < present(rest).len() && present(rest)[j] == items[k]->0;
        assert(all[j] == items[k]->0);
    }
}

proof fn lemma_chained_keeps<T>(parts: Seq<Seq<T>>, k: int, item: T)
    requires
        0 <= k < parts.len(),
        parts[k].contains(item),
    ensures
        chained(parts).contains(item),
    decreases parts.len(),
{
    let rest = parts.drop_last();
    let all = chained(parts);
    if k == rest.len() {
        let j = choose|j: int| 0 <= j < parts[k].len() && parts[k][j] == item;
        assert(all[chained(rest).len() + j] == item);
    } else {
        lemma_chained_keeps(rest, k, item);
        let j = choose|j: int| 0 <= j < chained(rest).len() && chained(rest)[j] == item;
        assert(all[j] == item);
    }
}

proof fn lemma_messages_stay<D: Detector>(
    set: SetSpec<D>,
    resources: Seq<ResourceSpec>,
    message: Seq<char>,
)
    requires
        first_report(set, resources).messages.contains(message),
    ensures
        plan_of(set, resources).report.messages.contains(message),
{
    let first = first_report(set, resources).messages;
    let all = plan_of(set, resources).report.messages;
    let k = choose|k: int| 0 <= k < first.len() && first[k] == message;
    assert(all[k] == message);
}

/// A feature that shows nowhere is named in the messages. Where nothing works without it, the
/// plan is unsafe and patches nothing.
pub proof fn lemma_missing_feature_is_named<D: Detector>(
    set: SetSpec<D>,
    resources: Seq<ResourceSpec>,
    f: int,
)
    requires
        0 <= f < set.features.len(),
        shows_nowhere(set.features[f], resources),
    ensures
        ({
            let feature = set.features[f];
            let plan = plan_of(set, resources);
            &&& plan.report.messages.contains(
                feature.label@ + " ("@ + feature.id@ + ") was not found"@,
            )
            &&& plan.report.status != PatchStatus::Complete
            &&& feature.role == FeatureRole::Core ==> plan.report.status == PatchStatus::Unsafe
                && plan.resources.len() == 0
        }),
{
    let feature = set.features[f];
    let reports = feature_reports(set.features, resources);
    lemma_counts_add(feature, resources);
    assert(is_missing(reports[f]));
    let messages = reports.map_values(|r: FeatureReportSpec| missing_message(r));
    let text = feature.label@ + " ("@ + feature.id@ + ") was not found"@;
    assert(messages[f] == Some(text)) by {
        reveal_with_fuel(joined, 5);
        assert(joined(seq![feature.label@, " ("@, feature.id@, ") was not found"@]) =~= text);
    }
    lemma_present_keeps(messages, f);
    let first = first_report(set, resources).messages;
    let named = present(messages);
    let j = choose|j: int| 0 <= j < named.len() && named[j] == text;
    assert(first[j] == text);
    lemma_messages_stay(set, resources, text);
    assert(misses(reports, feature.role));
    match feature.role {
        FeatureRole::Core => {},
        FeatureRole::UiEntry => {},
    }
}

/// A plan is complete only where every feature shows somewhere, and one that is degraded still
/// shows every feature that nothing works without.
pub proof fn lemma_safe_plan_shows_the_features<D: Detector>(
    set: SetSpec<D>,
    resources: Seq<ResourceSpec>,
    f: int,
)
    requires
        0 <= f < set.features.len(),
        plan_of(set, resources).report.status != PatchStatus::Unsafe,
    ensures
        set.features[f].role == FeatureRole::Core || plan_of(set, resources).report.status
            == PatchStatus::Complete ==> exists|r: int|
            0 <= r < resources.len() && shows(set.features[f], (#[trigger] resources[r]).content),
        plan_of(set, resources).resources.len() == resources.len(),
{
    if shows_nowhere(set.features[f], resources) {
        lemma_missing_feature_is_named(set, resources, f);
    }
}

/// What is wrong with a site: it does not cover whole characters of the source, or an edit of it
/// does not, or leaves it.
pub open spec fn site_is_broken(content: Seq<char>, site: SiteSpec) -> bool {
    ||| !covers_characters(content, site.start, site.end)
    ||| exists|k: int| 0 <= k < site.edits.len() && !#[trigger] edit_stays(content, site, k)
}

/// An edit covers whole characters inside its site.
pub open spec fn edit_stays(content: Seq<char>, site: SiteSpec, k: int) -> bool {
    &&& covers_characters(content, site.edits[k].start, site.edits[k].end)
    &&& site.start <= site.edits[k].start
    &&& site.edits[k].end <= site.end
}

/// Some bytes are those of one or more characters of a source.
pub open spec fn covers_characters(content: Seq<char>, start: int, end: int) -> bool {
    exists|i: int, j: int|
        0 <= i < j <= content.len() && #[trigger] byte_offset(content, i) == start && #[trigger]
        byte_offset(content, j) == end
}

proof fn lemma_covers(content: Seq<char>, start: int, end: int)
    ensures
        covers_characters(content, start, end) <==> valid_span(content, start, end),
{
    reveal(crate::text::at_boundary);
    if covers_characters(content, start, end) {
        let (i, j) = choose|i: int, j: int|
            0 <= i < j <= content.len() && #[trigger] byte_offset(content, i) == start
                && #[trigger] byte_offset(content, j) == end;
        crate::text::lemma_offset_is_boundary(content, i);
        crate::text::lemma_offset_is_boundary(content, j);
        crate::text::lemma_offset_monotone(content, i, j);
        crate::text::lemma_at_boundary(content, start);
        crate::text::lemma_at_boundary(content, end);
    }
    if valid_span(content, start, end) {
        let i = crate::text::lemma_boundary_is_offset(content, start);
        let j = crate::text::lemma_boundary_is_offset(content, end);
        if j <= i {
            crate::text::lemma_offset_monotone(content, j, i);
        }
    }
}

/// A site that is broken makes the plan unsafe, and its message names the feature and the
/// source.
pub proof fn lemma_broken_site_is_named<D: Detector>(
    set: SetSpec<D>,
    resources: Seq<ResourceSpec>,
    r: int,
    f: int,
    site: SiteSpec,
)
    requires
        0 <= r < resources.len(),
        0 <= f < set.features.len(),
        shows(set.features[f], resources[r].content),
        set.features[f].detector.sites(resources[r].content).contains(site),
        site_is_broken(resources[r].content, site),
    ensures
        ({
            let plan = plan_of(set, resources);
            let label = set.features[f].label@;
            let content = resources[r].content;
            let reason = if covers_characters(content, site.start, site.end) {
                "invalid edit range"@
            } else {
                "invalid site range"@
            };
            &&& plan.report.status == PatchStatus::Unsafe
            &&& plan.resources.len() == 0
            &&& plan.report.messages.contains(
                label + " in "@ + resources[r].key + " is unsafe: "@ + reason,
            )
        }),
{
    let feature = set.features[f];
    let resource = resources[r];
    let content = resource.content;
    let label = feature.label@;
    let reason = if covers_characters(content, site.start, site.end) {
        "invalid edit range"@
    } else {
        "invalid site range"@
    };
    let text = label + " in "@ + resource.key + " is unsafe: "@ + reason;
    lemma_shows(feature, content);
    lemma_distinct_sites(feature.detector.sites(content));
    lemma_covers(content, site.start, site.end);
    if covers_characters(content, site.start, site.end) {
        let k = choose|k: int| 0 <= k < site.edits.len() && !#[trigger] edit_stays(content, site, k);
        lemma_covers(content, site.edits[k].start, site.edits[k].end);
        assert(edit_is_invalid(content, site, k));
    }
    assert(invalid_reason(content, site) == Some(reason));
    assert(site_problem(label, resource, site) == Some(text)) by {
        reveal_with_fuel(joined, 6);
        assert(joined(seq![label, " in "@, resource.key, " is unsafe: "@, reason]) =~= text);
    }
    let sites = feature_sites(feature, content);
    let problems = sites.map_values(|site: SiteSpec| site_problem(label, resource, site));
    assert(sites.contains(site)) by {
        assert(distinct_sites(feature.detector.sites(content)).contains(site));
    }
    let k = choose|k: int| 0 <= k < sites.len() && sites[k] == site;
    assert(problems[k] == Some(text));
    lemma_present_keeps(problems, k);
    let by_feature = set.features.map_values(
        |feature: Feature<D>| feature_problems(feature, resource),
    );
    assert(by_feature[f].contains(text));
    lemma_chained_keeps(by_feature, f, text);
    let by_resource = resources.map_values(
        |resource: ResourceSpec| resource_problems(set.features, resource),
    );
    assert(by_resource[r].contains(text));
    lemma_chained_keeps(by_resource, r, text);
    let all = all_problems(set.features, resources);
    assert(all.contains(text));
    let first = first_report(set, resources).messages;
    let j = choose|j: int| 0 <= j < all.len() && all[j] == text;
    let named = present(
        feature_reports(set.features, resources).map_values(
            |r: FeatureReportSpec| missing_message(r),
        ),
    );
    assert(first[named.len() + j] == text);
    lemma_messages_stay(set, resources, text);
}

/// Of two edits next to each other the second may not start before the first ends: the plan is
/// unsafe, and its message gives the bytes of both.
pub proof fn lemma_two_edits_collide<D: Detector>(
    set: SetSpec<D>,
    resources: Seq<ResourceSpec>,
    r: int,
    k: int,
)
    requires
        0 <= r < resources.len(),
        first_report(set, resources).status != PatchStatus::Unsafe,
        0 <= k,
        k + 1 < resource_edits(set.features, resources[r].content).len(),
        ({
            let edits = resource_edits(set.features, resources[r].content);
            edits[k + 1].start < edits[k].end && edits[k].start >= 0 && edits[k].end >= 0
                && edits[k + 1].start >= 0 && edits[k + 1].end >= 0
        }),
    ensures
        ({
            let plan = plan_of(set, resources);
            let edits = resource_edits(set.features, resources[r].content);
            &&& plan.report.status == PatchStatus::Unsafe
            &&& plan.resources.len() == 0
            &&& plan.report.messages.contains(
                "overlapping edits at "@ + decimal(edits[k].start as nat) + ".."@ + decimal(
                    edits[k].end as nat,
                ) + " and "@ + decimal(edits[k + 1].start as nat) + ".."@ + decimal(
                    edits[k + 1].end as nat,
                ),
            )
        }),
{
    let edits = resource_edits(set.features, resources[r].content);
    let text = "overlapping edits at "@ + decimal(edits[k].start as nat) + ".."@ + decimal(
        edits[k].end as nat,
    ) + " and "@ + decimal(edits[k + 1].start as nat) + ".."@ + decimal(edits[k + 1].end as nat);
    assert(conflict_message(edits[k], edits[k + 1]) == text) by {
        reveal_with_fuel(joined, 9);
        assert(conflict_message(edits[k], edits[k + 1]) =~= text);
    }
    let from = conflicts_from(edits, k, k + 1);
    assert(from[0] == text);
    assert(from.contains(text));
    let each = Seq::new(edits.len(), |i: int| conflicts_from(edits, i, i + 1));
    assert(each[k] == from);
    lemma_chained_keeps(each, k, text);
    let by_resource = resources.map_values(
        |resource: ResourceSpec| edit_conflicts(resource_edits(set.features, resource.content)),
    );
    assert(by_resource[r].contains(text));
    lemma_chained_keeps(by_resource, r, text);
    let all = all_conflicts(set.features, resources);
    assert(all.contains(text));
    let first = first_report(set, resources).messages;
    let j = choose|j: int| 0 <= j < all.len() && all[j] == text;
    assert((first + all)[first.len() + j] == text);
}

// ---------------------------------------------------------------------------
// What is handed out

/// A plan that patches hands out each source under its key, with the labels of the features
/// that show in it, and required where one of them is one that nothing works without.
pub proof fn lemma_patched_source_is_labelled<D: Detector>(
    set: SetSpec<D>,
    resources: Seq<ResourceSpec>,
    r: int,
    f: int,
)
    requires
        plan_of(set, resources).report.status != PatchStatus::Unsafe,
        0 <= r < resources.len(),
        0 <= f < set.features.len(),
    ensures
        ({
            let patched = plan_of(set, resources).resources[r];
            let content = resources[r].content;
            &&& patched.key == resources[r].key
            &&& shows(set.features[f], content) ==> patched.labels.contains(set.features[f].label@)
            &&& shows(set.features[f], content) && set.features[f].role == FeatureRole::Core
                ==> patched.required_for_ready
            &&& (forall|g: int|
                0 <= g < set.features.len() && (#[trigger] set.features[g]).label@
                    == set.features[f].label@ ==> !shows(set.features[g], content))
                ==> !patched.labels.contains(set.features[f].label@)
            &&& (forall|g: int|
                0 <= g < set.features.len() && (#[trigger] set.features[g]).role
                    == FeatureRole::Core ==> !shows(set.features[g], content))
                ==> !patched.required_for_ready
        }),
{
    let content = resources[r].content;
    lemma_shows(set.features[f], content);
    assert forall|g: int| 0 <= g < set.features.len() implies shows(
        #[trigger] set.features[g],
        content,
    ) == (feature_sites(set.features[g], content).len() > 0) by {
        lemma_shows(set.features[g], content);
    }
}

proof fn lemma_edits_of_sites<D: Detector>(
    features: Seq<Feature<D>>,
    content: Seq<char>,
    f: int,
    site: SiteSpec,
    edit: EditSpec,
)
    requires
        0 <= f < features.len(),
        shows(features[f], content),
        features[f].detector.sites(content).contains(site),
        site.edits.contains(edit),
    ensures
        site_edits(features, content).contains(edit),
{
    let feature = features[f];
    lemma_shows(feature, content);
    lemma_distinct_sites(feature.detector.sites(content));
    let sites = feature_sites(feature, content);
    assert(sites.contains(site));
    let k = choose|k: int| 0 <= k < sites.len() && sites[k] == site;
    let lists = sites.map_values(|site: SiteSpec| site.edits);
    assert(lists[k] == site.edits);
    lemma_chained_keeps(lists, k, edit);
    let parts = features.map_values(
        |feature: Feature<D>|
            chained(feature_sites(feature, content).map_values(|site: SiteSpec| site.edits)),
    );
    assert(parts[f].contains(edit));
    lemma_chained_keeps(parts, f, edit);
}

/// Every edit of every site of a feature that shows is made, and the edits of a source stand in
/// the order of their bytes.
pub proof fn lemma_every_edit_is_made<D: Detector>(
    features: Seq<Feature<D>>,
    content: Seq<char>,
    f: int,
    site: SiteSpec,
    edit: EditSpec,
)
    requires
        0 <= f < features.len(),
        shows(features[f], content),
        features[f].detector.sites(content).contains(site),
        site.edits.contains(edit),
    ensures
        resource_edits(features, content).contains(edit),
        forall|i: int, j: int|
            0 <= i < j < resource_edits(features, content).len() ==> (#[trigger] resource_edits(
                features,
                content,
            )[i]).start <= (#[trigger] resource_edits(features, content)[j]).start,
        resource_edits(features, content).no_duplicates(),
{
    lemma_edits_of_sites(features, content, f, site, edit);
    let all = site_edits(features, content);
    lemma_sorted_edits(all);
    let edits = resource_edits(features, content);
    assert forall|i: int, j: int| 0 <= i < j < edits.len() implies #[trigger] edits[i]
        != #[trigger] edits[j] by {
        crate::patch::edits::lemma_edit_less_order(edits[i], edits[j], edits[i]);
    }
}

/// A source with one edit keeps its bytes before and behind the edit, and has the replacement
/// between them.
pub proof fn lemma_one_edit_replaces_its_bytes(content: Seq<char>, edit: EditSpec)
    requires
        covers_characters(content, edit.start, edit.end),
    ensures
        encode_utf8(edited(content, seq![edit])) == encode_utf8(content).take(edit.start)
            + encode_utf8(edit.replacement) + encode_utf8(content).skip(edit.end),
{
    lemma_covers(content, edit.start, edit.end);
    let edits = seq![edit];
    assert(edits_fit(content, edits));
    crate::patch::edits::lemma_edited_bytes(content, edits);
    reveal_with_fuel(crate::patch::edits::edited_bytes, 2);
    let bytes = encode_utf8(content);
    assert(bytes.subrange(0, edit.start) =~= bytes.take(edit.start));
    assert(bytes.subrange(edit.end, bytes.len() as int) =~= bytes.skip(edit.end));
    assert(Seq::<u8>::empty() + bytes.take(edit.start) =~= bytes.take(edit.start));
}

/// A source with two edits keeps its bytes before, between and behind them.
pub proof fn lemma_two_edits_replace_their_bytes(content: Seq<char>, left: EditSpec, right: EditSpec)
    requires
        covers_characters(content, left.start, left.end),
        covers_characters(content, right.start, right.end),
        left.end <= right.start,
    ensures
        encode_utf8(edited(content, seq![left, right])) == encode_utf8(content).take(left.start)
            + encode_utf8(left.replacement) + encode_utf8(content).subrange(left.end, right.start)
            + encode_utf8(right.replacement) + encode_utf8(content).skip(right.end),
{
    lemma_covers(content, left.start, left.end);
    lemma_covers(content, right.start, right.end);
    let edits = seq![left, right];
    assert forall|k: int| 0 <= k < edits.len() implies #[trigger] crate::patch::edits::edit_fits(
        content,
        edits,
        k,
    ) by {
        assert(k == 0 || k == 1);
    }
    crate::patch::edits::lemma_edited_bytes(content, edits);
    reveal_with_fuel(crate::patch::edits::edited_bytes, 3);
    let bytes = encode_utf8(content);
    assert(bytes.subrange(0, left.start) =~= bytes.take(left.start));
    assert(bytes.subrange(right.end, bytes.len() as int) =~= bytes.skip(right.end));
    assert(Seq::<u8>::empty() + bytes.take(left.start) =~= bytes.take(left.start));
}

// ---------------------------------------------------------------------------
// Which sources are kept

/// Some feature shows in a source.
pub open spec fn shows_some<D: Detector>(features: Seq<Feature<D>>, content: Seq<char>) -> bool {
    exists|f: int| 0 <= f < features.len() && shows(#[trigger] features[f], content)
}

/// Some feature shows in a source exactly where some feature has a site in it.
pub proof fn lemma_shows_some<D: Detector>(features: Seq<Feature<D>>, content: Seq<char>)
    ensures
        shows_some(features, content) <==> has_sites(features, content),
{
    assert forall|f: int| 0 <= f < features.len() implies shows(#[trigger] features[f], content)
        == (feature_sites(features[f], content).len() > 0) by {
        lemma_shows(features[f], content);
    }
    if shows_some(features, content) {
        let f = choose|f: int| 0 <= f < features.len() && shows(#[trigger] features[f], content);
        assert(feature_sites(features[f], content).len() > 0);
    }
    if has_sites(features, content) {
        let f = choose|f: int|
            0 <= f < features.len() && (#[trigger] feature_sites(features[f], content)).len() > 0;
        assert(shows(features[f], content));
    }
}

/// One source more: it is kept exactly where some feature shows in it and no kept source has
/// its key, and nothing else changes.
pub proof fn lemma_source_is_kept<D: Detector>(
    features: Seq<Feature<D>>,
    sources: Seq<ResourceSpec>,
    last: ResourceSpec,
)
    ensures
        ({
            let before = scanned(features, sources);
            let after = scanned(features, sources.push(last));
            let taken = exists|r: int| 0 <= r < before.len() && (#[trigger] before[r]).key
                == last.key;
            &&& shows_some(features, last.content) && !taken ==> after.len() == before.len() + 1
                && after.contains(last)
            &&& !shows_some(features, last.content) || taken ==> after == before
            &&& forall|r: int| 0 <= r < before.len() ==> after.contains(#[trigger] before[r])
        }),
{
    let all = sources.push(last);
    assert(all.drop_last() =~= sources);
    let before = scanned(features, sources);
    let after = scanned(features, all);
    lemma_shows_some(features, last.content);
    let keys = resource_keys(before);
    let place = rank(keys, last.key);
    lemma_rank_bounds(keys, last.key);
    if keys.contains(last.key) {
        let r = choose|r: int| 0 <= r < keys.len() && keys[r] == last.key;
        assert(before[r].key == last.key);
    }
    assert forall|r: int| 0 <= r < before.len() implies after.contains(#[trigger] before[r]) by {
        assert(keys[r] == before[r].key);
        if !keys.contains(last.key) && has_sites(features, last.content) {
            assert(after == before.insert(place, last));
            if r < place {
                assert(after[r] == before[r]);
            } else {
                assert(after[r + 1] == before[r]);
            }
        } else {
            assert(after == before);
        }
    }
    if exists|r: int| 0 <= r < before.len() && (#[trigger] before[r]).key == last.key {
        let r = choose|r: int| 0 <= r < before.len() && (#[trigger] before[r]).key == last.key;
        assert(keys[r] == last.key);
        assert(keys.contains(last.key));
    } else if shows_some(features, last.content) {
        assert(!keys.contains(last.key));
        assert(after == before.insert(place, last));
        assert(after[place] == last);
    }
}

/// A rank is a place among the keys, or behind them.
pub proof fn lemma_rank_bounds(keys: Seq<Seq<char>>, key: Seq<char>)
    ensures
        0 <= rank(keys, key) <= keys.len(),
    decreases keys.len(),
{
    if keys.len() > 0 {
        lemma_rank_bounds(keys.drop_first(), key);
    }
}

} // verus!
