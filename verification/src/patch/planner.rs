//! Plans the edits of a patch set across sources.

use vstd::prelude::*;

use crate::js_tokens::Tokens;
use crate::patch::edits::{
    add_edit, apply_sorted_edits, edit_fits, edited, edits_fit, lemma_no_edits, lemma_sorted_edits,
    sorted_edits, valid_range, valid_span, PatchError,
};
use crate::patch::{
    chained, edits_view, lemma_chained_contains, lemma_chained_empty, lemma_present_empty, present,
    sites_view, Detector, Edit, EditSpec, Feature, FeatureRole, PatchSet, SetSpec, Site, SiteSpec,
};
use crate::text::{concat, decimal, decimal_text, joined, text_less, texts};
use crate::text_map::{
    lemma_insert_sorted, lemma_rank, lemma_rank_unique, rank, sorted, strings_view, TextMap,
    TextSet,
};

verus! {

// ---------------------------------------------------------------------------
// What a plan is

#[derive(Clone, Copy, Debug, PartialEq, Eq, Structural)]
pub enum PatchStatus {
    /// Every feature was found.
    Complete,
    /// An entry point was not found.
    Degraded,
    /// Nothing may be patched.
    Unsafe,
}

/// A source with its key.
pub struct ResourceSpec {
    pub key: Seq<char>,
    pub content: Seq<char>,
}

#[verifier::ext_equal]
pub struct FeatureReportSpec {
    pub id: Seq<char>,
    pub label: Seq<char>,
    pub role: FeatureRole,
    pub guarded_sites: int,
    pub patched_sites: int,
}

#[verifier::ext_equal]
pub struct ReportSpec {
    pub id: Seq<char>,
    pub label: Seq<char>,
    pub status: PatchStatus,
    pub features: Seq<FeatureReportSpec>,
    pub messages: Seq<Seq<char>>,
}

#[verifier::ext_equal]
pub struct PatchedResourceSpec {
    pub key: Seq<char>,
    pub content: Seq<char>,
    pub labels: Set<Seq<char>>,
    pub required_for_ready: bool,
}

#[verifier::ext_equal]
pub struct PlanSpec {
    pub report: ReportSpec,
    pub resources: Seq<PatchedResourceSpec>,
}

/// The sites of a feature in a source.
pub open spec fn feature_sites<D: Detector>(feature: Feature<D>, content: Seq<char>) -> Seq<
    SiteSpec,
> {
    if feature.active_in(content) {
        feature.sites(content)
    } else {
        Seq::empty()
    }
}

/// Some feature has a site in the source.
pub open spec fn has_sites<D: Detector>(features: Seq<Feature<D>>, content: Seq<char>) -> bool {
    exists|f: int|
        0 <= f < features.len() && (#[trigger] feature_sites(features[f], content)).len() > 0
}

/// How many of the sites are still to patch, or already patched.
pub open spec fn site_count(sites: Seq<SiteSpec>, guarded: bool) -> int
    decreases sites.len(),
{
    if sites.len() == 0 {
        0
    } else {
        site_count(sites.drop_last(), guarded) + if (sites.last().edits.len() > 0) == guarded {
            1int
        } else {
            0
        }
    }
}

/// How many sites of a feature are still to patch, or already patched, in all sources.
pub open spec fn total_sites<D: Detector>(
    feature: Feature<D>,
    resources: Seq<ResourceSpec>,
    guarded: bool,
) -> int
    decreases resources.len(),
{
    if resources.len() == 0 {
        0
    } else {
        total_sites(feature, resources.drop_last(), guarded) + site_count(
            feature_sites(feature, resources.last().content),
            guarded,
        )
    }
}

/// A count as a machine word shows it.
pub open spec fn saturated(n: int) -> int {
    if n > usize::MAX {
        usize::MAX as int
    } else {
        n
    }
}

pub open spec fn feature_report<D: Detector>(
    feature: Feature<D>,
    resources: Seq<ResourceSpec>,
) -> FeatureReportSpec {
    FeatureReportSpec {
        id: feature.id@,
        label: feature.label@,
        role: feature.role,
        guarded_sites: saturated(total_sites(feature, resources, true)),
        patched_sites: saturated(total_sites(feature, resources, false)),
    }
}

pub open spec fn feature_reports<D: Detector>(
    features: Seq<Feature<D>>,
    resources: Seq<ResourceSpec>,
) -> Seq<FeatureReportSpec> {
    features.map_values(|feature: Feature<D>| feature_report(feature, resources))
}

pub open spec fn is_missing(report: FeatureReportSpec) -> bool {
    report.guarded_sites == 0 && report.patched_sites == 0
}

pub open spec fn missing_message(report: FeatureReportSpec) -> Option<Seq<char>> {
    if is_missing(report) {
        Some(joined(seq![report.label, " ("@, report.id, ") was not found"@]))
    } else {
        None
    }
}

/// Some feature of this role was not found.
pub open spec fn misses(reports: Seq<FeatureReportSpec>, role: FeatureRole) -> bool {
    exists|f: int|
        0 <= f < reports.len() && is_missing(#[trigger] reports[f]) && reports[f].role == role
}

/// An edit does not cover whole characters, or leaves its site.
pub open spec fn edit_is_invalid(content: Seq<char>, site: SiteSpec, k: int) -> bool {
    ||| !valid_span(content, site.edits[k].start, site.edits[k].end)
    ||| site.edits[k].start < site.start
    ||| site.edits[k].end > site.end
}

/// What is wrong with a site.
pub open spec fn invalid_reason(content: Seq<char>, site: SiteSpec) -> Option<Seq<char>> {
    if !valid_span(content, site.start, site.end) {
        Some("invalid site range"@)
    } else if exists|k: int| 0 <= k < site.edits.len() && #[trigger] edit_is_invalid(content, site, k) {
        Some("invalid edit range"@)
    } else {
        None
    }
}

pub open spec fn site_problem(
    label: Seq<char>,
    resource: ResourceSpec,
    site: SiteSpec,
) -> Option<Seq<char>> {
    match invalid_reason(resource.content, site) {
        Some(reason) => Some(joined(seq![label, " in "@, resource.key, " is unsafe: "@, reason])),
        None => None,
    }
}

pub open spec fn feature_problems<D: Detector>(
    feature: Feature<D>,
    resource: ResourceSpec,
) -> Seq<Seq<char>> {
    present(
        feature_sites(feature, resource.content).map_values(
            |site: SiteSpec| site_problem(feature.label@, resource, site),
        ),
    )
}

pub open spec fn resource_problems<D: Detector>(
    features: Seq<Feature<D>>,
    resource: ResourceSpec,
) -> Seq<Seq<char>> {
    chained(features.map_values(|feature: Feature<D>| feature_problems(feature, resource)))
}

/// What is wrong with the sites of all sources.
pub open spec fn all_problems<D: Detector>(
    features: Seq<Feature<D>>,
    resources: Seq<ResourceSpec>,
) -> Seq<Seq<char>> {
    chained(resources.map_values(|resource: ResourceSpec| resource_problems(features, resource)))
}

/// The report before anything is patched.
pub open spec fn first_report<D: Detector>(
    set: SetSpec<D>,
    resources: Seq<ResourceSpec>,
) -> ReportSpec {
    let reports = feature_reports(set.features, resources);
    let problems = all_problems(set.features, resources);
    ReportSpec {
        id: set.id,
        label: set.label,
        status: if problems.len() > 0 || misses(reports, FeatureRole::Core) {
            PatchStatus::Unsafe
        } else if misses(reports, FeatureRole::UiEntry) {
            PatchStatus::Degraded
        } else {
            PatchStatus::Complete
        },
        features: reports,
        messages: present(reports.map_values(|r: FeatureReportSpec| missing_message(r)))
            + problems,
    }
}

/// Every edit of every site in a source.
pub open spec fn site_edits<D: Detector>(features: Seq<Feature<D>>, content: Seq<char>) -> Seq<
    EditSpec,
> {
    chained(
        features.map_values(
            |feature: Feature<D>|
                chained(feature_sites(feature, content).map_values(|site: SiteSpec| site.edits)),
        ),
    )
}

/// The edits of a source, in order, each once.
pub open spec fn resource_edits<D: Detector>(features: Seq<Feature<D>>, content: Seq<char>) -> Seq<
    EditSpec,
> {
    sorted_edits(site_edits(features, content))
}

pub open spec fn conflict_message(left: EditSpec, right: EditSpec) -> Seq<char> {
    joined(
        seq![
            "overlapping edits at "@,
            decimal(left.start as nat),
            ".."@,
            decimal(left.end as nat),
            " and "@,
            decimal(right.start as nat),
            ".."@,
            decimal(right.end as nat),
        ],
    )
}

/// The edits from `j` on that start before the `i`-th ends.
pub open spec fn conflicts_from(edits: Seq<EditSpec>, i: int, j: int) -> Seq<Seq<char>>
    decreases edits.len() - j,
{
    if j < edits.len() && edits[j].start < edits[i].end {
        seq![conflict_message(edits[i], edits[j])] + conflicts_from(edits, i, j + 1)
    } else {
        Seq::empty()
    }
}

pub open spec fn edit_conflicts(edits: Seq<EditSpec>) -> Seq<Seq<char>> {
    chained(Seq::new(edits.len(), |i: int| conflicts_from(edits, i, i + 1)))
}

pub open spec fn all_conflicts<D: Detector>(
    features: Seq<Feature<D>>,
    resources: Seq<ResourceSpec>,
) -> Seq<Seq<char>> {
    chained(
        resources.map_values(
            |resource: ResourceSpec| edit_conflicts(resource_edits(features, resource.content)),
        ),
    )
}

/// A source with its edits made.
pub open spec fn patched_content<D: Detector>(
    features: Seq<Feature<D>>,
    content: Seq<char>,
) -> Seq<char> {
    edited(content, resource_edits(features, content))
}

/// What is wrong with the first site that has something wrong.
pub open spec fn first_reason(content: Seq<char>, sites: Seq<SiteSpec>) -> Option<Seq<char>> {
    let reasons = present(sites.map_values(|site: SiteSpec| invalid_reason(content, site)));
    if reasons.len() > 0 {
        Some(reasons[0])
    } else {
        None
    }
}

/// How a feature fails to be found patched in a source that was patched.
pub open spec fn verification_failure<D: Detector>(
    features: Seq<Feature<D>>,
    feature: Feature<D>,
    resource: ResourceSpec,
) -> Option<Seq<char>> {
    let content = patched_content(features, resource.content);
    let before = feature_sites(feature, resource.content);
    let after = feature_sites(feature, content);
    if after.len() != before.len() {
        Some(
            joined(
                seq![
                    feature.label@,
                    " site count changed in "@,
                    resource.key,
                    " from "@,
                    decimal(before.len()),
                    " to "@,
                    decimal(after.len()),
                    " after patching"@,
                ],
            ),
        )
    } else {
        match first_reason(content, after) {
            Some(reason) => Some(
                joined(
                    seq![
                        feature.label@,
                        " in "@,
                        resource.key,
                        " is unsafe after patching: "@,
                        reason,
                    ],
                ),
            ),
            None => if site_count(after, true) > 0 {
                Some(
                    joined(
                        seq![
                            feature.label@,
                            " in "@,
                            resource.key,
                            " did not re-detect as fully patched"@,
                        ],
                    ),
                )
            } else {
                None
            },
        }
    }
}

pub open spec fn feature_failures<D: Detector>(
    features: Seq<Feature<D>>,
    feature: Feature<D>,
    resources: Seq<ResourceSpec>,
) -> Seq<Seq<char>> {
    present(
        resources.map_values(
            |resource: ResourceSpec| verification_failure(features, feature, resource),
        ),
    )
}

/// How the patched sources fail to be found patched.
pub open spec fn verification_failures<D: Detector>(
    features: Seq<Feature<D>>,
    resources: Seq<ResourceSpec>,
) -> Seq<Seq<char>> {
    chained(
        features.map_values(
            |feature: Feature<D>| feature_failures(features, feature, resources),
        ),
    )
}

pub open spec fn feature_labels<D: Detector>(features: Seq<Feature<D>>, content: Seq<char>) -> Set<
    Seq<char>,
> {
    Set::new(
        |label: Seq<char>|
            exists|f: int|
                0 <= f < features.len() && (#[trigger] feature_sites(features[f], content)).len()
                    > 0 && features[f].label@ == label,
    )
}

pub open spec fn has_core_site<D: Detector>(
    features: Seq<Feature<D>>,
    content: Seq<char>,
) -> bool {
    exists|f: int|
        0 <= f < features.len() && (#[trigger] feature_sites(features[f], content)).len() > 0
            && features[f].role == FeatureRole::Core
}

pub open spec fn patched_resource<D: Detector>(
    features: Seq<Feature<D>>,
    resource: ResourceSpec,
) -> PatchedResourceSpec {
    PatchedResourceSpec {
        key: resource.key,
        content: patched_content(features, resource.content),
        labels: feature_labels(features, resource.content),
        required_for_ready: has_core_site(features, resource.content),
    }
}

/// Keys of some sources.
pub open spec fn resource_keys(resources: Seq<ResourceSpec>) -> Seq<Seq<char>> {
    resources.map_values(|resource: ResourceSpec| resource.key)
}

/// The sources with one more, in the order of their keys. One without sites is left out, and
/// so is one whose key is taken.
pub open spec fn with_source<D: Detector>(
    features: Seq<Feature<D>>,
    resources: Seq<ResourceSpec>,
    source: ResourceSpec,
) -> Seq<ResourceSpec> {
    if !resource_keys(resources).contains(source.key) && has_sites(features, source.content) {
        resources.insert(rank(resource_keys(resources), source.key), source)
    } else {
        resources
    }
}

/// What is kept of some sources that are scanned one after the other.
pub open spec fn scanned<D: Detector>(
    features: Seq<Feature<D>>,
    sources: Seq<ResourceSpec>,
) -> Seq<ResourceSpec>
    decreases sources.len(),
{
    if sources.len() == 0 {
        Seq::empty()
    } else {
        with_source(features, scanned(features, sources.drop_last()), sources.last())
    }
}

/// A plan that patches nothing.
pub open spec fn blocked(report: ReportSpec, failures: Seq<Seq<char>>) -> PlanSpec {
    PlanSpec {
        report: ReportSpec {
            status: PatchStatus::Unsafe,
            messages: report.messages + failures,
            ..report
        },
        resources: Seq::empty(),
    }
}

/// The plan for some sources, in the order of their keys.
pub open spec fn plan_of<D: Detector>(set: SetSpec<D>, resources: Seq<ResourceSpec>) -> PlanSpec {
    let features = set.features;
    let report = first_report(set, resources);
    if report.status == PatchStatus::Unsafe {
        blocked(report, Seq::empty())
    } else if all_conflicts(features, resources).len() > 0 {
        blocked(report, all_conflicts(features, resources))
    } else if verification_failures(features, resources).len() > 0 {
        blocked(report, verification_failures(features, resources))
    } else {
        PlanSpec {
            report,
            resources: resources.map_values(
                |resource: ResourceSpec| patched_resource(features, resource),
            ),
        }
    }
}

// ---------------------------------------------------------------------------
// Laws

proof fn lemma_site_count(sites: Seq<SiteSpec>)
    ensures
        0 <= site_count(sites, true),
        0 <= site_count(sites, false),
        site_count(sites, true) + site_count(sites, false) == sites.len(),
        site_count(sites, true) == 0 <==> forall|k: int|
            0 <= k < sites.len() ==> (#[trigger] sites[k]).edits.len() == 0,
    decreases sites.len(),
{
    if sites.len() > 0 {
        let rest = sites.drop_last();
        lemma_site_count(rest);
        if site_count(sites, true) == 0 {
            assert forall|k: int| 0 <= k < sites.len() implies (
            #[trigger] sites[k]).edits.len() == 0 by {
                if k < rest.len() {
                    assert(rest[k].edits.len() == 0);
                }
            }
        } else if forall|k: int| 0 <= k < sites.len() ==> (
        #[trigger] sites[k]).edits.len() == 0 {
            assert forall|k: int| 0 <= k < rest.len() implies (
            #[trigger] rest[k]).edits.len() == 0 by {
                assert(sites[k].edits.len() == 0);
            }
            assert(sites[sites.len() - 1].edits.len() == 0);
        }
    }
}

/// A plan whose status is unsafe patches nothing, and any other patches every source.
pub proof fn lemma_unsafe_plan_is_empty<D: Detector>(
    set: SetSpec<D>,
    resources: Seq<ResourceSpec>,
)
    ensures
        plan_of(set, resources).report.status == PatchStatus::Unsafe ==> plan_of(
            set,
            resources,
        ).resources.len() == 0,
        plan_of(set, resources).report.status != PatchStatus::Unsafe ==> plan_of(
            set,
            resources,
        ).resources.len() == resources.len(),
{
}

/// A feature is missing from all of the sources.
pub open spec fn is_absent<D: Detector>(feature: Feature<D>, resources: Seq<ResourceSpec>) -> bool {
    forall|r: int|
        0 <= r < resources.len() ==> feature_sites(
            feature,
            (#[trigger] resources[r]).content,
        ).len() == 0
}

proof fn lemma_absent<D: Detector>(feature: Feature<D>, resources: Seq<ResourceSpec>)
    ensures
        0 <= total_sites(feature, resources, true),
        0 <= total_sites(feature, resources, false),
        is_absent(feature, resources) <==> total_sites(feature, resources, true) == 0
            && total_sites(feature, resources, false) == 0,
    decreases resources.len(),
{
    if resources.len() > 0 {
        let rest = resources.drop_last();
        lemma_absent(feature, rest);
        lemma_site_count(feature_sites(feature, resources.last().content));
        if is_absent(feature, resources) {
            assert forall|r: int| 0 <= r < rest.len() implies feature_sites(
                feature,
                (#[trigger] rest[r]).content,
            ).len() == 0 by {
                assert(rest[r] == resources[r]);
            }
            assert(resources[resources.len() - 1] == resources.last());
        }
        if is_absent(feature, rest) && feature_sites(feature, resources.last().content).len()
            == 0 {
            assert forall|r: int| 0 <= r < resources.len() implies feature_sites(
                feature,
                (#[trigger] resources[r]).content,
            ).len() == 0 by {
                if r < rest.len() {
                    assert(rest[r] == resources[r]);
                }
            }
        }
    }
}

/// A feature that nothing works without, and that no source holds, stops everything.
pub proof fn lemma_missing_core_blocks<D: Detector>(
    set: SetSpec<D>,
    resources: Seq<ResourceSpec>,
    f: int,
)
    requires
        0 <= f < set.features.len(),
        set.features[f].role == FeatureRole::Core,
        is_absent(set.features[f], resources),
    ensures
        plan_of(set, resources).report.status == PatchStatus::Unsafe,
        plan_of(set, resources).resources.len() == 0,
{
    let reports = feature_reports(set.features, resources);
    lemma_absent(set.features[f], resources);
    assert(is_missing(reports[f]) && reports[f].role == FeatureRole::Core);
}

/// A plan that patches is complete unless an entry point is in no source.
pub proof fn lemma_missing_entry_degrades<D: Detector>(
    set: SetSpec<D>,
    resources: Seq<ResourceSpec>,
)
    requires
        plan_of(set, resources).report.status != PatchStatus::Unsafe,
    ensures
        plan_of(set, resources).report.status == PatchStatus::Degraded <==> exists|f: int|
            0 <= f < set.features.len() && (#[trigger] set.features[f]).role
                == FeatureRole::UiEntry && is_absent(set.features[f], resources),
{
    let features = set.features;
    let reports = feature_reports(features, resources);
    assert forall|f: int| 0 <= f < features.len() implies is_missing(#[trigger] reports[f])
        == is_absent(features[f], resources) by {
        lemma_absent(features[f], resources);
    }
    if misses(reports, FeatureRole::UiEntry) {
        let f = choose|f: int|
            0 <= f < reports.len() && is_missing(#[trigger] reports[f]) && reports[f].role
                == FeatureRole::UiEntry;
        assert(features[f].role == FeatureRole::UiEntry && is_absent(features[f], resources));
    }
    if exists|f: int|
        0 <= f < features.len() && (#[trigger] features[f]).role == FeatureRole::UiEntry
            && is_absent(features[f], resources) {
        let f = choose|f: int|
            0 <= f < features.len() && (#[trigger] features[f]).role == FeatureRole::UiEntry
                && is_absent(features[f], resources);
        assert(is_missing(reports[f]) && reports[f].role == FeatureRole::UiEntry);
    }
}

/// Two different edits of a source that replace the same byte stop everything.
pub proof fn lemma_conflict_blocks<D: Detector>(
    set: SetSpec<D>,
    resources: Seq<ResourceSpec>,
    r: int,
    left: EditSpec,
    right: EditSpec,
)
    requires
        0 <= r < resources.len(),
        site_edits(set.features, resources[r].content).contains(left),
        site_edits(set.features, resources[r].content).contains(right),
        left != right,
        left.start <= right.start < left.end,
        right.start < right.end,
    ensures
        plan_of(set, resources).report.status == PatchStatus::Unsafe,
        plan_of(set, resources).resources.len() == 0,
{
    let content = resources[r].content;
    let edits = resource_edits(set.features, content);
    lemma_sorted_edits(site_edits(set.features, content));
    assert(edits.contains(left) && edits.contains(right));
    let i = choose|i: int| 0 <= i < edits.len() && edits[i] == left;
    let j = choose|j: int| 0 <= j < edits.len() && edits[j] == right;
    let first = if i < j {
        i
    } else {
        j
    };
    // What stands directly behind the earlier of the two starts before it ends.
    assert(edits[first].start <= edits[first + 1].start);
    assert(edits[first + 1].start < edits[first].end);
    let conflicts = Seq::new(edits.len(), |k: int| conflicts_from(edits, k, k + 1));
    assert(conflicts[first].len() > 0);
    lemma_chained_empty(conflicts);
    let all = resources.map_values(
        |resource: ResourceSpec| edit_conflicts(resource_edits(set.features, resource.content)),
    );
    assert(all[r].len() > 0);
    lemma_chained_empty(all);
}

/// In a plan that patches, every feature is found in each patched source as often as before,
/// with every site valid and already patched.
pub proof fn lemma_plan_is_verified<D: Detector>(
    set: SetSpec<D>,
    resources: Seq<ResourceSpec>,
    r: int,
    f: int,
)
    requires
        plan_of(set, resources).report.status != PatchStatus::Unsafe,
        0 <= r < resources.len(),
        0 <= f < set.features.len(),
    ensures
        ({
            let content = plan_of(set, resources).resources[r].content;
            let after = feature_sites(set.features[f], content);
            &&& content == patched_content(set.features, resources[r].content)
            &&& after.len() == feature_sites(set.features[f], resources[r].content).len()
            &&& forall|k: int|
                0 <= k < after.len() ==> (#[trigger] after[k]).edits.len() == 0
                    && invalid_reason(content, after[k]) is None
        }),
{
    let features = set.features;
    let feature = features[f];
    let content = patched_content(features, resources[r].content);
    let after = feature_sites(feature, content);
    lemma_chained_empty(
        features.map_values(
            |feature: Feature<D>| feature_failures(features, feature, resources),
        ),
    );
    assert(features.map_values(
        |feature: Feature<D>| feature_failures(features, feature, resources),
    )[f].len() == 0);
    let failures = resources.map_values(
        |resource: ResourceSpec| verification_failure(features, feature, resource),
    );
    lemma_present_empty(failures);
    assert(failures[r] is None);
    let reasons = after.map_values(|site: SiteSpec| invalid_reason(content, site));
    lemma_present_empty(reasons);
    lemma_site_count(after);
    assert forall|k: int| 0 <= k < after.len() implies (#[trigger] after[k]).edits.len() == 0
        && invalid_reason(content, after[k]) is None by {
        assert(reasons[k] is None);
    }
}

/// The sources that a plan hands out, as sources to plan again.
pub open spec fn replanned(plan: PlanSpec) -> Seq<ResourceSpec> {
    plan.resources.map_values(
        |resource: PatchedResourceSpec|
            ResourceSpec { key: resource.key, content: resource.content },
    )
}

/// What is kept stands in the order of its keys and has sites.
proof fn lemma_scanned<D: Detector>(features: Seq<Feature<D>>, sources: Seq<ResourceSpec>)
    ensures
        sorted(resource_keys(scanned(features, sources))),
        forall|r: int|
            0 <= r < scanned(features, sources).len() ==> has_sites(
                features,
                (#[trigger] scanned(features, sources)[r]).content,
            ),
    decreases sources.len(),
{
    if sources.len() > 0 {
        let before = scanned(features, sources.drop_last());
        let keys = resource_keys(before);
        let last = sources.last();
        lemma_scanned(features, sources.drop_last());
        if !keys.contains(last.key) && has_sites(features, last.content) {
            let place = rank(keys, last.key);
            let all = before.insert(place, last);
            lemma_rank(keys, last.key);
            lemma_insert_sorted(keys, last.key);
            assert(resource_keys(all) =~= keys.insert(place, last.key));
            assert forall|r: int| 0 <= r < all.len() implies has_sites(
                features,
                (#[trigger] all[r]).content,
            ) by {
                if r < place {
                    assert(all[r] == before[r]);
                } else if r > place {
                    assert(all[r] == before[r - 1]);
                }
            }
        }
    }
}

/// Sources that stand in the order of their keys and have sites are all kept.
proof fn lemma_scanned_in_order<D: Detector>(
    features: Seq<Feature<D>>,
    sources: Seq<ResourceSpec>,
)
    requires
        sorted(resource_keys(sources)),
        forall|r: int|
            0 <= r < sources.len() ==> has_sites(features, (#[trigger] sources[r]).content),
    ensures
        scanned(features, sources) == sources,
        forall|n: int|
            0 <= n < sources.len() ==> !resource_keys(
                scanned(features, #[trigger] sources.take(n)),
            ).contains(sources[n].key),
    decreases sources.len(),
{
    if sources.len() > 0 {
        let rest = sources.drop_last();
        let last = sources.last();
        let keys = resource_keys(sources);
        let fewer = resource_keys(rest);
        assert(fewer =~= keys.drop_last());
        assert forall|r: int| 0 <= r < rest.len() implies has_sites(
            features,
            (#[trigger] rest[r]).content,
        ) by {
            assert(rest[r] == sources[r]);
        }
        lemma_scanned_in_order(features, rest);
        assert forall|j: int| 0 <= j < fewer.len() implies text_less(
            #[trigger] fewer[j],
            last.key,
        ) by {
            assert(text_less(keys[j], keys[keys.len() - 1]));
        }
        lemma_rank_unique(fewer, last.key, fewer.len() as int);
        lemma_rank(fewer, last.key);
        assert(sources[sources.len() - 1] == last);
        assert(rest.insert(rest.len() as int, last) =~= sources);
        assert forall|n: int| 0 <= n < sources.len() implies !resource_keys(
            scanned(features, #[trigger] sources.take(n)),
        ).contains(sources[n].key) by {
            if n < rest.len() {
                assert(rest.take(n) =~= sources.take(n));
                assert(rest[n] == sources[n]);
            } else {
                assert(sources.take(n) =~= rest);
            }
        }
    } else {
        assert(scanned(features, sources) =~= sources);
    }
}

/// Scanning what a plan hands out keeps all of it, and refuses none. Planning it then gives the
/// same sources once more.
pub proof fn lemma_second_pass<D: Detector>(set: SetSpec<D>, sources: Seq<ResourceSpec>)
    requires
        plan_of(set, scanned(set.features, sources)).report.status != PatchStatus::Unsafe,
    ensures
        ({
            let plan = plan_of(set, scanned(set.features, sources));
            let next = replanned(plan);
            &&& scanned(set.features, next) == next
            &&& forall|n: int|
                0 <= n < next.len() ==> !resource_keys(
                    scanned(set.features, #[trigger] next.take(n)),
                ).contains(next[n].key)
            &&& plan_of(set, scanned(set.features, next)).resources == plan.resources
        }),
{
    let features = set.features;
    let resources = scanned(features, sources);
    let next = replanned(plan_of(set, resources));
    lemma_scanned(features, sources);
    assert(resource_keys(next) =~= resource_keys(resources));
    assert forall|r: int| 0 <= r < next.len() implies has_sites(
        features,
        (#[trigger] next[r]).content,
    ) by {
        assert(has_sites(features, resources[r].content));
        let f = choose|f: int|
            0 <= f < features.len() && (#[trigger] feature_sites(
                features[f],
                resources[r].content,
            )).len() > 0;
        lemma_plan_is_verified(set, resources, r, f);
        assert(feature_sites(features[f], next[r].content).len() > 0);
    }
    lemma_scanned_in_order(features, next);
    lemma_replanning_changes_nothing(set, resources);
}

proof fn lemma_totals_after<D: Detector>(
    set: SetSpec<D>,
    resources: Seq<ResourceSpec>,
    n: int,
    f: int,
)
    requires
        plan_of(set, resources).report.status != PatchStatus::Unsafe,
        0 <= n <= resources.len(),
        0 <= f < set.features.len(),
    ensures
        ({
            let feature = set.features[f];
            let before = resources.take(n);
            let after = replanned(plan_of(set, resources)).take(n);
            &&& total_sites(feature, after, true) == 0
            &&& total_sites(feature, after, false) == total_sites(feature, before, true)
                + total_sites(feature, before, false)
            &&& 0 <= total_sites(feature, before, true)
            &&& 0 <= total_sites(feature, before, false)
        }),
    decreases n,
{
    if n > 0 {
        lemma_totals_after(set, resources, n - 1, f);
        lemma_plan_is_verified(set, resources, n - 1, f);
        let again = replanned(plan_of(set, resources));
        assert(resources.take(n).drop_last() =~= resources.take(n - 1));
        assert(again.take(n).drop_last() =~= again.take(n - 1));
        let feature = set.features[f];
        lemma_site_count(feature_sites(feature, resources[n - 1].content));
        lemma_site_count(feature_sites(feature, again[n - 1].content));
    }
}

/// Planning what a plan hands out again gives the same status and messages, finds every site
/// that there was already patched, and leaves every source as it is.
pub proof fn lemma_replanning_changes_nothing<D: Detector>(
    set: SetSpec<D>,
    resources: Seq<ResourceSpec>,
)
    requires
        plan_of(set, resources).report.status != PatchStatus::Unsafe,
    ensures
        ({
            let plan = plan_of(set, resources);
            let again = plan_of(set, replanned(plan));
            &&& again.report.status == plan.report.status
            &&& again.report.messages == plan.report.messages
            &&& again.report.features.len() == plan.report.features.len()
            &&& forall|f: int|
                0 <= f < plan.report.features.len() ==> (#[trigger] again.report.features[f]) == (
                FeatureReportSpec {
                    guarded_sites: 0,
                    patched_sites: saturated(
                        plan.report.features[f].guarded_sites
                            + plan.report.features[f].patched_sites,
                    ),
                    ..plan.report.features[f]
                })
            &&& again.resources == plan.resources
        }),
{
    let features = set.features;
    let plan = plan_of(set, resources);
    let next = replanned(plan);
    let before = feature_reports(features, resources);
    let after = feature_reports(features, next);
    assert(next.take(next.len() as int) =~= next);
    assert(resources.take(resources.len() as int) =~= resources);
    assert forall|f: int| 0 <= f < features.len() implies is_missing(#[trigger] before[f])
        == is_missing(after[f]) && missing_message(before[f]) == missing_message(after[f]) by {
        lemma_totals_after(set, resources, resources.len() as int, f);
    }
    assert forall|f: int| 0 <= f < features.len() implies (#[trigger] after[f]) == (
    FeatureReportSpec {
        guarded_sites: 0,
        patched_sites: saturated(before[f].guarded_sites + before[f].patched_sites),
        ..before[f]
    }) by {
        lemma_totals_after(set, resources, resources.len() as int, f);
    }
    let message = |r: FeatureReportSpec| missing_message(r);
    assert(before.map_values(message) =~= after.map_values(message));
    assert(misses(before, FeatureRole::Core) == misses(after, FeatureRole::Core)) by {
        if misses(before, FeatureRole::Core) {
            let f = choose|f: int|
                0 <= f < before.len() && is_missing(#[trigger] before[f]) && before[f].role
                    == FeatureRole::Core;
            assert(is_missing(after[f]));
        }
        if misses(after, FeatureRole::Core) {
            let f = choose|f: int|
                0 <= f < after.len() && is_missing(#[trigger] after[f]) && after[f].role
                    == FeatureRole::Core;
            assert(is_missing(before[f]));
        }
    }
    assert(misses(before, FeatureRole::UiEntry) == misses(after, FeatureRole::UiEntry)) by {
        if misses(before, FeatureRole::UiEntry) {
            let f = choose|f: int|
                0 <= f < before.len() && is_missing(#[trigger] before[f]) && before[f].role
                    == FeatureRole::UiEntry;
            assert(is_missing(after[f]));
        }
        if misses(after, FeatureRole::UiEntry) {
            let f = choose|f: int|
                0 <= f < after.len() && is_missing(#[trigger] after[f]) && after[f].role
                    == FeatureRole::UiEntry;
            assert(is_missing(before[f]));
        }
    }
    assert(all_problems(features, resources).len() == 0);
    let problems = next.map_values(
        |resource: ResourceSpec| resource_problems(features, resource),
    );
    lemma_chained_empty(problems);
    assert forall|r: int| 0 <= r < problems.len() implies (#[trigger] problems[r]).len() == 0 by {
        lemma_replanned_problems(set, resources, r);
    }
    assert(all_problems(features, next) =~= all_problems(features, resources));

    let conflicts = next.map_values(
        |resource: ResourceSpec| edit_conflicts(resource_edits(features, resource.content)),
    );
    lemma_chained_empty(conflicts);
    assert forall|r: int| 0 <= r < conflicts.len() implies (
    #[trigger] conflicts[r]).len() == 0 by {
        lemma_replanned_edits(set, resources, r);
    }

    let failures = features.map_values(
        |feature: Feature<D>| feature_failures(features, feature, next),
    );
    lemma_chained_empty(failures);
    assert forall|f: int| 0 <= f < failures.len() implies (#[trigger] failures[f]).len() == 0 by {
        let items = next.map_values(
            |resource: ResourceSpec| verification_failure(features, features[f], resource),
        );
        lemma_present_empty(items);
        assert forall|r: int| 0 <= r < items.len() implies (#[trigger] items[r]) is None by {
            lemma_replanned_edits(set, resources, r);
            lemma_replanned_failure(set, resources, r, f);
        }
    }

    let again = plan_of(set, next);
    assert forall|r: int| 0 <= r < resources.len() implies again.resources[r]
        == plan.resources[r] by {
        lemma_replanned_edits(set, resources, r);
        let content = plan.resources[r].content;
        assert(feature_labels(features, content) =~= feature_labels(
            features,
            resources[r].content,
        )) by {
            assert forall|label: Seq<char>|
                feature_labels(features, content).contains(label) == feature_labels(
                    features,
                    resources[r].content,
                ).contains(label) by {
                lemma_same_sites(set, resources, r);
            }
        }
        lemma_same_sites(set, resources, r);
    }
    assert(again.resources =~= plan.resources);
}

/// A patched source has sites of the same features as before.
proof fn lemma_same_sites<D: Detector>(set: SetSpec<D>, resources: Seq<ResourceSpec>, r: int)
    requires
        plan_of(set, resources).report.status != PatchStatus::Unsafe,
        0 <= r < resources.len(),
    ensures
        ({
            let content = plan_of(set, resources).resources[r].content;
            let features = set.features;
            &&& forall|f: int|
                0 <= f < features.len() ==> (#[trigger] feature_sites(features[f], content)).len()
                    == feature_sites(features[f], resources[r].content).len()
            &&& forall|f: int|
                0 <= f < features.len() ==> (#[trigger] feature_sites(
                    features[f],
                    resources[r].content,
                )).len() == feature_sites(features[f], content).len()
            &&& has_core_site(features, content) == has_core_site(features, resources[r].content)
        }),
{
    let content = plan_of(set, resources).resources[r].content;
    let features = set.features;
    assert forall|f: int| 0 <= f < features.len() implies (#[trigger] feature_sites(
        features[f],
        content,
    )).len() == feature_sites(features[f], resources[r].content).len() by {
        lemma_plan_is_verified(set, resources, r, f);
    }
    assert forall|f: int| 0 <= f < features.len() implies (#[trigger] feature_sites(
        features[f],
        resources[r].content,
    )).len() == feature_sites(features[f], content).len() by {
        lemma_plan_is_verified(set, resources, r, f);
    }
}

proof fn lemma_replanned_problems<D: Detector>(
    set: SetSpec<D>,
    resources: Seq<ResourceSpec>,
    r: int,
)
    requires
        plan_of(set, resources).report.status != PatchStatus::Unsafe,
        0 <= r < resources.len(),
    ensures
        resource_problems(set.features, replanned(plan_of(set, resources))[r]).len() == 0,
{
    let features = set.features;
    let resource = replanned(plan_of(set, resources))[r];
    let parts = features.map_values(|feature: Feature<D>| feature_problems(feature, resource));
    lemma_chained_empty(parts);
    assert forall|f: int| 0 <= f < parts.len() implies (#[trigger] parts[f]).len() == 0 by {
        lemma_plan_is_verified(set, resources, r, f);
        let feature = features[f];
        let sites = feature_sites(feature, resource.content);
        let items = sites.map_values(
            |site: SiteSpec| site_problem(feature.label@, resource, site),
        );
        lemma_present_empty(items);
        assert forall|k: int| 0 <= k < items.len() implies (#[trigger] items[k]) is None by {
            assert(invalid_reason(resource.content, sites[k]) is None);
        }
    }
}

proof fn lemma_replanned_edits<D: Detector>(
    set: SetSpec<D>,
    resources: Seq<ResourceSpec>,
    r: int,
)
    requires
        plan_of(set, resources).report.status != PatchStatus::Unsafe,
        0 <= r < resources.len(),
    ensures
        ({
            let content = replanned(plan_of(set, resources))[r].content;
            &&& resource_edits(set.features, content).len() == 0
            &&& edit_conflicts(resource_edits(set.features, content)).len() == 0
            &&& patched_content(set.features, content) == content
        }),
{
    let features = set.features;
    let content = replanned(plan_of(set, resources))[r].content;
    let parts = features.map_values(
        |feature: Feature<D>|
            chained(feature_sites(feature, content).map_values(|site: SiteSpec| site.edits)),
    );
    lemma_chained_empty(parts);
    assert forall|f: int| 0 <= f < parts.len() implies (#[trigger] parts[f]).len() == 0 by {
        lemma_plan_is_verified(set, resources, r, f);
        let sites = feature_sites(features[f], content);
        let items = sites.map_values(|site: SiteSpec| site.edits);
        lemma_chained_empty(items);
        assert forall|k: int| 0 <= k < items.len() implies (#[trigger] items[k]).len() == 0 by {
            assert(sites[k].edits.len() == 0);
        }
    }
    assert(site_edits(features, content) =~= Seq::empty());
    assert(resource_edits(features, content) =~= Seq::empty());
    lemma_no_edits(content);
}

proof fn lemma_replanned_failure<D: Detector>(
    set: SetSpec<D>,
    resources: Seq<ResourceSpec>,
    r: int,
    f: int,
)
    requires
        plan_of(set, resources).report.status != PatchStatus::Unsafe,
        0 <= r < resources.len(),
        0 <= f < set.features.len(),
    ensures
        verification_failure(
            set.features,
            set.features[f],
            replanned(plan_of(set, resources))[r],
        ) is None,
{
    let resource = replanned(plan_of(set, resources))[r];
    lemma_replanned_edits(set, resources, r);
    lemma_plan_is_verified(set, resources, r, f);
    let after = feature_sites(set.features[f], resource.content);
    let reasons = after.map_values(|site: SiteSpec| invalid_reason(resource.content, site));
    lemma_present_empty(reasons);
    assert forall|k: int| 0 <= k < reasons.len() implies (#[trigger] reasons[k]) is None by {
        assert(invalid_reason(resource.content, after[k]) is None);
    }
    lemma_site_count(after);
}

/// Sites without problems and edits without conflicts can all be made.
pub proof fn lemma_edits_can_be_made<D: Detector>(
    features: Seq<Feature<D>>,
    resource: ResourceSpec,
)
    requires
        resource_problems(features, resource).len() == 0,
        edit_conflicts(resource_edits(features, resource.content)).len() == 0,
    ensures
        edits_fit(resource.content, resource_edits(features, resource.content)),
{
    let content = resource.content;
    let all = site_edits(features, content);
    let edits = resource_edits(features, content);
    lemma_sorted_edits(all);
    let conflicts = Seq::new(edits.len(), |i: int| conflicts_from(edits, i, i + 1));
    lemma_chained_empty(conflicts);
    assert forall|k: int| 0 <= k < edits.len() implies #[trigger] edit_fits(content, edits, k) by {
        assert(edits.contains(edits[k]));
        lemma_edit_is_valid(features, resource, edits[k]);
        if k > 0 {
            assert(conflicts[k - 1].len() == 0);
        }
    }
}

proof fn lemma_edit_is_valid<D: Detector>(
    features: Seq<Feature<D>>,
    resource: ResourceSpec,
    edit: EditSpec,
)
    requires
        resource_problems(features, resource).len() == 0,
        site_edits(features, resource.content).contains(edit),
    ensures
        valid_span(resource.content, edit.start, edit.end),
{
    let content = resource.content;
    let parts = features.map_values(
        |feature: Feature<D>|
            chained(feature_sites(feature, content).map_values(|site: SiteSpec| site.edits)),
    );
    let f = lemma_chained_contains(parts, edit);
    let feature = features[f];
    let sites = feature_sites(feature, content);
    let per_site = sites.map_values(|site: SiteSpec| site.edits);
    let k = lemma_chained_contains(per_site, edit);
    let site = sites[k];
    let j = choose|j: int| 0 <= j < site.edits.len() && site.edits[j] == edit;

    let problems = features.map_values(|feature: Feature<D>| feature_problems(feature, resource));
    lemma_chained_empty(problems);
    assert(problems[f].len() == 0);
    let items = sites.map_values(|site: SiteSpec| site_problem(feature.label@, resource, site));
    lemma_present_empty(items);
    assert(items[k] is None);
    assert(!edit_is_invalid(content, site, j));
}

// ---------------------------------------------------------------------------
// Reports and plans

#[derive(Debug)]
pub struct FeatureReport {
    pub id: &'static str,
    pub label: &'static str,
    pub role: FeatureRole,
    pub guarded_sites: usize,
    pub patched_sites: usize,
}

impl View for FeatureReport {
    type V = FeatureReportSpec;

    open spec fn view(&self) -> FeatureReportSpec {
        FeatureReportSpec {
            id: self.id@,
            label: self.label@,
            role: self.role,
            guarded_sites: self.guarded_sites as int,
            patched_sites: self.patched_sites as int,
        }
    }
}

#[derive(Debug)]
pub struct PatchSetReport {
    pub id: &'static str,
    pub label: &'static str,
    pub status: PatchStatus,
    pub features: Vec<FeatureReport>,
    pub messages: Vec<String>,
}

pub open spec fn reports_view(reports: Seq<FeatureReport>) -> Seq<FeatureReportSpec> {
    reports.map_values(|report: FeatureReport| report@)
}

impl View for PatchSetReport {
    type V = ReportSpec;

    open spec fn view(&self) -> ReportSpec {
        ReportSpec {
            id: self.id@,
            label: self.label@,
            status: self.status,
            features: reports_view(self.features@),
            messages: strings_view(self.messages@),
        }
    }
}

/// A source with its edits made.
pub struct PatchedResource {
    pub key: String,
    pub patched_content: String,
    pub labels: TextSet,
    pub required_for_ready: bool,
}

impl View for PatchedResource {
    type V = PatchedResourceSpec;

    open spec fn view(&self) -> PatchedResourceSpec {
        PatchedResourceSpec {
            key: self.key@,
            content: self.patched_content@,
            labels: self.labels@,
            required_for_ready: self.required_for_ready,
        }
    }
}

pub struct PatchPlan {
    pub report: PatchSetReport,
    pub resources: Vec<PatchedResource>,
}

pub open spec fn resources_view(resources: Seq<PatchedResource>) -> Seq<PatchedResourceSpec> {
    resources.map_values(|resource: PatchedResource| resource@)
}

impl View for PatchPlan {
    type V = PlanSpec;

    open spec fn view(&self) -> PlanSpec {
        PlanSpec { report: self.report@, resources: resources_view(self.resources@) }
    }
}

impl PatchPlan {
    pub open spec fn well_formed(&self) -> bool {
        forall|r: int|
            0 <= r < self.resources@.len() ==> (#[trigger] self.resources@[r]).labels.well_formed()
    }
}

/// The messages of a report below a heading.
pub open spec fn report_text(report: ReportSpec, heading: Seq<char>) -> Seq<char> {
    joined(seq![heading, "\n"@, report.label, " ("@, report.id, "):"@]) + joined(
        report.messages.map_values(|message: Seq<char>| "\n- "@ + message),
    )
}

impl PatchSetReport {
    /// The messages of this report below a heading, a line each.
    pub fn format_messages(&self, heading: &str) -> (text: String)
        ensures
            text@ == report_text(self@, heading@),
    {
        let parts: [&str; 6] = [heading, "\n", self.label, " (", self.id, "):"];
        proof {
            assert(texts(parts@) =~= seq![
                heading@,
                "\n"@,
                self.label@,
                " ("@,
                self.id@,
                "):"@,
            ]);
        }
        let mut text = concat(&parts);
        let ghost first = text@;
        let ghost lines = self@.messages.map_values(|message: Seq<char>| "\n- "@ + message);
        let mut k: usize = 0;
        assert(first + joined(lines.take(0)) =~= first);
        while k < self.messages.len()
            invariant
                k <= self.messages@.len(),
                lines == self@.messages.map_values(|message: Seq<char>| "\n- "@ + message),
                text@ == first + joined(lines.take(k as int)),
            decreases self.messages.len() - k,
        {
            let ghost before = text@;
            text.append("\n- ");
            text.append(self.messages[k].as_str());
            proof {
                assert(lines.take(k + 1).drop_last() =~= lines.take(k as int));
                assert(lines[k as int] == "\n- "@ + self.messages@[k as int]@);
                assert(text@ =~= first + (joined(lines.take(k as int)) + lines[k as int]));
            }
            k += 1;
        }
        assert(lines.take(k as int) =~= lines);
        text
    }
}

// ---------------------------------------------------------------------------
// The planner

struct ScannedResource {
    content: String,
    sites: Vec<Vec<Site>>,
}

spec fn nested_view(sites: Seq<Vec<Site>>) -> Seq<Seq<SiteSpec>> {
    sites.map_values(|part: Vec<Site>| sites_view(part@))
}

spec fn all_sites<D: Detector>(features: Seq<Feature<D>>, content: Seq<char>) -> Seq<
    Seq<SiteSpec>,
> {
    features.map_values(|feature: Feature<D>| feature_sites(feature, content))
}

spec fn scanned_ok<D: Detector>(features: Seq<Feature<D>>, resource: ScannedResource) -> bool {
    nested_view(resource.sites@) == all_sites(features, resource.content@)
}

proof fn lemma_nested<D: Detector>(
    features: Seq<Feature<D>>,
    content: Seq<char>,
    sites: Seq<Vec<Site>>,
)
    requires
        nested_view(sites) == all_sites(features, content),
    ensures
        sites.len() == features.len(),
        forall|f: int|
            0 <= f < features.len() ==> sites_view((#[trigger] sites[f])@) == feature_sites(
                features[f],
                content,
            ),
{
    assert(nested_view(sites).len() == sites.len());
    assert(all_sites(features, content).len() == features.len());
    assert forall|f: int| 0 <= f < features.len() implies sites_view((#[trigger] sites[f])@)
        == feature_sites(features[f], content) by {
        assert(nested_view(sites)[f] == sites_view(sites[f]@));
        assert(all_sites(features, content)[f] == feature_sites(features[f], content));
    }
}

spec fn all_scanned<D: Detector>(
    features: Seq<Feature<D>>,
    resources: TextMap<ScannedResource>,
) -> bool {
    &&& resources.well_formed()
    &&& forall|i: int|
        0 <= i < resources.values().len() ==> scanned_ok(
            features,
            #[trigger] resources.values()[i],
        )
}

spec fn resource_specs(resources: TextMap<ScannedResource>) -> Seq<ResourceSpec> {
    Seq::new(
        resources.keys().len(),
        |i: int|
            ResourceSpec {
                key: resources.keys()[i],
                content: resources.values()[i].content@,
            },
    )
}

/// Sources in the order of their keys, each with the sites found in it.
pub struct Planner<'p, D> {
    patch_set: &'p PatchSet<D>,
    resources: TextMap<ScannedResource>,
}

impl<'p, D: Detector> Planner<'p, D> {
    pub closed spec fn patch_set(&self) -> SetSpec<D> {
        self.patch_set@
    }

    /// The sources that have sites, in the order of their keys.
    pub closed spec fn resources(&self) -> Seq<ResourceSpec> {
        resource_specs(self.resources)
    }

    pub closed spec fn well_formed(&self) -> bool {
        all_scanned(self.patch_set.features@, self.resources)
    }

    pub fn new(patch_set: &'p PatchSet<D>) -> (planner: Planner<'p, D>)
        ensures
            planner.well_formed(),
            planner.patch_set() == patch_set@,
            planner.resources().len() == 0,
    {
        Planner { patch_set, resources: TextMap::new() }
    }

    /// Adds a source, unless one with sites has the same key. A source without sites is
    /// left out.
    pub fn scan(&mut self, key: &str, content: String) -> (result: Result<(), PatchError>)
        requires
            old(self).well_formed(),
        ensures
            final(self).well_formed(),
            final(self).patch_set() == old(self).patch_set(),
            ({
                let before = old(self).resources();
                let taken = resource_keys(before).contains(key@);
                &&& taken <==> result is Err
                &&& result matches Err(error) ==> error matches PatchError::DuplicateResource(name)
                    && name@ == key@
                &&& final(self).resources() == with_source(
                    old(self).patch_set().features,
                    before,
                    ResourceSpec { key: key@, content: content@ },
                )
            }),
    {
        let ghost before = self.resources();
        let ghost keys = self.resources.keys();
        let ghost features = self.patch_set.features@;
        assert(resource_keys(before) =~= keys);
        if self.resources.contains_key(key) {
            return Err(PatchError::DuplicateResource(key.to_owned()));
        }
        match detect_resource(&self.patch_set.features, content.as_str()) {
            None => Ok(()),
            Some(sites) => {
                proof {
                    lemma_nested(features, content@, sites@);
                }
                if !any_sites(&sites) {
                    proof {
                        if has_sites(features, content@) {
                            let f = choose|f: int|
                                0 <= f < features.len() && (#[trigger] feature_sites(
                                    features[f],
                                    content@,
                                )).len() > 0;
                            assert(nested_view(sites@)[f] == sites_view(sites@[f]@));
                        }
                    }
                    return Ok(());
                }
                proof {
                    let f = choose|f: int|
                        0 <= f < sites@.len() && (#[trigger] nested_view(sites@)[f]).len() > 0;
                    assert(nested_view(sites@)[f] == sites_view(sites@[f]@));
                    assert(feature_sites(features[f], content@).len() > 0);
                }
                let ghost values = self.resources.values();
                let ghost name = key@;
                let resource = ScannedResource { content, sites };
                let _ = self.resources.insert(key.to_owned(), resource);
                proof {
                    let r = rank(keys, name);
                    crate::text_map::lemma_rank(keys, name);
                    assert forall|i: int| 0 <= i < self.resources.values().len() implies scanned_ok(
                        features,
                        #[trigger] self.resources.values()[i],
                    ) by {
                        if i < r {
                            assert(scanned_ok(features, values[i]));
                        } else if i > r {
                            assert(scanned_ok(features, values[i - 1]));
                        }
                    }
                    assert(self.resources() =~= before.insert(
                        r,
                        ResourceSpec { key: name, content: resource.content@ },
                    ));
                }
                Ok(())
            },
        }
    }

    /// Plans the edits of all sources.
    pub fn finish(self) -> (result: Result<PatchPlan, PatchError>)
        requires
            self.well_formed(),
        ensures
            result matches Ok(plan) && plan.well_formed() && plan@ == plan_of(
                self.patch_set(),
                self.resources(),
            ),
    {
        let set = self.patch_set;
        let scanned = self.resources;
        let ghost specs = resource_specs(scanned);
        let ghost features = set.features@;
        let mut report = initial_report(set, &scanned);
        if report.status == PatchStatus::Unsafe {
            let plan = blocked_plan(report, Vec::new());
            assert(plan@ =~= plan_of(set@, specs));
            return Ok(plan);
        }
        let edits = collect_edits(set, &scanned);
        let conflicts = find_conflicts(set, &scanned, &edits);
        if conflicts.len() > 0 {
            let plan = blocked_plan(report, conflicts);
            assert(plan@ =~= plan_of(set@, specs));
            return Ok(plan);
        }
        assert(strings_view(conflicts@).len() == 0);
        let patched = match patch_resources(set, &scanned, &edits) {
            Ok(patched) => patched,
            Err(error) => {
                return Err(error);
            },
        };
        let failures = find_failures(set, &scanned, &patched);
        if failures.len() > 0 {
            let plan = blocked_plan(report, failures);
            assert(plan@ =~= plan_of(set@, specs));
            return Ok(plan);
        }
        assert(strings_view(failures@).len() == 0);
        let resources = build_resources(set, &scanned, patched);
        Ok(PatchPlan { report, resources })
    }
}

fn any_sites(sites: &Vec<Vec<Site>>) -> (yes: bool)
    ensures
        yes == exists|f: int|
            0 <= f < sites@.len() && (#[trigger] nested_view(sites@)[f]).len() > 0,
{
    let mut f: usize = 0;
    while f < sites.len()
        invariant
            f <= sites@.len(),
            forall|j: int| 0 <= j < f ==> (#[trigger] nested_view(sites@)[j]).len() == 0,
        decreases sites.len() - f,
    {
        assert(nested_view(sites@)[f as int] == sites_view(sites@[f as int]@));
        if sites[f].len() > 0 {
            assert(nested_view(sites@)[f as int].len() > 0);
            return true;
        }
        f += 1;
    }
    false
}

/// The sites of each feature in a source, none where no feature is active.
fn detect_resource<D: Detector>(features: &Vec<Feature<D>>, content: &str) -> (sites: Option<
    Vec<Vec<Site>>,
>)
    ensures
        match sites {
            Some(sites) => nested_view(sites@) == all_sites(features@, content@),
            None => forall|f: int|
                0 <= f < features@.len() ==> (#[trigger] feature_sites(
                    features@[f],
                    content@,
                )).len() == 0,
        },
{
    let mut active: Vec<bool> = Vec::new();
    let mut any = false;
    let mut f: usize = 0;
    while f < features.len()
        invariant
            f <= features@.len(),
            active@.len() == f,
            forall|j: int|
                0 <= j < f ==> #[trigger] active@[j] == features@[j].active_in(content@),
            any == exists|j: int| 0 <= j < f && #[trigger] active@[j],
        decreases features.len() - f,
    {
        let yes = features[f].is_active(content);
        let ghost before = active@;
        active.push(yes);
        proof {
            assert forall|j: int| 0 <= j < f implies active@[j] == before[j] by {}
            if any {
                let j = choose|j: int| 0 <= j < f && #[trigger] before[j];
                assert(active@[j]);
            }
            if yes {
                assert(active@[f as int]);
            }
        }
        any = any || yes;
        f += 1;
    }
    if !any {
        assert forall|f: int| 0 <= f < features@.len() implies (#[trigger] feature_sites(
            features@[f],
            content@,
        )).len() == 0 by {
            assert(!active@[f]);
        }
        return None;
    }
    let tokens = Tokens::new(content);
    let mut sites: Vec<Vec<Site>> = Vec::new();
    let mut f: usize = 0;
    let ghost all = all_sites(features@, content@);
    assert(nested_view(sites@) =~= all.take(0));
    while f < features.len()
        invariant
            f <= features@.len(),
            active@.len() == features@.len(),
            all == all_sites(features@, content@),
            tokens.source() == content@,
            forall|j: int|
                0 <= j < features@.len() ==> #[trigger] active@[j] == features@[j].active_in(
                    content@,
                ),
            nested_view(sites@) == all.take(f as int),
        decreases features.len() - f,
    {
        let ghost before = sites@;
        let found = if active[f] {
            features[f].detect_sites(&tokens)
        } else {
            let none: Vec<Site> = Vec::new();
            assert(sites_view(none@) =~= Seq::empty());
            none
        };
        sites.push(found);
        proof {
            assert(all[f as int] == feature_sites(features@[f as int], content@));
            assert(nested_view(sites@) =~= nested_view(before).push(sites_view(found@)));
            assert(all.take(f + 1) =~= all.take(f as int).push(all[f as int]));
        }
        f += 1;
    }
    assert(all.take(f as int) =~= all);
    Some(sites)
}

/// The sites of each feature in a source.
fn detect_all<D: Detector>(features: &Vec<Feature<D>>, content: &str) -> (sites: Vec<Vec<Site>>)
    ensures
        nested_view(sites@) == all_sites(features@, content@),
{
    if let Some(sites) = detect_resource(features, content) {
        return sites;
    }
    let mut sites: Vec<Vec<Site>> = Vec::new();
    let mut f: usize = 0;
    while f < features.len()
        invariant
            f <= features@.len(),
            sites@.len() == f,
            forall|j: int| 0 <= j < f ==> (#[trigger] sites@[j])@.len() == 0,
        decreases features.len() - f,
    {
        sites.push(Vec::new());
        f += 1;
    }
    proof {
        let all = all_sites(features@, content@);
        assert forall|j: int| 0 <= j < all.len() implies nested_view(sites@)[j] == all[j] by {
            assert(sites_view(sites@[j]@) =~= Seq::empty());
            assert(feature_sites(features@[j], content@).len() == 0);
            assert(all[j] =~= Seq::empty());
        }
        assert(nested_view(sites@) =~= all);
    }
    sites
}

fn count_sites(sites: &Vec<Site>, guarded: bool) -> (n: usize)
    ensures
        n == site_count(sites_view(sites@), guarded),
{
    let ghost all = sites_view(sites@);
    let mut n: usize = 0;
    let mut k: usize = 0;
    while k < sites.len()
        invariant
            all == sites_view(sites@),
            k <= sites@.len(),
            n <= k,
            n == site_count(all.take(k as int), guarded),
        decreases sites.len() - k,
    {
        proof {
            assert(all.take(k + 1).drop_last() =~= all.take(k as int));
            assert(all[k as int] == sites@[k as int]@);
        }
        if (sites[k].edits.len() > 0) == guarded {
            n += 1;
        }
        k += 1;
    }
    assert(all.take(k as int) =~= all);
    n
}

fn saturating_sum(a: usize, b: usize) -> (sum: usize)
    ensures
        sum == saturated(a + b),
{
    if b > usize::MAX - a {
        usize::MAX
    } else {
        a + b
    }
}

fn report_feature<D: Detector>(
    set: &PatchSet<D>,
    resources: &TextMap<ScannedResource>,
    f: usize,
) -> (report: FeatureReport)
    requires
        all_scanned(set.features@, *resources),
        f < set.features@.len(),
    ensures
        report@ == feature_report(set.features@[f as int], resource_specs(*resources)),
{
    let ghost specs = resource_specs(*resources);
    let ghost feature = set.features@[f as int];
    let mut guarded: usize = 0;
    let mut patched: usize = 0;
    let mut r: usize = 0;
    let ghost mut guarded_total: int = 0;
    let ghost mut patched_total: int = 0;
    while r < resources.len()
        invariant
            all_scanned(set.features@, *resources),
            f < set.features@.len(),
            feature == set.features@[f as int],
            specs == resource_specs(*resources),
            r <= specs.len(),
            guarded_total == total_sites(feature, specs.take(r as int), true),
            patched_total == total_sites(feature, specs.take(r as int), false),
            0 <= guarded_total,
            0 <= patched_total,
            guarded == saturated(guarded_total),
            patched == saturated(patched_total),
        decreases specs.len() - r,
    {
        let resource = resources.value_at(r);
        proof {
            assert(specs.take(r + 1).drop_last() =~= specs.take(r as int));
            assert(scanned_ok(set.features@, *resource));
            lemma_nested(set.features@, resource.content@, resource.sites@);
            lemma_site_count(feature_sites(feature, resource.content@));
            guarded_total =
            guarded_total + site_count(feature_sites(feature, resource.content@), true);
            patched_total =
            patched_total + site_count(feature_sites(feature, resource.content@), false);
        }
        guarded = saturating_sum(guarded, count_sites(&resource.sites[f], true));
        patched = saturating_sum(patched, count_sites(&resource.sites[f], false));
        r += 1;
    }
    assert(specs.take(r as int) =~= specs);
    let found = &set.features[f];
    FeatureReport {
        id: found.id,
        label: found.label,
        role: found.role,
        guarded_sites: guarded,
        patched_sites: patched,
    }
}

/// What is wrong with a site.
fn invalid_site(content: &str, site: &Site) -> (reason: Option<&'static str>)
    ensures
        match reason {
            Some(reason) => invalid_reason(content@, site@) == Some(reason@),
            None => invalid_reason(content@, site@) is None,
        },
{
    if !valid_range(content, &site.range) {
        return Some("invalid site range");
    }
    let mut k: usize = 0;
    while k < site.edits.len()
        invariant
            k <= site.edits@.len(),
            valid_span(content@, site@.start, site@.end),
            forall|j: int| 0 <= j < k ==> !#[trigger] edit_is_invalid(content@, site@, j),
        decreases site.edits.len() - k,
    {
        let edit = &site.edits[k];
        assert(site@.edits[k as int] == edit@);
        if !valid_range(content, &edit.range) || edit.range.start < site.range.start
            || edit.range.end > site.range.end {
            assert(edit_is_invalid(content@, site@, k as int));
            return Some("invalid edit range");
        }
        k += 1;
    }
    None
}

fn push_problems(
    messages: &mut Vec<String>,
    label: &str,
    key: &str,
    content: &str,
    sites: &Vec<Site>,
)
    ensures
        strings_view(final(messages)@) == strings_view(old(messages)@) + present(
            sites_view(sites@).map_values(
                |site: SiteSpec|
                    site_problem(label@, ResourceSpec { key: key@, content: content@ }, site),
            ),
        ),
{
    let ghost resource = ResourceSpec { key: key@, content: content@ };
    let ghost problem = |site: SiteSpec| site_problem(label@, resource, site);
    let ghost items = sites_view(sites@).map_values(problem);
    let ghost first = strings_view(messages@);
    let mut k: usize = 0;
    assert(first + present(items.take(0)) =~= first);
    while k < sites.len()
        invariant
            resource == (ResourceSpec { key: key@, content: content@ }),
            problem == (|site: SiteSpec| site_problem(label@, resource, site)),
            items == sites_view(sites@).map_values(problem),
            k <= sites@.len(),
            strings_view(messages@) == first + present(items.take(k as int)),
        decreases sites.len() - k,
    {
        let ghost before = messages@;
        proof {
            assert(items.take(k + 1).drop_last() =~= items.take(k as int));
            assert(items[k as int] == site_problem(label@, resource, sites@[k as int]@));
        }
        if let Some(reason) = invalid_site(content, &sites[k]) {
            let parts: [&str; 5] = [label, " in ", key, " is unsafe: ", reason];
            assert(texts(parts@) =~= seq![label@, " in "@, key@, " is unsafe: "@, reason@]);
            let message = concat(&parts);
            messages.push(message);
            proof {
                assert(strings_view(messages@) =~= strings_view(before).push(message@));
                assert((first + present(items.take(k as int))).push(message@) =~= first
                    + present(items.take(k as int)).push(message@));
            }
        }
        k += 1;
    }
    assert(items.take(k as int) =~= items);
}

fn push_resource_problems<D: Detector>(
    messages: &mut Vec<String>,
    set: &PatchSet<D>,
    key: &str,
    resource: &ScannedResource,
)
    requires
        scanned_ok(set.features@, *resource),
    ensures
        strings_view(final(messages)@) == strings_view(old(messages)@) + resource_problems(
            set.features@,
            ResourceSpec { key: key@, content: resource.content@ },
        ),
{
    let ghost spec = ResourceSpec { key: key@, content: resource.content@ };
    let ghost of_feature = |feature: Feature<D>| feature_problems(feature, spec);
    let ghost parts = set.features@.map_values(of_feature);
    let ghost first = strings_view(messages@);
    let mut f: usize = 0;
    assert(first + chained(parts.take(0)) =~= first);
    while f < set.features.len()
        invariant
            scanned_ok(set.features@, *resource),
            spec == (ResourceSpec { key: key@, content: resource.content@ }),
            of_feature == (|feature: Feature<D>| feature_problems(feature, spec)),
            parts == set.features@.map_values(of_feature),
            f <= set.features@.len(),
            strings_view(messages@) == first + chained(parts.take(f as int)),
        decreases set.features.len() - f,
    {
        proof {
            assert(nested_view(resource.sites@).len() == all_sites(
                set.features@,
                resource.content@,
            ).len());
            assert(nested_view(resource.sites@)[f as int] == all_sites(
                set.features@,
                resource.content@,
            )[f as int]);
            assert(parts.take(f + 1).drop_last() =~= parts.take(f as int));
            assert(parts[f as int] == feature_problems(set.features@[f as int], spec));
            let label = set.features@[f as int].label@;
            assert(sites_view(resource.sites@[f as int]@).map_values(
                |site: SiteSpec| site_problem(label, spec, site),
            ) =~= feature_sites(set.features@[f as int], spec.content).map_values(
                |site: SiteSpec| site_problem(set.features@[f as int].label@, spec, site),
            ));
        }
        let ghost before = strings_view(messages@);
        push_problems(
            messages,
            set.features[f].label,
            key,
            resource.content.as_str(),
            &resource.sites[f],
        );
        assert(strings_view(messages@) =~= first + (chained(parts.take(f as int))
            + parts[f as int]));
        f += 1;
    }
    assert(parts.take(f as int) =~= parts);
}

/// The report before anything is patched.
fn initial_report<D: Detector>(
    set: &PatchSet<D>,
    resources: &TextMap<ScannedResource>,
) -> (report: PatchSetReport)
    requires
        all_scanned(set.features@, *resources),
    ensures
        report@ == first_report(set@, resource_specs(*resources)),
{
    let ghost specs = resource_specs(*resources);
    let ghost reports = feature_reports(set.features@, specs);
    let mut features: Vec<FeatureReport> = Vec::new();
    let mut messages: Vec<String> = Vec::new();
    let mut core_missing = false;
    let mut entry_missing = false;
    let ghost missing = reports.map_values(|r: FeatureReportSpec| missing_message(r));
    let mut f: usize = 0;
    assert(strings_view(messages@) =~= present(missing.take(0)));
    assert(reports_view(features@) =~= reports.take(0));
    while f < set.features.len()
        invariant
            all_scanned(set.features@, *resources),
            specs == resource_specs(*resources),
            reports == feature_reports(set.features@, specs),
            missing == reports.map_values(|r: FeatureReportSpec| missing_message(r)),
            f <= set.features@.len(),
            reports_view(features@) == reports.take(f as int),
            strings_view(messages@) == present(missing.take(f as int)),
            core_missing == misses(reports.take(f as int), FeatureRole::Core),
            entry_missing == misses(reports.take(f as int), FeatureRole::UiEntry),
        decreases set.features.len() - f,
    {
        let ghost done = features@;
        let ghost said = messages@;
        let report = report_feature(set, resources, f);
        proof {
            assert(reports[f as int] == report@);
            assert(reports.take(f + 1) =~= reports.take(f as int).push(report@));
            assert(missing.take(f + 1).drop_last() =~= missing.take(f as int));
            assert(missing[f as int] == missing_message(report@));
            lemma_misses_push(reports.take(f as int), report@, FeatureRole::Core);
            lemma_misses_push(reports.take(f as int), report@, FeatureRole::UiEntry);
        }
        if report.guarded_sites == 0 && report.patched_sites == 0 {
            let parts: [&str; 4] = [report.label, " (", report.id, ") was not found"];
            assert(texts(parts@) =~= seq![
                report.label@,
                " ("@,
                report.id@,
                ") was not found"@,
            ]);
            let message = concat(&parts);
            messages.push(message);
            assert(strings_view(messages@) =~= strings_view(said).push(message@));
            match report.role {
                FeatureRole::Core => {
                    core_missing = true;
                },
                FeatureRole::UiEntry => {
                    entry_missing = true;
                },
            }
        }
        features.push(report);
        assert(reports_view(features@) =~= reports_view(done).push(report@));
        f += 1;
    }
    proof {
        assert(reports.take(f as int) =~= reports);
        assert(missing.take(f as int) =~= missing);
    }

    let ghost first = strings_view(messages@);
    let ghost of_resource = |resource: ResourceSpec| resource_problems(set.features@, resource);
    let ghost parts = specs.map_values(of_resource);
    let mut r: usize = 0;
    assert(first + chained(parts.take(0)) =~= first);
    let found = messages.len();
    while r < resources.len()
        invariant
            all_scanned(set.features@, *resources),
            specs == resource_specs(*resources),
            of_resource == (|resource: ResourceSpec| resource_problems(set.features@, resource)),
            parts == specs.map_values(of_resource),
            r <= specs.len(),
            strings_view(messages@) == first + chained(parts.take(r as int)),
        decreases specs.len() - r,
    {
        proof {
            assert(parts.take(r + 1).drop_last() =~= parts.take(r as int));
            assert(specs[r as int] == (ResourceSpec {
                key: resources.keys()[r as int],
                content: resources.values()[r as int].content@,
            }));
            assert(parts[r as int] == resource_problems(set.features@, specs[r as int]));
        }
        push_resource_problems(&mut messages, set, resources.key_at(r), resources.value_at(r));
        assert(strings_view(messages@) =~= first + (chained(parts.take(r as int))
            + parts[r as int]));
        r += 1;
    }
    assert(parts.take(r as int) =~= parts);
    assert(strings_view(messages@).len() == messages@.len());
    let status = if messages.len() > found || core_missing {
        PatchStatus::Unsafe
    } else if entry_missing {
        PatchStatus::Degraded
    } else {
        PatchStatus::Complete
    };
    PatchSetReport { id: set.id, label: set.label, status, features, messages }
}

proof fn lemma_misses_push(
    reports: Seq<FeatureReportSpec>,
    report: FeatureReportSpec,
    role: FeatureRole,
)
    ensures
        misses(reports.push(report), role) == (misses(reports, role) || (is_missing(report)
            && report.role == role)),
{
    let all = reports.push(report);
    if misses(reports, role) {
        let f = choose|f: int|
            0 <= f < reports.len() && is_missing(#[trigger] reports[f]) && reports[f].role == role;
        assert(all[f] == reports[f]);
    }
    if misses(all, role) {
        let f = choose|f: int|
            0 <= f < all.len() && is_missing(#[trigger] all[f]) && all[f].role == role;
        if f < reports.len() {
            assert(reports[f] == all[f]);
        }
    }
    assert(all[reports.len() as int] == report);
}

/// A plan that patches nothing.
fn blocked_plan(report: PatchSetReport, failures: Vec<String>) -> (plan: PatchPlan)
    ensures
        plan.well_formed(),
        plan@ == blocked(report@, strings_view(failures@)),
{
    let ghost before = report@;
    let ghost added = strings_view(failures@);
    let mut report = report;
    let ghost items = failures@;
    for failure in rest: failures
        invariant
            rest.seq() == items,
            added == strings_view(items),
            report@ == (ReportSpec {
                messages: before.messages + added.take(rest.index() as int),
                ..before
            }),
    {
        let ghost k = rest.index() as int;
        let ghost said = report.messages@;
        report.messages.push(failure);
        proof {
            assert(failure@ == added[k]);
            assert(strings_view(report.messages@) =~= strings_view(said).push(failure@));
            assert(before.messages + added.take(k + 1) =~= (before.messages + added.take(
                k,
            )).push(added[k]));
        }
    }
    assert(added.take(added.len() as int) =~= added);
    report.status = PatchStatus::Unsafe;
    let plan = PatchPlan { report, resources: Vec::new() };
    assert(plan@ =~= blocked(before, added));
    plan
}

spec fn edit_lists_view(lists: Seq<Vec<Edit>>) -> Seq<Seq<EditSpec>> {
    lists.map_values(|list: Vec<Edit>| edits_view(list@))
}

spec fn all_edits<D: Detector>(
    features: Seq<Feature<D>>,
    resources: Seq<ResourceSpec>,
) -> Seq<Seq<EditSpec>> {
    resources.map_values(|resource: ResourceSpec| resource_edits(features, resource.content))
}

/// Adds the edits of some sites.
fn add_site_edits(
    edits: &mut Vec<Edit>,
    sites: &Vec<Site>,
    Ghost(given): Ghost<Seq<EditSpec>>,
)
    requires
        edits_view(old(edits)@) == sorted_edits(given),
    ensures
        edits_view(final(edits)@) == sorted_edits(
            given + chained(sites_view(sites@).map_values(|site: SiteSpec| site.edits)),
        ),
{
    let ghost parts = sites_view(sites@).map_values(|site: SiteSpec| site.edits);
    let mut k: usize = 0;
    assert(given + chained(parts.take(0)) =~= given);
    while k < sites.len()
        invariant
            parts == sites_view(sites@).map_values(|site: SiteSpec| site.edits),
            k <= sites@.len(),
            edits_view(edits@) == sorted_edits(given + chained(parts.take(k as int))),
        decreases sites.len() - k,
    {
        let site = &sites[k];
        let ghost before = given + chained(parts.take(k as int));
        let ghost more = site@.edits;
        proof {
            assert(parts[k as int] == more);
            assert(parts.take(k + 1).drop_last() =~= parts.take(k as int));
            assert(given + chained(parts.take(k + 1)) =~= before + more);
            assert(before + more.take(0) =~= before);
        }
        let mut j: usize = 0;
        while j < site.edits.len()
            invariant
                more == edits_view(site.edits@),
                j <= site.edits@.len(),
                edits_view(edits@) == sorted_edits(before + more.take(j as int)),
            decreases site.edits.len() - j,
        {
            proof {
                lemma_sorted_edits(before + more.take(j as int));
                let next = before + more.take(j + 1);
                assert(next.drop_last() =~= before + more.take(j as int));
                assert(next.last() == site.edits@[j as int]@);
            }
            add_edit(edits, &site.edits[j]);
            j += 1;
        }
        assert(more.take(j as int) =~= more);
        k += 1;
    }
    assert(parts.take(k as int) =~= parts);
}

fn edits_of_resource<D: Detector>(set: &PatchSet<D>, resource: &ScannedResource) -> (edits: Vec<
    Edit,
>)
    requires
        scanned_ok(set.features@, *resource),
    ensures
        edits_view(edits@) == resource_edits(set.features@, resource.content@),
{
    let ghost content = resource.content@;
    let ghost of_feature = |feature: Feature<D>|
        chained(feature_sites(feature, content).map_values(|site: SiteSpec| site.edits));
    let ghost parts = set.features@.map_values(of_feature);
    let mut edits: Vec<Edit> = Vec::new();
    let mut f: usize = 0;
    assert(edits_view(edits@) =~= sorted_edits(chained(parts.take(0))));
    while f < set.features.len()
        invariant
            scanned_ok(set.features@, *resource),
            content == resource.content@,
            of_feature == (|feature: Feature<D>|
                chained(feature_sites(feature, content).map_values(|site: SiteSpec| site.edits))),
            parts == set.features@.map_values(of_feature),
            f <= set.features@.len(),
            edits_view(edits@) == sorted_edits(chained(parts.take(f as int))),
        decreases set.features.len() - f,
    {
        proof {
            assert(nested_view(resource.sites@).len() == all_sites(set.features@, content).len());
            assert(nested_view(resource.sites@)[f as int] == all_sites(
                set.features@,
                content,
            )[f as int]);
            assert(parts.take(f + 1).drop_last() =~= parts.take(f as int));
        }
        add_site_edits(&mut edits, &resource.sites[f], Ghost(chained(parts.take(f as int))));
        f += 1;
    }
    assert(parts.take(f as int) =~= parts);
    edits
}

/// The edits of each source, in order, each once.
fn collect_edits<D: Detector>(
    set: &PatchSet<D>,
    resources: &TextMap<ScannedResource>,
) -> (edits: Vec<Vec<Edit>>)
    requires
        all_scanned(set.features@, *resources),
    ensures
        edit_lists_view(edits@) == all_edits(set.features@, resource_specs(*resources)),
{
    let ghost specs = resource_specs(*resources);
    let ghost all = all_edits(set.features@, specs);
    let mut edits: Vec<Vec<Edit>> = Vec::new();
    let mut r: usize = 0;
    assert(edit_lists_view(edits@) =~= all.take(0));
    while r < resources.len()
        invariant
            all_scanned(set.features@, *resources),
            specs == resource_specs(*resources),
            all == all_edits(set.features@, specs),
            r <= specs.len(),
            edit_lists_view(edits@) == all.take(r as int),
        decreases specs.len() - r,
    {
        let ghost before = edits@;
        let found = edits_of_resource(set, resources.value_at(r));
        edits.push(found);
        proof {
            assert(edit_lists_view(edits@) =~= edit_lists_view(before).push(edits_view(found@)));
            assert(all.take(r + 1) =~= all.take(r as int).push(all[r as int]));
        }
        r += 1;
    }
    assert(all.take(r as int) =~= all);
    edits
}

fn push_conflicts(messages: &mut Vec<String>, edits: &Vec<Edit>)
    ensures
        strings_view(final(messages)@) == strings_view(old(messages)@) + edit_conflicts(
            edits_view(edits@),
        ),
{
    let ghost all = edits_view(edits@);
    let ghost parts = Seq::new(all.len(), |i: int| conflicts_from(all, i, i + 1));
    let ghost first = strings_view(messages@);
    let mut i: usize = 0;
    assert(first + chained(parts.take(0)) =~= first);
    while i < edits.len()
        invariant
            all == edits_view(edits@),
            parts == Seq::new(all.len(), |i: int| conflicts_from(all, i, i + 1)),
            i <= edits@.len(),
            strings_view(messages@) == first + chained(parts.take(i as int)),
        decreases edits.len() - i,
    {
        let left = &edits[i];
        let ghost before = strings_view(messages@);
        proof {
            assert(parts.take(i + 1).drop_last() =~= parts.take(i as int));
            assert(before + conflicts_from(all, i as int, i + 1) =~= first + (chained(
                parts.take(i as int),
            ) + parts[i as int]));
        }
        let mut j: usize = i + 1;
        while j < edits.len() && edits[j].range.start < left.range.end
            invariant
                all == edits_view(edits@),
                i < j <= edits@.len(),
                *left == edits@[i as int],
                before + conflicts_from(all, i as int, i + 1) == strings_view(messages@)
                    + conflicts_from(all, i as int, j as int),
            decreases edits.len() - j,
        {
            let right = &edits[j];
            let ghost said = messages@;
            let left_start = decimal_text(left.range.start as u64);
            let left_end = decimal_text(left.range.end as u64);
            let right_start = decimal_text(right.range.start as u64);
            let right_end = decimal_text(right.range.end as u64);
            let pieces: [&str; 8] = [
                "overlapping edits at ",
                left_start.as_str(),
                "..",
                left_end.as_str(),
                " and ",
                right_start.as_str(),
                "..",
                right_end.as_str(),
            ];
            proof {
                assert(all[i as int] == left@ && all[j as int] == right@);
                assert(texts(pieces@) =~= seq![
                    "overlapping edits at "@,
                    decimal(left@.start as nat),
                    ".."@,
                    decimal(left@.end as nat),
                    " and "@,
                    decimal(right@.start as nat),
                    ".."@,
                    decimal(right@.end as nat),
                ]);
            }
            let message = concat(&pieces);
            messages.push(message);
            proof {
                assert(strings_view(messages@) =~= strings_view(said).push(message@));
                assert(strings_view(said) + conflicts_from(all, i as int, j as int)
                    =~= strings_view(messages@) + conflicts_from(all, i as int, j + 1));
            }
            j += 1;
        }
        proof {
            if j < edits@.len() {
                assert(all[j as int] == edits@[j as int]@);
            }
            assert(all[i as int] == left@);
            assert(conflicts_from(all, i as int, j as int) =~= Seq::empty());
            assert(strings_view(messages@) + Seq::<Seq<char>>::empty() =~= strings_view(
                messages@,
            ));
        }
        i += 1;
    }
    assert(parts.take(i as int) =~= parts);
}

fn find_conflicts<D: Detector>(
    set: &PatchSet<D>,
    resources: &TextMap<ScannedResource>,
    edits: &Vec<Vec<Edit>>,
) -> (messages: Vec<String>)
    requires
        edit_lists_view(edits@) == all_edits(set.features@, resource_specs(*resources)),
    ensures
        strings_view(messages@) == all_conflicts(set.features@, resource_specs(*resources)),
{
    let ghost specs = resource_specs(*resources);
    let ghost parts = specs.map_values(
        |resource: ResourceSpec|
            edit_conflicts(resource_edits(set.features@, resource.content)),
    );
    let ghost all = all_edits(set.features@, specs);
    let mut messages: Vec<String> = Vec::new();
    let mut r: usize = 0;
    assert(strings_view(messages@) =~= chained(parts.take(0)));
    assert(edit_lists_view(edits@).len() == edits@.len());
    while r < edits.len()
        invariant
            edits@.len() == specs.len(),
            all == all_edits(set.features@, specs),
            edit_lists_view(edits@) == all,
            parts == specs.map_values(
                |resource: ResourceSpec|
                    edit_conflicts(resource_edits(set.features@, resource.content)),
            ),
            r <= specs.len(),
            strings_view(messages@) == chained(parts.take(r as int)),
        decreases specs.len() - r,
    {
        proof {
            assert(parts.take(r + 1).drop_last() =~= parts.take(r as int));
            assert(all[r as int] == edits_view(edits@[r as int]@));
            assert(parts[r as int] == edit_conflicts(all[r as int]));
        }
        push_conflicts(&mut messages, &edits[r]);
        r += 1;
    }
    assert(parts.take(r as int) =~= parts);
    messages
}

spec fn all_patched<D: Detector>(
    features: Seq<Feature<D>>,
    resources: Seq<ResourceSpec>,
) -> Seq<Seq<char>> {
    resources.map_values(|resource: ResourceSpec| patched_content(features, resource.content))
}

/// Makes the edits of each source.
fn patch_resources<D: Detector>(
    set: &PatchSet<D>,
    resources: &TextMap<ScannedResource>,
    edits: &Vec<Vec<Edit>>,
) -> (result: Result<Vec<String>, PatchError>)
    requires
        all_scanned(set.features@, *resources),
        edit_lists_view(edits@) == all_edits(set.features@, resource_specs(*resources)),
        all_problems(set.features@, resource_specs(*resources)).len() == 0,
        all_conflicts(set.features@, resource_specs(*resources)).len() == 0,
    ensures
        result matches Ok(patched) && strings_view(patched@) == all_patched(
            set.features@,
            resource_specs(*resources),
        ),
{
    let ghost specs = resource_specs(*resources);
    let ghost features = set.features@;
    let ghost all = all_patched(features, specs);
    let ghost lists = all_edits(features, specs);
    let ghost problems = specs.map_values(
        |resource: ResourceSpec| resource_problems(features, resource),
    );
    let ghost conflicts = specs.map_values(
        |resource: ResourceSpec| edit_conflicts(resource_edits(features, resource.content)),
    );
    proof {
        lemma_chained_empty(problems);
        lemma_chained_empty(conflicts);
        assert(edit_lists_view(edits@).len() == edits@.len());
    }
    let mut patched: Vec<String> = Vec::new();
    let mut r: usize = 0;
    assert(strings_view(patched@) =~= all.take(0));
    while r < resources.len()
        invariant
            all_scanned(features, *resources),
            features == set.features@,
            specs == resource_specs(*resources),
            edits@.len() == specs.len(),
            lists == all_edits(features, specs),
            edit_lists_view(edits@) == lists,
            all == all_patched(features, specs),
            problems == specs.map_values(
                |resource: ResourceSpec| resource_problems(features, resource),
            ),
            conflicts == specs.map_values(
                |resource: ResourceSpec|
                    edit_conflicts(resource_edits(features, resource.content)),
            ),
            forall|k: int| 0 <= k < problems.len() ==> (#[trigger] problems[k]).len() == 0,
            forall|k: int| 0 <= k < conflicts.len() ==> (#[trigger] conflicts[k]).len() == 0,
            r <= specs.len(),
            strings_view(patched@) == all.take(r as int),
        decreases specs.len() - r,
    {
        let resource = resources.value_at(r);
        let ghost before = patched@;
        proof {
            assert(problems[r as int].len() == 0);
            assert(conflicts[r as int].len() == 0);
            assert(lists[r as int] == edits_view(edits@[r as int]@));
            lemma_edits_can_be_made(features, specs[r as int]);
        }
        match apply_sorted_edits(resource.content.as_str(), &edits[r]) {
            Ok(text) => {
                patched.push(text);
                proof {
                    assert(strings_view(patched@) =~= strings_view(before).push(text@));
                    assert(all[r as int] == text@);
                    assert(all.take(r + 1) =~= all.take(r as int).push(text@));
                }
            },
            Err(error) => {
                return Err(error);
            },
        }
        r += 1;
    }
    assert(all.take(r as int) =~= all);
    Ok(patched)
}

fn first_problem(content: &str, sites: &Vec<Site>) -> (reason: Option<&'static str>)
    ensures
        match reason {
            Some(reason) => first_reason(content@, sites_view(sites@)) == Some(reason@),
            None => first_reason(content@, sites_view(sites@)) is None,
        },
{
    let ghost all = sites_view(sites@);
    let ghost reasons = all.map_values(|site: SiteSpec| invalid_reason(content@, site));
    let mut k: usize = 0;
    while k < sites.len()
        invariant
            all == sites_view(sites@),
            reasons == all.map_values(|site: SiteSpec| invalid_reason(content@, site)),
            k <= sites@.len(),
            forall|j: int| 0 <= j < k ==> (#[trigger] reasons[j]) is None,
        decreases sites.len() - k,
    {
        assert(reasons[k as int] == invalid_reason(content@, sites@[k as int]@));
        if let Some(reason) = invalid_site(content, &sites[k]) {
            proof {
                lemma_first_present(reasons, k as int);
            }
            return Some(reason);
        }
        k += 1;
    }
    proof {
        lemma_present_empty(reasons);
    }
    None
}

proof fn lemma_first_present<T>(items: Seq<Option<T>>, k: int)
    requires
        0 <= k < items.len(),
        items[k] is Some,
        forall|j: int| 0 <= j < k ==> (#[trigger] items[j]) is None,
    ensures
        present(items).len() > 0,
        present(items)[0] == items[k]->0,
    decreases items.len(),
{
    let rest = items.drop_last();
    if k < rest.len() {
        assert forall|j: int| 0 <= j < k implies (#[trigger] rest[j]) is None by {
            assert(items[j] is None);
        }
        lemma_first_present(rest, k);
    } else {
        lemma_present_empty(rest);
        assert forall|j: int| 0 <= j < rest.len() implies (#[trigger] rest[j]) is None by {
            assert(items[j] is None);
        }
    }
}

fn failure_of<D: Detector>(
    feature: &Feature<D>,
    key: &str,
    before: &Vec<Site>,
    content: &str,
    after: &Vec<Site>,
    Ghost(features): Ghost<Seq<Feature<D>>>,
    Ghost(resource): Ghost<ResourceSpec>,
) -> (message: Option<String>)
    requires
        resource.key == key@,
        sites_view(before@) == feature_sites(*feature, resource.content),
        content@ == patched_content(features, resource.content),
        sites_view(after@) == feature_sites(*feature, content@),
    ensures
        match message {
            Some(message) => verification_failure(features, *feature, resource) == Some(message@),
            None => verification_failure(features, *feature, resource) is None,
        },
{
    let ghost was = feature_sites(*feature, resource.content);
    let ghost now = feature_sites(*feature, content@);
    assert(was.len() == before@.len() && now.len() == after@.len());
    if after.len() != before.len() {
        let from = decimal_text(before.len() as u64);
        let to = decimal_text(after.len() as u64);
        let parts: [&str; 8] = [
            feature.label,
            " site count changed in ",
            key,
            " from ",
            from.as_str(),
            " to ",
            to.as_str(),
            " after patching",
        ];
        assert(texts(parts@) =~= seq![
            feature.label@,
            " site count changed in "@,
            key@,
            " from "@,
            decimal(was.len()),
            " to "@,
            decimal(now.len()),
            " after patching"@,
        ]);
        return Some(concat(&parts));
    }
    if let Some(reason) = first_problem(content, after) {
        let parts: [&str; 5] = [
            feature.label,
            " in ",
            key,
            " is unsafe after patching: ",
            reason,
        ];
        assert(texts(parts@) =~= seq![
            feature.label@,
            " in "@,
            key@,
            " is unsafe after patching: "@,
            reason@,
        ]);
        return Some(concat(&parts));
    }
    if count_sites(after, true) > 0 {
        let parts: [&str; 4] = [
            feature.label,
            " in ",
            key,
            " did not re-detect as fully patched",
        ];
        assert(texts(parts@) =~= seq![
            feature.label@,
            " in "@,
            key@,
            " did not re-detect as fully patched"@,
        ]);
        return Some(concat(&parts));
    }
    None
}

spec fn all_after<D: Detector>(features: Seq<Feature<D>>, contents: Seq<Seq<char>>) -> Seq<
    Seq<Seq<SiteSpec>>,
> {
    contents.map_values(|content: Seq<char>| all_sites(features, content))
}

spec fn deep_view(sites: Seq<Vec<Vec<Site>>>) -> Seq<Seq<Seq<SiteSpec>>> {
    sites.map_values(|part: Vec<Vec<Site>>| nested_view(part@))
}

/// The sites of each feature in each patched source.
fn detect_again<D: Detector>(set: &PatchSet<D>, patched: &Vec<String>) -> (after: Vec<
    Vec<Vec<Site>>,
>)
    ensures
        deep_view(after@) == all_after(set.features@, strings_view(patched@)),
{
    let ghost all = all_after(set.features@, strings_view(patched@));
    let mut after: Vec<Vec<Vec<Site>>> = Vec::new();
    let mut r: usize = 0;
    assert(deep_view(after@) =~= all.take(0));
    while r < patched.len()
        invariant
            all == all_after(set.features@, strings_view(patched@)),
            r <= patched@.len(),
            deep_view(after@) == all.take(r as int),
        decreases patched.len() - r,
    {
        let ghost before = after@;
        let found = detect_all(&set.features, patched[r].as_str());
        after.push(found);
        proof {
            assert(strings_view(patched@)[r as int] == patched@[r as int]@);
            assert(deep_view(after@) =~= deep_view(before).push(nested_view(found@)));
            assert(all.take(r + 1) =~= all.take(r as int).push(all[r as int]));
        }
        r += 1;
    }
    assert(all.take(r as int) =~= all);
    after
}

fn push_failures<D: Detector>(
    messages: &mut Vec<String>,
    set: &PatchSet<D>,
    f: usize,
    resources: &TextMap<ScannedResource>,
    patched: &Vec<String>,
    after: &Vec<Vec<Vec<Site>>>,
)
    requires
        all_scanned(set.features@, *resources),
        f < set.features@.len(),
        strings_view(patched@) == all_patched(set.features@, resource_specs(*resources)),
        deep_view(after@) == all_after(set.features@, strings_view(patched@)),
    ensures
        strings_view(final(messages)@) == strings_view(old(messages)@) + feature_failures(
            set.features@,
            set.features@[f as int],
            resource_specs(*resources),
        ),
{
    let ghost specs = resource_specs(*resources);
    let ghost features = set.features@;
    let ghost feature = features[f as int];
    let ghost items = specs.map_values(
        |resource: ResourceSpec| verification_failure(features, feature, resource),
    );
    let ghost contents = strings_view(patched@);
    let ghost first = strings_view(messages@);
    assert(contents.len() == patched@.len());
    assert(deep_view(after@).len() == after@.len());
    let mut r: usize = 0;
    assert(first + present(items.take(0)) =~= first);
    while r < resources.len()
        invariant
            all_scanned(features, *resources),
            features == set.features@,
            f < features.len(),
            feature == features[f as int],
            specs == resource_specs(*resources),
            contents == strings_view(patched@),
            contents == all_patched(features, specs),
            deep_view(after@) == all_after(features, contents),
            patched@.len() == specs.len(),
            after@.len() == specs.len(),
            items == specs.map_values(
                |resource: ResourceSpec| verification_failure(features, feature, resource),
            ),
            r <= specs.len(),
            strings_view(messages@) == first + present(items.take(r as int)),
        decreases specs.len() - r,
    {
        let ghost said = messages@;
        let resource = resources.value_at(r);
        proof {
            assert(items.take(r + 1).drop_last() =~= items.take(r as int));
            assert(scanned_ok(features, *resource));
            assert(nested_view(resource.sites@).len() == features.len());
            assert(nested_view(resource.sites@)[f as int] == all_sites(
                features,
                resource.content@,
            )[f as int]);
            assert(contents[r as int] == patched@[r as int]@);
            assert(deep_view(after@)[r as int] == nested_view(after@[r as int]@));
            assert(deep_view(after@)[r as int] == all_sites(features, contents[r as int]));
            assert(nested_view(after@[r as int]@).len() == features.len());
            assert(nested_view(after@[r as int]@)[f as int] == all_sites(
                features,
                contents[r as int],
            )[f as int]);
        }
        let failure = failure_of(
            &set.features[f],
            resources.key_at(r),
            &resource.sites[f],
            patched[r].as_str(),
            &after[r][f],
            Ghost(features),
            Ghost(specs[r as int]),
        );
        if let Some(message) = failure {
            messages.push(message);
            proof {
                assert(strings_view(messages@) =~= strings_view(said).push(message@));
                assert((first + present(items.take(r as int))).push(message@) =~= first
                    + present(items.take(r as int)).push(message@));
            }
        }
        r += 1;
    }
    assert(items.take(r as int) =~= items);
}

/// How the patched sources fail to be found patched.
fn find_failures<D: Detector>(
    set: &PatchSet<D>,
    resources: &TextMap<ScannedResource>,
    patched: &Vec<String>,
) -> (messages: Vec<String>)
    requires
        all_scanned(set.features@, *resources),
        strings_view(patched@) == all_patched(set.features@, resource_specs(*resources)),
    ensures
        strings_view(messages@) == verification_failures(
            set.features@,
            resource_specs(*resources),
        ),
{
    let ghost specs = resource_specs(*resources);
    let ghost features = set.features@;
    let after = detect_again(set, patched);
    let ghost parts = features.map_values(
        |feature: Feature<D>| feature_failures(features, feature, specs),
    );
    let mut messages: Vec<String> = Vec::new();
    let mut f: usize = 0;
    assert(strings_view(messages@) =~= chained(parts.take(0)));
    while f < set.features.len()
        invariant
            all_scanned(features, *resources),
            features == set.features@,
            specs == resource_specs(*resources),
            strings_view(patched@) == all_patched(features, specs),
            deep_view(after@) == all_after(features, strings_view(patched@)),
            parts == features.map_values(
                |feature: Feature<D>| feature_failures(features, feature, specs),
            ),
            f <= features.len(),
            strings_view(messages@) == chained(parts.take(f as int)),
        decreases features.len() - f,
    {
        proof {
            assert(parts.take(f + 1).drop_last() =~= parts.take(f as int));
            assert(parts[f as int] == feature_failures(features, features[f as int], specs));
        }
        push_failures(&mut messages, set, f, resources, patched, &after);
        f += 1;
    }
    assert(parts.take(f as int) =~= parts);
    messages
}

fn labels_of<D: Detector>(set: &PatchSet<D>, resource: &ScannedResource) -> (found: (TextSet, bool))
    requires
        scanned_ok(set.features@, *resource),
    ensures
        found.0.well_formed(),
        found.0@ == feature_labels(set.features@, resource.content@),
        found.1 == has_core_site(set.features@, resource.content@),
{
    let ghost features = set.features@;
    let ghost content = resource.content@;
    let mut labels = TextSet::new();
    let mut required = false;
    let mut f: usize = 0;
    assert(labels@ =~= feature_labels(features.take(0), content));
    while f < set.features.len()
        invariant
            scanned_ok(features, *resource),
            features == set.features@,
            content == resource.content@,
            f <= features.len(),
            labels.well_formed(),
            labels@ == feature_labels(features.take(f as int), content),
            required == has_core_site(features.take(f as int), content),
        decreases features.len() - f,
    {
        let feature = &set.features[f];
        proof {
            assert(nested_view(resource.sites@).len() == features.len());
            assert(nested_view(resource.sites@)[f as int] == all_sites(
                features,
                content,
            )[f as int]);
            assert(features.take(f + 1) =~= features.take(f as int).push(*feature));
            lemma_labels_push(features.take(f as int), *feature, content);
        }
        if resource.sites[f].len() > 0 {
            let _ = labels.insert(feature.label);
            if feature.role == FeatureRole::Core {
                required = true;
            }
        }
        f += 1;
    }
    assert(features.take(f as int) =~= features);
    (labels, required)
}

proof fn lemma_labels_push<D: Detector>(
    features: Seq<Feature<D>>,
    feature: Feature<D>,
    content: Seq<char>,
)
    ensures
        feature_labels(features.push(feature), content) == (if feature_sites(
            feature,
            content,
        ).len() > 0 {
            feature_labels(features, content).insert(feature.label@)
        } else {
            feature_labels(features, content)
        }),
        has_core_site(features.push(feature), content) == (has_core_site(features, content) || (
        feature_sites(feature, content).len() > 0 && feature.role == FeatureRole::Core)),
{
    let all = features.push(feature);
    let n = features.len() as int;
    assert(all[n] == feature);
    assert forall|f: int| 0 <= f < n implies all[f] == features[f] by {}
    let found = feature_sites(feature, content).len() > 0;
    let expected = if found {
        feature_labels(features, content).insert(feature.label@)
    } else {
        feature_labels(features, content)
    };
    assert forall|label: Seq<char>|
        feature_labels(all, content).contains(label) == expected.contains(label) by {
        if feature_labels(all, content).contains(label) {
            let f = choose|f: int|
                0 <= f < all.len() && (#[trigger] feature_sites(all[f], content)).len() > 0
                    && all[f].label@ == label;
            if f < n {
                assert(feature_sites(features[f], content).len() > 0);
            }
        }
        if feature_labels(features, content).contains(label) {
            let f = choose|f: int|
                0 <= f < n && (#[trigger] feature_sites(features[f], content)).len() > 0
                    && features[f].label@ == label;
            assert(feature_sites(all[f], content).len() > 0);
        }
        if found {
            assert(feature_sites(all[n], content).len() > 0);
        }
    }
    assert(feature_labels(all, content) =~= expected);
    if has_core_site(all, content) {
        let f = choose|f: int|
            0 <= f < all.len() && (#[trigger] feature_sites(all[f], content)).len() > 0
                && all[f].role == FeatureRole::Core;
        if f < n {
            assert(feature_sites(features[f], content).len() > 0);
        }
    }
    if has_core_site(features, content) {
        let f = choose|f: int|
            0 <= f < n && (#[trigger] feature_sites(features[f], content)).len() > 0
                && features[f].role == FeatureRole::Core;
        assert(feature_sites(all[f], content).len() > 0);
    }
    if found {
        assert(feature_sites(all[n], content).len() > 0);
    }
}

/// The patched sources.
fn build_resources<D: Detector>(
    set: &PatchSet<D>,
    resources: &TextMap<ScannedResource>,
    patched: Vec<String>,
) -> (built: Vec<PatchedResource>)
    requires
        all_scanned(set.features@, *resources),
        strings_view(patched@) == all_patched(set.features@, resource_specs(*resources)),
    ensures
        resources_view(built@) == resource_specs(*resources).map_values(
            |resource: ResourceSpec| patched_resource(set.features@, resource),
        ),
        forall|r: int| 0 <= r < built@.len() ==> (#[trigger] built@[r]).labels.well_formed(),
{
    let ghost specs = resource_specs(*resources);
    let ghost features = set.features@;
    let ghost all = specs.map_values(
        |resource: ResourceSpec| patched_resource(features, resource),
    );
    let ghost items = patched@;
    let ghost contents = strings_view(items);
    let mut built: Vec<PatchedResource> = Vec::new();
    let mut r: usize = 0;
    assert(resources_view(built@) =~= all.take(0));
    assert(contents.len() == items.len());
    for content in rest: patched
        invariant
            rest.seq() == items,
            all_scanned(features, *resources),
            features == set.features@,
            specs == resource_specs(*resources),
            items.len() == specs.len(),
            contents == strings_view(items),
            contents == all_patched(features, specs),
            all == specs.map_values(
                |resource: ResourceSpec| patched_resource(features, resource),
            ),
            r == rest.index(),
            r <= specs.len(),
            resources_view(built@) == all.take(r as int),
            forall|k: int| 0 <= k < built@.len() ==> (#[trigger] built@[k]).labels.well_formed(),
    {
        let n = resources.len();
        let ghost before = built@;
        let resource = resources.value_at(r);
        let (labels, required_for_ready) = labels_of(set, resource);
        let item = PatchedResource {
            key: resources.key_at(r).to_owned(),
            patched_content: content,
            labels,
            required_for_ready,
        };
        built.push(item);
        proof {
            assert(contents[r as int] == content@);
            assert(all[r as int] == item@);
            assert(resources_view(built@) =~= resources_view(before).push(item@));
            assert(all.take(r + 1) =~= all.take(r as int).push(item@));
        }
        r += 1;
    }
    assert(all.take(r as int) =~= all);
    built
}

} // verus!
