//! Inspection of the application's archive, and the patches planned for it.

use vstd::prelude::*;
use vstd::utf8::*;

use crate::asar::archive::{
    files_view, opened, packed_content, read_packed_file, AsarFile, AsarFileSpec,
    ReadOnlyAsarArchive,
};
use crate::asar::error::{AsarError, AsarErrorSpec};
use crate::asar::request_paths::{
    all_have_paths, all_request_paths, derived, disjoint, request_paths_of,
    resource_request_paths,
};
use crate::digest::{sha256_hex, sha256_hex_bytes};

use crate::patch::fast::{fast_set, patch_set};
use crate::patch::planner::{
    has_sites, plan_of, resource_keys, resources_view, PatchSetReport, PatchedResource,
    PatchedResourceSpec, PlanSpec, Planner, ReportSpec, ResourceSpec,
};
use crate::patch::{Detector, Feature, PatchSet, SetSpec};
use crate::paths::{is_javascript, is_javascript_path};
use crate::text::{str_eq, text_of_bytes};
use crate::text_map::{lemma_rank, lemma_sorted_texts, rank, strings_view, TextMap, TextSet};

pub mod archive;
pub mod archive_laws;
pub mod error;
pub mod request_laws;
pub mod request_paths;

verus! {

// ---------------------------------------------------------------------------
// What a plan holds

/// A file whose content must stay what it was when it was inspected.
pub struct IdentityFile {
    pub label: &'static str,
    pub content: Vec<u8>,
}

/// The digest of a file when it was inspected.
#[derive(Debug)]
pub struct VerificationSnapshot {
    pub label: &'static str,
    pub sha256: String,
}

/// A file's label and digest, for specifications.
pub struct SnapshotSpec {
    pub label: Seq<char>,
    pub sha256: Seq<char>,
}

impl View for VerificationSnapshot {
    type V = SnapshotSpec;

    open spec fn view(&self) -> SnapshotSpec {
        SnapshotSpec { label: self.label@, sha256: self.sha256@ }
    }
}

pub open spec fn snapshots_view(snapshots: Seq<VerificationSnapshot>) -> Seq<SnapshotSpec> {
    snapshots.map_values(|snapshot: VerificationSnapshot| snapshot@)
}

/// A patched file and the paths under which the renderer asks for it.
pub struct PlannedResource {
    pub archive_path: String,
    pub request_paths: TextSet,
    pub labels: TextSet,
    pub required_for_ready: bool,
    pub patched_content: String,
}

/// A patched file and its request paths, for specifications.
#[verifier::ext_equal]
pub struct PlannedSpec {
    pub archive_path: Seq<char>,
    pub request_paths: Set<Seq<char>>,
    pub labels: Set<Seq<char>>,
    pub required_for_ready: bool,
    pub content: Seq<char>,
}

impl View for PlannedResource {
    type V = PlannedSpec;

    open spec fn view(&self) -> PlannedSpec {
        PlannedSpec {
            archive_path: self.archive_path@,
            request_paths: self.request_paths@,
            labels: self.labels@,
            required_for_ready: self.required_for_ready,
            content: self.patched_content@,
        }
    }
}

pub open spec fn planned_view(resources: Seq<PlannedResource>) -> Seq<PlannedSpec> {
    resources.map_values(|resource: PlannedResource| resource@)
}

pub struct CompatibilityPlan {
    pub verification_snapshots: Vec<VerificationSnapshot>,
    pub patch_set: PatchSetReport,
    pub resources: Vec<PlannedResource>,
}

impl CompatibilityPlan {
    pub open spec fn well_formed(&self) -> bool {
        forall|r: int|
            0 <= r < self.resources@.len() ==> (
            #[trigger] self.resources@[r]).request_paths.well_formed()
                && self.resources@[r].labels.well_formed()
    }
}

// ---------------------------------------------------------------------------
// What planning comes to

/// A JavaScript file inside the archive.
pub open spec fn is_scannable(file: AsarFileSpec) -> bool {
    !file.unpacked && is_javascript(file.path)
}

/// The sources with sites after one more source.
pub open spec fn after_source<D: Detector>(
    features: Seq<Feature<D>>,
    resources: Seq<ResourceSpec>,
    path: Seq<char>,
    content: Seq<char>,
) -> Result<Seq<ResourceSpec>, AsarErrorSpec> {
    if resource_keys(resources).contains(path) {
        Err(AsarErrorSpec::EntryRepeated { path })
    } else if has_sites(features, content) {
        Ok(
            resources.insert(
                rank(resource_keys(resources), path),
                ResourceSpec { key: path, content },
            ),
        )
    } else {
        Ok(resources)
    }
}

/// The sources with sites after one more file. A file that is not UTF-8 is left out.
pub open spec fn after_file<D: Detector>(
    features: Seq<Feature<D>>,
    archive: Seq<u8>,
    data_offset: int,
    resources: Seq<ResourceSpec>,
    file: AsarFileSpec,
) -> Result<Seq<ResourceSpec>, AsarErrorSpec> {
    if !is_scannable(file) {
        Ok(resources)
    } else {
        match packed_content(archive, data_offset, file) {
            Ok(bytes) => if valid_utf8(bytes) {
                after_source(features, resources, file.path, decode_utf8(bytes))
            } else {
                Ok(resources)
            },
            Err(error) => Err(error),
        }
    }
}

/// The sources with sites among the first `k` files.
pub open spec fn sources_before<D: Detector>(
    features: Seq<Feature<D>>,
    archive: Seq<u8>,
    data_offset: int,
    files: Seq<AsarFileSpec>,
    k: int,
) -> Result<Seq<ResourceSpec>, AsarErrorSpec>
    decreases k,
{
    if k <= 0 {
        Ok(Seq::empty())
    } else {
        match sources_before(features, archive, data_offset, files, k - 1) {
            Ok(resources) => after_file(features, archive, data_offset, resources, files[k - 1]),
            Err(error) => Err(error),
        }
    }
}

/// The first file with this path.
pub open spec fn file_at_path(files: Seq<AsarFileSpec>, path: Seq<char>) -> Option<AsarFileSpec>
    decreases files.len(),
{
    if files.len() == 0 {
        None
    } else if files[0].path == path {
        Some(files[0])
    } else {
        file_at_path(files.drop_first(), path)
    }
}

/// Why a target cannot be patched.
pub open spec fn target_problem(files: Seq<AsarFileSpec>, path: Seq<char>) -> Option<
    AsarErrorSpec,
> {
    match file_at_path(files, path) {
        None => Some(AsarErrorSpec::MissingTarget { path }),
        Some(file) => if file.unpacked {
            Some(AsarErrorSpec::UnpackedTarget { path })
        } else {
            None
        },
    }
}

/// Why the first target that cannot be patched cannot.
pub open spec fn first_target_problem(
    files: Seq<AsarFileSpec>,
    targets: Seq<Seq<char>>,
) -> Option<AsarErrorSpec>
    decreases targets.len(),
{
    if targets.len() == 0 {
        None
    } else {
        match target_problem(files, targets[0]) {
            Some(error) => Some(error),
            None => first_target_problem(files, targets.drop_first()),
        }
    }
}

/// The paths of the files that a plan patches.
pub open spec fn plan_targets(plan: PlanSpec) -> Seq<Seq<char>> {
    plan.resources.map_values(|resource: PatchedResourceSpec| resource.key)
}

pub open spec fn planned_resource(
    files: Seq<AsarFileSpec>,
    targets: Seq<Seq<char>>,
    resource: PatchedResourceSpec,
) -> PlannedSpec {
    PlannedSpec {
        archive_path: resource.key,
        request_paths: request_paths_of(files, targets, resource.key),
        labels: resource.labels,
        required_for_ready: resource.required_for_ready,
        content: resource.content,
    }
}

/// The sources of an archive and their plan.
pub open spec fn archive_sources<D: Detector>(set: SetSpec<D>, archive: Seq<u8>) -> Result<
    (Seq<AsarFileSpec>, Seq<ResourceSpec>),
    AsarErrorSpec,
> {
    match opened(archive) {
        Err(error) => Err(error),
        Ok((files, data_offset)) => match sources_before(
            set.features,
            archive,
            data_offset,
            files,
            files.len() as int,
        ) {
            Err(error) => Err(error),
            Ok(resources) => Ok((files, resources)),
        },
    }
}

/// Planning an archive gives this report and these resources.
pub open spec fn plans<D: Detector>(
    set: SetSpec<D>,
    archive: Seq<u8>,
    report: ReportSpec,
    resources: Seq<PlannedSpec>,
) -> bool {
    match archive_sources(set, archive) {
        Err(_) => false,
        Ok((files, sources)) => {
            let plan = plan_of(set, sources);
            let targets = plan_targets(plan);
            &&& report == plan.report
            &&& first_target_problem(files, targets) is None
            &&& all_have_paths(files, targets)
            &&& disjoint(all_request_paths(files, targets))
            &&& resources == plan.resources.map_values(
                |resource: PatchedResourceSpec| planned_resource(files, targets, resource),
            )
        },
    }
}

/// Planning an archive fails with this error.
pub open spec fn fails_to_plan<D: Detector>(
    set: SetSpec<D>,
    archive: Seq<u8>,
    error: AsarErrorSpec,
) -> bool {
    match archive_sources(set, archive) {
        Err(why) => error == why,
        Ok((files, sources)) => {
            let targets = plan_targets(plan_of(set, sources));
            match first_target_problem(files, targets) {
                Some(why) => error == why,
                None => derived(files, targets, error),
            }
        },
    }
}

/// The labels and digests of the archive and the other inspected files.
pub open spec fn inspected(archive: Seq<u8>, identity_files: Seq<IdentityFile>) -> Seq<
    SnapshotSpec,
> {
    seq![SnapshotSpec { label: "app.asar"@, sha256: sha256_hex(archive) }]
        + identity_files.map_values(
        |file: IdentityFile|
            SnapshotSpec { label: file.label@, sha256: sha256_hex(file.content@) },
    )
}

// ---------------------------------------------------------------------------
// Planning

/// Unpacked files lie outside the archive that the snapshot covers.
pub fn is_scannable_entry(entry: &AsarFile) -> (yes: bool)
    ensures
        yes == is_scannable(entry@),
{
    !entry.unpacked && is_javascript_path(entry.path.as_str())
}

fn scan_files<'p, D: Detector>(
    set: &'p PatchSet<D>,
    archive: &[u8],
    index: &ReadOnlyAsarArchive,
) -> (result: Result<Planner<'p, D>, AsarError>)
    ensures
        match result {
            Ok(planner) => {
                &&& planner.well_formed()
                &&& planner.patch_set() == set@
                &&& sources_before(
                    set@.features,
                    archive@,
                    index.data_offset as int,
                    files_view(index.files@),
                    index.files@.len() as int,
                ) == Ok::<Seq<ResourceSpec>, AsarErrorSpec>(planner.resources())
            },
            Err(error) => sources_before(
                set@.features,
                archive@,
                index.data_offset as int,
                files_view(index.files@),
                index.files@.len() as int,
            ) == Err::<Seq<ResourceSpec>, AsarErrorSpec>(error@),
        },
{
    let ghost features = set@.features;
    let ghost files = files_view(index.files@);
    let ghost offset = index.data_offset as int;
    let mut planner = Planner::new(set);
    let mut k: usize = 0;
    assert(planner.resources() =~= Seq::empty());
    while k < index.files.len()
        invariant
            features == set@.features,
            files == files_view(index.files@),
            offset == index.data_offset,
            k <= index.files@.len(),
            planner.well_formed(),
            planner.patch_set() == set@,
            sources_before(features, archive@, offset, files, k as int) == Ok::<
                Seq<ResourceSpec>,
                AsarErrorSpec,
            >(planner.resources()),
        decreases index.files.len() - k,
    {
        let entry = &index.files[k];
        assert(files[k as int] == entry@);
        if is_scannable_entry(entry) {
            let bytes = match read_packed_file(archive, index.data_offset, entry) {
                Ok(bytes) => bytes,
                Err(error) => {
                    proof {
                        lemma_sources_failed(
                            features,
                            archive@,
                            offset,
                            files,
                            k + 1,
                            files.len() as int,
                        );
                    }
                    return Err(error);
                },
            };
            if let Some(body) = text_of_bytes(vstd::slice::slice_to_vec(bytes)) {
                proof {
                    encode_utf8_decode_utf8(body@);
                }
                match planner.scan(entry.path.as_str(), body) {
                    Ok(_) => {},
                    Err(_) => {
                        proof {
                            lemma_sources_failed(
                                features,
                                archive@,
                                offset,
                                files,
                                k + 1,
                                files.len() as int,
                            );
                        }
                        return Err(
                            AsarError::EntryRepeated { path: entry.path.as_str().to_owned() },
                        );
                    },
                }
            }
        }
        k += 1;
    }
    Ok(planner)
}

proof fn lemma_sources_failed<D: Detector>(
    features: Seq<Feature<D>>,
    archive: Seq<u8>,
    data_offset: int,
    files: Seq<AsarFileSpec>,
    k: int,
    n: int,
)
    requires
        0 <= k <= n,
        sources_before(features, archive, data_offset, files, k) is Err,
    ensures
        sources_before(features, archive, data_offset, files, n) == sources_before(
            features,
            archive,
            data_offset,
            files,
            k,
        ),
    decreases n - k,
{
    if k < n {
        lemma_sources_failed(features, archive, data_offset, files, k, n - 1);
    }
}

fn find_file<'f>(files: &'f [AsarFile], path: &str) -> (file: Option<&'f AsarFile>)
    ensures
        match file {
            Some(file) => file_at_path(files_view(files@), path@) == Some(file@),
            None => file_at_path(files_view(files@), path@) is None,
        },
{
    let ghost all = files_view(files@);
    let mut k: usize = 0;
    assert(all.skip(0) =~= all);
    while k < files.len()
        invariant
            all == files_view(files@),
            k <= files@.len(),
            file_at_path(all, path@) == file_at_path(all.skip(k as int), path@),
        decreases files.len() - k,
    {
        assert(all.skip(k as int)[0] == files@[k as int]@);
        if str_eq(files[k].path.as_str(), path) {
            return Some(&files[k]);
        }
        assert(all.skip(k as int).drop_first() =~= all.skip(k + 1));
        k += 1;
    }
    None
}

/// Refuses targets that lie outside the archive.
pub fn ensure_patch_targets_packed(
    archive_files: &[AsarFile],
    target_archive_paths: &[String],
) -> (result: Result<(), AsarError>)
    ensures
        match result {
            Ok(_) => first_target_problem(
                files_view(archive_files@),
                strings_view(target_archive_paths@),
            ) is None,
            Err(error) => first_target_problem(
                files_view(archive_files@),
                strings_view(target_archive_paths@),
            ) == Some(error@),
        },
{
    let ghost files = files_view(archive_files@);
    let ghost targets = strings_view(target_archive_paths@);
    let mut k: usize = 0;
    assert(targets.skip(0) =~= targets);
    while k < target_archive_paths.len()
        invariant
            files == files_view(archive_files@),
            targets == strings_view(target_archive_paths@),
            k <= targets.len(),
            first_target_problem(files, targets) == first_target_problem(
                files,
                targets.skip(k as int),
            ),
        decreases target_archive_paths.len() - k,
    {
        let path = target_archive_paths[k].as_str();
        assert(targets.skip(k as int)[0] == path@);
        match find_file(archive_files, path) {
            None => {
                return Err(AsarError::MissingTarget { path: path.to_owned() });
            },
            Some(entry) => {
                if entry.unpacked {
                    return Err(AsarError::UnpackedTarget { path: path.to_owned() });
                }
            },
        }
        assert(targets.skip(k as int).drop_first() =~= targets.skip(k + 1));
        k += 1;
    }
    Ok(())
}

fn targets_of(resources: &Vec<PatchedResource>) -> (targets: Vec<String>)
    ensures
        strings_view(targets@) == resources_view(resources@).map_values(
            |resource: PatchedResourceSpec| resource.key,
        ),
{
    let ghost all = resources_view(resources@).map_values(
        |resource: PatchedResourceSpec| resource.key,
    );
    let mut targets: Vec<String> = Vec::new();
    let mut k: usize = 0;
    assert(strings_view(targets@) =~= all.take(0));
    while k < resources.len()
        invariant
            all == resources_view(resources@).map_values(
                |resource: PatchedResourceSpec| resource.key,
            ),
            k <= resources@.len(),
            strings_view(targets@) == all.take(k as int),
        decreases resources.len() - k,
    {
        let ghost before = targets@;
        let target = resources[k].key.as_str().to_owned();
        targets.push(target);
        proof {
            assert(all[k as int] == target@);
            assert(strings_view(targets@) =~= strings_view(before).push(target@));
            assert(all.take(k + 1) =~= all.take(k as int).push(target@));
        }
        k += 1;
    }
    assert(all.take(k as int) =~= all);
    targets
}

/// Gives each patched file its request paths.
fn with_request_paths(
    patched: Vec<PatchedResource>,
    paths: &TextMap<TextSet>,
    Ghost(files): Ghost<Seq<AsarFileSpec>>,
    Ghost(targets): Ghost<Seq<Seq<char>>>,
) -> (planned: Vec<PlannedResource>)
    requires
        forall|r: int| 0 <= r < patched@.len() ==> (#[trigger] patched@[r]).labels.well_formed(),
        targets == resources_view(patched@).map_values(
            |resource: PatchedResourceSpec| resource.key,
        ),
        paths.well_formed(),
        forall|text: Seq<char>| #[trigger]
            paths.keys().contains(text) <==> targets.contains(text),
        forall|i: int|
            0 <= i < paths.values().len() ==> (#[trigger] paths.values()[i]).well_formed()
                && paths.values()[i]@ == request_paths_of(files, targets, paths.keys()[i]),
    ensures
        planned_view(planned@) == resources_view(patched@).map_values(
            |resource: PatchedResourceSpec| planned_resource(files, targets, resource),
        ),
        forall|r: int|
            0 <= r < planned@.len() ==> (#[trigger] planned@[r]).request_paths.well_formed()
                && planned@[r].labels.well_formed(),
{
    let ghost items = patched@;
    let ghost views = resources_view(items);
    let ghost all = views.map_values(
        |resource: PatchedResourceSpec| planned_resource(files, targets, resource),
    );
    let mut planned: Vec<PlannedResource> = Vec::new();
    assert(planned_view(planned@) =~= all.take(0));
    for resource in rest: patched
        invariant
            rest.seq() == items,
            views == resources_view(items),
            forall|r: int| 0 <= r < items.len() ==> (#[trigger] items[r]).labels.well_formed(),
            targets == views.map_values(|resource: PatchedResourceSpec| resource.key),
            paths.well_formed(),
            forall|text: Seq<char>| #[trigger]
                paths.keys().contains(text) <==> targets.contains(text),
            forall|i: int|
                0 <= i < paths.values().len() ==> (#[trigger] paths.values()[i]).well_formed()
                    && paths.values()[i]@ == request_paths_of(files, targets, paths.keys()[i]),
            all == views.map_values(
                |resource: PatchedResourceSpec| planned_resource(files, targets, resource),
            ),
            planned_view(planned@) == all.take(rest.index() as int),
            forall|r: int|
                0 <= r < planned@.len() ==> (#[trigger] planned@[r]).request_paths.well_formed()
                    && planned@[r].labels.well_formed(),
    {
        let ghost k = rest.index() as int;
        let ghost before = planned@;
        proof {
            assert(resource == items[k]);
            assert(views[k] == resource@);
            assert(targets[k] == resource.key@);
            assert(targets.contains(resource.key@));
            assert(paths.keys().contains(resource.key@));
            lemma_rank(paths.keys(), resource.key@);
            let r = rank(paths.keys(), resource.key@);
            assert(paths@[resource.key@] == paths.values()[r]);
        }
        let request_paths = match paths.get(resource.key.as_str()) {
            Some(found) => found.copy(),
            None => TextSet::new(),
        };
        let item = PlannedResource {
            archive_path: resource.key,
            request_paths,
            labels: resource.labels,
            required_for_ready: resource.required_for_ready,
            patched_content: resource.patched_content,
        };
        planned.push(item);
        proof {
            assert(all[k] == item@);
            assert(planned_view(planned@) =~= planned_view(before).push(item@));
            assert(all.take(k + 1) =~= all.take(k).push(item@));
        }
    }
    assert(all.take(all.len() as int) =~= all);
    planned
}

fn take_snapshots(archive: &[u8], identity_files: &Vec<IdentityFile>) -> (snapshots: Vec<
    VerificationSnapshot,
>)
    ensures
        snapshots_view(snapshots@) == inspected(archive@, identity_files@),
{
    let first = VerificationSnapshot { label: "app.asar", sha256: sha256_hex_bytes(archive) };
    let ghost others = identity_files@.map_values(
        |file: IdentityFile|
            SnapshotSpec { label: file.label@, sha256: sha256_hex(file.content@) },
    );
    let mut snapshots: Vec<VerificationSnapshot> = vec![first];
    let mut k: usize = 0;
    assert(snapshots_view(snapshots@) =~= seq![first@] + others.take(0));
    while k < identity_files.len()
        invariant
            others == identity_files@.map_values(
                |file: IdentityFile|
                    SnapshotSpec { label: file.label@, sha256: sha256_hex(file.content@) },
            ),
            k <= identity_files@.len(),
            snapshots_view(snapshots@) == seq![first@] + others.take(k as int),
        decreases identity_files.len() - k,
    {
        let ghost before = snapshots@;
        let file = &identity_files[k];
        let snapshot = VerificationSnapshot {
            label: file.label,
            sha256: sha256_hex_bytes(file.content.as_slice()),
        };
        snapshots.push(snapshot);
        proof {
            assert(others[k as int] == snapshot@);
            assert(snapshots_view(snapshots@) =~= snapshots_view(before).push(snapshot@));
            assert(seq![first@] + others.take(k + 1) =~= (seq![first@] + others.take(
                k as int,
            )).push(snapshot@));
        }
        k += 1;
    }
    assert(others.take(k as int) =~= others);
    snapshots
}

/// Plans the patches of a patch set for an archive.
pub fn plan_archive<D: Detector>(
    set: &PatchSet<D>,
    app_asar: &[u8],
    identity_files: &Vec<IdentityFile>,
) -> (result: Result<CompatibilityPlan, AsarError>)
    ensures
        match result {
            Ok(plan) => {
                &&& plan.well_formed()
                &&& snapshots_view(plan.verification_snapshots@) == inspected(
                    app_asar@,
                    identity_files@,
                )
                &&& plans(set@, app_asar@, plan.patch_set@, planned_view(plan.resources@))
            },
            Err(error) => fails_to_plan(set@, app_asar@, error@),
        },
{
    let verification_snapshots = take_snapshots(app_asar, identity_files);
    let index = match ReadOnlyAsarArchive::open(app_asar) {
        Ok(index) => index,
        Err(error) => {
            return Err(error);
        },
    };
    let ghost files = files_view(index.files@);
    let planner = match scan_files(set, app_asar, &index) {
        Ok(planner) => planner,
        Err(error) => {
            return Err(error);
        },
    };
    let ghost sources = planner.resources();
    // Every edit of a plan can be made, so planning itself does not fail.
    let plan = planner.finish().unwrap();
    let targets = targets_of(&plan.resources);
    let ghost wanted = strings_view(targets@);
    assert(wanted == plan_targets(plan_of(set@, sources)));
    match ensure_patch_targets_packed(index.files.as_slice(), targets.as_slice()) {
        Ok(_) => {},
        Err(error) => {
            return Err(error);
        },
    }
    let paths = match resource_request_paths(
        index.files.as_slice(),
        targets.as_slice(),
    ) {
        Ok(paths) => paths,
        Err(error) => {
            return Err(error);
        },
    };
    proof {
        lemma_sorted_texts(wanted);
    }
    let resources = with_request_paths(
        plan.resources,
        &paths,
        Ghost(files),
        Ghost(wanted),
    );
    Ok(CompatibilityPlan { verification_snapshots, patch_set: plan.report, resources })
}

/// Plans the fast unlock patches for an archive.
pub fn plan_patches(app_asar: &[u8], identity_files: &Vec<IdentityFile>) -> (result: Result<
    CompatibilityPlan,
    AsarError,
>)
    ensures
        match result {
            Ok(plan) => {
                &&& plan.well_formed()
                &&& snapshots_view(plan.verification_snapshots@) == inspected(
                    app_asar@,
                    identity_files@,
                )
                &&& plans(fast_set(), app_asar@, plan.patch_set@, planned_view(plan.resources@))
            },
            Err(error) => fails_to_plan(fast_set(), app_asar@, error@),
        },
{
    let set = patch_set();
    plan_archive(&set, app_asar, identity_files)
}

// ---------------------------------------------------------------------------
// Verification

/// The first of the files that is no longer what it was.
pub open spec fn first_changed(
    snapshots: Seq<SnapshotSpec>,
    contents: Seq<Seq<u8>>,
) -> Option<Seq<char>>
    decreases contents.len(),
{
    if contents.len() == 0 || snapshots.len() == 0 {
        None
    } else if sha256_hex(contents[0]) != snapshots[0].sha256 {
        Some(snapshots[0].label)
    } else {
        first_changed(snapshots.drop_first(), contents.drop_first())
    }
}

pub open spec fn contents_view(contents: Seq<Vec<u8>>) -> Seq<Seq<u8>> {
    contents.map_values(|content: Vec<u8>| content@)
}

/// Checks that the inspected files, in the order of the snapshots, are still what they were.
/// Where only the first of them are given, only those are checked.
pub fn verify_plan_snapshots(plan: &CompatibilityPlan, contents: &Vec<Vec<u8>>) -> (result: Result<
    (),
    AsarError,
>)
    requires
        contents@.len() <= plan.verification_snapshots@.len(),
    ensures
        ({
            let changed = first_changed(
                snapshots_view(plan.verification_snapshots@),
                contents_view(contents@),
            );
            match result {
                Ok(_) => changed is None,
                Err(error) => changed matches Some(label) && error@ == (AsarErrorSpec::Changed {
                    label,
                }),
            }
        }),
{
    let ghost snapshots = snapshots_view(plan.verification_snapshots@);
    let ghost all = contents_view(contents@);
    let mut k: usize = 0;
    assert(snapshots.skip(0) =~= snapshots);
    assert(all.skip(0) =~= all);
    while k < contents.len()
        invariant
            snapshots == snapshots_view(plan.verification_snapshots@),
            all == contents_view(contents@),
            k <= contents@.len() <= snapshots.len(),
            first_changed(snapshots, all) == first_changed(
                snapshots.skip(k as int),
                all.skip(k as int),
            ),
        decreases contents.len() - k,
    {
        let snapshot = &plan.verification_snapshots[k];
        proof {
            assert(snapshots.skip(k as int)[0] == snapshot@);
            assert(all.skip(k as int)[0] == contents@[k as int]@);
        }
        let actual = sha256_hex_bytes(contents[k].as_slice());
        if !str_eq(actual.as_str(), snapshot.sha256.as_str()) {
            return Err(AsarError::Changed { label: snapshot.label.to_owned() });
        }
        proof {
            assert(snapshots.skip(k as int).drop_first() =~= snapshots.skip(k + 1));
            assert(all.skip(k as int).drop_first() =~= all.skip(k + 1));
        }
        k += 1;
    }
    Ok(())
}

/// Where all files are given and pass the check, each still has the digest that it had when it
/// was inspected.
pub proof fn lemma_passing_files_are_unchanged(
    snapshots: Seq<SnapshotSpec>,
    contents: Seq<Seq<u8>>,
)
    requires
        contents.len() == snapshots.len(),
        first_changed(snapshots, contents) is None,
    ensures
        forall|k: int|
            0 <= k < snapshots.len() ==> (#[trigger] snapshots[k]).sha256 == sha256_hex(
                contents[k],
            ),
    decreases contents.len(),
{
    if contents.len() > 0 {
        let rest = snapshots.drop_first();
        let others = contents.drop_first();
        lemma_passing_files_are_unchanged(rest, others);
        assert forall|k: int| 0 <= k < snapshots.len() implies (#[trigger] snapshots[k]).sha256
            == sha256_hex(contents[k]) by {
            if k > 0 {
                assert(rest[k - 1] == snapshots[k]);
                assert(others[k - 1] == contents[k]);
            }
        }
    }
}

/// Files that are what they were when they were inspected pass the check.
pub proof fn lemma_unchanged_files_pass(snapshots: Seq<SnapshotSpec>, contents: Seq<Seq<u8>>)
    requires
        contents.len() <= snapshots.len(),
        forall|k: int|
            0 <= k < contents.len() ==> (#[trigger] snapshots[k]).sha256 == sha256_hex(
                contents[k],
            ),
    ensures
        first_changed(snapshots, contents) is None,
    decreases contents.len(),
{
    if contents.len() > 0 {
        let rest = snapshots.drop_first();
        let others = contents.drop_first();
        assert(snapshots[0].sha256 == sha256_hex(contents[0]));
        assert forall|k: int| 0 <= k < others.len() implies (#[trigger] rest[k]).sha256
            == sha256_hex(others[k]) by {
            assert(rest[k] == snapshots[k + 1]);
        }
        lemma_unchanged_files_pass(rest, others);
    }
}

} // verus!
