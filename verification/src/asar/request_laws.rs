//! Under which paths files are asked for, and what planning an archive takes in.

use vstd::prelude::*;
use vstd::utf8::*;

use crate::asar::archive::{packed_content, AsarFileSpec};
use crate::asar::error::{error_message, AsarErrorSpec};
use crate::asar::request_paths::{
    has_suffix, is_relative_request, is_renderer_root, last_unique, names_one, request_paths_of,
    suffix_count, unique_suffix,
};
use crate::asar::{
    after_file, file_at_path, first_changed, first_target_problem, inspected, target_problem,
    IdentityFile, PlannedResource, SnapshotSpec,
};
use crate::digest::sha256_hex;
use crate::patch::plan_laws::shows_some;
use crate::patch::planner::{resource_keys, ResourceSpec};
use crate::patch::{Detector, Feature};
use crate::path_laws::{inside, is_name, looks_like_page, looks_like_script};
use crate::paths::{is_safe_path, relative_to, suffixes};
use crate::runtime::plan::{all_paths, all_served, base64_text};
use crate::text::{decimal, joined, separated};
use crate::text_map::rank;

verus! {

// ---------------------------------------------------------------------------
// Request paths

/// A text is a path, or stands behind one of its slashes.
pub open spec fn is_end_of(end: Seq<char>, path: Seq<char>) -> bool {
    end == path || exists|k: int|
        0 <= k < path.len() && #[trigger] path[k] == '/' && end == path.skip(k + 1)
}

/// A script whose path has this end.
pub open spec fn is_script_with(file: AsarFileSpec, end: Seq<char>) -> bool {
    looks_like_script(file.path) && is_end_of(end, file.path)
}

proof fn lemma_script_with(file: AsarFileSpec, end: Seq<char>)
    ensures
        is_script_with(file, end) <==> has_suffix(file, end),
{
    crate::path_laws::lemma_script_is_known_by_its_end(file.path);
    crate::path_laws::lemma_ends_of_a_path(file.path, end);
}

proof fn lemma_count_tells(files: Seq<AsarFileSpec>, end: Seq<char>)
    ensures
        suffix_count(files, end) >= 0,
        suffix_count(files, end) == 0 <==> forall|k: int|
            0 <= k < files.len() ==> !is_script_with(#[trigger] files[k], end),
        suffix_count(files, end) == 1 <==> exists|k: int| #[trigger] is_only(files, k, end),
    decreases files.len(),
{
    if files.len() > 0 {
        let rest = files.drop_last();
        let last = files.len() - 1;
        lemma_count_tells(rest, end);
        lemma_script_with(files[last], end);
        assert forall|k: int| 0 <= k < rest.len() implies #[trigger] rest[k] == files[k] by {}
        if is_script_with(files[last], end) {
            if suffix_count(rest, end) == 0 {
                assert(is_only(files, last, end)) by {
                    assert forall|j: int| 0 <= j < files.len() && j != last implies !is_script_with(
                        #[trigger] files[j],
                        end,
                    ) by {
                        assert(!is_script_with(rest[j], end));
                    }
                }
            } else {
                assert forall|k: int| !#[trigger] is_only(files, k, end) by {
                    if is_only(files, k, end) {
                        if k == last {
                            assert forall|j: int| 0 <= j < rest.len() implies !is_script_with(
                                #[trigger] rest[j],
                                end,
                            ) by {
                                assert(!is_script_with(files[j], end));
                            }
                        } else {
                            assert(is_script_with(files[last], end));
                        }
                    }
                }
            }
            assert(!(forall|k: int|
                0 <= k < files.len() ==> !is_script_with(#[trigger] files[k], end)));
        } else {
            if exists|k: int| #[trigger] is_only(rest, k, end) {
                let k = choose|k: int| #[trigger] is_only(rest, k, end);
                assert(is_only(files, k, end)) by {
                    assert(is_script_with(rest[k], end));
                    assert forall|j: int| 0 <= j < files.len() && j != k implies !is_script_with(
                        #[trigger] files[j],
                        end,
                    ) by {
                        if j < rest.len() {
                            assert(!is_script_with(rest[j], end));
                        }
                    }
                }
            }
            if exists|k: int| #[trigger] is_only(files, k, end) {
                let k = choose|k: int| #[trigger] is_only(files, k, end);
                assert(k != last);
                assert(is_only(rest, k, end)) by {
                    assert(is_script_with(files[k], end));
                    assert forall|j: int| 0 <= j < rest.len() && j != k implies !is_script_with(
                        #[trigger] rest[j],
                        end,
                    ) by {
                        assert(!is_script_with(files[j], end));
                    }
                }
            }
            if suffix_count(rest, end) == 0 {
                assert forall|k: int| 0 <= k < files.len() implies !is_script_with(
                    #[trigger] files[k],
                    end,
                ) by {
                    if k < rest.len() {
                        assert(!is_script_with(rest[k], end));
                    }
                }
            }
            if forall|k: int| 0 <= k < files.len() ==> !is_script_with(#[trigger] files[k], end) {
                assert forall|k: int| 0 <= k < rest.len() implies !is_script_with(
                    #[trigger] rest[k],
                    end,
                ) by {
                    assert(!is_script_with(files[k], end));
                }
            }
        }
    }
}

/// The script at this place, and no other, has this end.
pub open spec fn is_only(files: Seq<AsarFileSpec>, k: int, end: Seq<char>) -> bool {
    &&& 0 <= k < files.len()
    &&& is_script_with(files[k], end)
    &&& forall|j: int| 0 <= j < files.len() && j != k ==> !is_script_with(#[trigger] files[j], end)
}

proof fn lemma_last_unique_is(files: Seq<AsarFileSpec>, parts: Seq<Seq<char>>, k: int)
    requires
        0 <= k < parts.len(),
        names_one(files, parts[k]),
        forall|j: int| k < j < parts.len() ==> !names_one(files, #[trigger] parts[j]),
    ensures
        last_unique(files, parts) == Some(parts[k]),
    decreases parts.len(),
{
    if k < parts.len() - 1 {
        assert(parts.drop_last()[k] == parts[k]);
        assert(!names_one(files, parts[parts.len() - 1]));
        lemma_last_unique_is(files, parts.drop_last(), k);
    }
}

/// A script is asked for under the shortest end of its path that no other script has and that
/// an address holds as it is.
pub proof fn lemma_shortest_end_is_asked_for(
    files: Seq<AsarFileSpec>,
    targets: Seq<Seq<char>>,
    k: int,
    end: Seq<char>,
)
    requires
        is_only(files, k, end),
        is_safe_path(end),
        forall|other: Seq<char>|
            #![trigger is_end_of(other, files[k].path)]
            is_end_of(other, files[k].path) && other.len() < end.len() ==> !is_only(files, k, other)
                || !is_safe_path(other),
    ensures
        unique_suffix(files, files[k].path) == Some(end),
        request_paths_of(files, targets, files[k].path).contains(end),
{
    let path = files[k].path;
    let parts = suffixes(path);
    crate::paths::lemma_suffixes(path);
    crate::path_laws::lemma_ends_of_a_path(path, end);
    lemma_count_tells(files, end);
    assert(names_one(files, end));
    assert(parts.contains(end));
    let at = choose|at: int| 0 <= at < parts.len() && parts[at] == end;
    assert forall|j: int| at < j < parts.len() implies !names_one(files, #[trigger] parts[j]) by {
        let other = parts[j];
        assert(parts.contains(other));
        crate::path_laws::lemma_ends_of_a_path(path, other);
        assert(is_end_of(other, path));
        lemma_count_tells(files, other);
        if names_one(files, other) {
            let one = choose|one: int| #[trigger] is_only(files, one, other);
            assert(is_script_with(files[k], other));
            assert(one == k);
        }
    }
    lemma_last_unique_is(files, parts, at);
}

/// A script that lies with all others in the directory of a page is asked for under its path
/// from there, where an address holds that as it is.
pub proof fn lemma_path_from_the_page_is_asked_for(
    files: Seq<AsarFileSpec>,
    targets: Seq<Seq<char>>,
    page: int,
    root: Seq<char>,
    name: Seq<char>,
    path: Seq<char>,
)
    requires
        0 <= page < files.len(),
        root.len() > 0,
        is_name(name),
        looks_like_page(name),
        files[page].path == inside(root, name),
        forall|t: int|
            0 <= t < targets.len() ==> exists|rest: Seq<char>|
                #[trigger] targets[t] == #[trigger] inside(root, rest),
        is_safe_path(path),
    ensures
        request_paths_of(files, targets, inside(root, path)).contains(path),
{
    let file = files[page];
    crate::path_laws::lemma_path_is_directory_and_name(root, name);
    crate::path_laws::lemma_page_is_known_by_its_end(file.path);
    assert(looks_like_page(file.path)) by {
        let n = file.path.len() as int;
        let m = name.len() as int;
        assert(file.path[n - 1] == name[m - 1] && file.path[n - 2] == name[m - 2]);
        assert(file.path[n - 3] == name[m - 3] && file.path[n - 4] == name[m - 4]);
        assert(file.path[n - 5] == name[m - 5]);
    }
    assert forall|t: int| 0 <= t < targets.len() implies relative_to(
        root,
        #[trigger] targets[t],
    ) is Some by {
        let rest = choose|rest: Seq<char>| targets[t] == #[trigger] inside(root, rest);
        crate::path_laws::lemma_path_in_directory(root, targets[t], rest);
    }
    assert(is_renderer_root(files, targets, root));
    crate::path_laws::lemma_path_in_directory(root, inside(root, path), path);
    assert(is_relative_request(files, targets, inside(root, path), root, path));
}

/// Whatever a script is asked for under is an end of its path, and one that an address holds as
/// it is.
pub proof fn lemma_asked_for_under_its_own_ends(
    files: Seq<AsarFileSpec>,
    targets: Seq<Seq<char>>,
    target: Seq<char>,
    path: Seq<char>,
)
    requires
        request_paths_of(files, targets, target).contains(path),
    ensures
        is_end_of(path, target),
        is_safe_path(path),
{
    if unique_suffix(files, target) == Some(path) {
        let parts = suffixes(target);
        lemma_last_unique_from(files, parts);
        crate::path_laws::lemma_ends_of_a_path(target, path);
    } else {
        let root = choose|root: Seq<char>| #[trigger]
            is_relative_request(files, targets, target, root, path);
        crate::path_laws::lemma_path_in_directory(root, target, path);
        if root.len() > 0 {
            assert(target[root.len() as int] == '/');
            assert(target.skip(root.len() as int + 1) =~= path);
        }
    }
}

proof fn lemma_last_unique_from(files: Seq<AsarFileSpec>, parts: Seq<Seq<char>>)
    ensures
        last_unique(files, parts) matches Some(part) ==> parts.contains(part) && names_one(
            files,
            part,
        ),
    decreases parts.len(),
{
    if parts.len() > 0 {
        let rest = parts.drop_last();
        lemma_last_unique_from(files, rest);
        if names_one(files, parts.last()) {
            assert(parts[parts.len() - 1] == parts.last());
        } else if let Some(part) = last_unique(files, rest) {
            let k = choose|k: int| 0 <= k < rest.len() && rest[k] == part;
            assert(parts[k] == part);
        }
    }
}

// ---------------------------------------------------------------------------
// Sources

/// One file more adds its source where it is a packed script in UTF-8 in which some feature
/// shows. What cannot be read, or has a path that is taken, is refused.
pub proof fn lemma_file_adds_its_source<D: Detector>(
    features: Seq<Feature<D>>,
    archive: Seq<u8>,
    data_offset: int,
    resources: Seq<ResourceSpec>,
    file: AsarFileSpec,
)
    ensures
        ({
            let after = after_file(features, archive, data_offset, resources, file);
            let taken = exists|r: int|
                0 <= r < resources.len() && (#[trigger] resources[r]).key == file.path;
            let script = !file.unpacked && looks_like_script(file.path);
            let content = packed_content(archive, data_offset, file);
            &&& !script ==> after == Ok::<Seq<ResourceSpec>, AsarErrorSpec>(resources)
            &&& script ==> match content {
                Err(error) => after == Err::<Seq<ResourceSpec>, AsarErrorSpec>(error),
                Ok(bytes) => {
                    &&& !valid_utf8(bytes) ==> after == Ok::<Seq<ResourceSpec>, AsarErrorSpec>(
                        resources,
                    )
                    &&& valid_utf8(bytes) && taken ==> after == Err::<
                        Seq<ResourceSpec>,
                        AsarErrorSpec,
                    >(AsarErrorSpec::EntryRepeated { path: file.path })
                    &&& valid_utf8(bytes) && !taken && !shows_some(features, decode_utf8(bytes))
                        ==> after == Ok::<Seq<ResourceSpec>, AsarErrorSpec>(resources)
                    &&& valid_utf8(bytes) && !taken && shows_some(features, decode_utf8(bytes)) ==> {
                        &&& after matches Ok(more)
                        &&& more.len() == resources.len() + 1
                        &&& more.contains(
                            (ResourceSpec { key: file.path, content: decode_utf8(bytes) }),
                        )
                        &&& forall|r: int|
                            0 <= r < resources.len() ==> more.contains(#[trigger] resources[r])
                    }
                },
            }
        }),
{
    crate::path_laws::lemma_script_is_known_by_its_end(file.path);
    let keys = resource_keys(resources);
    if exists|r: int| 0 <= r < resources.len() && (#[trigger] resources[r]).key == file.path {
        let r = choose|r: int| 0 <= r < resources.len() && (#[trigger] resources[r]).key
            == file.path;
        assert(keys[r] == file.path);
    } else {
        assert(!keys.contains(file.path));
    }
    if let Ok(bytes) = packed_content(archive, data_offset, file) {
        let content = decode_utf8(bytes);
        crate::patch::plan_laws::lemma_shows_some(features, content);
        let place = rank(keys, file.path);
        crate::patch::plan_laws::lemma_rank_bounds(keys, file.path);
        let source = ResourceSpec { key: file.path, content };
        let more = resources.insert(place, source);
        assert(more[place] == source);
        assert forall|r: int| 0 <= r < resources.len() implies more.contains(
            #[trigger] resources[r],
        ) by {
            if r < place {
                assert(more[r] == resources[r]);
            } else {
                assert(more[r + 1] == resources[r]);
            }
        }
    }
}

// ---------------------------------------------------------------------------
// Targets and snapshots

/// A file is found under its path, the first of them where there are several.
pub proof fn lemma_file_is_found_by_path(files: Seq<AsarFileSpec>, k: int)
    requires
        0 <= k < files.len(),
        forall|j: int| 0 <= j < k ==> (#[trigger] files[j]).path != files[k].path,
    ensures
        file_at_path(files, files[k].path) == Some(files[k]),
        target_problem(files, files[k].path) == if files[k].unpacked {
            Some(AsarErrorSpec::UnpackedTarget { path: files[k].path })
        } else {
            None
        },
    decreases files.len(),
{
    if k > 0 {
        assert(files[0].path != files[k].path);
        let rest = files.drop_first();
        assert(rest[k - 1] == files[k]);
        lemma_file_is_found_by_path(rest, k - 1);
    }
}

/// A path that no file has is missing.
pub proof fn lemma_missing_file_is_a_problem(files: Seq<AsarFileSpec>, path: Seq<char>)
    requires
        forall|j: int| 0 <= j < files.len() ==> (#[trigger] files[j]).path != path,
    ensures
        file_at_path(files, path) is None,
        target_problem(files, path) == Some(AsarErrorSpec::MissingTarget { path }),
    decreases files.len(),
{
    if files.len() > 0 {
        assert(files[0].path != path);
        let rest = files.drop_first();
        assert forall|j: int| 0 <= j < rest.len() implies (#[trigger] rest[j]).path != path by {
            assert(rest[j] == files[j + 1]);
        }
        lemma_missing_file_is_a_problem(rest, path);
    }
}

/// The first target with a problem is the one that is told of.
pub proof fn lemma_first_problem_is_told(files: Seq<AsarFileSpec>, targets: Seq<Seq<char>>, k: int)
    requires
        0 <= k <= targets.len(),
        forall|j: int| 0 <= j < k ==> target_problem(files, #[trigger] targets[j]) is None,
        k < targets.len() ==> target_problem(files, targets[k]) is Some,
    ensures
        first_target_problem(files, targets) == if k < targets.len() {
            target_problem(files, targets[k])
        } else {
            None
        },
    decreases targets.len(),
{
    if targets.len() > 0 {
        if k > 0 {
            assert(target_problem(files, targets[0]) is None);
            let rest = targets.drop_first();
            assert forall|j: int| 0 <= j < k - 1 implies target_problem(
                files,
                #[trigger] rest[j],
            ) is None by {
                assert(rest[j] == targets[j + 1]);
            }
            if k < targets.len() {
                assert(rest[k - 1] == targets[k]);
            }
            lemma_first_problem_is_told(files, rest, k - 1);
        }
    }
}

/// The archive is inspected first, then the other files in order, each by the digest of its
/// content.
pub proof fn lemma_every_file_is_inspected(
    archive: Seq<u8>,
    identity_files: Seq<IdentityFile>,
    k: int,
)
    requires
        0 <= k < identity_files.len(),
    ensures
        inspected(archive, identity_files).len() == identity_files.len() + 1,
        inspected(archive, identity_files)[0].label == "app.asar"@,
        inspected(archive, identity_files)[0].sha256 == sha256_hex(archive),
        inspected(archive, identity_files)[k + 1].label == identity_files[k].label@,
        inspected(archive, identity_files)[k + 1].sha256 == sha256_hex(identity_files[k].content@),
{
}

/// The first file whose digest is another than it was is the one that is told of.
pub proof fn lemma_first_change_is_told(
    snapshots: Seq<SnapshotSpec>,
    contents: Seq<Seq<u8>>,
    k: int,
)
    requires
        0 <= k < contents.len() <= snapshots.len(),
        forall|j: int|
            0 <= j < k ==> (#[trigger] snapshots[j]).sha256 == sha256_hex(contents[j]),
        snapshots[k].sha256 != sha256_hex(contents[k]),
    ensures
        first_changed(snapshots, contents) == Some(snapshots[k].label),
    decreases contents.len(),
{
    if k > 0 {
        assert(snapshots[0].sha256 == sha256_hex(contents[0]));
        let rest = snapshots.drop_first();
        let others = contents.drop_first();
        assert forall|j: int| 0 <= j < k - 1 implies (#[trigger] rest[j]).sha256 == sha256_hex(
            others[j],
        ) by {
            assert(rest[j] == snapshots[j + 1]);
            assert(others[j] == contents[j + 1]);
        }
        assert(rest[k - 1] == snapshots[k] && others[k - 1] == contents[k]);
        lemma_first_change_is_told(rest, others, k - 1);
    }
}

// ---------------------------------------------------------------------------
// What is served

/// A file of a plan is served with its patched content, under each of its request paths, unless
/// a later one has its path.
pub proof fn lemma_planned_file_is_served(
    resources: Seq<PlannedResource>,
    k: int,
    path: Seq<char>,
)
    requires
        0 <= k < resources.len(),
        resources[k].request_paths@.contains(path),
        forall|j: int|
            k < j < resources.len() ==> (#[trigger] resources[j]).archive_path@
                != resources[k].archive_path@ && !resources[j].request_paths@.contains(path),
    ensures
        ({
            let resource = resources[k];
            let all = all_served(resources);
            &&& all.contains_key(resource.archive_path@)
            &&& all[resource.archive_path@].encoded_body == base64_text(
                encode_utf8(resource.patched_content@),
            )
            &&& all[resource.archive_path@].labels == separated(
                resource.labels.in_order(),
                "|"@,
            )
            &&& all[resource.archive_path@].required_for_ready == resource.required_for_ready
            &&& all_paths(resources).contains_key(path)
            &&& all_paths(resources)[path] == resource.archive_path@
        }),
    decreases resources.len(),
{
    let rest = resources.drop_last();
    if k < rest.len() {
        let last = resources[resources.len() - 1];
        assert(last.archive_path@ != resources[k].archive_path@
            && !last.request_paths@.contains(path));
        assert(rest[k] == resources[k]);
        assert forall|j: int| k < j < rest.len() implies (#[trigger] rest[j]).archive_path@
            != rest[k].archive_path@ && !rest[j].request_paths@.contains(path) by {
            assert(rest[j] == resources[j]);
        }
        lemma_planned_file_is_served(rest, k, path);
    }
}

/// Nothing is served under a path that no file of a plan has.
pub proof fn lemma_nothing_else_is_served(resources: Seq<PlannedResource>, path: Seq<char>)
    ensures
        (forall|k: int|
            0 <= k < resources.len() ==> !(#[trigger] resources[k]).request_paths@.contains(path))
            ==> !all_paths(resources).contains_key(path),
        (forall|k: int|
            0 <= k < resources.len() ==> (#[trigger] resources[k]).archive_path@ != path)
            ==> !all_served(resources).contains_key(path),
    decreases resources.len(),
{
    if resources.len() > 0 {
        let rest = resources.drop_last();
        lemma_nothing_else_is_served(rest, path);
        let last = resources.len() - 1;
        if forall|k: int|
            0 <= k < resources.len() ==> !(#[trigger] resources[k]).request_paths@.contains(path) {
            assert(!resources[last].request_paths@.contains(path));
            assert forall|k: int| 0 <= k < rest.len() implies !(
            #[trigger] rest[k]).request_paths@.contains(path) by {
                assert(rest[k] == resources[k]);
            }
        }
        if forall|k: int|
            0 <= k < resources.len() ==> (#[trigger] resources[k]).archive_path@ != path {
            assert(resources[last].archive_path@ != path);
            assert forall|k: int| 0 <= k < rest.len() implies (#[trigger] rest[k]).archive_path@
                != path by {
                assert(rest[k] == resources[k]);
            }
        }
    }
}

// ---------------------------------------------------------------------------
// What errors say

/// What is said of a header gives what is wrong with it.
pub proof fn lemma_header_errors(size: u32, cause: Seq<char>, parent: Seq<char>)
    ensures
        error_message(AsarErrorSpec::InvalidHeaderSize { size }) == "invalid ASAR header size "@
            + decimal(size as nat),
        error_message(AsarErrorSpec::InvalidHeaderJson { cause }) == "invalid ASAR header JSON: "@
            + cause,
        error_message(AsarErrorSpec::MissingFiles { parent })
            == "ASAR header missing files object under "@ + parent,
{
    reveal_with_fuel(joined, 3);
    assert(error_message(AsarErrorSpec::InvalidHeaderSize { size }) =~= "invalid ASAR header size "@
        + decimal(size as nat));
    assert(error_message(AsarErrorSpec::InvalidHeaderJson { cause }) =~= "invalid ASAR header JSON: "@
        + cause);
    assert(error_message(AsarErrorSpec::MissingFiles { parent })
        =~= "ASAR header missing files object under "@ + parent);
}

/// What is said of a file names its path, and its cause where it has one.
pub proof fn lemma_file_errors_name_the_path(path: Seq<char>, cause: Seq<char>)
    ensures
        error_message(AsarErrorSpec::InvalidSize { path }) == "invalid ASAR size for "@ + path,
        error_message(AsarErrorSpec::MissingOffset { path }) == "missing ASAR offset for "@ + path,
        error_message(AsarErrorSpec::InvalidOffset { path, cause }) == "invalid ASAR offset for "@
            + path + ": "@ + cause,
        error_message(AsarErrorSpec::PastArchive { path }) == "ASAR entry "@ + path
            + " extends past the archive"@,
        error_message(AsarErrorSpec::EntryTooShort { path }) == "read ASAR entry "@ + path
            + ": failed to fill whole buffer"@,
        error_message(AsarErrorSpec::EntryCorrupt { path }) == "read ASAR entry "@ + path
            + ": integrity check failed for ASAR entry "@ + path,
        error_message(AsarErrorSpec::EntryOverflows { path }) == "read ASAR entry "@ + path
            + ": ASAR entry offset overflows: "@ + path,
        error_message(AsarErrorSpec::EntryRepeated { path }) == "inspect ASAR entry "@ + path
            + ": duplicate patch resource: "@ + path,
{
    reveal_with_fuel(joined, 5);
    assert(error_message(AsarErrorSpec::InvalidSize { path }) =~= "invalid ASAR size for "@ + path);
    assert(error_message(AsarErrorSpec::MissingOffset { path }) =~= "missing ASAR offset for "@
        + path);
    assert(error_message(AsarErrorSpec::InvalidOffset { path, cause })
        =~= "invalid ASAR offset for "@ + path + ": "@ + cause);
    assert(error_message(AsarErrorSpec::PastArchive { path }) =~= "ASAR entry "@ + path
        + " extends past the archive"@);
    assert(error_message(AsarErrorSpec::EntryTooShort { path }) =~= "read ASAR entry "@ + path
        + ": failed to fill whole buffer"@);
    assert(error_message(AsarErrorSpec::EntryCorrupt { path }) =~= "read ASAR entry "@ + path
        + ": integrity check failed for ASAR entry "@ + path);
    assert(error_message(AsarErrorSpec::EntryOverflows { path }) =~= "read ASAR entry "@ + path
        + ": ASAR entry offset overflows: "@ + path);
    assert(error_message(AsarErrorSpec::EntryRepeated { path }) =~= "inspect ASAR entry "@ + path
        + ": duplicate patch resource: "@ + path);
}

/// What is said of a target names it.
pub proof fn lemma_target_errors_name_the_target(path: Seq<char>)
    ensures
        error_message(AsarErrorSpec::MissingTarget { path }) == "missing ASAR patch target "@ + path,
        error_message(AsarErrorSpec::UnpackedTarget { path })
            == "unpacked ASAR patch target is not snapshot-safe: "@ + path,
        error_message(AsarErrorSpec::NoRequestPath { path })
            == "could not derive a request path for "@ + path,
        error_message(AsarErrorSpec::AmbiguousPath { path }) == "ambiguous request path "@ + path,
        error_message(AsarErrorSpec::Changed { label: path }) == path
            + " changed after compatibility inspection"@,
{
    reveal_with_fuel(joined, 3);
    assert(error_message(AsarErrorSpec::MissingTarget { path }) =~= "missing ASAR patch target "@
        + path);
    assert(error_message(AsarErrorSpec::UnpackedTarget { path })
        =~= "unpacked ASAR patch target is not snapshot-safe: "@ + path);
    assert(error_message(AsarErrorSpec::NoRequestPath { path })
        =~= "could not derive a request path for "@ + path);
    assert(error_message(AsarErrorSpec::AmbiguousPath { path }) =~= "ambiguous request path "@
        + path);
    assert(error_message(AsarErrorSpec::Changed { label: path }) =~= path
        + " changed after compatibility inspection"@);
}

} // verus!
