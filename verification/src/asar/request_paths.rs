//! The paths under which the renderer asks for the files of an archive.

use vstd::prelude::*;

use crate::asar::archive::{files_view, AsarFile, AsarFileSpec};
use crate::asar::error::{AsarError, AsarErrorSpec};
use crate::paths::{
    dirname_of, is_html, is_html_path, is_javascript, is_javascript_path, is_safe_path,
    is_safe_request_path, path_suffixes, posix_dirname, relative_to, relative_to_root, suffixes,
};
use crate::text::{lemma_text_less_order, str_eq, text_less, texts};
use crate::text_map::{sorted_texts, strings_view, TextMap, TextSet};

verus! {

/// A JavaScript file whose path ends with the suffix at a slash.
pub open spec fn has_suffix(file: AsarFileSpec, suffix: Seq<char>) -> bool {
    is_javascript(file.path) && suffixes(file.path).contains(suffix)
}

/// How many JavaScript files have the suffix.
pub open spec fn suffix_count(files: Seq<AsarFileSpec>, suffix: Seq<char>) -> int
    decreases files.len(),
{
    if files.len() == 0 {
        0
    } else {
        suffix_count(files.drop_last(), suffix) + if has_suffix(files.last(), suffix) {
            1int
        } else {
            0
        }
    }
}

/// A suffix that tells one file from all others and that a URL holds as it is.
pub open spec fn names_one(files: Seq<AsarFileSpec>, suffix: Seq<char>) -> bool {
    suffix_count(files, suffix) == 1 && is_safe_path(suffix)
}

/// The last of the suffixes that names one file.
pub open spec fn last_unique(files: Seq<AsarFileSpec>, parts: Seq<Seq<char>>) -> Option<Seq<char>>
    decreases parts.len(),
{
    if parts.len() == 0 {
        None
    } else if names_one(files, parts.last()) {
        Some(parts.last())
    } else {
        last_unique(files, parts.drop_last())
    }
}

/// The shortest suffix of a path that names one file.
pub open spec fn unique_suffix(files: Seq<AsarFileSpec>, path: Seq<char>) -> Option<Seq<char>> {
    last_unique(files, suffixes(path))
}

/// Every target lies in the directory.
pub open spec fn holds_all(root: Seq<char>, targets: Seq<Seq<char>>) -> bool {
    forall|t: int| 0 <= t < targets.len() ==> relative_to(root, #[trigger] targets[t]) is Some
}

/// The directory of a page that holds every target.
pub open spec fn is_renderer_root(
    files: Seq<AsarFileSpec>,
    targets: Seq<Seq<char>>,
    root: Seq<char>,
) -> bool {
    &&& holds_all(root, targets)
    &&& exists|k: int|
        0 <= k < files.len() && is_html((#[trigger] files[k]).path) && dirname_of(files[k].path)
            == root
}

/// A path that a page's directory gives a target.
pub open spec fn is_relative_request(
    files: Seq<AsarFileSpec>,
    targets: Seq<Seq<char>>,
    target: Seq<char>,
    root: Seq<char>,
    path: Seq<char>,
) -> bool {
    is_renderer_root(files, targets, root) && relative_to(root, target) == Some(path)
        && is_safe_path(path)
}

/// The paths under which the renderer may ask for a target.
pub open spec fn request_paths_of(
    files: Seq<AsarFileSpec>,
    targets: Seq<Seq<char>>,
    target: Seq<char>,
) -> Set<Seq<char>> {
    Set::new(
        |path: Seq<char>|
            unique_suffix(files, target) == Some(path) || exists|root: Seq<char>| #[trigger]
                is_relative_request(files, targets, target, root, path),
    )
}

/// The request paths of each target, in the order of the targets.
pub open spec fn all_request_paths(
    files: Seq<AsarFileSpec>,
    targets: Seq<Seq<char>>,
) -> Seq<Set<Seq<char>>> {
    sorted_texts(targets).map_values(|target: Seq<char>| request_paths_of(files, targets, target))
}

/// A path of the `i`-th set that an earlier set has too.
pub open spec fn shared_at(sets: Seq<Set<Seq<char>>>, i: int, path: Seq<char>) -> bool {
    0 <= i < sets.len() && sets[i].contains(path) && exists|j: int|
        0 <= j < i && (#[trigger] sets[j]).contains(path)
}

/// The first path that two of the sets share: of the first set that shares one, the least.
pub open spec fn first_shared(sets: Seq<Set<Seq<char>>>, i: int, path: Seq<char>) -> bool {
    &&& shared_at(sets, i, path)
    &&& forall|k: int, other: Seq<char>| 0 <= k < i ==> !#[trigger] shared_at(sets, k, other)
    &&& forall|other: Seq<char>| #[trigger]
        shared_at(sets, i, other) ==> other == path || text_less(path, other)
}

pub open spec fn is_first_shared(sets: Seq<Set<Seq<char>>>, path: Seq<char>) -> bool {
    exists|i: int| #[trigger] first_shared(sets, i, path)
}

/// No two of the sets share a path.
pub open spec fn disjoint(sets: Seq<Set<Seq<char>>>) -> bool {
    forall|i: int, path: Seq<char>| !#[trigger] shared_at(sets, i, path)
}

/// What deriving the request paths comes to.
pub open spec fn derived(
    files: Seq<AsarFileSpec>,
    targets: Seq<Seq<char>>,
    error: AsarErrorSpec,
) -> bool {
    let sets = all_request_paths(files, targets);
    match error {
        AsarErrorSpec::NoRequestPath { path } => exists|k: int|
            #[trigger] first_without_path(files, targets, k) && targets[k] == path,
        AsarErrorSpec::AmbiguousPath { path } => {
            &&& all_have_paths(files, targets)
            &&& is_first_shared(sets, path)
        },
        _ => false,
    }
}

pub open spec fn has_path(
    files: Seq<AsarFileSpec>,
    targets: Seq<Seq<char>>,
    target: Seq<char>,
) -> bool {
    exists|path: Seq<char>| request_paths_of(files, targets, target).contains(path)
}

pub open spec fn all_have_paths(files: Seq<AsarFileSpec>, targets: Seq<Seq<char>>) -> bool {
    forall|k: int| 0 <= k < targets.len() ==> has_path(files, targets, #[trigger] targets[k])
}

/// The `k`-th target is the first without a request path.
pub open spec fn first_without_path(
    files: Seq<AsarFileSpec>,
    targets: Seq<Seq<char>>,
    k: int,
) -> bool {
    &&& 0 <= k < targets.len()
    &&& !has_path(files, targets, targets[k])
    &&& forall|j: int| 0 <= j < k ==> has_path(files, targets, #[trigger] targets[j])
}

// ---------------------------------------------------------------------------
// Facts

/// A suffix that names one file is no longer than any other suffix that does.
pub proof fn lemma_unique_suffix_is_shortest(
    files: Seq<AsarFileSpec>,
    path: Seq<char>,
    other: Seq<char>,
)
    requires
        suffixes(path).contains(other),
        names_one(files, other),
    ensures
        unique_suffix(files, path) matches Some(suffix) && suffixes(path).contains(suffix)
            && names_one(files, suffix) && suffix.len() <= other.len(),
{
    crate::paths::lemma_suffixes(path);
    let parts = suffixes(path);
    let k = choose|k: int| 0 <= k < parts.len() && parts[k] == other;
    lemma_last_unique(files, parts, k);
}

proof fn lemma_last_unique(files: Seq<AsarFileSpec>, parts: Seq<Seq<char>>, k: int)
    requires
        0 <= k < parts.len(),
        names_one(files, parts[k]),
    ensures
        last_unique(files, parts) matches Some(suffix) && names_one(files, suffix) && exists|j: int|
            k <= j < parts.len() && #[trigger] parts[j] == suffix,
    decreases parts.len(),
{
    let last = parts.len() - 1;
    if names_one(files, parts.last()) {
        assert(parts[last] == parts.last());
    } else {
        let rest = parts.drop_last();
        lemma_last_unique(files, rest, k);
        let suffix = last_unique(files, rest)->0;
        let j = choose|j: int| k <= j < rest.len() && #[trigger] rest[j] == suffix;
        assert(parts[j] == suffix);
    }
}

// ---------------------------------------------------------------------------
// Derivation

fn contains_str(parts: &Vec<&str>, text: &str) -> (yes: bool)
    ensures
        yes == texts(parts@).contains(text@),
{
    let mut k: usize = 0;
    while k < parts.len()
        invariant
            k <= parts@.len(),
            forall|j: int| 0 <= j < k ==> #[trigger] texts(parts@)[j] != text@,
        decreases parts.len() - k,
    {
        if str_eq(parts[k], text) {
            assert(texts(parts@)[k as int] == text@);
            return true;
        }
        assert(texts(parts@)[k as int] != text@);
        k += 1;
    }
    false
}

fn is_unique(files: &[AsarFile], suffix: &str) -> (yes: bool)
    ensures
        yes == names_one(files_view(files@), suffix@),
{
    let ghost all = files_view(files@);
    let mut count: usize = 0;
    let mut k: usize = 0;
    while k < files.len()
        invariant
            all == files_view(files@),
            k <= files@.len(),
            count <= k,
            count == suffix_count(all.take(k as int), suffix@),
        decreases files.len() - k,
    {
        let path = files[k].path.as_str();
        proof {
            assert(all.take(k + 1).drop_last() =~= all.take(k as int));
            assert(all[k as int] == files@[k as int]@);
        }
        if is_javascript_path(path) {
            let parts = path_suffixes(path);
            if contains_str(&parts, suffix) {
                count += 1;
            }
        }
        k += 1;
    }
    assert(all.take(k as int) =~= all);
    count == 1 && is_safe_request_path(suffix)
}

fn shortest_unique<'p>(files: &[AsarFile], path: &'p str) -> (suffix: Option<&'p str>)
    ensures
        match suffix {
            Some(suffix) => unique_suffix(files_view(files@), path@) == Some(suffix@),
            None => unique_suffix(files_view(files@), path@) is None,
        },
{
    let ghost all = files_view(files@);
    let parts = path_suffixes(path);
    let ghost names = suffixes(path@);
    let mut k: usize = parts.len();
    assert(names.len() == texts(parts@).len());
    assert(names.take(k as int) =~= names);
    while k > 0
        invariant
            all == files_view(files@),
            names == suffixes(path@),
            texts(parts@) == names,
            k <= parts@.len(),
            unique_suffix(all, path@) == last_unique(all, names.take(k as int)),
        decreases k,
    {
        let part = parts[k - 1];
        proof {
            assert(names[k - 1] == part@);
            assert(names.take(k as int).last() == part@);
            assert(names.take(k as int).drop_last() =~= names.take(k - 1));
        }
        if is_unique(files, part) {
            return Some(part);
        }
        k -= 1;
    }
    None
}

fn root_holds_all(root: &str, targets: &[String]) -> (yes: bool)
    ensures
        yes == holds_all(root@, strings_view(targets@)),
{
    let ghost all = strings_view(targets@);
    let mut k: usize = 0;
    while k < targets.len()
        invariant
            all == strings_view(targets@),
            k <= targets@.len(),
            forall|j: int| 0 <= j < k ==> relative_to(root@, #[trigger] all[j]) is Some,
        decreases targets.len() - k,
    {
        assert(all[k as int] == targets@[k as int]@);
        if relative_to_root(root, targets[k].as_str()).is_none() {
            assert(relative_to(root@, all[k as int]) is None);
            return false;
        }
        k += 1;
    }
    true
}

/// The directories of pages that hold every target.
fn renderer_roots(files: &[AsarFile], targets: &[String]) -> (roots: TextSet)
    ensures
        roots.well_formed(),
        forall|root: Seq<char>| #[trigger]
            roots@.contains(root) <==> is_renderer_root(
                files_view(files@),
                strings_view(targets@),
                root,
            ),
{
    let ghost all = files_view(files@);
    let ghost wanted = strings_view(targets@);
    let mut roots = TextSet::new();
    let mut k: usize = 0;
    while k < files.len()
        invariant
            all == files_view(files@),
            wanted == strings_view(targets@),
            k <= files@.len(),
            roots.well_formed(),
            forall|root: Seq<char>| #[trigger]
                roots@.contains(root) <==> is_renderer_root(all.take(k as int), wanted, root),
        decreases files.len() - k,
    {
        let path = files[k].path.as_str();
        let ghost before = roots@;
        proof {
            assert(all[k as int] == files@[k as int]@);
            assert(all.take(k + 1) =~= all.take(k as int).push(all[k as int]));
        }
        if is_html_path(path) {
            let root = posix_dirname(path);
            if root_holds_all(root, targets) {
                let _ = roots.insert(root);
            }
        }
        proof {
            let shorter = all.take(k as int);
            let longer = all.take(k + 1);
            assert forall|root: Seq<char>| #[trigger] roots@.contains(root) <==> is_renderer_root(
                longer,
                wanted,
                root,
            ) by {
                assert(before.contains(root) <==> is_renderer_root(shorter, wanted, root));
                if is_renderer_root(shorter, wanted, root) {
                    let j = choose|j: int|
                        0 <= j < shorter.len() && is_html((#[trigger] shorter[j]).path)
                            && dirname_of(shorter[j].path) == root;
                    assert(longer[j] == shorter[j]);
                }
                if is_renderer_root(longer, wanted, root) {
                    let j = choose|j: int|
                        0 <= j < longer.len() && is_html((#[trigger] longer[j]).path)
                            && dirname_of(longer[j].path) == root;
                    if j < k {
                        assert(shorter[j] == longer[j]);
                    }
                }
                assert(longer[k as int] == all[k as int]);
            }
        }
        k += 1;
    }
    assert(all.take(k as int) =~= all);
    roots
}

/// The request paths of a target.
fn paths_of_target(
    files: &[AsarFile],
    targets: &[String],
    roots: &TextSet,
    target: &str,
) -> (paths: TextSet)
    requires
        roots.well_formed(),
        forall|root: Seq<char>| #[trigger]
            roots@.contains(root) <==> is_renderer_root(
                files_view(files@),
                strings_view(targets@),
                root,
            ),
    ensures
        paths.well_formed(),
        paths@ == request_paths_of(files_view(files@), strings_view(targets@), target@),
{
    let ghost all = files_view(files@);
    let ghost wanted = strings_view(targets@);
    let ghost order = roots.in_order();
    proof {
        roots.lemma_in_order();
    }
    let mut paths = TextSet::new();
    let mut k: usize = 0;
    while k < roots.len()
        invariant
            roots.well_formed(),
            order == roots.in_order(),
            forall|root: Seq<char>| #[trigger]
                roots@.contains(root) <==> is_renderer_root(all, wanted, root),
            k <= order.len(),
            paths.well_formed(),
            forall|path: Seq<char>| #[trigger]
                paths@.contains(path) <==> exists|j: int|
                    0 <= j < k && is_relative_request(all, wanted, target@, #[trigger] order[j], path),
        decreases order.len() - k,
    {
        let root = roots.at(k);
        let ghost before = paths@;
        if let Some(path) = relative_to_root(root, target) {
            if is_safe_request_path(path) {
                let _ = paths.insert(path);
            }
        }
        proof {
            assert(order[k as int] == root@);
            assert forall|path: Seq<char>| #[trigger] paths@.contains(path) <==> exists|j: int|
                0 <= j < k + 1 && is_relative_request(
                    all,
                    wanted,
                    target@,
                    #[trigger] order[j],
                    path,
                ) by {
                if before.contains(path) {
                    let j = choose|j: int|
                        0 <= j < k && is_relative_request(
                            all,
                            wanted,
                            target@,
                            #[trigger] order[j],
                            path,
                        );
                    assert(0 <= j < k + 1 && is_relative_request(
                        all,
                        wanted,
                        target@,
                        order[j],
                        path,
                    ));
                }
                assert(is_relative_request(all, wanted, target@, order[k as int], path) <==> (
                relative_to(root@, target@) == Some(path) && is_safe_path(path)));
            }
        }
        k += 1;
    }
    if let Some(suffix) = shortest_unique(files, target) {
        let _ = paths.insert(suffix);
    }
    proof {
        let expected = request_paths_of(all, wanted, target@);
        assert forall|path: Seq<char>| paths@.contains(path) == expected.contains(path) by {
            if exists|root: Seq<char>| #[trigger]
                is_relative_request(all, wanted, target@, root, path) {
                let root = choose|root: Seq<char>| #[trigger]
                    is_relative_request(all, wanted, target@, root, path);
                assert(roots@.contains(root));
                assert(order.contains(root));
                let j = choose|j: int| 0 <= j < order.len() && order[j] == root;
                assert(is_relative_request(all, wanted, target@, order[j], path));
            }
        }
        assert(paths@ =~= expected);
    }
    paths
}

/// The paths under which the renderer may ask for each target. Each target has one at least,
/// and no two targets share one.
pub fn resource_request_paths(
    archive_files: &[AsarFile],
    target_archive_paths: &[String],
) -> (result: Result<TextMap<TextSet>, AsarError>)
    ensures
        ({
            let files = files_view(archive_files@);
            let targets = strings_view(target_archive_paths@);
            match result {
                Ok(paths) => {
                    &&& all_have_paths(files, targets)
                    &&& disjoint(all_request_paths(files, targets))
                    &&& paths.well_formed()
                    &&& paths.keys() == sorted_texts(targets)
                    &&& forall|i: int|
                        0 <= i < paths.values().len() ==> (
                        #[trigger] paths.values()[i]).well_formed() && paths.values()[i]@
                            == request_paths_of(files, targets, paths.keys()[i])
                },
                Err(error) => derived(files, targets, error@),
            }
        }),
{
    let ghost files = files_view(archive_files@);
    let ghost targets = strings_view(target_archive_paths@);
    let roots = renderer_roots(archive_files, target_archive_paths);
    let mut paths: TextMap<TextSet> = TextMap::new();
    let mut k: usize = 0;
    assert(targets.take(0) =~= Seq::empty());
    while k < target_archive_paths.len()
        invariant
            files == files_view(archive_files@),
            targets == strings_view(target_archive_paths@),
            roots.well_formed(),
            forall|root: Seq<char>| #[trigger]
                roots@.contains(root) <==> is_renderer_root(files, targets, root),
            k <= targets.len(),
            paths.well_formed(),
            paths.keys() == sorted_texts(targets.take(k as int)),
            forall|i: int|
                0 <= i < paths.values().len() ==> (#[trigger] paths.values()[i]).well_formed()
                    && paths.values()[i]@ == request_paths_of(files, targets, paths.keys()[i]),
            forall|j: int| 0 <= j < k ==> has_path(files, targets, #[trigger] targets[j]),
        decreases target_archive_paths.len() - k,
    {
        let target = target_archive_paths[k].as_str();
        let found = paths_of_target(archive_files, target_archive_paths, &roots, target);
        proof {
            assert(targets[k as int] == target@);
            found.lemma_in_order();
        }
        if found.len() == 0 {
            proof {
                if has_path(files, targets, target@) {
                    let path = choose|path: Seq<char>|
                        request_paths_of(files, targets, target@).contains(path);
                    assert(found.in_order().contains(path));
                }
                assert(first_without_path(files, targets, k as int));
            }
            return Err(AsarError::NoRequestPath { path: target.to_owned() });
        }
        proof {
            assert(found.in_order().contains(found.in_order()[0]));
            assert(request_paths_of(files, targets, target@).contains(found.in_order()[0]));
            assert(targets.take(k + 1).drop_last() =~= targets.take(k as int));
            crate::text_map::lemma_rank(paths.keys(), target@);
        }
        let ghost keys = paths.keys();
        let ghost values = paths.values();
        let _ = paths.insert(target.to_owned(), found);
        proof {
            let r = crate::text_map::rank(keys, target@);
            assert forall|i: int| 0 <= i < paths.values().len() implies (
            #[trigger] paths.values()[i]).well_formed() && paths.values()[i]@ == request_paths_of(
                files,
                targets,
                paths.keys()[i],
            ) by {
                if keys.contains(target@) {
                    if i != r {
                        assert(paths.values()[i] == values[i]);
                    }
                } else if i < r {
                    assert(paths.values()[i] == values[i]);
                } else if i > r {
                    assert(paths.values()[i] == values[i - 1]);
                }
            }
        }
        k += 1;
    }
    assert(targets.take(k as int) =~= targets);
    match find_shared(&paths) {
        Some(shared) => {
            let ghost sets = sets_of(paths);
            let ghost i = choose|i: int| #[trigger] first_shared(sets, i, shared@);
            let error = AsarError::AmbiguousPath { path: shared };
            proof {
                assert(sets =~= all_request_paths(files, targets));
                assert(first_shared(all_request_paths(files, targets), i, shared@));
                assert(derived(files, targets, error@));
            }
            Err(error)
        },
        None => {
            assert(sets_of(paths) =~= all_request_paths(files, targets));
            Ok(paths)
        },
    }
}

/// The sets of a map, in the order of its keys.
spec fn sets_of(paths: TextMap<TextSet>) -> Seq<Set<Seq<char>>> {
    paths.values().map_values(|set: TextSet| set@)
}

/// The first path that two sets of a map share.
fn find_shared(paths: &TextMap<TextSet>) -> (shared: Option<String>)
    requires
        paths.well_formed(),
        forall|i: int|
            0 <= i < paths.values().len() ==> (#[trigger] paths.values()[i]).well_formed(),
    ensures
        match shared {
            Some(path) => is_first_shared(sets_of(*paths), path@),
            None => disjoint(sets_of(*paths)),
        },
{
    let ghost sets = sets_of(*paths);
    let mut seen = TextSet::new();
    let mut i: usize = 0;
    while i < paths.len()
        invariant
            paths.well_formed(),
            sets == sets_of(*paths),
            forall|k: int|
                0 <= k < paths.values().len() ==> (#[trigger] paths.values()[k]).well_formed(),
            i <= sets.len(),
            seen.well_formed(),
            forall|path: Seq<char>| #[trigger]
                seen@.contains(path) <==> exists|j: int|
                    0 <= j < i && (#[trigger] sets[j]).contains(path),
            forall|k: int, path: Seq<char>| 0 <= k < i ==> !#[trigger] shared_at(sets, k, path),
        decreases sets.len() - i,
    {
        let set = paths.value_at(i);
        let ghost order = set.in_order();
        let ghost earlier = seen@;
        proof {
            assert(sets[i as int] == set@);
            set.lemma_in_order();
        }
        let mut k: usize = 0;
        while k < set.len()
            invariant
                set.well_formed(),
                order == set.in_order(),
                crate::text_map::sorted(order),
                sets == sets_of(*paths),
                i < sets.len(),
                sets[i as int] == set@,
                forall|path: Seq<char>| #[trigger]
                    order.contains(path) <==> set@.contains(path),
                k <= order.len(),
                seen.well_formed(),
                forall|path: Seq<char>| #[trigger]
                    earlier.contains(path) <==> exists|j: int|
                        0 <= j < i && (#[trigger] sets[j]).contains(path),
                forall|path: Seq<char>| #[trigger]
                    seen@.contains(path) <==> earlier.contains(path) || order.take(
                        k as int,
                    ).contains(path),
                forall|j: int| 0 <= j < k ==> !earlier.contains(#[trigger] order[j]),
                forall|j: int, path: Seq<char>| 0 <= j < i ==> !#[trigger] shared_at(sets, j, path),
            decreases order.len() - k,
        {
            let path = set.at(k);
            let ghost before = seen@;
            proof {
                assert(order[k as int] == path@);
                if order.take(k as int).contains(path@) {
                    let j = choose|j: int|
                        0 <= j < k && order.take(k as int)[j] == path@;
                    assert(text_less(order[j], order[k as int]));
                    lemma_text_less_order(path@, path@, path@);
                }
            }
            if !seen.insert(path) {
                proof {
                    assert(earlier.contains(path@));
                    assert(shared_at(sets, i as int, path@));
                    assert forall|other: Seq<char>| #[trigger]
                        shared_at(sets, i as int, other) implies other == path@ || text_less(
                        path@,
                        other,
                    ) by {
                        assert(order.contains(other));
                        let j = choose|j: int| 0 <= j < order.len() && order[j] == other;
                        assert(earlier.contains(other));
                        if j < k {
                            assert(!earlier.contains(order[j]));
                        } else if j > k {
                            assert(text_less(order[k as int], order[j]));
                        }
                    }
                    assert(first_shared(sets, i as int, path@));
                }
                let found = path.to_owned();
                assert(first_shared(sets_of(*paths), i as int, found@));
                return Some(found);
            }
            proof {
                assert(order.take(k + 1) =~= order.take(k as int).push(path@));
                assert forall|other: Seq<char>| #[trigger]
                    seen@.contains(other) <==> earlier.contains(other) || order.take(
                        k + 1,
                    ).contains(other) by {
                    assert(before.contains(other) <==> earlier.contains(other) || order.take(
                        k as int,
                    ).contains(other));
                    if order.take(k as int).contains(other) {
                        let j = choose|j: int| 0 <= j < k && order.take(k as int)[j] == other;
                        assert(order.take(k + 1)[j] == other);
                    }
                    let longer = order.take(k + 1);
                    if longer.contains(other) {
                        let j = choose|j: int| 0 <= j < longer.len() && longer[j] == other;
                        if j < k {
                            assert(order.take(k as int)[j] == other);
                        }
                    }
                    assert(order.take(k + 1)[k as int] == path@);
                }
            }
            k += 1;
        }
        proof {
            assert(order.take(k as int) =~= order);
            assert forall|path: Seq<char>| !#[trigger] shared_at(sets, i as int, path) by {
                if shared_at(sets, i as int, path) {
                    assert(order.contains(path));
                    let j = choose|j: int| 0 <= j < order.len() && order[j] == path;
                    assert(!earlier.contains(order[j]));
                }
            }
            assert forall|path: Seq<char>| #[trigger] seen@.contains(path) <==> exists|j: int|
                0 <= j < i + 1 && (#[trigger] sets[j]).contains(path) by {
                if earlier.contains(path) {
                    let j = choose|j: int| 0 <= j < i && (#[trigger] sets[j]).contains(path);
                    assert(0 <= j < i + 1 && sets[j].contains(path));
                }
                if order.contains(path) {
                    assert(sets[i as int].contains(path));
                }
            }
        }
        i += 1;
    }
    None
}

} // verus!
