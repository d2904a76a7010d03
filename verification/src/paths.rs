//! Slash-separated paths in an archive and in requests.

use vstd::prelude::*;

use crate::text::{
    eq_ignore_case, is_ascii_alphabetic, is_ascii_digit, split, split_on, starts_with, str_eq,
    str_eq_ignore_case, texts, Text,
};

verus! {

/// The parts of a path after each slash from the `i`-th character on.
pub open spec fn suffixes_from(path: Seq<char>, i: int) -> Seq<Seq<char>>
    decreases path.len() - i,
{
    if i >= path.len() {
        Seq::empty()
    } else if path[i] == '/' {
        seq![path.subrange(i + 1, path.len() as int)] + suffixes_from(path, i + 1)
    } else {
        suffixes_from(path, i + 1)
    }
}

/// A path and its parts after each slash, longest first.
pub open spec fn suffixes(path: Seq<char>) -> Seq<Seq<char>> {
    seq![path] + suffixes_from(path, 0)
}

/// A path and its parts after each slash, longest first.
pub fn path_suffixes<'p>(path: &'p str) -> (parts: Vec<&'p str>)
    ensures
        texts(parts@) == suffixes(path@),
{
    let chars = Text::new(path);
    let n = chars.len();
    let mut parts: Vec<&'p str> = vec![path];
    let mut i: usize = 0;
    assert(texts(parts@) =~= seq![path@]);
    while i < n
        invariant
            chars@ == path@,
            i <= n == path@.len(),
            suffixes(path@) == texts(parts@) + suffixes_from(path@, i as int),
        decreases n - i,
    {
        if chars.at(i) == '/' {
            let ghost kept = parts@;
            let part = chars.slice(i + 1, n);
            parts.push(part);
            proof {
                let rest = suffixes_from(path@, i + 1);
                assert(texts(parts@) =~= texts(kept).push(part@));
                assert(texts(kept) + (seq![part@] + rest) =~= texts(parts@) + rest);
            }
        }
        i += 1;
    }
    assert(texts(parts@) + suffixes_from(path@, n as int) =~= texts(parts@));
    parts
}

proof fn lemma_suffixes_from(path: Seq<char>, i: int)
    requires
        0 <= i <= path.len(),
    ensures
        forall|k: int|
            0 <= k < suffixes_from(path, i).len() ==> {
                let part = #[trigger] suffixes_from(path, i)[k];
                part.len() < path.len() - i && part == path.skip(path.len() - part.len())
            },
        forall|j: int, k: int|
            0 <= j < k < suffixes_from(path, i).len() ==> (
            #[trigger] suffixes_from(path, i)[k]).len() < (#[trigger] suffixes_from(
                path,
                i,
            )[j]).len(),
    decreases path.len() - i,
{
    if i < path.len() {
        lemma_suffixes_from(path, i + 1);
        let rest = suffixes_from(path, i + 1);
        let all = suffixes_from(path, i);
        if path[i] == '/' {
            let part = path.subrange(i + 1, path.len() as int);
            assert(part =~= path.skip(path.len() - part.len()));
            assert(all =~= seq![part] + rest);
            assert forall|k: int| 0 <= k < all.len() implies {
                let part = #[trigger] all[k];
                part.len() < path.len() - i && part == path.skip(path.len() - part.len())
            } by {
                if k > 0 {
                    assert(all[k] == rest[k - 1]);
                }
            }
            assert forall|j: int, k: int| 0 <= j < k < all.len() implies (
            #[trigger] all[k]).len() < (#[trigger] all[j]).len() by {
                assert(all[k] == rest[k - 1]);
                if j > 0 {
                    assert(all[j] == rest[j - 1]);
                }
            }
        }
    }
}

/// The suffixes of a path are ends of it, each shorter than the one before.
pub proof fn lemma_suffixes(path: Seq<char>)
    ensures
        forall|k: int|
            0 <= k < suffixes(path).len() ==> {
                let part = #[trigger] suffixes(path)[k];
                part.len() <= path.len() && part == path.skip(path.len() - part.len())
            },
        forall|j: int, k: int|
            0 <= j < k < suffixes(path).len() ==> (#[trigger] suffixes(path)[k]).len() < (
            #[trigger] suffixes(path)[j]).len(),
{
    lemma_suffixes_from(path, 0);
    let rest = suffixes_from(path, 0);
    let all = suffixes(path);
    assert(path =~= path.skip(0));
    assert forall|k: int| 0 <= k < all.len() implies {
        let part = #[trigger] all[k];
        part.len() <= path.len() && part == path.skip(path.len() - part.len())
    } by {
        if k > 0 {
            assert(all[k] == rest[k - 1]);
        }
    }
    assert forall|j: int, k: int| 0 <= j < k < all.len() implies (#[trigger] all[k]).len() < (
    #[trigger] all[j]).len() by {
        assert(all[k] == rest[k - 1]);
        if j > 0 {
            assert(all[j] == rest[j - 1]);
        }
    }
}

/// Place of the last slash before the `i`-th character, -1 without one.
pub open spec fn last_slash_before(path: Seq<char>, i: int) -> int
    decreases i,
{
    if i <= 0 {
        -1
    } else if path[i - 1] == '/' {
        i - 1
    } else {
        last_slash_before(path, i - 1)
    }
}

/// The part of a path after its last slash.
pub open spec fn base_of(path: Seq<char>) -> Seq<char> {
    path.subrange(last_slash_before(path, path.len() as int) + 1, path.len() as int)
}

/// The part of a path before its last slash, nothing without one.
pub open spec fn dirname_of(path: Seq<char>) -> Seq<char> {
    let slash = last_slash_before(path, path.len() as int);
    if slash < 0 {
        Seq::empty()
    } else {
        path.take(slash)
    }
}

fn after_last_slash(chars: &Text<'_>) -> (start: usize)
    ensures
        start == last_slash_before(chars@, chars@.len() as int) + 1,
        start <= chars@.len(),
{
    let n = chars.len();
    let mut i: usize = n;
    while i > 0 && chars.at(i - 1) != '/'
        invariant
            i <= n == chars@.len(),
            last_slash_before(chars@, n as int) == last_slash_before(chars@, i as int),
        decreases i,
    {
        i -= 1;
    }
    i
}

pub fn basename<'p>(path: &'p str) -> (name: &'p str)
    ensures
        name@ == base_of(path@),
{
    let chars = Text::new(path);
    let start = after_last_slash(&chars);
    chars.slice(start, chars.len())
}

pub fn posix_dirname<'p>(path: &'p str) -> (directory: &'p str)
    ensures
        directory@ == dirname_of(path@),
{
    let chars = Text::new(path);
    let start = after_last_slash(&chars);
    if start == 0 {
        let none = chars.slice(0, 0);
        assert(none@ =~= Seq::empty());
        none
    } else {
        let directory = chars.slice(0, start - 1);
        assert(directory@ =~= path@.take(start - 1));
        directory
    }
}

/// A name ends with an extension, in any case of ASCII letters.
pub open spec fn has_extension(name: Seq<char>, extension: Seq<char>) -> bool {
    extension.len() <= name.len() && eq_ignore_case(
        name.skip(name.len() - extension.len()),
        extension,
    )
}

pub fn ends_with_extension_ci(name: &str, extension: &str) -> (yes: bool)
    ensures
        yes == has_extension(name@, extension@),
{
    let chars = Text::new(name);
    let wanted = Text::new(extension);
    let n = chars.len();
    let m = wanted.len();
    if m > n {
        return false;
    }
    let tail = chars.slice(n - m, n);
    assert(tail@ =~= name@.skip(n - m));
    str_eq_ignore_case(tail, extension)
}

/// A file name with something before its `.js`.
pub open spec fn is_javascript(path: Seq<char>) -> bool {
    base_of(path).len() > 3 && has_extension(base_of(path), ".js"@)
}

pub fn is_javascript_path(path: &str) -> (yes: bool)
    ensures
        yes == is_javascript(path@),
{
    let name = basename(path);
    Text::new(name).len() > 3 && ends_with_extension_ci(name, ".js")
}

pub open spec fn is_html(path: Seq<char>) -> bool {
    has_extension(base_of(path), ".html"@)
}

pub fn is_html_path(path: &str) -> (yes: bool)
    ensures
        yes == is_html(path@),
{
    ends_with_extension_ci(basename(path), ".html")
}

/// A path as seen from a directory that holds it.
pub open spec fn relative_to(root: Seq<char>, path: Seq<char>) -> Option<Seq<char>> {
    if root.len() == 0 {
        Some(path)
    } else if root.is_prefix_of(path) && root.len() < path.len() && path[root.len() as int]
        == '/' {
        Some(path.skip(root.len() as int + 1))
    } else {
        None
    }
}

pub fn relative_to_root<'p>(root: &str, path: &'p str) -> (relative: Option<&'p str>)
    ensures
        match relative {
            Some(relative) => relative_to(root@, path@) == Some(relative@),
            None => relative_to(root@, path@) is None,
        },
{
    let above = Text::new(root).len();
    if above == 0 {
        return Some(path);
    }
    let chars = Text::new(path);
    let n = chars.len();
    if starts_with(path, root) && above < n && chars.at(above) == '/' {
        let relative = chars.slice(above + 1, n);
        assert(relative@ =~= path@.skip(above + 1));
        Some(relative)
    } else {
        None
    }
}

/// A character that a URL holds as it is.
pub open spec fn is_safe_char(c: char) -> bool {
    is_ascii_alphabetic(c) || is_ascii_digit(c) || c == '/' || c == '-' || c == '_' || c == '.'
        || c == '~' || c == '!' || c == '$' || c == '&' || c == '\'' || c == '(' || c == ')'
        || c == '+' || c == ',' || c == ';' || c == '=' || c == '@'
}

pub open spec fn is_safe_segment(segment: Seq<char>) -> bool {
    segment.len() > 0 && segment != "."@ && segment != ".."@
}

/// A relative path that a URL holds as it is.
pub open spec fn is_safe_path(path: Seq<char>) -> bool {
    &&& path.len() > 0
    &&& path[0] != '/'
    &&& forall|k: int|
        0 <= k < split_on(path, '/').len() ==> is_safe_segment(#[trigger] split_on(path, '/')[k])
    &&& forall|i: int| 0 <= i < path.len() ==> is_safe_char(#[trigger] path[i])
}

fn safe_char(c: char) -> (yes: bool)
    ensures
        yes == is_safe_char(c),
{
    ('a' <= c && c <= 'z') || ('A' <= c && c <= 'Z') || ('0' <= c && c <= '9') || c == '/' || c
        == '-' || c == '_' || c == '.' || c == '~' || c == '!' || c == '$' || c == '&' || c == '\''
        || c == '(' || c == ')' || c == '+' || c == ',' || c == ';' || c == '=' || c == '@'
}

pub fn is_safe_request_path(path: &str) -> (yes: bool)
    ensures
        yes == is_safe_path(path@),
{
    let chars = Text::new(path);
    let n = chars.len();
    if n == 0 || chars.at(0) == '/' {
        return false;
    }
    let pieces = split(path, '/');
    let ghost all = split_on(path@, '/');
    assert(all.len() == texts(pieces@).len());
    let mut k: usize = 0;
    while k < pieces.len()
        invariant
            all == split_on(path@, '/'),
            texts(pieces@) == all,
            k <= pieces@.len(),
            forall|j: int| 0 <= j < k ==> is_safe_segment(#[trigger] all[j]),
        decreases pieces.len() - k,
    {
        let piece = pieces[k];
        assert(all[k as int] == piece@);
        if Text::new(piece).len() == 0 || str_eq(piece, ".") || str_eq(piece, "..") {
            assert(!is_safe_segment(all[k as int]));
            return false;
        }
        k += 1;
    }
    let mut i: usize = 0;
    while i < n
        invariant
            chars@ == path@,
            i <= n == path@.len(),
            forall|j: int| 0 <= j < i ==> is_safe_char(#[trigger] path@[j]),
        decreases n - i,
    {
        if !safe_char(chars.at(i)) {
            assert(!is_safe_char(path@[i as int]));
            return false;
        }
        i += 1;
    }
    true
}

} // verus!
