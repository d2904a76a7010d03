//! What paths are made of, told from their characters.

use vstd::prelude::*;

use crate::paths::{
    base_of, dirname_of, is_html, is_javascript, is_safe_char, is_safe_path, is_safe_segment,
    last_slash_before, relative_to, suffixes, suffixes_from,
};
use crate::text::{fold_case, split_from, split_on};

verus! {

/// A text holds no slash.
pub open spec fn is_name(text: Seq<char>) -> bool {
    forall|i: int| 0 <= i < text.len() ==> #[trigger] text[i] != '/'
}

/// A name in a directory.
pub open spec fn inside(directory: Seq<char>, name: Seq<char>) -> Seq<char> {
    directory + seq!['/'] + name
}

proof fn lemma_last_slash(path: Seq<char>, slash: int, i: int)
    requires
        -1 <= slash < i <= path.len(),
        slash >= 0 ==> path[slash] == '/',
        forall|k: int| slash < k < i ==> #[trigger] path[k] != '/',
    ensures
        last_slash_before(path, i) == slash,
    decreases i,
{
    if i - 1 > slash {
        lemma_last_slash(path, slash, i - 1);
    }
}

/// A path is the name behind its last slash and the directory before it.
pub proof fn lemma_path_is_directory_and_name(directory: Seq<char>, name: Seq<char>)
    requires
        is_name(name),
    ensures
        base_of(inside(directory, name)) == name,
        dirname_of(inside(directory, name)) == directory,
        base_of(name) == name,
        dirname_of(name) == Seq::<char>::empty(),
{
    let path = inside(directory, name);
    let slash = directory.len() as int;
    assert forall|k: int| slash < k < path.len() implies #[trigger] path[k] != '/' by {
        assert(path[k] == name[k - slash - 1]);
    }
    lemma_last_slash(path, slash, path.len() as int);
    assert(base_of(path) =~= name);
    assert(dirname_of(path) =~= directory);
    if name.len() > 0 {
        lemma_last_slash(name, -1, name.len() as int);
    }
    assert(base_of(name) =~= name);
}

/// A letter in either case.
pub open spec fn is_letter_of(c: char, lower: char, upper: char) -> bool {
    c == lower || c == upper
}

/// A path ends like a script: a point, `js` in any case, and something of the name before.
pub open spec fn looks_like_script(path: Seq<char>) -> bool {
    let n = path.len() as int;
    &&& n >= 4
    &&& path[n - 4] != '/'
    &&& path[n - 3] == '.'
    &&& is_letter_of(path[n - 2], 'j', 'J')
    &&& is_letter_of(path[n - 1], 's', 'S')
}

/// A path ends like a page: a point and `html` in any case.
pub open spec fn looks_like_page(path: Seq<char>) -> bool {
    let n = path.len() as int;
    &&& n >= 5
    &&& path[n - 5] == '.'
    &&& is_letter_of(path[n - 4], 'h', 'H')
    &&& is_letter_of(path[n - 3], 't', 'T')
    &&& is_letter_of(path[n - 2], 'm', 'M')
    &&& is_letter_of(path[n - 1], 'l', 'L')
}

proof fn lemma_slash_bounds(path: Seq<char>, i: int)
    requires
        0 <= i <= path.len(),
    ensures
        -1 <= last_slash_before(path, i) < i || last_slash_before(path, i) == -1,
        last_slash_before(path, i) >= 0 ==> path[last_slash_before(path, i)] == '/',
        forall|k: int| last_slash_before(path, i) < k < i ==> #[trigger] path[k] != '/',
    decreases i,
{
    if i > 0 && path[i - 1] != '/' {
        lemma_slash_bounds(path, i - 1);
    }
}

proof fn lemma_folded(c: char, lower: char, upper: char)
    requires
        'a' <= lower && lower <= 'z',
        upper as int == lower as int - 32,
    ensures
        fold_case(c) == fold_case(lower) <==> is_letter_of(c, lower, upper),
        c == '/' ==> fold_case(c) != fold_case(lower),
{
}

/// A script is known by the end of its path.
pub proof fn lemma_script_is_known_by_its_end(path: Seq<char>)
    ensures
        is_javascript(path) <==> looks_like_script(path),
{
    reveal_strlit(".js");
    let n = path.len() as int;
    let slash = last_slash_before(path, n);
    lemma_slash_bounds(path, n);
    let name = base_of(path);
    assert(".js"@ =~= seq!['.', 'j', 's']);
    if n >= 4 {
        lemma_folded(path[n - 2], 'j', 'J');
        lemma_folded(path[n - 1], 's', 'S');
    }
    if is_javascript(path) {
        let tail = name.skip(name.len() - 3);
        assert(tail[0] == path[n - 3] && tail[1] == path[n - 2] && tail[2] == path[n - 1]);
        assert(fold_case(tail[0]) == fold_case(".js"@[0]));
        assert(fold_case(tail[1]) == fold_case(".js"@[1]));
        assert(fold_case(tail[2]) == fold_case(".js"@[2]));
        assert(path[n - 4] != '/');
    }
    if looks_like_script(path) {
        assert(slash < n - 4);
        let tail = name.skip(name.len() - 3);
        assert forall|i: int| 0 <= i < tail.len() implies #[trigger] fold_case(tail[i])
            == fold_case(".js"@[i]) by {
            assert(tail[i] == path[n - 3 + i]);
            assert(i == 0 || i == 1 || i == 2);
        }
    }
}

/// A page is known by the end of its path.
pub proof fn lemma_page_is_known_by_its_end(path: Seq<char>)
    ensures
        is_html(path) <==> looks_like_page(path),
{
    reveal_strlit(".html");
    let n = path.len() as int;
    let slash = last_slash_before(path, n);
    lemma_slash_bounds(path, n);
    let name = base_of(path);
    assert(".html"@ =~= seq!['.', 'h', 't', 'm', 'l']);
    if n >= 5 {
        lemma_folded(path[n - 4], 'h', 'H');
        lemma_folded(path[n - 3], 't', 'T');
        lemma_folded(path[n - 2], 'm', 'M');
        lemma_folded(path[n - 1], 'l', 'L');
    }
    if is_html(path) {
        let tail = name.skip(name.len() - 5);
        assert(tail[0] == path[n - 5] && tail[1] == path[n - 4] && tail[2] == path[n - 3]);
        assert(tail[3] == path[n - 2] && tail[4] == path[n - 1]);
        assert(fold_case(tail[0]) == fold_case(".html"@[0]));
        assert(fold_case(tail[1]) == fold_case(".html"@[1]));
        assert(fold_case(tail[2]) == fold_case(".html"@[2]));
        assert(fold_case(tail[3]) == fold_case(".html"@[3]));
        assert(fold_case(tail[4]) == fold_case(".html"@[4]));
    }
    if looks_like_page(path) {
        assert(slash < n - 5);
        let tail = name.skip(name.len() - 5);
        assert forall|i: int| 0 <= i < tail.len() implies #[trigger] fold_case(tail[i])
            == fold_case(".html"@[i]) by {
            assert(tail[i] == path[n - 5 + i]);
            assert(i == 0 || i == 1 || i == 2 || i == 3 || i == 4);
        }
    }
}

/// A path lies in a directory exactly where it starts with the directory and a slash, and in the
/// one without a name in any case.
pub proof fn lemma_path_in_directory(root: Seq<char>, path: Seq<char>, rest: Seq<char>)
    ensures
        relative_to(Seq::empty(), path) == Some(path),
        root.len() > 0 ==> (relative_to(root, path) == Some(rest) <==> path == inside(root, rest)),
{
    if root.len() > 0 {
        if path == inside(root, rest) {
            assert(root.is_prefix_of(path)) by {
                assert(path.take(root.len() as int) =~= root);
            }
            assert(path.skip(root.len() as int + 1) =~= rest);
        }
        if relative_to(root, path) == Some(rest) {
            assert(path =~= inside(root, rest));
        }
    }
}

// ---------------------------------------------------------------------------
// Ends of paths

proof fn lemma_ends_from(path: Seq<char>, i: int, end: Seq<char>)
    requires
        0 <= i,
    ensures
        suffixes_from(path, i).contains(end) <==> exists|k: int|
            i <= k < path.len() && #[trigger] path[k] == '/' && end == path.skip(k + 1),
    decreases path.len() - i,
{
    if i < path.len() {
        lemma_ends_from(path, i + 1, end);
        let all = suffixes_from(path, i);
        let rest = suffixes_from(path, i + 1);
        if path[i] == '/' {
            let first = path.subrange(i + 1, path.len() as int);
            assert(first =~= path.skip(i + 1));
            assert(all[0] == first);
            if rest.contains(end) {
                let j = choose|j: int| 0 <= j < rest.len() && rest[j] == end;
                assert(all[j + 1] == end);
            }
            if all.contains(end) && end != first {
                let j = choose|j: int| 0 <= j < all.len() && all[j] == end;
                assert(rest[j - 1] == end);
            }
        }
    }
}

/// The ends of a path are the path and what stands behind each of its slashes.
pub proof fn lemma_ends_of_a_path(path: Seq<char>, end: Seq<char>)
    ensures
        suffixes(path).contains(end) <==> end == path || exists|k: int|
            0 <= k < path.len() && #[trigger] path[k] == '/' && end == path.skip(k + 1),
{
    lemma_ends_from(path, 0, end);
    let all = suffixes(path);
    let rest = suffixes_from(path, 0);
    assert(all[0] == path);
    if rest.contains(end) {
        let j = choose|j: int| 0 <= j < rest.len() && rest[j] == end;
        assert(all[j + 1] == end);
    }
    if all.contains(end) && end != path {
        let j = choose|j: int| 0 <= j < all.len() && all[j] == end;
        assert(rest[j - 1] == end);
    }
}

// ---------------------------------------------------------------------------
// Paths that an address holds as they are

/// A character that an address holds as it is.
pub open spec fn stays_in_address(c: char) -> bool {
    ||| 'a' <= c && c <= 'z'
    ||| 'A' <= c && c <= 'Z'
    ||| '0' <= c && c <= '9'
    ||| seq!['-', '_', '.', '~', '!', '$', '&', '\'', '(', ')', '+', ',', ';', '=', '@'].contains(c)
}

proof fn lemma_stays(c: char)
    ensures
        c != '/' ==> (stays_in_address(c) <==> is_safe_char(c)),
        is_safe_char('/'),
{
    let signs = seq!['-', '_', '.', '~', '!', '$', '&', '\'', '(', ')', '+', ',', ';', '=', '@'];
    assert(signs[0] == '-' && signs[1] == '_' && signs[2] == '.' && signs[3] == '~');
    assert(signs[4] == '!' && signs[5] == '$' && signs[6] == '&' && signs[7] == '\'');
    assert(signs[8] == '(' && signs[9] == ')' && signs[10] == '+' && signs[11] == ',');
    assert(signs[12] == ';' && signs[13] == '=' && signs[14] == '@');
}

proof fn lemma_split_behind(before: Seq<char>, text: Seq<char>, start: int, i: int, c: char)
    requires
        0 <= start <= i <= text.len(),
    ensures
        split_from(before + text, before.len() + start, before.len() + i, c) == split_from(
            text,
            start,
            i,
            c,
        ),
    decreases text.len() - i,
{
    let whole = before + text;
    let n = before.len() as int;
    if i >= text.len() {
        assert(whole.subrange(n + start, whole.len() as int) =~= text.subrange(
            start,
            text.len() as int,
        ));
    } else {
        assert(whole[n + i] == text[i]);
        if text[i] == c {
            assert(whole.subrange(n + start, n + i) =~= text.subrange(start, i));
            lemma_split_behind(before, text, i + 1, i + 1, c);
        } else {
            lemma_split_behind(before, text, start, i + 1, c);
        }
    }
}

/// A text that is split at a separator is split into the pieces before it and those behind it.
pub proof fn lemma_split_at(left: Seq<char>, right: Seq<char>, start: int, i: int, c: char)
    requires
        0 <= start <= i <= left.len(),
    ensures
        split_from(left + seq![c] + right, start, i, c) == split_from(left, start, i, c)
            + split_from(right, 0, 0, c),
    decreases left.len() - i,
{
    let whole = left + seq![c] + right;
    if i >= left.len() {
        assert(whole[i] == c);
        assert(whole.subrange(start, i) =~= left.subrange(start, left.len() as int));
        assert(whole =~= (left + seq![c]) + right);
        lemma_split_behind(left + seq![c], right, 0, 0, c);
    } else {
        assert(whole[i] == left[i]);
        if left[i] == c {
            assert(whole.subrange(start, i) =~= left.subrange(start, i));
            lemma_split_at(left, right, i + 1, i + 1, c);
            assert(split_from(whole, start, i, c) =~= split_from(left, start, i, c) + split_from(
                right,
                0,
                0,
                c,
            ));
        } else {
            lemma_split_at(left, right, start, i + 1, c);
        }
    }
}

/// A name is its only piece.
pub proof fn lemma_split_name(name: Seq<char>, i: int)
    requires
        is_name(name),
        0 <= i <= name.len(),
    ensures
        split_from(name, 0, i, '/') == seq![name],
    decreases name.len() - i,
{
    if i < name.len() {
        lemma_split_name(name, i + 1);
    } else {
        assert(name.subrange(0, name.len() as int) =~= name);
    }
}

/// A name is safe where it is not empty, is not one of the two that stand for directories, and
/// an address holds each of its characters as it is.
pub proof fn lemma_safe_name(name: Seq<char>)
    requires
        is_name(name),
    ensures
        is_safe_path(name) <==> {
            &&& name.len() > 0
            &&& name != seq!['.']
            &&& name != seq!['.', '.']
            &&& forall|i: int| 0 <= i < name.len() ==> stays_in_address(#[trigger] name[i])
        },
{
    lemma_split_name(name, 0);
    reveal_strlit(".");
    reveal_strlit("..");
    assert("."@ =~= seq!['.']);
    assert(".."@ =~= seq!['.', '.']);
    let pieces = split_on(name, '/');
    assert(pieces == seq![name]);
    assert(pieces[0] == name);
    assert forall|i: int| 0 <= i < name.len() implies stays_in_address(#[trigger] name[i])
        == is_safe_char(name[i]) by {
        lemma_stays(name[i]);
    }
    if is_safe_path(name) {
        assert(is_safe_segment(pieces[0]));
        assert forall|i: int| 0 <= i < name.len() implies stays_in_address(#[trigger] name[i]) by {
            assert(is_safe_char(name[i]));
        }
    }
    if name.len() > 0 && name != seq!['.'] && name != seq!['.', '.'] && (forall|i: int|
        0 <= i < name.len() ==> stays_in_address(#[trigger] name[i])) {
        assert forall|i: int| 0 <= i < name.len() implies is_safe_char(#[trigger] name[i]) by {
            assert(stays_in_address(name[i]));
        }
        assert(name[0] != '/');
    }
}

/// A path of two parts is safe exactly where both are.
pub proof fn lemma_safe_path_has_safe_parts(left: Seq<char>, right: Seq<char>)
    ensures
        is_safe_path(inside(left, right)) <==> is_safe_path(left) && is_safe_path(right),
{
    let whole = inside(left, right);
    lemma_split_at(left, right, 0, 0, '/');
    lemma_stays('/');
    let a = split_on(left, '/');
    let b = split_on(right, '/');
    let all = split_on(whole, '/');
    assert(all == a + b);
    lemma_first_piece(left, 0);
    lemma_first_piece(right, 0);
    if is_safe_path(left) && is_safe_path(right) {
        assert(whole[0] == left[0]);
        assert forall|k: int| 0 <= k < all.len() implies is_safe_segment(#[trigger] all[k]) by {
            if k < a.len() {
                assert(all[k] == a[k]);
            } else {
                assert(all[k] == b[k - a.len()]);
            }
        }
        assert forall|i: int| 0 <= i < whole.len() implies is_safe_char(#[trigger] whole[i]) by {
            if i < left.len() {
                assert(whole[i] == left[i]);
            } else if i > left.len() {
                assert(whole[i] == right[i - left.len() - 1]);
            }
        }
    }
    if is_safe_path(whole) {
        assert forall|k: int| 0 <= k < a.len() implies is_safe_segment(#[trigger] a[k]) by {
            assert(all[k] == a[k]);
        }
        assert forall|k: int| 0 <= k < b.len() implies is_safe_segment(#[trigger] b[k]) by {
            assert(all[a.len() + k] == b[k]);
        }
        assert forall|i: int| 0 <= i < left.len() implies is_safe_char(#[trigger] left[i]) by {
            assert(whole[i] == left[i]);
        }
        assert forall|i: int| 0 <= i < right.len() implies is_safe_char(#[trigger] right[i]) by {
            assert(whole[left.len() + 1 + i] == right[i]);
        }
        assert(is_safe_segment(a[0]) && is_safe_segment(b[0]));
    }
}

proof fn lemma_first_piece(text: Seq<char>, i: int)
    requires
        0 <= i <= text.len(),
        forall|k: int| 0 <= k < i ==> #[trigger] text[k] != '/',
    ensures
        split_from(text, 0, i, '/').len() > 0,
        i == 0 && (text.len() == 0 || text[0] == '/') ==> split_from(text, 0, i, '/')[0].len() == 0,
    decreases text.len() - i,
{
    if i < text.len() && text[i] != '/' {
        lemma_first_piece(text, i + 1);
    }
}

} // verus!
