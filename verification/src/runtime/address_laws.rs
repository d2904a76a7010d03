//! Which resource an address asks for, told from the address itself.

use vstd::prelude::*;

use crate::paths::{suffixes, suffixes_from};
use crate::runtime::requests::{
    after_slash, app_path, before_slashes, first_value, past_slashes, path_end, resource_of,
};

verus! {

/// Every character is a slash.
pub open spec fn only_slashes(s: Seq<char>) -> bool {
    forall|i: int| 0 <= i < s.len() ==> #[trigger] s[i] == '/'
}

/// None of the characters is this one.
pub open spec fn lacks(s: Seq<char>, c: char) -> bool {
    forall|i: int| 0 <= i < s.len() ==> #[trigger] s[i] != c
}

/// An address of the application: its host, then slashes, a path that neither starts nor ends
/// with one, slashes, and a query or a fragment.
pub open spec fn is_app_address(
    url: Seq<char>,
    host: Seq<char>,
    lead: Seq<char>,
    path: Seq<char>,
    trail: Seq<char>,
    tail: Seq<char>,
) -> bool {
    &&& url == "app://"@ + host + "/"@ + lead + path + trail + tail
    &&& lacks(host, '/')
    &&& only_slashes(lead)
    &&& only_slashes(trail)
    &&& lacks(path, '?') && lacks(path, '#')
    &&& path.len() > 0 && path[0] != '/' && path.last() != '/'
    &&& tail.len() == 0 || tail[0] == '?' || tail[0] == '#'
}

proof fn lemma_after_slash(s: Seq<char>, i: int, at: int)
    requires
        0 <= i <= at < s.len(),
        s[at] == '/',
        forall|k: int| i <= k < at ==> #[trigger] s[k] != '/',
    ensures
        after_slash(s, i) == at + 1,
    decreases at - i,
{
    if i < at {
        lemma_after_slash(s, i + 1, at);
    }
}

proof fn lemma_path_end(s: Seq<char>, i: int, at: int)
    requires
        0 <= i <= at <= s.len(),
        at == s.len() || s[at] == '?' || s[at] == '#',
        forall|k: int| i <= k < at ==> #[trigger] s[k] != '?' && s[k] != '#',
    ensures
        path_end(s, i) == at,
    decreases at - i,
{
    if i < at {
        lemma_path_end(s, i + 1, at);
    }
}

proof fn lemma_past_slashes(s: Seq<char>, i: int, at: int, end: int)
    requires
        0 <= i <= at < end <= s.len(),
        s[at] != '/',
        forall|k: int| i <= k < at ==> #[trigger] s[k] == '/',
    ensures
        past_slashes(s, i, end) == at,
    decreases at - i,
{
    if i < at {
        lemma_past_slashes(s, i + 1, at, end);
    }
}

proof fn lemma_before_slashes(s: Seq<char>, start: int, at: int, end: int)
    requires
        0 <= start < at <= end <= s.len(),
        s[at - 1] != '/',
        forall|k: int| at <= k < end ==> #[trigger] s[k] == '/',
    ensures
        before_slashes(s, start, end) == at,
    decreases end - at,
{
    if at < end {
        lemma_before_slashes(s, start, at, end - 1);
    }
}

/// The path of an address is what stands between the slashes after its host and those before
/// its query.
pub proof fn lemma_path_of_address(
    url: Seq<char>,
    host: Seq<char>,
    lead: Seq<char>,
    path: Seq<char>,
    trail: Seq<char>,
    tail: Seq<char>,
)
    requires
        is_app_address(url, host, lead, path, trail, tail),
    ensures
        app_path(url) == Some(path),
{
    reveal_strlit("app://");
    reveal_strlit("/");
    let scheme = "app://"@;
    let a = 6 + host.len();
    let b = a + 1;
    let c = b + lead.len();
    let d = c + path.len();
    let e = d + trail.len();
    assert(scheme.len() == 6 && "/"@.len() == 1);
    assert(url.len() == e + tail.len());
    assert(scheme =~= url.subrange(0, 6));
    assert(scheme.is_prefix_of(url));
    assert forall|k: int| 6 <= k < a implies #[trigger] url[k] != '/' by {
        assert(url[k] == host[k - 6]);
    }
    assert(url[a as int] == '/');
    lemma_after_slash(url, 6, a as int);
    assert forall|k: int| b <= k < c implies #[trigger] url[k] == '/' by {
        assert(url[k] == lead[k - b]);
    }
    assert forall|k: int| c <= k < d implies #[trigger] url[k] == path[k - c] by {}
    assert forall|k: int| d <= k < e implies #[trigger] url[k] == '/' by {
        assert(url[k] == trail[k - d]);
    }
    assert forall|k: int| b <= k < e implies #[trigger] url[k] != '?' && url[k] != '#' by {
        if c <= k && k < d {
            assert(url[k] == path[k - c]);
        }
    }
    if tail.len() > 0 {
        assert(url[e as int] == tail[0]);
    }
    lemma_path_end(url, b as int, e as int);
    assert(url[c as int] == path[0]);
    lemma_past_slashes(url, b as int, c as int, e as int);
    assert(url[d - 1] == path.last());
    lemma_before_slashes(url, c as int, d as int, e as int);
    assert(url.subrange(c as int, d as int) =~= path);
}

/// An end of a path that starts at a slash of it, or is all of it.
pub open spec fn is_end_at(path: Seq<char>, k: int) -> bool {
    &&& 0 <= k <= path.len()
    &&& k == 0 || path[k - 1] == '/'
}

proof fn lemma_first_value(
    path: Seq<char>,
    map: Map<Seq<char>, Seq<char>>,
    i: int,
    k: int,
)
    requires
        0 <= i < k <= path.len(),
        path[k - 1] == '/',
        map.contains_key(path.skip(k)),
        forall|j: int|
            i < j < k && path[j - 1] == '/' ==> !map.contains_key(#[trigger] path.skip(j)),
    ensures
        first_value(suffixes_from(path, i), map) == Some(map[path.skip(k)]),
    decreases k - i,
{
    let all = suffixes_from(path, i);
    let rest = suffixes_from(path, i + 1);
    let part = path.subrange(i + 1, path.len() as int);
    assert(part =~= path.skip(i + 1));
    if path[i] == '/' {
        assert(all =~= seq![part] + rest);
        assert(all.drop_first() =~= rest);
        if i + 1 < k {
            assert(!map.contains_key(path.skip(i + 1)));
            lemma_first_value(path, map, i + 1, k);
        }
    } else {
        lemma_first_value(path, map, i + 1, k);
    }
}

proof fn lemma_no_value(path: Seq<char>, map: Map<Seq<char>, Seq<char>>, i: int)
    requires
        0 <= i <= path.len(),
        forall|j: int|
            i < j <= path.len() && path[j - 1] == '/' ==> !map.contains_key(
                #[trigger] path.skip(j),
            ),
    ensures
        first_value(suffixes_from(path, i), map) is None,
    decreases path.len() - i,
{
    if i < path.len() {
        let all = suffixes_from(path, i);
        let rest = suffixes_from(path, i + 1);
        let part = path.subrange(i + 1, path.len() as int);
        assert(part =~= path.skip(i + 1));
        lemma_no_value(path, map, i + 1);
        if path[i] == '/' {
            assert(all =~= seq![part] + rest);
            assert(all.drop_first() =~= rest);
            assert(!map.contains_key(path.skip(i + 1)));
        }
    }
}

/// An address asks for the resource of the longest end of its path that is a request path.
pub proof fn lemma_address_asks_for_longest_end(
    url: Seq<char>,
    host: Seq<char>,
    lead: Seq<char>,
    path: Seq<char>,
    trail: Seq<char>,
    tail: Seq<char>,
    paths: Map<Seq<char>, Seq<char>>,
    k: int,
)
    requires
        is_app_address(url, host, lead, path, trail, tail),
        is_end_at(path, k),
        paths.contains_key(path.skip(k)),
        forall|j: int|
            0 <= j < k && is_end_at(path, j) ==> !paths.contains_key(#[trigger] path.skip(j)),
    ensures
        resource_of(url, paths) == Some(paths[path.skip(k)]),
{
    lemma_path_of_address(url, host, lead, path, trail, tail);
    let all = suffixes(path);
    let rest = suffixes_from(path, 0);
    assert(path.skip(0) =~= path);
    assert(all =~= seq![path] + rest);
    assert(all.drop_first() =~= rest);
    if k > 0 {
        assert(is_end_at(path, 0));
        assert(!paths.contains_key(path.skip(0)));
        assert forall|j: int| 0 < j < k && path[j - 1] == '/' implies !paths.contains_key(
            #[trigger] path.skip(j),
        ) by {
            assert(is_end_at(path, j));
        }
        lemma_first_value(path, paths, 0, k);
    }
}

/// An address of which no end is a request path asks for no resource.
pub proof fn lemma_other_address_asks_for_nothing(
    url: Seq<char>,
    host: Seq<char>,
    lead: Seq<char>,
    path: Seq<char>,
    trail: Seq<char>,
    tail: Seq<char>,
    paths: Map<Seq<char>, Seq<char>>,
)
    requires
        is_app_address(url, host, lead, path, trail, tail),
        forall|j: int| is_end_at(path, j) ==> !paths.contains_key(#[trigger] path.skip(j)),
    ensures
        resource_of(url, paths) is None,
{
    lemma_path_of_address(url, host, lead, path, trail, tail);
    let all = suffixes(path);
    let rest = suffixes_from(path, 0);
    assert(path.skip(0) =~= path);
    assert(all =~= seq![path] + rest);
    assert(all.drop_first() =~= rest);
    assert(is_end_at(path, 0));
    assert(!paths.contains_key(path.skip(0)));
    assert forall|j: int| 0 < j <= path.len() && path[j - 1] == '/' implies !paths.contains_key(
        #[trigger] path.skip(j),
    ) by {
        assert(is_end_at(path, j));
    }
    lemma_no_value(path, paths, 0);
}

/// What is not an address of the application asks for no resource.
pub proof fn lemma_foreign_address_asks_for_nothing(
    url: Seq<char>,
    paths: Map<Seq<char>, Seq<char>>,
)
    requires
        url.len() < 6 || url.take(6) != seq!['a', 'p', 'p', ':', '/', '/'],
    ensures
        resource_of(url, paths) is None,
{
    reveal_strlit("app://");
    assert("app://"@ =~= seq!['a', 'p', 'p', ':', '/', '/']);
    if "app://"@.is_prefix_of(url) {
        assert(url.take(6) =~= "app://"@);
    }
}

} // verus!
