//! Installed packages and their processes on Windows.

use vstd::prelude::*;

use crate::text::{
    chars_of, concat, decimal, decimal_text, joined, lemma_parsed_number, lemma_text_less_order,
    parse_number, parsed_number, split, split_on, str_eq, str_less, text_less, texts,
};

verus! {

/// The package family of the application.
pub const CODEX_PACKAGE_FAMILY: &'static str = "OpenAI.Codex_2p2nqsd0c76g0";

// ---------------------------------------------------------------------------
// Versions

/// The value of a part of a version, zero where it is not a number.
pub open spec fn version_part(part: Seq<char>) -> u64 {
    match parsed_number(part, 10, u64::MAX as int) {
        Some(value) => value as u64,
        None => 0,
    }
}

/// The version in the full name of a package: the numbers in its second piece.
pub open spec fn version_of(name: Seq<char>) -> Seq<u64> {
    let pieces = split_on(name, '_');
    let version = if pieces.len() > 1 {
        pieces[1]
    } else {
        Seq::empty()
    };
    split_on(version, '.').map_values(|part: Seq<char>| version_part(part))
}

/// Order of versions: by the first number that differs, a version that goes on comes later.
pub open spec fn version_less(a: Seq<u64>, b: Seq<u64>) -> bool
    decreases a.len(),
{
    if a.len() == 0 || b.len() == 0 {
        a.len() == 0 && b.len() > 0
    } else if a[0] != b[0] {
        a[0] < b[0]
    } else {
        version_less(a.drop_first(), b.drop_first())
    }
}

/// Order of packages: by version, then by name.
pub open spec fn package_less(a: Seq<char>, b: Seq<char>) -> bool {
    version_less(version_of(a), version_of(b)) || (version_of(a) == version_of(b) && text_less(
        a,
        b,
    ))
}

proof fn lemma_version_order(a: Seq<u64>, b: Seq<u64>, c: Seq<u64>)
    ensures
        !version_less(a, a),
        !(version_less(a, b) && version_less(b, a)),
        version_less(a, b) || version_less(b, a) || a == b,
        version_less(a, b) && version_less(b, c) ==> version_less(a, c),
    decreases a.len(),
{
    if a.len() > 0 && b.len() > 0 {
        lemma_version_order(
            a.drop_first(),
            b.drop_first(),
            if c.len() > 0 {
                c.drop_first()
            } else {
                c
            },
        );
        if a[0] == b[0] && a.drop_first() == b.drop_first() {
            assert(a =~= seq![a[0]] + a.drop_first());
            assert(b =~= seq![b[0]] + b.drop_first());
        }
    } else if a.len() > 0 {
        lemma_version_order(a.drop_first(), b, c);
    } else {
        if b.len() == 0 {
            assert(a =~= b);
        }
    }
}

/// Packages are in a total order.
pub proof fn lemma_package_order(a: Seq<char>, b: Seq<char>, c: Seq<char>)
    ensures
        !package_less(a, a),
        !(package_less(a, b) && package_less(b, a)),
        package_less(a, b) || package_less(b, a) || a == b,
        package_less(a, b) && package_less(b, c) ==> package_less(a, c),
{
    lemma_version_order(version_of(a), version_of(b), version_of(c));
    lemma_version_order(version_of(b), version_of(c), version_of(a));
    lemma_text_less_order(a, b, c);
}

/// The version in the full name of a package.
pub fn parse_package_version(value: &str) -> (version: Vec<u64>)
    ensures
        version@ == version_of(value@),
{
    let pieces = split(value, '_');
    assert(texts(pieces@).len() == pieces@.len());
    let second = if pieces.len() > 1 {
        assert(texts(pieces@)[1] == pieces@[1]@);
        pieces[1]
    } else {
        proof {
            reveal_strlit("");
            assert(""@ =~= Seq::empty());
        }
        ""
    };
    let parts = split(second, '.');
    let ghost all = split_on(second@, '.');
    let ghost expected = version_of(value@);
    assert(texts(parts@).len() == parts@.len());
    let mut version: Vec<u64> = Vec::new();
    let mut k: usize = 0;
    while k < parts.len()
        invariant
            texts(parts@) == all,
            expected == all.map_values(|part: Seq<char>| version_part(part)),
            k <= parts@.len() == all.len(),
            version@ == expected.take(k as int),
        decreases parts.len() - k,
    {
        let part = parts[k];
        let chars = chars_of(part);
        proof {
            assert(all[k as int] == part@);
            assert(part@.subrange(0, part@.len() as int) =~= part@);
            lemma_parsed_number(part@, 10, u64::MAX as int);
            assert(expected.take(k + 1) =~= expected.take(k as int).push(expected[k as int]));
        }
        let number = match parse_number(&chars, 0, chars.len(), 10, 0xffff_ffff_ffff_ffff) {
            Some(number) => number,
            None => 0,
        };
        version.push(number);
        k += 1;
    }
    assert(expected.take(k as int) =~= expected);
    version
}

fn is_version_less(a: &Vec<u64>, b: &Vec<u64>) -> (less: bool)
    ensures
        less == version_less(a@, b@),
{
    let mut k: usize = 0;
    assert(a@.skip(0) =~= a@);
    assert(b@.skip(0) =~= b@);
    while k < a.len() && k < b.len()
        invariant
            k <= a@.len(),
            k <= b@.len(),
            version_less(a@, b@) == version_less(a@.skip(k as int), b@.skip(k as int)),
        decreases a.len() - k,
    {
        proof {
            assert(a@.skip(k as int)[0] == a@[k as int]);
            assert(b@.skip(k as int)[0] == b@[k as int]);
            assert(a@.skip(k as int).drop_first() =~= a@.skip(k + 1));
            assert(b@.skip(k as int).drop_first() =~= b@.skip(k + 1));
        }
        if a[k] != b[k] {
            return a[k] < b[k];
        }
        k += 1;
    }
    k == a.len() && k < b.len()
}

fn is_package_less(a: &str, b: &str) -> (less: bool)
    ensures
        less == package_less(a@, b@),
{
    let left = parse_package_version(a);
    let right = parse_package_version(b);
    proof {
        lemma_version_order(left@, right@, left@);
    }
    if is_version_less(&left, &right) {
        return true;
    }
    if is_version_less(&right, &left) {
        return false;
    }
    str_less(a, b)
}

/// The newest of some packages.
pub fn newest_package(names: &Vec<String>) -> (newest: Option<&str>)
    ensures
        match newest {
            Some(newest) => {
                &&& exists|k: int| 0 <= k < names@.len() && (#[trigger] names@[k])@ == newest@
                &&& forall|k: int|
                    0 <= k < names@.len() ==> !package_less(newest@, (#[trigger] names@[k])@)
            },
            None => names@.len() == 0,
        },
{
    if names.len() == 0 {
        return None;
    }
    let mut best: usize = 0;
    let mut k: usize = 1;
    proof {
        lemma_package_order(names@[0]@, names@[0]@, names@[0]@);
    }
    while k < names.len()
        invariant
            best < k <= names@.len(),
            forall|j: int| 0 <= j < k ==> !package_less(names@[best as int]@, (#[trigger] names@[j])@),
        decreases names.len() - k,
    {
        if is_package_less(names[best].as_str(), names[k].as_str()) {
            proof {
                let old_best = names@[best as int]@;
                let new_best = names@[k as int]@;
                lemma_package_order(new_best, new_best, new_best);
                assert forall|j: int| 0 <= j < k + 1 implies !package_less(
                    new_best,
                    (#[trigger] names@[j])@,
                ) by {
                    lemma_package_order(old_best, new_best, names@[j]@);
                }
            }
            best = k;
        }
        k += 1;
    }
    Some(names[best].as_str())
}

// ---------------------------------------------------------------------------
// Names and commands

/// The identifier of an application of a package.
pub fn application_user_model_id(family: &str, app_id: &str) -> (id: String)
    ensures
        id@ == joined(seq![family@, "!"@, app_id@]),
{
    let parts: [&str; 3] = [family, "!", app_id];
    assert(texts(parts@) =~= seq![family@, "!"@, app_id@]);
    concat(&parts)
}

/// The text with backslashes for slashes.
pub open spec fn with_backslashes(text: Seq<char>) -> Seq<char> {
    text.map_values(
        |c: char|
            if c == '/' {
                '\\'
            } else {
                c
            },
    )
}

/// Writes a path of a manifest as Windows does.
pub fn windows_path(text: &str) -> (path: String)
    ensures
        path@ == with_backslashes(text@),
{
    let pieces = split(text, '/');
    let ghost s = text@;
    let path = crate::text::join(&pieces, "\\");
    proof {
        lemma_backslashes(s, 0, 0);
        assert(s.subrange(0, 0) =~= Seq::empty());
        reveal_strlit("\\");
        assert("\\"@ =~= seq!['\\']);
        assert(path@ =~= with_backslashes(s));
    }
    path
}

proof fn lemma_backslashes(s: Seq<char>, start: int, i: int)
    requires
        0 <= start <= i <= s.len(),
        forall|j: int| start <= j < i ==> #[trigger] s[j] != '/',
    ensures
        crate::text::separated(crate::text::split_from(s, start, i, '/'), seq!['\\'])
            == with_backslashes(s.skip(start)),
    decreases s.len() - i,
{
    let separator = seq!['\\'];
    let pieces = crate::text::split_from(s, start, i, '/');
    if i >= s.len() {
        assert(pieces =~= seq![s.skip(start)]);
        assert(with_backslashes(s.skip(start)) =~= s.skip(start)) by {
            assert forall|j: int| 0 <= j < s.skip(start).len() implies s.skip(start)[j]
                != '/' by {
                assert(s[start + j] != '/');
            }
        }
    } else if s[i] == '/' {
        let rest = crate::text::split_from(s, i + 1, i + 1, '/');
        lemma_backslashes(s, i + 1, i + 1);
        crate::text::lemma_split_not_empty(s, i + 1, i + 1, '/');
        lemma_separated_first(s.subrange(start, i), rest, separator);
        assert(with_backslashes(s.skip(start)) =~= s.subrange(start, i) + separator
            + with_backslashes(s.skip(i + 1))) by {
            assert forall|j: int| 0 <= j < i - start implies s.skip(start)[j] != '/' by {
                assert(s[start + j] != '/');
            }
        }
    } else {
        lemma_backslashes(s, start, i + 1);
    }
}

proof fn lemma_separated_first(first: Seq<char>, rest: Seq<Seq<char>>, separator: Seq<char>)
    requires
        rest.len() > 0,
    ensures
        crate::text::separated(seq![first] + rest, separator) == first + separator
            + crate::text::separated(rest, separator),
    decreases rest.len(),
{
    reveal_with_fuel(crate::text::separated, 2);
    let all = seq![first] + rest;
    assert(all.last() == rest.last());
    assert(all.drop_last() =~= seq![first] + rest.drop_last());
    if rest.len() == 1 {
        assert(all.drop_last() =~= seq![first]);
        assert(crate::text::separated(all, separator) =~= first + separator
            + crate::text::separated(rest, separator));
    } else {
        lemma_separated_first(first, rest.drop_last(), separator);
        assert(crate::text::separated(all, separator) =~= first + separator
            + crate::text::separated(rest, separator));
    }
}

/// The command line with which the application is started: it is told which handles carry the
/// conversation. None where a handle is too large for it.
pub fn launch_command(executable: &str, read: u64, write: u64) -> (command: Option<String>)
    ensures
        match command {
            Some(command) => read <= u32::MAX && write <= u32::MAX && command@ == joined(
                seq![
                    "\""@,
                    executable@,
                    "\" --remote-debugging-pipe --remote-debugging-io-pipes="@,
                    decimal(read as nat),
                    ","@,
                    decimal(write as nat),
                ],
            ),
            None => read > u32::MAX || write > u32::MAX,
        },
{
    if read > 0xffff_ffff || write > 0xffff_ffff {
        return None;
    }
    let read_text = decimal_text(read);
    let write_text = decimal_text(write);
    let parts: [&str; 6] = [
        "\"",
        executable,
        "\" --remote-debugging-pipe --remote-debugging-io-pipes=",
        read_text.as_str(),
        ",",
        write_text.as_str(),
    ];
    assert(texts(parts@) =~= seq![
        "\""@,
        executable@,
        "\" --remote-debugging-pipe --remote-debugging-io-pipes="@,
        decimal(read as nat),
        ","@,
        decimal(write as nat),
    ]);
    Some(concat(&parts))
}

/// Whether a process is looked at when other instances of the application are sought.
pub fn counts_as_other(process_id: u32, excluded_pid: Option<u32>) -> (yes: bool)
    ensures
        yes == (process_id != 0 && Some(process_id) != excluded_pid),
{
    process_id != 0 && match excluded_pid {
        Some(excluded) => excluded != process_id,
        None => true,
    }
}

/// Whether a process belongs to the application: its two names, of the application and of its
/// package or the package's family, are known and agree.
pub fn is_same_application(
    aumid: Option<&str>,
    package: Option<&str>,
    expected_aumid: &str,
    expected_package: &str,
) -> (yes: bool)
    ensures
        yes == (crate::json::optional_text(aumid) == Some(expected_aumid@)
            && crate::json::optional_text(package) == Some(expected_package@)),
{
    match (aumid, package) {
        (Some(aumid), Some(package)) => str_eq(aumid, expected_aumid) && str_eq(
            package,
            expected_package,
        ),
        _ => false,
    }
}

// ---------------------------------------------------------------------------
// Process lists

/// The bytes that a list of so many process ids takes, where they can be asked for.
pub fn list_bytes(len: usize) -> (bytes: Option<u32>)
    ensures
        bytes == (if len * 4 <= u32::MAX {
            Some((len * 4) as u32)
        } else {
            None::<u32>
        }),
{
    if len <= (u32::MAX / 4) as usize {
        Some(len as u32 * 4)
    } else {
        None
    }
}

/// What to do with a list of process ids.
#[derive(Clone, Copy, Debug, PartialEq, Eq, Structural)]
pub enum ListStep {
    /// It is complete, with so many ids.
    Complete(usize),
    /// It may not be, so it is asked for again with room for so many.
    Retry(usize),
    /// It has no room for more.
    TooLarge,
}

/// What to do with a list that has room for `len` ids in `bytes` bytes, of which `returned` were
/// filled. A full list may not be complete.
pub fn list_step(len: usize, bytes: u32, returned: u32) -> (step: ListStep)
    ensures
        step == (if returned < bytes {
            ListStep::Complete((returned / 4) as usize)
        } else if len * 2 <= usize::MAX {
            ListStep::Retry((len * 2) as usize)
        } else {
            ListStep::TooLarge
        }),
{
    if returned < bytes {
        ListStep::Complete((returned / 4) as usize)
    } else if len <= usize::MAX / 2 {
        ListStep::Retry(len * 2)
    } else {
        ListStep::TooLarge
    }
}

} // verus!
