//! Application bundles, and what the tools of macOS report.

use vstd::prelude::*;

use crate::text::{
    char_is_whitespace, chars_of, concat, is_whitespace, joined, lines, lines_of, next_whitespace,
    parse_number, parsed_number, split, split_on, starts_with, str_eq, texts, trim, trim_start,
    trimmed, trimmed_start, Text,
};

verus! {

/// The descriptor from which the application reads commands.
pub const COMMAND_FD: i32 = 3;

/// The descriptor to which the application writes responses.
pub const RESPONSE_FD: i32 = 4;

/// Copies of descriptors are kept from here on.
pub const TEMPORARY_FD_MIN: i32 = 5;

// ---------------------------------------------------------------------------
// Bundles

/// A file below a directory.
pub open spec fn below(directory: Seq<char>, name: Seq<char>) -> Seq<char> {
    if directory.len() == 0 || directory.last() == '/' {
        directory + name
    } else {
        directory + "/"@ + name
    }
}

pub fn join_path(directory: &str, name: &str) -> (path: String)
    ensures
        path@ == below(directory@, name@),
{
    let chars = Text::new(directory);
    let n = chars.len();
    let mut path = directory.to_owned();
    if !(n == 0 || chars.at(n - 1) == '/') {
        path.append("/");
    }
    path.append(name);
    path
}

/// The files of a bundle.
#[derive(Debug, PartialEq, Eq)]
pub struct BundlePaths {
    pub info_plist: String,
    pub app_asar: String,
    pub code_resources: String,
}

pub fn bundle_paths(bundle: &str) -> (paths: BundlePaths)
    ensures
        ({
            let contents = below(bundle@, "Contents"@);
            &&& paths.info_plist@ == below(contents, "Info.plist"@)
            &&& paths.app_asar@ == below(below(contents, "Resources"@), "app.asar"@)
            &&& paths.code_resources@ == below(
                below(contents, "_CodeSignature"@),
                "CodeResources"@,
            )
        }),
{
    let contents = join_path(bundle, "Contents");
    let resources = join_path(contents.as_str(), "Resources");
    let signature = join_path(contents.as_str(), "_CodeSignature");
    BundlePaths {
        info_plist: join_path(contents.as_str(), "Info.plist"),
        app_asar: join_path(resources.as_str(), "app.asar"),
        code_resources: join_path(signature.as_str(), "CodeResources"),
    }
}

/// A piece of a path that stands for nothing when it is not the first.
pub open spec fn is_idle(piece: Seq<char>) -> bool {
    piece.len() == 0 || piece == "."@
}

/// The name that a path consists of, none where it has several parts or leads elsewhere.
pub open spec fn single_name(path: Seq<char>) -> Option<Seq<char>> {
    let pieces = split_on(path, '/');
    if !is_idle(pieces[0]) && pieces[0] != ".."@ && forall|k: int|
        0 < k < pieces.len() ==> is_idle(#[trigger] pieces[k]) {
        Some(pieces[0])
    } else {
        None
    }
}

fn is_idle_piece(piece: &str) -> (yes: bool)
    ensures
        yes == is_idle(piece@),
{
    Text::new(piece).len() == 0 || str_eq(piece, ".")
}

/// The executable of a bundle, none where it is not a mere name.
pub fn bundle_executable(bundle: &str, executable: &str) -> (path: Option<String>)
    ensures
        match path {
            Some(path) => single_name(executable@) matches Some(name) && path@ == below(
                below(below(bundle@, "Contents"@), "MacOS"@),
                name,
            ),
            None => single_name(executable@) is None,
        },
{
    let pieces = split(executable, '/');
    let ghost all = split_on(executable@, '/');
    proof {
        crate::text::lemma_split_not_empty(executable@, 0, 0, '/');
        assert(texts(pieces@).len() == pieces@.len());
        assert(all[0] == pieces@[0]@);
    }
    let name = pieces[0];
    if is_idle_piece(name) || str_eq(name, "..") {
        return None;
    }
    let mut k: usize = 1;
    while k < pieces.len()
        invariant
            texts(pieces@) == all,
            all == split_on(executable@, '/'),
            1 <= k <= pieces@.len() == all.len(),
            forall|j: int| 0 < j < k ==> is_idle(#[trigger] all[j]),
        decreases pieces.len() - k,
    {
        assert(all[k as int] == pieces@[k as int]@);
        if !is_idle_piece(pieces[k]) {
            assert(!is_idle(all[k as int]));
            return None;
        }
        k += 1;
    }
    let contents = join_path(bundle, "Contents");
    let directory = join_path(contents.as_str(), "MacOS");
    Some(join_path(directory.as_str(), name))
}

// ---------------------------------------------------------------------------
// PlistBuddy

/// What a bundle says of itself.
#[derive(Debug, PartialEq, Eq)]
pub struct PlistInfo {
    pub identifier: String,
    pub executable: String,
    pub version: String,
    pub build: String,
}

/// The lines that hold more than white space, without the white space at their ends.
pub open spec fn filled_lines(lines: Seq<Seq<char>>) -> Seq<Seq<char>>
    decreases lines.len(),
{
    if lines.len() == 0 {
        Seq::empty()
    } else {
        let rest = filled_lines(lines.drop_last());
        let last = trimmed(lines.last());
        if last.len() > 0 {
            rest.push(last)
        } else {
            rest
        }
    }
}

/// Reads the four values that `PlistBuddy` was asked for, in the order of the questions.
pub fn parse_plistbuddy_output(output: &str) -> (info: Result<PlistInfo, &'static str>)
    ensures
        ({
            let values = filled_lines(lines_of(output@));
            match info {
                Ok(info) => {
                    &&& values.len() == 4
                    &&& info.identifier@ == values[0]
                    &&& info.executable@ == values[1]
                    &&& info.version@ == values[2]
                    &&& info.build@ == values[3]
                },
                Err(problem) => values.len() != 4 && problem@
                    == "PlistBuddy did not return four values"@,
            }
        }),
{
    let all = lines(output);
    let ghost given = lines_of(output@);
    let mut values: Vec<&str> = Vec::new();
    let mut k: usize = 0;
    assert(texts(values@) =~= filled_lines(given.take(0)));
    assert(texts(all@).len() == all@.len());
    while k < all.len()
        invariant
            texts(all@) == given,
            k <= all@.len() == given.len(),
            texts(values@) == filled_lines(given.take(k as int)),
        decreases all.len() - k,
    {
        let ghost before = values@;
        let value = trim(all[k]);
        proof {
            assert(given[k as int] == all@[k as int]@);
            assert(given.take(k + 1).drop_last() =~= given.take(k as int));
        }
        if Text::new(value).len() > 0 {
            values.push(value);
            assert(texts(values@) =~= texts(before).push(value@));
        }
        k += 1;
    }
    proof {
        assert(given.take(k as int) =~= given);
        assert(texts(values@).len() == values@.len());
    }
    if values.len() != 4 {
        return Err("PlistBuddy did not return four values");
    }
    proof {
        assert(texts(values@)[0] == values@[0]@);
        assert(texts(values@)[1] == values@[1]@);
        assert(texts(values@)[2] == values@[2]@);
        assert(texts(values@)[3] == values@[3]@);
    }
    Ok(
        PlistInfo {
            identifier: values[0].to_owned(),
            executable: values[1].to_owned(),
            version: values[2].to_owned(),
            build: values[3].to_owned(),
        },
    )
}

/// How a bundle is named in reports.
pub fn bundle_identity(info: &PlistInfo) -> (identity: String)
    ensures
        identity@ == joined(
            seq![info.identifier@, " "@, info.version@, " ("@, info.build@, ")"@],
        ),
{
    let parts: [&str; 6] = [
        info.identifier.as_str(),
        " ",
        info.version.as_str(),
        " (",
        info.build.as_str(),
        ")",
    ];
    assert(texts(parts@) =~= seq![
        info.identifier@,
        " "@,
        info.version@,
        " ("@,
        info.build@,
        ")"@,
    ]);
    concat(&parts)
}

// ---------------------------------------------------------------------------
// ps

/// The process id and the command of a line of `ps`.
pub open spec fn ps_entry(line: Seq<char>) -> Option<(u32, Seq<char>)> {
    let text = trimmed_start(line);
    let end = next_whitespace(text, 0);
    let command = trimmed_start(text.skip(end));
    match parsed_number(text.take(end), 10, u32::MAX as int) {
        Some(pid) => if end < text.len() && command.len() > 0 {
            Some((pid as u32, command))
        } else {
            None
        },
        None => None,
    }
}

/// A text that is over, or goes on with white space.
pub open spec fn ends_word(tail: Seq<char>) -> bool {
    tail.len() == 0 || is_whitespace(tail[0])
}

/// The executable in quotes.
pub open spec fn quoted(executable: Seq<char>, quote: char) -> Seq<char> {
    seq![quote] + executable + seq![quote]
}

/// A command that runs an executable, which may stand in quotes.
pub open spec fn runs(command: Seq<char>, executable: Seq<char>) -> bool {
    if executable.is_prefix_of(command) {
        ends_word(command.skip(executable.len() as int))
    } else if quoted(executable, '"').is_prefix_of(command) {
        ends_word(command.skip(executable.len() as int + 2))
    } else {
        quoted(executable, '\'').is_prefix_of(command) && ends_word(
            command.skip(executable.len() as int + 2),
        )
    }
}

/// A line of `ps` for a process that runs an executable.
pub open spec fn is_instance(line: Seq<char>, executable: Seq<char>, excluded: Option<u32>) -> bool {
    match ps_entry(line) {
        Some((pid, command)) => Some(pid) != excluded && runs(command, executable),
        None => false,
    }
}

fn parse_ps_line<'s>(line: &'s str) -> (entry: Option<(u32, &'s str)>)
    ensures
        match entry {
            Some((pid, command)) => ps_entry(line@) == Some((pid, command@)),
            None => ps_entry(line@) is None,
        },
{
    let text = trim_start(line);
    let words = Text::new(text);
    let n = words.len();
    let mut end: usize = 0;
    while end < n && !char_is_whitespace(words.at(end))
        invariant
            words@ == text@,
            end <= n == text@.len(),
            next_whitespace(text@, 0) == next_whitespace(text@, end as int),
        decreases n - end,
    {
        end += 1;
    }
    if end == n {
        return None;
    }
    let chars = chars_of(text);
    assert(text@.subrange(0, end as int) =~= text@.take(end as int));
    proof {
        crate::text::lemma_parsed_number(text@.take(end as int), 10, u32::MAX as int);
    }
    let pid = match parse_number(&chars, 0, end, 10, 0xffff_ffff) {
        Some(pid) => pid,
        None => {
            return None;
        },
    };
    let rest = words.slice(end, n);
    assert(rest@ =~= text@.skip(end as int));
    let command = trim_start(rest);
    if Text::new(command).len() == 0 {
        return None;
    }
    Some((pid as u32, command))
}

/// What follows the first `skip` characters, if it ends a word.
fn ends_word_at(command: &str, skip: usize) -> (yes: bool)
    requires
        skip <= command@.len(),
    ensures
        yes == ends_word(command@.skip(skip as int)),
{
    let chars = Text::new(command);
    proof {
        if skip < command@.len() {
            assert(command@.skip(skip as int)[0] == command@[skip as int]);
        }
    }
    skip == chars.len() || char_is_whitespace(chars.at(skip))
}

fn command_starts_with_executable(command: &str, executable: &str) -> (yes: bool)
    ensures
        yes == runs(command@, executable@),
{
    if starts_with(command, executable) {
        return ends_word_at(command, Text::new(executable).len());
    }
    let parts: [&str; 3] = ["\"", executable, "\""];
    let doubly = concat(&parts);
    proof {
        reveal_strlit("\"");
        assert(texts(parts@) =~= seq!["\""@, executable@, "\""@]);
        lemma_joined_three("\""@, executable@, "\""@);
        assert(doubly@ =~= quoted(executable@, '"'));
    }
    if starts_with(command, doubly.as_str()) {
        return ends_word_at(command, Text::new(doubly.as_str()).len());
    }
    let parts: [&str; 3] = ["'", executable, "'"];
    let singly = concat(&parts);
    proof {
        reveal_strlit("'");
        assert(texts(parts@) =~= seq!["'"@, executable@, "'"@]);
        lemma_joined_three("'"@, executable@, "'"@);
        assert(singly@ =~= quoted(executable@, '\''));
    }
    if starts_with(command, singly.as_str()) {
        return ends_word_at(command, Text::new(singly.as_str()).len());
    }
    false
}

proof fn lemma_joined_three(a: Seq<char>, b: Seq<char>, c: Seq<char>)
    ensures
        joined(seq![a, b, c]) == a + b + c,
{
    reveal_with_fuel(joined, 4);
    let all = seq![a, b, c];
    assert(all.drop_last() =~= seq![a, b]);
    assert(seq![a, b].drop_last() =~= seq![a]);
    assert(seq![a].drop_last() =~= Seq::<Seq<char>>::empty());
    assert(joined(all) =~= a + b + c);
}

/// Whether a process other than the excluded one runs an executable.
pub fn ps_has_executable(output: &str, executable: &str, excluded_pid: Option<u32>) -> (found: bool)
    ensures
        found == exists|k: int|
            0 <= k < lines_of(output@).len() && is_instance(
                #[trigger] lines_of(output@)[k],
                executable@,
                excluded_pid,
            ),
{
    let all = lines(output);
    let ghost given = lines_of(output@);
    assert(texts(all@).len() == all@.len());
    let mut k: usize = 0;
    while k < all.len()
        invariant
            texts(all@) == given,
            given == lines_of(output@),
            k <= all@.len() == given.len(),
            forall|j: int|
                0 <= j < k ==> !is_instance(#[trigger] given[j], executable@, excluded_pid),
        decreases all.len() - k,
    {
        assert(given[k as int] == all@[k as int]@);
        if let Some((pid, command)) = parse_ps_line(all[k]) {
            let excluded = match excluded_pid {
                Some(other) => other == pid,
                None => false,
            };
            if !excluded && command_starts_with_executable(command, executable) {
                assert(is_instance(given[k as int], executable@, excluded_pid));
                return true;
            }
        }
        k += 1;
    }
    false
}

} // verus!
