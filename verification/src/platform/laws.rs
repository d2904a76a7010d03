//! What is read of packages, bundles and processes, told from the characters.

use vstd::prelude::*;

use crate::number_laws::lemma_written_number_is_read_back;
use crate::path_laws::{inside, is_name};
use crate::platform::macos::{below, is_idle, is_instance, ps_entry, quoted, runs, single_name};
use crate::platform::packages::{
    package_less, version_less, version_of, version_part, with_backslashes,
};
use crate::platform::wide::{char_units, utf16_of, zero_at};
use crate::text::{
    decimal, lines_of, next_whitespace, past_whitespace, split_from, split_on, text_less, trimmed,
    trimmed_end, trimmed_start, without_return,
};
use crate::token_laws::is_space;

verus! {

// ---------------------------------------------------------------------------
// White space and lines

/// A text of white space only.
pub open spec fn is_blank(text: Seq<char>) -> bool {
    forall|i: int| 0 <= i < text.len() ==> is_space(#[trigger] text[i])
}

/// A text that neither starts nor ends with white space.
pub open spec fn is_tight(text: Seq<char>) -> bool {
    text.len() > 0 ==> !is_space(text[0]) && !is_space(text.last())
}

proof fn lemma_past_blank(blank: Seq<char>, text: Seq<char>, i: int)
    requires
        is_blank(blank),
        text.len() > 0 ==> !is_space(text[0]),
        0 <= i <= blank.len(),
    ensures
        past_whitespace(blank + text, i) == blank.len(),
    decreases blank.len() - i,
{
    let whole = blank + text;
    if i < blank.len() {
        assert(whole[i] == blank[i]);
        lemma_past_blank(blank, text, i + 1);
    } else if text.len() > 0 {
        assert(whole[i] == text[0]);
    }
}

proof fn lemma_trimmed_end(text: Seq<char>, blank: Seq<char>)
    requires
        is_blank(blank),
        text.len() > 0 ==> !is_space(text.last()),
    ensures
        trimmed_end(text + blank) == text,
    decreases blank.len(),
{
    let whole = text + blank;
    if blank.len() == 0 {
        assert(whole =~= text);
    } else {
        let less = blank.drop_last();
        assert(whole.last() == blank[blank.len() - 1]);
        assert(whole.drop_last() =~= text + less);
        assert forall|i: int| 0 <= i < less.len() implies is_space(#[trigger] less[i]) by {
            assert(less[i] == blank[i]);
        }
        lemma_trimmed_end(text, less);
    }
}

/// White space at the ends of a text is taken off, and nothing else.
pub proof fn lemma_white_space_is_taken_off(before: Seq<char>, text: Seq<char>, after: Seq<char>)
    requires
        is_blank(before),
        is_blank(after),
        is_tight(text),
        text.len() > 0,
    ensures
        trimmed(before + text + after) == text,
        trimmed_start(before + text + after) == text + after,
{
    let rest = text + after;
    let whole = before + text + after;
    assert(whole =~= before + rest);
    assert(rest[0] == text[0]);
    lemma_past_blank(before, rest, 0);
    assert(whole.skip(before.len() as int) =~= rest);
    lemma_trimmed_end(text, after);
}

/// A text holds no line feed.
pub open spec fn is_line(text: Seq<char>) -> bool {
    forall|i: int| 0 <= i < text.len() ==> #[trigger] text[i] != '\n'
}

proof fn lemma_split_line(line: Seq<char>, i: int)
    requires
        is_line(line),
        0 <= i <= line.len(),
    ensures
        split_from(line, 0, i, '\n') == seq![line],
    decreases line.len() - i,
{
    if i < line.len() {
        lemma_split_line(line, i + 1);
    } else {
        assert(line.subrange(0, line.len() as int) =~= line);
    }
}

/// A line that ends is a line, without the carriage return at its end, and what follows is
/// read as if it stood alone. The last line need not end.
pub proof fn lemma_lines_are_read_one_by_one(line: Seq<char>, rest: Seq<char>)
    requires
        is_line(line),
    ensures
        lines_of(line + seq!['\n'] + rest) == seq![
            if line.len() > 0 && line.last() == '\r' {
                line.drop_last()
            } else {
                line
            },
        ] + lines_of(rest),
        lines_of(line) == if line.len() == 0 {
            Seq::<Seq<char>>::empty()
        } else {
            seq![line]
        },
{
    lemma_split_line(line, 0);
    crate::path_laws::lemma_split_at(line, rest, 0, 0, '\n');
    crate::text::lemma_split_not_empty(rest, 0, 0, '\n');
    let alone = split_on(line, '\n');
    assert(alone == seq![line]);
    assert(alone.last() == line);
    assert(alone.drop_last() =~= Seq::<Seq<char>>::empty());
    assert(lines_of(line) =~= if line.len() == 0 {
        Seq::<Seq<char>>::empty()
    } else {
        seq![line]
    });
    let whole = line + seq!['\n'] + rest;
    let pieces = split_on(whole, '\n');
    let behind = split_on(rest, '\n');
    assert(pieces == seq![line] + behind);
    assert(pieces.last() == behind.last());
    assert(pieces.drop_last() =~= seq![line] + behind.drop_last());
    let ended = pieces.drop_last().map_values(|piece: Seq<char>| without_return(piece));
    let others = behind.drop_last().map_values(|piece: Seq<char>| without_return(piece));
    assert(ended =~= seq![without_return(line)] + others);
    let first = if line.len() > 0 && line.last() == '\r' {
        line.drop_last()
    } else {
        line
    };
    assert(without_return(line) == first);
    assert(lines_of(whole) =~= seq![first] + lines_of(rest));
}

// ---------------------------------------------------------------------------
// Processes

proof fn lemma_next_blank(text: Seq<char>, i: int, end: int)
    requires
        0 <= i <= end <= text.len(),
        forall|k: int| i <= k < end ==> !is_space(#[trigger] text[k]),
        end < text.len() ==> is_space(text[end]),
    ensures
        next_whitespace(text, i) == end,
    decreases end - i,
{
    if i < end {
        assert(!is_space(text[i]));
        lemma_next_blank(text, i + 1, end);
    }
}

proof fn lemma_digits_are_dark(n: nat, i: int)
    requires
        0 <= i < decimal(n).len(),
    ensures
        !is_space(decimal(n)[i]),
    decreases n,
{
    crate::number_laws::lemma_decimal_digits(n);
    if n >= 10 && i < decimal(n).len() - 1 {
        assert(decimal(n / 10)[i] == decimal(n)[i]);
        lemma_digits_are_dark(n / 10, i);
    } else {
        assert(decimal(n)[i] == decimal(n).last());
    }
}

/// A line of `ps` gives the process id that it starts with and the command behind it, whatever
/// white space stands between.
pub proof fn lemma_process_line_is_read(
    before: Seq<char>,
    pid: u32,
    between: Seq<char>,
    command: Seq<char>,
)
    requires
        is_blank(before),
        is_blank(between),
        between.len() > 0,
        command.len() > 0,
        !is_space(command[0]),
    ensures
        ps_entry(before + decimal(pid as nat) + between + command) == Some((pid, command)),
{
    let digits = decimal(pid as nat);
    let line = before + digits + between + command;
    let text = digits + between + command;
    crate::number_laws::lemma_decimal_digits(pid as nat);
    lemma_digits_are_dark(pid as nat, 0);
    assert(line =~= before + text);
    assert(text[0] == digits[0]);
    lemma_past_blank(before, text, 0);
    assert(trimmed_start(line) =~= text);
    let end = digits.len() as int;
    assert forall|k: int| 0 <= k < end implies !is_space(#[trigger] text[k]) by {
        lemma_digits_are_dark(pid as nat, k);
        assert(text[k] == digits[k]);
    }
    assert(text[end] == between[0]);
    lemma_next_blank(text, 0, end);
    assert(text.take(end) =~= digits);
    lemma_written_number_is_read_back(pid as nat, u32::MAX as int);
    let tail = text.skip(end);
    assert(tail =~= between + command);
    lemma_past_blank(between, command, 0);
    assert(trimmed_start(tail) =~= command);
}

/// A command runs an executable where it is that, or goes on with white space, in quotes or not.
pub proof fn lemma_command_runs_its_executable(executable: Seq<char>, rest: Seq<char>, quote: char)
    requires
        executable.len() > 0,
        executable[0] != quote,
        quote == '"' || quote == '\'',
        executable[0] != '"' && executable[0] != '\'',
        rest.len() == 0 || is_space(rest[0]),
    ensures
        runs(executable + rest, executable),
        runs(seq![quote] + executable + seq![quote] + rest, executable),
{
    let plain = executable + rest;
    assert(executable.is_prefix_of(plain)) by {
        assert(plain.take(executable.len() as int) =~= executable);
    }
    assert(plain.skip(executable.len() as int) =~= rest);
    let inner = quoted(executable, quote);
    let command = seq![quote] + executable + seq![quote] + rest;
    assert(command =~= inner + rest);
    assert(inner.is_prefix_of(command)) by {
        assert(command.take(inner.len() as int) =~= inner);
    }
    assert(command.skip(inner.len() as int) =~= rest);
    assert(command[0] == quote);
    assert(!executable.is_prefix_of(command)) by {
        if executable.is_prefix_of(command) {
            assert(executable[0] == command[0]);
        }
    }
    if quote == '\'' {
        let other = quoted(executable, '"');
        if other.is_prefix_of(command) {
            assert(other[0] == command[0]);
        }
    }
}

/// A command whose first word only starts with the executable runs another one.
pub proof fn lemma_longer_word_is_another_executable(executable: Seq<char>, rest: Seq<char>)
    requires
        rest.len() > 0,
        !is_space(rest[0]),
    ensures
        !runs(executable + rest, executable),
{
    let plain = executable + rest;
    assert(executable.is_prefix_of(plain)) by {
        assert(plain.take(executable.len() as int) =~= executable);
    }
    assert(plain.skip(executable.len() as int) =~= rest);
}

/// A process counts as an instance unless it is the excluded one.
pub proof fn lemma_excluded_process_does_not_count(
    line: Seq<char>,
    executable: Seq<char>,
    pid: u32,
    command: Seq<char>,
    other: u32,
)
    requires
        ps_entry(line) == Some((pid, command)),
        runs(command, executable),
        other != pid,
    ensures
        is_instance(line, executable, None),
        is_instance(line, executable, Some(other)),
        !is_instance(line, executable, Some(pid)),
{
}

// ---------------------------------------------------------------------------
// Bundles

/// A name in a directory stands behind one slash, whether the directory ends with it or not.
pub proof fn lemma_one_slash_between(directory: Seq<char>, name: Seq<char>)
    requires
        directory.len() > 0,
        directory.last() != '/',
    ensures
        below(directory, name) == inside(directory, name),
        below(directory + seq!['/'], name) == inside(directory, name),
        below(Seq::empty(), name) == name,
{
    reveal_strlit("/");
    assert("/"@ =~= seq!['/']);
    assert((directory + seq!['/']).last() == '/');
    assert(below(Seq::empty(), name) =~= name);
}

/// The executable of a bundle is a mere name: with a slash behind it, it still is, but not with
/// another name, and not with a slash before it.
pub proof fn lemma_executable_is_a_mere_name(name: Seq<char>, other: Seq<char>)
    requires
        is_name(name),
        is_name(other),
        name.len() > 0,
        name != seq!['.'],
        name != seq!['.', '.'],
        other.len() > 0,
        other != seq!['.'],
    ensures
        single_name(name) == Some(name),
        single_name(inside(name, Seq::empty())) == Some(name),
        single_name(inside(name, other)) is None,
        single_name(inside(Seq::empty(), name)) is None,
        single_name(Seq::empty()) is None,
        single_name(seq!['.']) is None,
        single_name(seq!['.', '.']) is None,
{
    reveal_strlit(".");
    reveal_strlit("..");
    assert("."@ =~= seq!['.']);
    assert(".."@ =~= seq!['.', '.']);
    let none = Seq::<char>::empty();
    crate::path_laws::lemma_split_name(name, 0);
    crate::path_laws::lemma_split_name(other, 0);
    crate::path_laws::lemma_split_name(none, 0);
    crate::path_laws::lemma_split_name(seq!['.'], 0);
    crate::path_laws::lemma_split_name(seq!['.', '.'], 0);
    crate::path_laws::lemma_split_at(name, none, 0, 0, '/');
    crate::path_laws::lemma_split_at(name, other, 0, 0, '/');
    crate::path_laws::lemma_split_at(none, name, 0, 0, '/');
    assert(split_on(name, '/')[0] == name);
    let ended = split_on(inside(name, none), '/');
    assert(ended =~= seq![name, none]);
    let two = split_on(inside(name, other), '/');
    assert(two =~= seq![name, other]);
    assert(two[1] == other && !is_idle(two[1]));
    let rooted = split_on(inside(none, name), '/');
    assert(rooted =~= seq![none, name]);
    assert(rooted[0].len() == 0);
}

// ---------------------------------------------------------------------------
// Packages

/// Numbers with points between them.
pub open spec fn dotted(numbers: Seq<u64>) -> Seq<char>
    decreases numbers.len(),
{
    if numbers.len() == 0 {
        Seq::empty()
    } else if numbers.len() == 1 {
        decimal(numbers[0] as nat)
    } else {
        decimal(numbers[0] as nat) + seq!['.'] + dotted(numbers.drop_first())
    }
}

proof fn lemma_digits_only(n: nat, i: int)
    requires
        0 <= i < decimal(n).len(),
    ensures
        '0' <= decimal(n)[i] && decimal(n)[i] <= '9',
    decreases n,
{
    crate::number_laws::lemma_decimal_digits(n);
    if n >= 10 && i < decimal(n).len() - 1 {
        assert(decimal(n / 10)[i] == decimal(n)[i]);
        lemma_digits_only(n / 10, i);
    } else {
        assert(decimal(n)[i] == decimal(n).last());
    }
}

proof fn lemma_split_whole(text: Seq<char>, c: char, i: int)
    requires
        forall|k: int| 0 <= k < text.len() ==> #[trigger] text[k] != c,
        0 <= i <= text.len(),
    ensures
        split_from(text, 0, i, c) == seq![text],
    decreases text.len() - i,
{
    if i < text.len() {
        lemma_split_whole(text, c, i + 1);
    } else {
        assert(text.subrange(0, text.len() as int) =~= text);
    }
}

proof fn lemma_dotted_parts(numbers: Seq<u64>)
    requires
        numbers.len() > 0,
    ensures
        split_on(dotted(numbers), '.').map_values(|part: Seq<char>| version_part(part)) == numbers,
        forall|i: int| 0 <= i < dotted(numbers).len() ==> #[trigger] dotted(numbers)[i] != '_',
    decreases numbers.len(),
{
    let first = decimal(numbers[0] as nat);
    assert forall|i: int| 0 <= i < first.len() implies #[trigger] first[i] != '.' && first[i]
        != '_' by {
        lemma_digits_only(numbers[0] as nat, i);
    }
    lemma_split_whole(first, '.', 0);
    lemma_written_number_is_read_back(numbers[0] as nat, u64::MAX as int);
    let part = |part: Seq<char>| version_part(part);
    if numbers.len() == 1 {
        assert(split_on(first, '.').map_values(part) =~= numbers);
    } else {
        let rest = numbers.drop_first();
        lemma_dotted_parts(rest);
        crate::path_laws::lemma_split_at(first, dotted(rest), 0, 0, '.');
        let pieces = split_on(dotted(numbers), '.');
        let behind = split_on(dotted(rest), '.');
        assert(pieces == seq![first] + behind);
        assert(pieces.map_values(part) =~= seq![numbers[0]] + behind.map_values(part));
        assert(pieces.map_values(part) =~= numbers);
        let whole = dotted(numbers);
        assert forall|i: int| 0 <= i < whole.len() implies #[trigger] whole[i] != '_' by {
            if i < first.len() {
                assert(whole[i] == first[i]);
            } else if i > first.len() {
                assert(whole[i] == dotted(rest)[i - first.len() - 1]);
            }
        }
    }
}

/// The version of a package is the numbers behind the first underscore of its name, up to the
/// second.
pub proof fn lemma_version_is_read_from_the_name(
    family: Seq<char>,
    numbers: Seq<u64>,
    rest: Seq<char>,
)
    requires
        forall|i: int| 0 <= i < family.len() ==> #[trigger] family[i] != '_',
        numbers.len() > 0,
    ensures
        version_of(family + seq!['_'] + dotted(numbers)) == numbers,
        version_of(family + seq!['_'] + (dotted(numbers) + seq!['_'] + rest)) == numbers,
{
    lemma_dotted_parts(numbers);
    let version = dotted(numbers);
    lemma_split_whole(family, '_', 0);
    lemma_split_whole(version, '_', 0);
    crate::path_laws::lemma_split_at(family, version, 0, 0, '_');
    crate::path_laws::lemma_split_at(family, version + seq!['_'] + rest, 0, 0, '_');
    crate::path_laws::lemma_split_at(version, rest, 0, 0, '_');
    assert(split_on(family + seq!['_'] + version, '_')[1] == version);
    assert(split_on(family + seq!['_'] + (version + seq!['_'] + rest), '_')[1] == version);
}

/// Versions are ordered by the first number that differs, and one that goes on comes later.
pub proof fn lemma_first_difference_decides(
    shared: Seq<u64>,
    low: u64,
    high: u64,
    a: Seq<u64>,
    b: Seq<u64>,
)
    requires
        low < high,
    ensures
        version_less(shared + seq![low] + a, shared + seq![high] + b),
        !version_less(shared + seq![high] + b, shared + seq![low] + a),
        version_less(shared, shared + seq![low] + a),
        !version_less(shared + seq![low] + a, shared),
    decreases shared.len(),
{
    let less = shared + seq![low] + a;
    let more = shared + seq![high] + b;
    if shared.len() == 0 {
        assert(less[0] == low && more[0] == high);
    } else {
        let rest = shared.drop_first();
        assert(less[0] == shared[0] && more[0] == shared[0]);
        assert(less.drop_first() =~= rest + seq![low] + a);
        assert(more.drop_first() =~= rest + seq![high] + b);
        lemma_first_difference_decides(rest, low, high, a, b);
    }
}

/// A package comes before another with a later version, whatever their names, and names decide
/// only between equal versions.
pub proof fn lemma_version_comes_before_name(a: Seq<char>, b: Seq<char>)
    ensures
        version_less(version_of(a), version_of(b)) ==> package_less(a, b),
        version_less(version_of(b), version_of(a)) ==> !package_less(a, b),
        version_of(a) == version_of(b) ==> (package_less(a, b) <==> text_less(a, b)),
{
    crate::platform::packages::lemma_package_order(a, b, a);
    lemma_no_version_before_itself(version_of(a));
}

proof fn lemma_no_version_before_itself(a: Seq<u64>)
    ensures
        !version_less(a, a),
    decreases a.len(),
{
    if a.len() > 0 {
        lemma_no_version_before_itself(a.drop_first());
    }
}

/// Slashes become backslashes, and everything else stays.
pub proof fn lemma_slashes_become_backslashes(text: Seq<char>, i: int)
    requires
        0 <= i < text.len(),
    ensures
        with_backslashes(text).len() == text.len(),
        text[i] == '/' ==> with_backslashes(text)[i] == '\\',
        text[i] != '/' ==> with_backslashes(text)[i] == text[i],
{
}

// ---------------------------------------------------------------------------
// UTF-16

/// A character is read back from its units: from one, or from a high and a low surrogate.
pub proof fn lemma_character_is_read_back(c: char)
    ensures
        ({
            let units = char_units(c);
            let code = c as int;
            &&& code < 65_536 ==> units.len() == 1 && units[0] == code
            &&& code >= 65_536 ==> {
                &&& units.len() == 2
                &&& 55_296 <= units[0] <= 56_319
                &&& 56_320 <= units[1] <= 57_343
                &&& code == 65_536 + (units[0] - 55_296) * 1_024 + (units[1] - 56_320)
            }
        }),
{
    let code = c as u32;
    assert(code as int == c as int);
    assert(code <= 0x10ffff);
}

/// The units of a text are those of its characters, one after another.
pub proof fn lemma_units_follow_the_characters(text: Seq<char>, c: char)
    ensures
        utf16_of(Seq::empty()).len() == 0,
        utf16_of(text.push(c)) == utf16_of(text) + char_units(c),
{
    assert(text.push(c).drop_last() =~= text);
}

/// A text in a buffer ends at its first zero.
pub proof fn lemma_buffer_ends_at_its_first_zero(units: Seq<u16>, rest: Seq<u16>, i: int)
    requires
        forall|k: int| 0 <= k < units.len() ==> #[trigger] units[k] != 0,
        0 <= i <= units.len(),
    ensures
        zero_at(units + seq![0u16] + rest, i) == units.len(),
        zero_at(units, i) == units.len(),
    decreases units.len() - i,
{
    let buffer = units + seq![0u16] + rest;
    if i < units.len() {
        assert(buffer[i] == units[i]);
        lemma_buffer_ends_at_its_first_zero(units, rest, i + 1);
    } else {
        assert(buffer[i] == 0);
    }
}

} // verus!
