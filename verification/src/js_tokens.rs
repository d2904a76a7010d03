//! JavaScript tokens: what a source splits into once whitespace and comments are gone.
//!
//! Positions inside this module are character indices; [`Tokens::span`] turns them into
//! the byte ranges that edits use.

use std::ops::Range;

use vstd::prelude::*;

use crate::text::{
    byte_offset, char_digit_value, char_is_whitespace, chars_of, digit_value, is_ascii_alphabetic,
    is_ascii_digit, is_whitespace, literal_at, parse_number, parsed_number, str_eq, Text,
};

verus! {

#[derive(Clone, Copy, Debug, PartialEq, Eq, Structural)]
pub enum Kind {
    Ident,
    Number,
    String,
    Template,
    Regex,
    Punct,
}

/// One token, by character indices.
pub struct Tok {
    pub kind: Kind,
    pub start: int,
    pub end: int,
    pub line_break_before: bool,
    pub closes_control_header: bool,
    pub closes_statement_block: bool,
}

/// The parentheses and braces that are open: for each parenthesis whether it opened the
/// header of a control statement, for each brace whether it opened a statement block.
pub struct Delimiters {
    pub control_headers: Seq<bool>,
    pub statement_blocks: Seq<bool>,
}

/// What scanning for one token gives: the token if there is one, the position after it,
/// and the delimiters open there.
pub struct Lexed {
    pub token: Option<Tok>,
    pub position: int,
    pub delimiters: Delimiters,
}

// ---------------------------------------------------------------------------
// Characters and runs

/// Whether the `i`-th character exists and is `c`.
pub open spec fn char_at(s: Seq<char>, i: int, c: char) -> bool {
    0 <= i < s.len() && s[i] == c
}

pub open spec fn is_ident_start(c: char) -> bool {
    c == '_' || c == '$' || is_ascii_alphabetic(c) || (c >= '\u{80}' && !is_whitespace(c))
}

pub open spec fn is_line_terminator(c: char) -> bool {
    c == '\r' || c == '\n' || c == '\u{2028}' || c == '\u{2029}'
}

pub open spec fn ident_part() -> spec_fn(char) -> bool {
    |c: char| is_ident_start(c) || is_ascii_digit(c)
}

pub open spec fn digit_part(radix: int) -> spec_fn(char) -> bool {
    |c: char| c == '_' || digit_value(c, radix) is Some
}

pub open spec fn not_line_terminator() -> spec_fn(char) -> bool {
    |c: char| !is_line_terminator(c)
}

pub open spec fn regex_flag() -> spec_fn(char) -> bool {
    |c: char| is_ascii_alphabetic(c)
}

pub open spec fn not_closing_brace() -> spec_fn(char) -> bool {
    |c: char| c != '}'
}

/// End of the run of characters from `i` on that satisfy `part`.
pub open spec fn run_end(s: Seq<char>, i: int, part: spec_fn(char) -> bool) -> int
    decreases s.len() - i,
{
    if 0 <= i < s.len() && part(s[i]) {
        run_end(s, i + 1, part)
    } else {
        i
    }
}

proof fn lemma_run_end(s: Seq<char>, i: int, part: spec_fn(char) -> bool)
    requires
        0 <= i <= s.len(),
    ensures
        i <= run_end(s, i, part) <= s.len(),
        forall|k: int| i <= k < run_end(s, i, part) ==> part(#[trigger] s[k]),
        run_end(s, i, part) < s.len() ==> !part(s[run_end(s, i, part)]),
    decreases s.len() - i,
{
    if i < s.len() && part(s[i]) {
        lemma_run_end(s, i + 1, part);
    }
}

fn char_is_line_terminator(c: char) -> (yes: bool)
    ensures
        yes == is_line_terminator(c),
{
    c == '\r' || c == '\n' || c == '\u{2028}' || c == '\u{2029}'
}

fn char_is_ident_start(c: char) -> (yes: bool)
    ensures
        yes == is_ident_start(c),
{
    c == '_' || c == '$' || char_is_ascii_alphabetic(c) || (c >= '\u{80}' && !char_is_whitespace(c))
}

fn char_is_ascii_alphabetic(c: char) -> (yes: bool)
    ensures
        yes == is_ascii_alphabetic(c),
{
    ('a' <= c && c <= 'z') || ('A' <= c && c <= 'Z')
}

fn char_is_ascii_digit(c: char) -> (yes: bool)
    ensures
        yes == is_ascii_digit(c),
{
    '0' <= c && c <= '9'
}

fn has_char(text: &Text<'_>, i: usize, c: char) -> (yes: bool)
    ensures
        yes == char_at(text@, i as int, c),
{
    i < text.len() && text.at(i) == c
}

fn ident_end(text: &Text<'_>, start: usize) -> (end: usize)
    requires
        start <= text@.len(),
    ensures
        end == run_end(text@, start as int, ident_part()),
        start <= end <= text@.len(),
{
    let n = text.len();
    let mut i: usize = start;
    while i < n && (char_is_ident_start(text.at(i)) || char_is_ascii_digit(text.at(i)))
        invariant
            start <= i <= n == text@.len(),
            run_end(text@, start as int, ident_part()) == run_end(text@, i as int, ident_part()),
        decreases n - i,
    {
        i += 1;
    }
    i
}

fn digits_end(text: &Text<'_>, start: usize, radix: u32) -> (end: usize)
    requires
        start <= text@.len(),
        radix <= 16,
    ensures
        end == run_end(text@, start as int, digit_part(radix as int)),
        start <= end <= text@.len(),
{
    let n = text.len();
    let mut i: usize = start;
    while i < n && (text.at(i) == '_' || char_digit_value(text.at(i), radix).is_some())
        invariant
            start <= i <= n == text@.len(),
            radix <= 16,
            run_end(text@, start as int, digit_part(radix as int)) == run_end(
                text@,
                i as int,
                digit_part(radix as int),
            ),
        decreases n - i,
    {
        i += 1;
    }
    i
}

// ---------------------------------------------------------------------------
// Numbers

/// Radix that the prefix of a number names: `0x`, `0o` or `0b`.
pub open spec fn number_radix(s: Seq<char>, i: int) -> Option<int> {
    if char_at(s, i, '0') {
        if char_at(s, i + 1, 'x') || char_at(s, i + 1, 'X') {
            Some(16int)
        } else if char_at(s, i + 1, 'o') || char_at(s, i + 1, 'O') {
            Some(8int)
        } else if char_at(s, i + 1, 'b') || char_at(s, i + 1, 'B') {
            Some(2int)
        } else {
            None
        }
    } else {
        None
    }
}

/// One further when `c` stands at `i`.
pub open spec fn past(s: Seq<char>, i: int, c: char) -> int {
    if char_at(s, i, c) {
        i + 1
    } else {
        i
    }
}

/// End of the fraction of a decimal number whose integer digits end at `i`.
pub open spec fn fraction_end(s: Seq<char>, i: int) -> int {
    if char_at(s, i, '.') {
        run_end(s, i + 1, digit_part(10))
    } else {
        i
    }
}

pub open spec fn has_exponent(s: Seq<char>, i: int) -> bool {
    char_at(s, i, 'e') || char_at(s, i, 'E')
}

pub open spec fn exponent_end(s: Seq<char>, i: int) -> int {
    if has_exponent(s, i) {
        let sign = i + 1;
        if char_at(s, sign, '+') || char_at(s, sign, '-') {
            run_end(s, sign + 1, digit_part(10))
        } else {
            run_end(s, sign, digit_part(10))
        }
    } else {
        i
    }
}

/// End of the number literal that starts at `i`. A trailing `n` belongs to it only where
/// there is neither a fraction nor an exponent.
pub open spec fn number_end(s: Seq<char>, i: int) -> int {
    match number_radix(s, i) {
        Some(radix) => past(s, run_end(s, i + 2, digit_part(radix)), 'n'),
        None => {
            let whole = run_end(s, i, digit_part(10));
            let fraction = fraction_end(s, whole);
            let exponent = exponent_end(s, fraction);
            if char_at(s, whole, '.') || has_exponent(s, fraction) {
                exponent
            } else {
                past(s, exponent, 'n')
            }
        },
    }
}

fn number_end_at(text: &Text<'_>, start: usize) -> (end: usize)
    requires
        start < text@.len(),
        is_ascii_digit(text@[start as int]) || text@[start as int] == '.',
    ensures
        end == number_end(text@, start as int),
        start < end <= text@.len(),
{
    let n = text.len();
    proof {
        lemma_run_end(text@, start + 1, digit_part(10));
    }
    if has_char(text, start, '0') {
        let next = start + 1;
        let radix: u32 = if has_char(text, next, 'x') || has_char(text, next, 'X') {
            16
        } else if has_char(text, next, 'o') || has_char(text, next, 'O') {
            8
        } else if has_char(text, next, 'b') || has_char(text, next, 'B') {
            2
        } else {
            0
        };
        if radix != 0 {
            let end = digits_end(text, start + 2, radix);
            return if has_char(text, end, 'n') {
                end + 1
            } else {
                end
            };
        }
    }
    let whole = digits_end(text, start, 10);
    let mut end = whole;
    let fractional = has_char(text, whole, '.');
    if fractional {
        end = digits_end(text, whole + 1, 10);
    }
    let ghost fraction = end as int;
    let exponent = has_char(text, end, 'e') || has_char(text, end, 'E');
    if exponent {
        end += 1;
        if has_char(text, end, '+') || has_char(text, end, '-') {
            end += 1;
        }
        end = digits_end(text, end, 10);
    }
    assert(end == exponent_end(text@, fraction));
    if !fractional && !exponent && has_char(text, end, 'n') {
        end += 1;
    }
    end
}

// ---------------------------------------------------------------------------
// Strings, comments, regular expressions

/// Position after the escape whose backslash stands at `i`.
pub open spec fn escaped_end(s: Seq<char>, i: int) -> int {
    if i + 1 >= s.len() {
        s.len() as int
    } else if s[i + 1] == '\r' {
        past(s, i + 2, '\n')
    } else {
        i + 2
    }
}

fn escaped_end_at(text: &Text<'_>, i: usize) -> (end: usize)
    requires
        i < text@.len(),
    ensures
        end == escaped_end(text@, i as int),
        i < end <= text@.len(),
{
    let n = text.len();
    if i + 1 >= n {
        n
    } else if text.at(i + 1) == '\r' && has_char(text, i + 2, '\n') {
        i + 3
    } else {
        i + 2
    }
}

/// End of a quoted string, scanning its body from `i`. A line ends an open string.
pub open spec fn quoted_end(s: Seq<char>, i: int, quote: char) -> int
    decreases s.len() - i,
{
    if !(0 <= i < s.len()) {
        i
    } else if s[i] == '\\' {
        quoted_end(s, escaped_end(s, i), quote)
    } else if s[i] == quote {
        i + 1
    } else if s[i] == '\r' || s[i] == '\n' {
        i
    } else {
        quoted_end(s, i + 1, quote)
    }
}

fn quoted_end_at(text: &Text<'_>, start: usize, quote: char) -> (end: usize)
    requires
        start < text@.len(),
        quote == '"' || quote == '\'',
    ensures
        end == quoted_end(text@, start + 1, quote),
        start < end <= text@.len(),
{
    let n = text.len();
    let mut i: usize = start + 1;
    while i < n
        invariant
            start < i <= n == text@.len(),
            quote == '"' || quote == '\'',
            quoted_end(text@, start + 1, quote) == quoted_end(text@, i as int, quote),
        decreases n - i,
    {
        let c = text.at(i);
        if c == '\\' {
            i = escaped_end_at(text, i);
        } else if c == quote {
            return i + 1;
        } else if c == '\r' || c == '\n' {
            return i;
        } else {
            i += 1;
        }
    }
    i
}

/// End of a regular expression with its flags, scanning its body from `i`. A slash inside
/// a character class does not end it; a line end does.
pub open spec fn regex_end(s: Seq<char>, i: int, in_class: bool) -> int
    decreases s.len() - i,
{
    if !(0 <= i < s.len()) {
        i
    } else if s[i] == '\\' {
        regex_end(s, escaped_end(s, i), in_class)
    } else if s[i] == '[' {
        regex_end(s, i + 1, true)
    } else if s[i] == ']' {
        regex_end(s, i + 1, false)
    } else if s[i] == '/' && !in_class {
        run_end(s, i + 1, regex_flag())
    } else if is_line_terminator(s[i]) {
        i
    } else {
        regex_end(s, i + 1, in_class)
    }
}

fn regex_end_at(text: &Text<'_>, start: usize) -> (end: usize)
    requires
        start < text@.len(),
    ensures
        end == regex_end(text@, start + 1, false),
        start < end <= text@.len(),
{
    let n = text.len();
    let mut i: usize = start + 1;
    let mut in_class = false;
    while i < n
        invariant
            start < i <= n == text@.len(),
            regex_end(text@, start + 1, false) == regex_end(text@, i as int, in_class),
        decreases n - i,
    {
        let c = text.at(i);
        if c == '\\' {
            i = escaped_end_at(text, i);
        } else if c == '[' {
            in_class = true;
            i += 1;
        } else if c == ']' {
            in_class = false;
            i += 1;
        } else if c == '/' && !in_class {
            i += 1;
            let ghost flags = i as int;
            while i < n && char_is_ascii_alphabetic(text.at(i))
                invariant
                    start < i <= n == text@.len(),
                    run_end(text@, flags, regex_flag()) == run_end(text@, i as int, regex_flag()),
                decreases n - i,
            {
                i += 1;
            }
            return i;
        } else if char_is_line_terminator(c) {
            return i;
        } else {
            i += 1;
        }
    }
    i
}

/// End of a block comment, scanning its body from `i`.
pub open spec fn block_comment_end(s: Seq<char>, i: int) -> int
    decreases s.len() - i,
{
    if i >= s.len() {
        s.len() as int
    } else if char_at(s, i, '*') && char_at(s, i + 1, '/') {
        i + 2
    } else {
        block_comment_end(s, i + 1)
    }
}

fn block_comment_end_at(text: &Text<'_>, start: usize) -> (end: usize)
    requires
        start <= text@.len(),
    ensures
        end == block_comment_end(text@, start as int),
        start <= end <= text@.len(),
{
    let n = text.len();
    let mut i: usize = start;
    while i < n
        invariant
            start <= i <= n == text@.len(),
            block_comment_end(text@, start as int) == block_comment_end(text@, i as int),
        decreases n - i,
    {
        if text.at(i) == '*' && has_char(text, i + 1, '/') {
            return i + 2;
        }
        i += 1;
    }
    n
}

fn line_comment_end_at(text: &Text<'_>, start: usize) -> (end: usize)
    requires
        start <= text@.len(),
    ensures
        end == run_end(text@, start as int, not_line_terminator()),
        start <= end <= text@.len(),
{
    let n = text.len();
    let mut i: usize = start;
    while i < n && !char_is_line_terminator(text.at(i))
        invariant
            start <= i <= n == text@.len(),
            run_end(text@, start as int, not_line_terminator()) == run_end(
                text@,
                i as int,
                not_line_terminator(),
            ),
        decreases n - i,
    {
        i += 1;
    }
    i
}

/// End of the whitespace character or comment at `i`, if one stands there.
pub open spec fn trivia_end(s: Seq<char>, i: int) -> Option<int> {
    if !(0 <= i < s.len()) {
        None
    } else if is_whitespace(s[i]) {
        Some(i + 1)
    } else if s[i] == '/' && char_at(s, i + 1, '/') {
        Some(run_end(s, i + 2, not_line_terminator()))
    } else if s[i] == '/' && char_at(s, i + 1, '*') {
        Some(block_comment_end(s, i + 2))
    } else {
        None
    }
}

proof fn lemma_block_comment_end(s: Seq<char>, i: int)
    requires
        0 <= i <= s.len(),
    ensures
        i <= block_comment_end(s, i) <= s.len(),
    decreases s.len() - i,
{
    if i < s.len() && !(char_at(s, i, '*') && char_at(s, i + 1, '/')) {
        lemma_block_comment_end(s, i + 1);
    }
}

pub proof fn lemma_trivia_end(s: Seq<char>, i: int)
    ensures
        trivia_end(s, i) matches Some(end) ==> 0 <= i < end <= s.len(),
{
    if 0 <= i && i + 2 <= s.len() {
        lemma_run_end(s, i + 2, not_line_terminator());
        lemma_block_comment_end(s, i + 2);
    }
}

/// First position from `i` on where neither whitespace nor a comment stands.
pub open spec fn skip_trivia(s: Seq<char>, i: int) -> int
    decreases s.len() - i,
{
    match trivia_end(s, i) {
        Some(end) => {
            proof {
                lemma_trivia_end(s, i);
            }
            skip_trivia(s, end)
        },
        None => i,
    }
}

pub proof fn lemma_skip_trivia(s: Seq<char>, i: int)
    requires
        0 <= i <= s.len(),
    ensures
        i <= skip_trivia(s, i) <= s.len(),
        trivia_end(s, skip_trivia(s, i)) is None,
    decreases s.len() - i,
{
    lemma_trivia_end(s, i);
    if let Some(end) = trivia_end(s, i) {
        lemma_skip_trivia(s, end);
    }
}

/// Whether a line ends between `i` and `j`.
pub open spec fn line_breaks(s: Seq<char>, i: int, j: int) -> bool {
    exists|k: int| i <= k < j && is_line_terminator(#[trigger] s[k])
}

fn line_breaks_between(text: &Text<'_>, start: usize, end: usize) -> (yes: bool)
    requires
        start <= end <= text@.len(),
    ensures
        yes == line_breaks(text@, start as int, end as int),
{
    let mut i: usize = start;
    while i < end
        invariant
            start <= i <= end <= text@.len(),
            forall|k: int| start <= k < i ==> !is_line_terminator(#[trigger] text@[k]),
        decreases end - i,
    {
        if char_is_line_terminator(text.at(i)) {
            return true;
        }
        i += 1;
    }
    false
}

fn skip_trivia_from(text: &Text<'_>, start: usize) -> (end: usize)
    requires
        start <= text@.len(),
    ensures
        end == skip_trivia(text@, start as int),
        start <= end <= text@.len(),
{
    let n = text.len();
    let mut i: usize = start;
    while i < n
        invariant
            start <= i <= n == text@.len(),
            skip_trivia(text@, start as int) == skip_trivia(text@, i as int),
        decreases n - i,
    {
        let c = text.at(i);
        proof {
            lemma_trivia_end(text@, i as int);
        }
        if char_is_whitespace(c) {
            i += 1;
        } else if c == '/' && has_char(text, i + 1, '/') {
            i = line_comment_end_at(text, i + 2);
        } else if c == '/' && has_char(text, i + 1, '*') {
            i = block_comment_end_at(text, i + 2);
        } else {
            return i;
        }
    }
    i
}

// ---------------------------------------------------------------------------
// Operators

/// Operators of more than one character, each before those that are a prefix of it.
pub open spec fn operators() -> Seq<Seq<char>> {
    seq![
        ">>>="@, "==="@, "!=="@, ">>>"@, "**="@, "&&="@, "||="@, "??="@, "<<="@, ">>="@, "..."@,
        "=>"@, "=="@, "!="@, "<="@, ">="@, "++"@, "--"@, "&&"@, "||"@, "??"@, "?."@, "**"@, "<<"@,
        ">>"@, "+="@, "-="@, "*="@, "/="@, "%="@, "&="@, "|="@, "^="@,
    ]
}

/// End of the first operator from the `k`-th on that stands at `i`, else of the one
/// character there.
pub open spec fn operator_end_from(s: Seq<char>, i: int, k: int) -> int
    decreases operators().len() - k,
{
    if 0 <= k < operators().len() {
        if literal_at(s, i, operators()[k]) {
            i + operators()[k].len()
        } else {
            operator_end_from(s, i, k + 1)
        }
    } else {
        i + 1
    }
}

pub open spec fn operator_end(s: Seq<char>, i: int) -> int {
    operator_end_from(s, i, 0)
}

proof fn lemma_operators_nonempty()
    ensures
        forall|k: int| 0 <= k < operators().len() ==> (#[trigger] operators()[k]).len() >= 2,
{
    reveal_strlit(">>>=");
    reveal_strlit("===");
    reveal_strlit("!==");
    reveal_strlit(">>>");
    reveal_strlit("**=");
    reveal_strlit("&&=");
    reveal_strlit("||=");
    reveal_strlit("??=");
    reveal_strlit("<<=");
    reveal_strlit(">>=");
    reveal_strlit("...");
    reveal_strlit("=>");
    reveal_strlit("==");
    reveal_strlit("!=");
    reveal_strlit("<=");
    reveal_strlit(">=");
    reveal_strlit("++");
    reveal_strlit("--");
    reveal_strlit("&&");
    reveal_strlit("||");
    reveal_strlit("??");
    reveal_strlit("?.");
    reveal_strlit("**");
    reveal_strlit("<<");
    reveal_strlit(">>");
    reveal_strlit("+=");
    reveal_strlit("-=");
    reveal_strlit("*=");
    reveal_strlit("/=");
    reveal_strlit("%=");
    reveal_strlit("&=");
    reveal_strlit("|=");
    reveal_strlit("^=");
}

proof fn lemma_operator_end(s: Seq<char>, i: int, k: int)
    requires
        0 <= i < s.len(),
        0 <= k <= operators().len(),
    ensures
        i < operator_end_from(s, i, k) <= s.len(),
    decreases operators().len() - k,
{
    if k < operators().len() {
        lemma_operators_nonempty();
        lemma_operator_end(s, i, k + 1);
    }
}

fn operator_end_at(text: &Text<'_>, start: usize) -> (end: usize)
    requires
        start < text@.len(),
    ensures
        end == operator_end(text@, start as int),
        start < end <= text@.len(),
{
    let list: [&str; 33] = [
        ">>>=", "===", "!==", ">>>", "**=", "&&=", "||=", "??=", "<<=", ">>=", "...", "=>", "==",
        "!=", "<=", ">=", "++", "--", "&&", "||", "??", "?.", "**", "<<", ">>", "+=", "-=", "*=",
        "/=", "%=", "&=", "|=", "^=",
    ];
    let n = text.len();
    let mut k: usize = 0;
    proof {
        lemma_operators_nonempty();
        lemma_operator_end(text@, start as int, 0);
    }
    while k < 33
        invariant
            k <= 33,
            start < n == text@.len(),
            operators().len() == 33,
            forall|j: int| 0 <= j < 33 ==> (#[trigger] list@[j])@ == operators()[j],
            operator_end(text@, start as int) == operator_end_from(text@, start as int, k as int),
            start < operator_end(text@, start as int) <= text@.len(),
        decreases 33 - k,
    {
        if text.matches_at(start, list[k]) {
            let width = chars_of(list[k]).len();
            assert(list@[k as int]@ == operators()[k as int]);
            return start + width;
        }
        assert(list@[k as int]@ == operators()[k as int]);
        k += 1;
    }
    start + 1
}

// ---------------------------------------------------------------------------
// Where a regular expression may start

pub open spec fn no_delimiters() -> Delimiters {
    Delimiters { control_headers: Seq::empty(), statement_blocks: Seq::empty() }
}

pub open spec fn tok_text(s: Seq<char>, token: Tok) -> Seq<char> {
    s.subrange(token.start, token.end)
}

pub open spec fn is_control_keyword(ident: Seq<char>) -> bool {
    ident == "if"@ || ident == "while"@ || ident == "for"@ || ident == "with"@ || ident
        == "switch"@ || ident == "catch"@
}

pub open spec fn is_block_keyword(ident: Seq<char>) -> bool {
    ident == "catch"@ || ident == "do"@ || ident == "else"@ || ident == "finally"@ || ident
        == "static"@ || ident == "try"@
}

pub open spec fn regex_after_ident(ident: Seq<char>) -> bool {
    ident == "await"@ || ident == "case"@ || ident == "default"@ || ident == "delete"@ || ident
        == "do"@ || ident == "else"@ || ident == "in"@ || ident == "instanceof"@ || ident == "new"@
        || ident == "of"@ || ident == "return"@ || ident == "throw"@ || ident == "typeof"@ || ident
        == "void"@ || ident == "yield"@
}

pub open spec fn regex_after_punct(punct: Seq<char>) -> bool {
    !(punct == ")"@ || punct == "]"@ || punct == "}"@ || punct == "++"@ || punct == "--"@ || punct
        == "."@ || punct == "?."@)
}

/// Whether a slash after `previous` starts a regular expression rather than a division.
pub open spec fn regex_allowed(s: Seq<char>, previous: Option<Tok>) -> bool {
    match previous {
        None => true,
        Some(token) => {
            let text = tok_text(s, token);
            match token.kind {
                Kind::Ident => regex_after_ident(text),
                Kind::Punct => if text == "}"@ {
                    token.closes_statement_block
                } else {
                    regex_after_punct(text) || token.closes_control_header
                },
                _ => false,
            }
        },
    }
}

/// Whether a brace after `previous` opens a statement block rather than an object.
pub open spec fn starts_statement_block(
    s: Seq<char>,
    previous: Option<Tok>,
    delimiters: Delimiters,
) -> bool {
    match previous {
        None => true,
        Some(token) => {
            let text = tok_text(s, token);
            match token.kind {
                Kind::Ident => is_block_keyword(text),
                Kind::Punct => if text == ")"@ || text == "=>"@ || text == ";"@ {
                    true
                } else if text == "{"@ {
                    delimiters.statement_blocks.len() == 0 || delimiters.statement_blocks.last()
                } else {
                    false
                },
                _ => false,
            }
        },
    }
}

pub open spec fn last_or_false(flags: Seq<bool>) -> bool {
    flags.len() > 0 && flags.last()
}

pub open spec fn without_last(flags: Seq<bool>) -> Seq<bool> {
    if flags.len() > 0 {
        flags.drop_last()
    } else {
        flags
    }
}

/// `token` with what it closes, and the delimiters open after it.
pub open spec fn annotate(
    s: Seq<char>,
    previous: Option<Tok>,
    delimiters: Delimiters,
    token: Tok,
) -> (Tok, Delimiters) {
    let text = tok_text(s, token);
    if token.kind != Kind::Punct {
        (token, delimiters)
    } else if text == "("@ {
        let control = match previous {
            Some(before) => before.kind == Kind::Ident && is_control_keyword(tok_text(s, before)),
            None => false,
        };
        (
            token,
            Delimiters { control_headers: delimiters.control_headers.push(control), ..delimiters },
        )
    } else if text == ")"@ {
        (
            Tok { closes_control_header: last_or_false(delimiters.control_headers), ..token },
            Delimiters {
                control_headers: without_last(delimiters.control_headers),
                ..delimiters
            },
        )
    } else if text == "{"@ {
        let block = starts_statement_block(s, previous, delimiters);
        (
            token,
            Delimiters { statement_blocks: delimiters.statement_blocks.push(block), ..delimiters },
        )
    } else if text == "}"@ {
        (
            Tok { closes_statement_block: last_or_false(delimiters.statement_blocks), ..token },
            Delimiters {
                statement_blocks: without_last(delimiters.statement_blocks),
                ..delimiters
            },
        )
    } else {
        (token, delimiters)
    }
}

// ---------------------------------------------------------------------------
// Tokens

/// Kind and end of the token at `i`, where neither whitespace nor a comment stands.
pub open spec fn token_shape(s: Seq<char>, i: int, previous: Option<Tok>) -> (Kind, int)
    decreases s.len() - i, 1int,
{
    let c = s[i];
    if c == '\'' || c == '"' {
        (Kind::String, quoted_end(s, i + 1, c))
    } else if c == '`' {
        (Kind::Template, if i < s.len() {
            template_end(s, i + 1)
        } else {
            i
        })
    } else if c == '/' && regex_allowed(s, previous) {
        (Kind::Regex, regex_end(s, i + 1, false))
    } else if is_ident_start(c) {
        (Kind::Ident, run_end(s, i, ident_part()))
    } else if is_ascii_digit(c) || (c == '.' && i + 1 < s.len() && is_ascii_digit(s[i + 1])) {
        (Kind::Number, number_end(s, i))
    } else {
        (Kind::Punct, operator_end(s, i))
    }
}

/// The next token from `i` on, after `previous` and with `delimiters` open.
pub open spec fn next_token(
    s: Seq<char>,
    i: int,
    previous: Option<Tok>,
    delimiters: Delimiters,
) -> Lexed
    decreases s.len() - i, 2int,
{
    let start = skip_trivia(s, i);
    if !(0 <= i <= start < s.len()) {
        Lexed { token: None, position: s.len() as int, delimiters }
    } else {
        let (kind, end) = token_shape(s, start, previous);
        let bare = Tok {
            kind,
            start,
            end,
            line_break_before: line_breaks(s, i, start),
            closes_control_header: false,
            closes_statement_block: false,
        };
        let (token, after) = annotate(s, previous, delimiters, bare);
        Lexed { token: Some(token), position: end, delimiters: after }
    }
}

/// End of a template literal, scanning its body from `i`.
pub open spec fn template_end(s: Seq<char>, i: int) -> int
    decreases s.len() - i, 0int,
{
    if !(0 <= i < s.len()) {
        i
    } else if s[i] == '\\' {
        template_end(s, escaped_end(s, i))
    } else if s[i] == '`' {
        i + 1
    } else if s[i] == '$' && char_at(s, i + 1, '{') {
        let end = expression_end(s, i + 2, None, no_delimiters(), 1);
        // Scanning always advances; the test makes that evident to the definition.
        if i < end <= s.len() {
            template_end(s, end)
        } else {
            end
        }
    } else {
        template_end(s, i + 1)
    }
}

/// End of a substitution inside a template: past the brace that closes the last of
/// `depth` open ones.
pub open spec fn expression_end(
    s: Seq<char>,
    i: int,
    previous: Option<Tok>,
    delimiters: Delimiters,
    depth: int,
) -> int
    decreases s.len() - i, 3int,
{
    let lexed = next_token(s, i, previous, delimiters);
    match lexed.token {
        None => lexed.position,
        Some(token) => {
            let punct = token.kind == Kind::Punct;
            let opens = punct && tok_text(s, token) == "{"@;
            let closes = punct && tok_text(s, token) == "}"@;
            if closes && depth == 1 {
                token.end
            } else if i < token.end <= s.len() {
                expression_end(
                    s,
                    token.end,
                    Some(token),
                    lexed.delimiters,
                    if opens {
                        depth + 1
                    } else if closes {
                        depth - 1
                    } else {
                        depth
                    },
                )
            } else {
                token.end
            }
        },
    }
}

proof fn lemma_quoted_end(s: Seq<char>, i: int, quote: char)
    requires
        0 <= i <= s.len(),
    ensures
        i <= quoted_end(s, i, quote) <= s.len(),
    decreases s.len() - i,
{
    if i < s.len() {
        if s[i] == '\\' {
            lemma_quoted_end(s, escaped_end(s, i), quote);
        } else {
            lemma_quoted_end(s, i + 1, quote);
        }
    }
}

proof fn lemma_regex_end(s: Seq<char>, i: int, in_class: bool)
    requires
        0 <= i <= s.len(),
    ensures
        i <= regex_end(s, i, in_class) <= s.len(),
    decreases s.len() - i,
{
    if i < s.len() {
        lemma_run_end(s, i + 1, regex_flag());
        if s[i] == '\\' {
            lemma_regex_end(s, escaped_end(s, i), in_class);
        } else {
            lemma_regex_end(s, i + 1, true);
            lemma_regex_end(s, i + 1, false);
        }
    }
}

proof fn lemma_number_end(s: Seq<char>, i: int)
    requires
        0 <= i < s.len(),
        is_ascii_digit(s[i]) || s[i] == '.',
    ensures
        i < number_end(s, i) <= s.len(),
{
    match number_radix(s, i) {
        Some(radix) => {
            lemma_run_end(s, i + 2, digit_part(radix));
        },
        None => {
            lemma_run_end(s, i + 1, digit_part(10));
            let whole = run_end(s, i, digit_part(10));
            if whole < s.len() {
                lemma_run_end(s, whole + 1, digit_part(10));
            }
            let fraction = fraction_end(s, whole);
            if has_exponent(s, fraction) {
                lemma_run_end(s, fraction + 1, digit_part(10));
                if fraction + 2 <= s.len() {
                    lemma_run_end(s, fraction + 2, digit_part(10));
                }
            }
        },
    }
}

/// A token covers at least one character and ends inside the source.
pub proof fn lemma_token_shape(s: Seq<char>, i: int, previous: Option<Tok>)
    requires
        0 <= i < s.len(),
    ensures
        i < token_shape(s, i, previous).1 <= s.len(),
    decreases s.len() - i, 1int,
{
    let c = s[i];
    lemma_quoted_end(s, i + 1, c);
    lemma_regex_end(s, i + 1, false);
    lemma_template_end(s, i + 1);
    lemma_run_end(s, i + 1, ident_part());
    lemma_operator_end(s, i, 0);
    if is_ascii_digit(c) || c == '.' {
        lemma_number_end(s, i);
    }
}

/// The next token starts at or after `i`, and scanning goes on after it.
pub proof fn lemma_next_token(
    s: Seq<char>,
    i: int,
    previous: Option<Tok>,
    delimiters: Delimiters,
)
    requires
        0 <= i <= s.len(),
    ensures
        match next_token(s, i, previous, delimiters).token {
            Some(token) => {
                &&& i <= token.start < token.end <= s.len()
                &&& token.start == skip_trivia(s, i)
                &&& next_token(s, i, previous, delimiters).position == token.end
            },
            None => {
                &&& skip_trivia(s, i) == s.len()
                &&& next_token(s, i, previous, delimiters).position == s.len()
            },
        },
    decreases s.len() - i, 2int,
{
    lemma_skip_trivia(s, i);
    let start = skip_trivia(s, i);
    if start < s.len() {
        lemma_token_shape(s, start, previous);
    }
}

pub proof fn lemma_template_end(s: Seq<char>, i: int)
    requires
        0 <= i <= s.len(),
    ensures
        i <= template_end(s, i) <= s.len(),
    decreases s.len() - i, 0int,
{
    if i < s.len() {
        if s[i] == '\\' {
            lemma_template_end(s, escaped_end(s, i));
        } else if s[i] == '`' {
        } else if s[i] == '$' && char_at(s, i + 1, '{') {
            lemma_expression_end(s, i + 2, None, no_delimiters(), 1);
            let end = expression_end(s, i + 2, None, no_delimiters(), 1);
            lemma_template_end(s, end);
        } else {
            lemma_template_end(s, i + 1);
        }
    }
}

pub proof fn lemma_expression_end(
    s: Seq<char>,
    i: int,
    previous: Option<Tok>,
    delimiters: Delimiters,
    depth: int,
)
    requires
        0 <= i <= s.len(),
    ensures
        i <= expression_end(s, i, previous, delimiters, depth) <= s.len(),
    decreases s.len() - i, 3int,
{
    lemma_next_token(s, i, previous, delimiters);
    let lexed = next_token(s, i, previous, delimiters);
    if let Some(token) = lexed.token {
        let opens = token.kind == Kind::Punct && tok_text(s, token) == "{"@;
        let closes = token.kind == Kind::Punct && tok_text(s, token) == "}"@;
        let next = if opens {
            depth + 1
        } else if closes {
            depth - 1
        } else {
            depth
        };
        lemma_expression_end(s, token.end, Some(token), lexed.delimiters, next);
    }
}

/// The tokens from `i` on.
pub open spec fn tokens_from(
    s: Seq<char>,
    i: int,
    previous: Option<Tok>,
    delimiters: Delimiters,
) -> Seq<Tok>
    decreases s.len() - i,
    when 0 <= i <= s.len()
{
    let lexed = next_token(s, i, previous, delimiters);
    match lexed.token {
        None => Seq::empty(),
        Some(token) => {
            proof {
                lemma_next_token(s, i, previous, delimiters);
            }
            seq![token] + tokens_from(s, token.end, Some(token), lexed.delimiters)
        },
    }
}

/// The tokens of a source.
#[verifier::opaque]
pub open spec fn tokens_of(s: Seq<char>) -> Seq<Tok> {
    tokens_from(s, 0, None, no_delimiters())
}

/// A token as the scanner holds it, by character indices.
#[derive(Clone, Copy)]
struct Token {
    kind: Kind,
    start: usize,
    end: usize,
    line_break_before: bool,
    closes_control_header: bool,
    closes_statement_block: bool,
}

impl View for Token {
    type V = Tok;

    closed spec fn view(&self) -> Tok {
        Tok {
            kind: self.kind,
            start: self.start as int,
            end: self.end as int,
            line_break_before: self.line_break_before,
            closes_control_header: self.closes_control_header,
            closes_statement_block: self.closes_statement_block,
        }
    }
}

spec fn previous_view(previous: Option<Token>) -> Option<Tok> {
    match previous {
        Some(token) => Some(token@),
        None => None,
    }
}

spec fn previous_inside(s: Seq<char>, previous: Option<Token>) -> bool {
    previous matches Some(token) ==> token.start <= token.end <= s.len()
}

struct DelimiterState {
    control_headers: Vec<bool>,
    statement_blocks: Vec<bool>,
}

impl View for DelimiterState {
    type V = Delimiters;

    closed spec fn view(&self) -> Delimiters {
        Delimiters {
            control_headers: self.control_headers@,
            statement_blocks: self.statement_blocks@,
        }
    }
}

impl DelimiterState {
    fn new() -> (state: DelimiterState)
        ensures
            state@ == no_delimiters(),
    {
        let state = DelimiterState { control_headers: Vec::new(), statement_blocks: Vec::new() };
        assert(state.control_headers@ =~= Seq::empty());
        assert(state.statement_blocks@ =~= Seq::empty());
        state
    }
}

fn control_keyword(ident: &str) -> (yes: bool)
    ensures
        yes == is_control_keyword(ident@),
{
    str_eq(ident, "if") || str_eq(ident, "while") || str_eq(ident, "for") || str_eq(ident, "with")
        || str_eq(ident, "switch") || str_eq(ident, "catch")
}

fn block_keyword(ident: &str) -> (yes: bool)
    ensures
        yes == is_block_keyword(ident@),
{
    str_eq(ident, "catch") || str_eq(ident, "do") || str_eq(ident, "else") || str_eq(
        ident,
        "finally",
    ) || str_eq(ident, "static") || str_eq(ident, "try")
}

fn ident_allows_regex(ident: &str) -> (yes: bool)
    ensures
        yes == regex_after_ident(ident@),
{
    str_eq(ident, "await") || str_eq(ident, "case") || str_eq(ident, "default") || str_eq(
        ident,
        "delete",
    ) || str_eq(ident, "do") || str_eq(ident, "else") || str_eq(ident, "in") || str_eq(
        ident,
        "instanceof",
    ) || str_eq(ident, "new") || str_eq(ident, "of") || str_eq(ident, "return") || str_eq(
        ident,
        "throw",
    ) || str_eq(ident, "typeof") || str_eq(ident, "void") || str_eq(ident, "yield")
}

fn punct_allows_regex(punct: &str) -> (yes: bool)
    ensures
        yes == regex_after_punct(punct@),
{
    !(str_eq(punct, ")") || str_eq(punct, "]") || str_eq(punct, "}") || str_eq(punct, "++")
        || str_eq(punct, "--") || str_eq(punct, ".") || str_eq(punct, "?."))
}

fn is_regex_allowed(text: &Text<'_>, previous: Option<Token>) -> (yes: bool)
    requires
        previous_inside(text@, previous),
    ensures
        yes == regex_allowed(text@, previous_view(previous)),
{
    match previous {
        None => true,
        Some(token) => {
            let raw = text.slice(token.start, token.end);
            match token.kind {
                Kind::Ident => ident_allows_regex(raw),
                Kind::Punct => if str_eq(raw, "}") {
                    token.closes_statement_block
                } else {
                    punct_allows_regex(raw) || token.closes_control_header
                },
                _ => false,
            }
        },
    }
}

fn opens_statement_block(
    text: &Text<'_>,
    previous: Option<Token>,
    state: &DelimiterState,
) -> (yes: bool)
    requires
        previous_inside(text@, previous),
    ensures
        yes == starts_statement_block(text@, previous_view(previous), state@),
{
    match previous {
        None => true,
        Some(token) => {
            let raw = text.slice(token.start, token.end);
            match token.kind {
                Kind::Ident => block_keyword(raw),
                Kind::Punct => if str_eq(raw, ")") || str_eq(raw, "=>") || str_eq(raw, ";") {
                    true
                } else if str_eq(raw, "{") {
                    let open = state.statement_blocks.len();
                    open == 0 || state.statement_blocks[open - 1]
                } else {
                    false
                },
                _ => false,
            }
        },
    }
}

fn pop_flag(flags: &mut Vec<bool>) -> (flag: bool)
    ensures
        flag == last_or_false(old(flags)@),
        final(flags)@ == without_last(old(flags)@),
{
    match flags.pop() {
        Some(flag) => flag,
        None => false,
    }
}

fn annotate_delimiters(
    text: &Text<'_>,
    previous: Option<Token>,
    state: &mut DelimiterState,
    token: Token,
) -> (annotated: Token)
    requires
        previous_inside(text@, previous),
        token.start <= token.end <= text@.len(),
    ensures
        annotate(text@, previous_view(previous), old(state)@, token@) == (
            annotated@,
            final(state)@,
        ),
{
    let mut token = token;
    if token.kind != Kind::Punct {
        return token;
    }
    let raw = text.slice(token.start, token.end);
    if str_eq(raw, "(") {
        let control = match previous {
            Some(before) => before.kind == Kind::Ident && control_keyword(
                text.slice(before.start, before.end),
            ),
            None => false,
        };
        state.control_headers.push(control);
    } else if str_eq(raw, ")") {
        token.closes_control_header = pop_flag(&mut state.control_headers);
    } else if str_eq(raw, "{") {
        let block = opens_statement_block(text, previous, state);
        state.statement_blocks.push(block);
    } else if str_eq(raw, "}") {
        token.closes_statement_block = pop_flag(&mut state.statement_blocks);
    }
    token
}

fn token_shape_at(text: &Text<'_>, start: usize, previous: Option<Token>) -> (shape: (Kind, usize))
    requires
        start < text@.len(),
        previous_inside(text@, previous),
    ensures
        (shape.0, shape.1 as int) == token_shape(text@, start as int, previous_view(previous)),
        start < shape.1 <= text@.len(),
    decreases text@.len() - start, 1int,
{
    let n = text.len();
    let c = text.at(start);
    proof {
        lemma_token_shape(text@, start as int, previous_view(previous));
    }
    if c == '\'' || c == '"' {
        (Kind::String, quoted_end_at(text, start, c))
    } else if c == '`' {
        (Kind::Template, template_end_at(text, start + 1))
    } else if c == '/' && is_regex_allowed(text, previous) {
        (Kind::Regex, regex_end_at(text, start))
    } else if char_is_ident_start(c) {
        (Kind::Ident, ident_end(text, start))
    } else if char_is_ascii_digit(c) || (c == '.' && start + 1 < n && char_is_ascii_digit(
        text.at(start + 1),
    )) {
        (Kind::Number, number_end_at(text, start))
    } else {
        (Kind::Punct, operator_end_at(text, start))
    }
}

fn next_token_at(
    text: &Text<'_>,
    position: usize,
    previous: Option<Token>,
    state: &mut DelimiterState,
) -> (token: Option<Token>)
    requires
        position <= text@.len(),
        previous_inside(text@, previous),
    ensures
        ({
            let lexed = next_token(
                text@,
                position as int,
                previous_view(previous),
                old(state)@,
            );
            &&& previous_view(token) == lexed.token
            &&& final(state)@ == lexed.delimiters
        }),
        token matches Some(token) ==> position <= token.start < token.end <= text@.len(),
    decreases text@.len() - position, 2int,
{
    let n = text.len();
    let start = skip_trivia_from(text, position);
    if start >= n {
        return None;
    }
    let shape = token_shape_at(text, start, previous);
    let bare = Token {
        kind: shape.0,
        start,
        end: shape.1,
        line_break_before: line_breaks_between(text, position, start),
        closes_control_header: false,
        closes_statement_block: false,
    };
    Some(annotate_delimiters(text, previous, state, bare))
}

fn template_end_at(text: &Text<'_>, start: usize) -> (end: usize)
    requires
        1 <= start <= text@.len(),
    ensures
        end == template_end(text@, start as int),
        start <= end <= text@.len(),
    decreases text@.len() - start, 0int,
{
    let n = text.len();
    let mut i: usize = start;
    while i < n
        invariant
            1 <= start <= i <= n == text@.len(),
            template_end(text@, start as int) == template_end(text@, i as int),
        decreases n - i,
    {
        let c = text.at(i);
        if c == '\\' {
            i = escaped_end_at(text, i);
        } else if c == '`' {
            return i + 1;
        } else if c == '$' && has_char(text, i + 1, '{') {
            i = expression_end_at(text, i + 2);
        } else {
            i += 1;
        }
    }
    i
}

fn expression_end_at(text: &Text<'_>, start: usize) -> (end: usize)
    requires
        1 <= start <= text@.len(),
    ensures
        end == expression_end(text@, start as int, None, no_delimiters(), 1),
        start <= end <= text@.len(),
    decreases text@.len() - start, 3int,
{
    let n = text.len();
    let mut depth: usize = 1;
    let mut previous: Option<Token> = None;
    let mut state = DelimiterState::new();
    let mut i: usize = start;
    loop
        invariant
            1 <= start <= i <= n == text@.len(),
            1 <= depth <= 1 + (i - start),
            previous_inside(text@, previous),
            expression_end(text@, start as int, None, no_delimiters(), 1) == expression_end(
                text@,
                i as int,
                previous_view(previous),
                state@,
                depth as int,
            ),
        decreases n - i,
    {
        let ghost before = state@;
        proof {
            lemma_next_token(text@, i as int, previous_view(previous), state@);
        }
        match next_token_at(text, i, previous, &mut state) {
            None => {
                return n;
            },
            Some(token) => {
                if token.kind == Kind::Punct {
                    let raw = text.slice(token.start, token.end);
                    if str_eq(raw, "{") {
                        proof {
                            reveal_strlit("{");
                            reveal_strlit("}");
                            assert("{"@[0] != "}"@[0]);
                        }
                        depth += 1;
                    } else if str_eq(raw, "}") {
                        if depth == 1 {
                            return token.end;
                        }
                        depth -= 1;
                    }
                }
                i = token.end;
                previous = Some(token);
            },
        }
    }
}

// ---------------------------------------------------------------------------
// Literal values

pub open spec fn is_scalar_value(v: int) -> bool {
    0 <= v <= 0xd7ff || 0xe000 <= v <= 0x10ffff
}

/// What an escape stands for, and the position after it.
pub struct Escape {
    pub value: Seq<char>,
    pub end: int,
}

/// An escape of `width` hexadecimal digits at `i`.
pub open spec fn hex_escape(s: Seq<char>, i: int, width: int) -> Option<Escape> {
    if i + width > s.len() {
        None
    } else {
        match parsed_number(s.subrange(i, i + width), 16, u32::MAX as int) {
            Some(v) => if is_scalar_value(v) {
                Some(Escape { value: seq![v as char], end: i + width })
            } else {
                None
            },
            None => None,
        }
    }
}

/// What follows `\u` at `i`: four digits, or any number of them in braces.
pub open spec fn unicode_escape(s: Seq<char>, i: int) -> Option<Escape> {
    if char_at(s, i, '{') {
        let close = run_end(s, i + 1, not_closing_brace());
        if close >= s.len() {
            None
        } else {
            match parsed_number(s.subrange(i + 1, close), 16, u32::MAX as int) {
                Some(v) => if is_scalar_value(v) {
                    Some(Escape { value: seq![v as char], end: close + 1 })
                } else {
                    None
                },
                None => None,
            }
        }
    } else {
        hex_escape(s, i, 4)
    }
}

/// The escape whose character after the backslash is the `i`-th.
pub open spec fn escape_at(s: Seq<char>, i: int) -> Option<Escape> {
    let one = |c: char| Some(Escape { value: seq![c], end: i + 1 });
    let c = s[i];
    if c == '\r' {
        Some(Escape { value: Seq::empty(), end: past(s, i + 1, '\n') })
    } else if is_line_terminator(c) {
        Some(Escape { value: Seq::empty(), end: i + 1 })
    } else if c == '0' {
        one('\0')
    } else if c == 'b' {
        one('\u{8}')
    } else if c == 'f' {
        one('\u{c}')
    } else if c == 'n' {
        one('\n')
    } else if c == 'r' {
        one('\r')
    } else if c == 't' {
        one('\t')
    } else if c == 'v' {
        one('\u{b}')
    } else if c == 'x' {
        hex_escape(s, i + 1, 2)
    } else if c == 'u' {
        unicode_escape(s, i + 1)
    } else {
        one(c)
    }
}

/// Text that the body of a literal stands for from `i` on, none where an escape is
/// malformed or a template has a substitution.
pub open spec fn body_value(s: Seq<char>, i: int, quote: char) -> Option<Seq<char>>
    decreases s.len() - i,
{
    if !(0 <= i < s.len()) {
        Some(Seq::empty())
    } else if quote == '`' && s[i] == '$' && char_at(s, i + 1, '{') {
        None
    } else if s[i] != '\\' {
        match body_value(s, i + 1, quote) {
            Some(rest) => Some(seq![s[i]] + rest),
            None => None,
        }
    } else if i + 1 >= s.len() {
        None
    } else {
        match escape_at(s, i + 1) {
            Some(escape) => if i < escape.end <= s.len() {
                match body_value(s, escape.end, quote) {
                    Some(rest) => Some(escape.value + rest),
                    None => None,
                }
            } else {
                None
            },
            None => None,
        }
    }
}

/// Text that a whole string or template literal stands for.
pub open spec fn literal_value(raw: Seq<char>) -> Option<Seq<char>> {
    if raw.len() < 2 || raw.last() != raw[0] {
        None
    } else {
        body_value(raw.subrange(1, raw.len() - 1), 0, raw[0])
    }
}

spec fn codes(text: Seq<char>) -> Seq<u32> {
    text.map_values(|c: char| c as u32)
}

proof fn lemma_code_injective(a: char, b: char)
    ensures
        a as u32 == b as u32 ==> a == b,
{
    assert(0 <= a as int <= 0x10ffff);
    assert(0 <= b as int <= 0x10ffff);
}

proof fn lemma_codes_concat(a: Seq<char>, b: Seq<char>)
    ensures
        codes(a + b) == codes(a) + codes(b),
{
    assert(codes(a + b) =~= codes(a) + codes(b));
}

/// Code point and end of a hexadecimal escape.
fn hex_escape_at(chars: &Vec<char>, i: usize, width: usize) -> (escape: Option<(u32, usize)>)
    requires
        i <= chars@.len(),
    ensures
        match escape {
            Some(e) => hex_escape(chars@, i as int, width as int) == Some(
                Escape { value: seq![e.0 as char], end: e.1 as int },
            ) && is_scalar_value(e.0 as int) && e.1 <= chars@.len() && e.1 == i + width,
            None => hex_escape(chars@, i as int, width as int) is None,
        },
{
    if width > chars.len() - i {
        return None;
    }
    match parse_number(chars, i, i + width, 16, 0xffff_ffff) {
        Some(v) => if v <= 0xd7ff || (0xe000 <= v && v <= 0x10ffff) {
            Some((v as u32, i + width))
        } else {
            None
        },
        None => None,
    }
}

fn unicode_escape_at(chars: &Vec<char>, i: usize) -> (escape: Option<(u32, usize)>)
    requires
        i <= chars@.len(),
    ensures
        match escape {
            Some(e) => unicode_escape(chars@, i as int) == Some(
                Escape { value: seq![e.0 as char], end: e.1 as int },
            ) && is_scalar_value(e.0 as int) && i < e.1 <= chars@.len(),
            None => unicode_escape(chars@, i as int) is None,
        },
{
    let n = chars.len();
    if !(i < n && chars[i] == '{') {
        return hex_escape_at(chars, i, 4);
    }
    let mut close: usize = i + 1;
    while close < n && chars[close] != '}'
        invariant
            i < close <= n == chars@.len(),
            run_end(chars@, i + 1, not_closing_brace()) == run_end(
                chars@,
                close as int,
                not_closing_brace(),
            ),
        decreases n - close,
    {
        close += 1;
    }
    if close >= n {
        return None;
    }
    match parse_number(chars, i + 1, close, 16, 0xffff_ffff) {
        Some(v) => if v <= 0xd7ff || (0xe000 <= v && v <= 0x10ffff) {
            Some((v as u32, close + 1))
        } else {
            None
        },
        None => None,
    }
}

/// Code points that an escape stands for (at most one), and its end.
fn escape_from(chars: &Vec<char>, i: usize) -> (escape: Option<(Option<u32>, usize)>)
    requires
        i < chars@.len(),
    ensures
        match escape {
            Some(e) => {
                &&& escape_at(chars@, i as int) matches Some(want)
                &&& want.end == e.1
                &&& i < e.1 <= chars@.len()
                &&& match e.0 {
                    Some(code) => codes(want.value) == seq![code],
                    None => want.value.len() == 0,
                }
            },
            None => escape_at(chars@, i as int) is None,
        },
{
    let c = chars[i];
    let n = chars.len();
    let plain: u32 = if c == '\r' {
        if i + 1 < n && chars[i + 1] == '\n' {
            return Some((None, i + 2));
        }
        return Some((None, i + 1));
    } else if char_is_line_terminator(c) {
        return Some((None, i + 1));
    } else if c == '0' {
        0
    } else if c == 'b' {
        8
    } else if c == 'f' {
        12
    } else if c == 'n' {
        10
    } else if c == 'r' {
        13
    } else if c == 't' {
        9
    } else if c == 'v' {
        11
    } else if c == 'x' {
        return match hex_escape_at(chars, i + 1, 2) {
            Some((code, end)) => {
                assert(codes(seq![code as char]) =~= seq![code]);
                Some((Some(code), end))
            },
            None => None,
        };
    } else if c == 'u' {
        return match unicode_escape_at(chars, i + 1) {
            Some((code, end)) => {
                assert(codes(seq![code as char]) =~= seq![code]);
                Some((Some(code), end))
            },
            None => None,
        };
    } else {
        c as u32
    };
    proof {
        let value = escape_at(chars@, i as int)->0.value;
        assert(value.len() == 1);
        assert(codes(value) =~= seq![plain]);
    }
    Some((Some(plain), i + 1))
}

/// Code points that the body of a literal stands for.
fn body_codes(chars: &Vec<char>, quote: char) -> (decoded: Option<Vec<u32>>)
    ensures
        match decoded {
            Some(decoded) => body_value(chars@, 0, quote) matches Some(value) && decoded@ == codes(
                value,
            ),
            None => body_value(chars@, 0, quote) is None,
        },
{
    let n = chars.len();
    let mut decoded: Vec<u32> = Vec::new();
    let mut i: usize = 0;
    let ghost mut done: Seq<char> = Seq::empty();
    while i < n
        invariant
            i <= n == chars@.len(),
            decoded@ == codes(done),
            body_value(chars@, 0, quote) == (match body_value(chars@, i as int, quote) {
                Some(rest) => Some(done + rest),
                None => None::<Seq<char>>,
            }),
        decreases n - i,
    {
        let c = chars[i];
        let ghost rest = body_value(chars@, i as int, quote);
        if quote == '`' && c == '$' && i + 1 < n && chars[i + 1] == '{' {
            return None;
        }
        if c != '\\' {
            decoded.push(c as u32);
            proof {
                let one = seq![c];
                if let Some(tail) = body_value(chars@, i + 1, quote) {
                    assert(done + (one + tail) =~= (done + one) + tail);
                }
                lemma_codes_concat(done, one);
                assert(codes(one) =~= seq![c as u32]);
                done = done + one;
                assert(decoded@ =~= codes(done));
            }
            i += 1;
            continue;
        }
        if i + 1 >= n {
            return None;
        }
        match escape_from(chars, i + 1) {
            None => {
                return None;
            },
            Some((code, end)) => {
                let ghost value = escape_at(chars@, i + 1)->0.value;
                proof {
                    if let Some(tail) = body_value(chars@, end as int, quote) {
                        assert(done + (value + tail) =~= (done + value) + tail);
                    }
                    lemma_codes_concat(done, value);
                    done = done + value;
                }
                if let Some(code) = code {
                    decoded.push(code);
                }
                assert(decoded@ =~= codes(done));
                i = end;
            },
        }
    }
    assert(done + Seq::<char>::empty() =~= done);
    Some(decoded)
}

/// Whether the literal `raw` stands for the text `expected`.
fn literal_eq(raw: &str, expected: &str) -> (same: bool)
    ensures
        same == (literal_value(raw@) == Some(expected@)),
{
    let text = Text::new(raw);
    let n = text.len();
    if n < 2 || text.at(n - 1) != text.at(0) {
        return false;
    }
    let body = chars_of(text.slice(1, n - 1));
    match body_codes(&body, text.at(0)) {
        None => false,
        Some(decoded) => {
            let wanted = chars_of(expected);
            let ghost value = body_value(body@, 0, raw@[0])->0;
            if decoded.len() != wanted.len() {
                return false;
            }
            let mut i: usize = 0;
            while i < decoded.len()
                invariant
                    i <= decoded.len() == wanted.len(),
                    decoded@ == codes(value),
                    wanted@ == expected@,
                    literal_value(raw@) == Some(value),
                    forall|k: int| 0 <= k < i ==> value[k] == wanted@[k],
                decreases decoded.len() - i,
            {
                assert(codes(value)[i as int] == value[i as int] as u32);
                let want = wanted[i];
                if decoded[i] != want as u32 {
                    return false;
                }
                proof {
                    lemma_code_injective(value[i as int], want);
                }
                assert(value[i as int] == want);
                i += 1;
            }
            assert(value =~= wanted@);
            true
        },
    }
}

// ---------------------------------------------------------------------------
// The tokens of a source

/// A source with its tokens.
pub struct Tokens<'s> {
    text: Text<'s>,
    items: Vec<Token>,
}

impl<'s> View for Tokens<'s> {
    type V = Seq<Tok>;

    open spec fn view(&self) -> Seq<Tok> {
        tokens_of(self.source())
    }
}

impl<'s> Tokens<'s> {
    /// The source.
    pub closed spec fn source(&self) -> Seq<char> {
        self.text@
    }

    #[verifier::type_invariant]
    pub closed spec fn well_formed(&self) -> bool {
        self.items@.map_values(|t: Token| t@) == tokens_of(self.text@)
    }

    /// Text of the `i`-th token.
    pub open spec fn spec_text(&self, i: int) -> Seq<char> {
        tok_text(self.source(), self@[i])
    }

    /// Splits `source` into tokens.
    pub fn new(source: &'s str) -> (tokens: Tokens<'s>)
        ensures
            tokens.source() == source@,
    {
        let text = Text::new(source);
        let n = text.len();
        let mut items: Vec<Token> = Vec::new();
        let mut state = DelimiterState::new();
        let mut previous: Option<Token> = None;
        let mut position: usize = 0;
        let ghost as_view = |t: Token| t@;
        proof {
            reveal(tokens_of);
            assert(items@.map_values(as_view) + tokens_of(text@) =~= tokens_of(text@));
        }
        loop
            invariant
                position <= n == text@.len(),
                as_view == (|t: Token| t@),
                previous_inside(text@, previous),
                tokens_of(text@) == items@.map_values(as_view) + tokens_from(
                    text@,
                    position as int,
                    previous_view(previous),
                    state@,
                ),
            ensures
                items@.map_values(as_view) == tokens_of(text@),
            decreases n - position,
        {
            let ghost before = state@;
            let ghost kept = items@;
            proof {
                lemma_next_token(text@, position as int, previous_view(previous), state@);
            }
            match next_token_at(&text, position, previous, &mut state) {
                None => {
                    assert(items@.map_values(as_view) =~= tokens_of(text@));
                    break;
                },
                Some(token) => {
                    items.push(token);
                    proof {
                        let rest = tokens_from(text@, token.end as int, Some(token@), state@);
                        assert(kept.push(token).map_values(as_view) =~= kept.map_values(
                            as_view,
                        ).push(token@));
                        assert(kept.map_values(as_view) + (seq![token@] + rest)
                            =~= kept.map_values(as_view).push(token@) + rest);
                    }
                    position = token.end;
                    previous = Some(token);
                },
            }
        }
        Tokens { text, items }
    }

    /// Number of tokens.
    pub fn len(&self) -> (n: usize)
        ensures
            n == self@.len(),
    {
        proof {
            use_type_invariant(self);
        }
        self.items.len()
    }

    /// Kind of the `index`-th token.
    pub fn kind(&self, index: usize) -> (kind: Kind)
        requires
            index < self@.len(),
        ensures
            kind == self@[index as int].kind,
    {
        proof {
            use_type_invariant(self);
        }
        self.items[index].kind
    }

    /// Source text of the `index`-th token.
    pub fn text(&self, index: usize) -> (text: &'s str)
        requires
            index < self@.len(),
        ensures
            text@ == self.spec_text(index as int),
    {
        proof {
            use_type_invariant(self);
            lemma_tokens_ordered(self.text@);
            assert(self@[index as int] == self.items@[index as int]@);
        }
        let token = self.items[index];
        self.text.slice(token.start, token.end)
    }

    /// Bytes of the source that the `index`-th token covers.
    pub fn span(&self, index: usize) -> (span: Range<usize>)
        requires
            index < self@.len(),
        ensures
            span.start == byte_offset(self.source(), self@[index as int].start),
            span.end == byte_offset(self.source(), self@[index as int].end),
    {
        proof {
            use_type_invariant(self);
            lemma_tokens_ordered(self.text@);
            assert(self@[index as int] == self.items@[index as int]@);
        }
        let token = self.items[index];
        self.text.offset(token.start)..self.text.offset(token.end)
    }

    /// Whether the `index`-th token is a string, or a template without substitutions,
    /// that stands for the text `expected`.
    pub fn string_eq(&self, index: usize, expected: &str) -> (same: bool)
        requires
            index < self@.len(),
        ensures
            same == token_string_eq(self.source(), self@[index as int], expected@),
    {
        match self.kind(index) {
            Kind::String | Kind::Template => literal_eq(self.text(index), expected),
            _ => false,
        }
    }

    /// Whether a line ends between the `index`-th token and the one before it.
    pub fn has_line_break_before(&self, index: usize) -> (yes: bool)
        requires
            index < self@.len(),
        ensures
            yes == self@[index as int].line_break_before,
    {
        proof {
            use_type_invariant(self);
        }
        self.items[index].line_break_before
    }
}

/// Whether a token is a literal that stands for the text `expected`.
pub open spec fn token_string_eq(s: Seq<char>, token: Tok, expected: Seq<char>) -> bool {
    (token.kind == Kind::String || token.kind == Kind::Template) && literal_value(
        tok_text(s, token),
    ) == Some(expected)
}

// ---------------------------------------------------------------------------
// Laws

proof fn lemma_tokens_from_ordered(
    s: Seq<char>,
    i: int,
    previous: Option<Tok>,
    delimiters: Delimiters,
)
    requires
        0 <= i <= s.len(),
    ensures
        ({
            let tokens = tokens_from(s, i, previous, delimiters);
            &&& forall|k: int|
                0 <= k < tokens.len() ==> i <= (#[trigger] tokens[k]).start < tokens[k].end
                    <= s.len()
            &&& forall|j: int, k: int|
                0 <= j < k < tokens.len() ==> (#[trigger] tokens[j]).end <= (
                #[trigger] tokens[k]).start
        }),
    decreases s.len() - i,
{
    lemma_next_token(s, i, previous, delimiters);
    let lexed = next_token(s, i, previous, delimiters);
    if let Some(token) = lexed.token {
        lemma_tokens_from_ordered(s, token.end, Some(token), lexed.delimiters);
        let rest = tokens_from(s, token.end, Some(token), lexed.delimiters);
        let tokens = tokens_from(s, i, previous, delimiters);
        assert(tokens =~= seq![token] + rest);
        assert forall|k: int| 0 <= k < tokens.len() implies i <= (#[trigger] tokens[k]).start
            < tokens[k].end <= s.len() by {
            if k > 0 {
                assert(tokens[k] == rest[k - 1]);
            }
        }
        assert forall|j: int, k: int| 0 <= j < k < tokens.len() implies (#[trigger] tokens[j]).end
            <= (#[trigger] tokens[k]).start by {
            assert(tokens[k] == rest[k - 1]);
            if j > 0 {
                assert(tokens[j] == rest[j - 1]);
            }
        }
    }
}

/// Tokens are not empty, lie inside the source, and follow one another without overlap.
pub proof fn lemma_tokens_ordered(s: Seq<char>)
    ensures
        forall|k: int|
            0 <= k < tokens_of(s).len() ==> 0 <= (#[trigger] tokens_of(s)[k]).start
                < tokens_of(s)[k].end <= s.len(),
        forall|j: int, k: int|
            0 <= j < k < tokens_of(s).len() ==> (#[trigger] tokens_of(s)[j]).end <= (
            #[trigger] tokens_of(s)[k]).start,
{
    reveal(tokens_of);
    lemma_tokens_from_ordered(s, 0, None, no_delimiters());
}

/// Where the token before the `k`-th ends, the start of the source without one.
pub open spec fn end_before(tokens: Seq<Tok>, k: int, from: int) -> int {
    if 0 < k <= tokens.len() {
        tokens[k - 1].end
    } else {
        from
    }
}

proof fn lemma_tokens_from_gaps(
    s: Seq<char>,
    i: int,
    previous: Option<Tok>,
    delimiters: Delimiters,
    k: int,
)
    requires
        0 <= i <= s.len(),
        0 <= k <= tokens_from(s, i, previous, delimiters).len(),
    ensures
        ({
            let tokens = tokens_from(s, i, previous, delimiters);
            let from = end_before(tokens, k, i);
            if k < tokens.len() {
                &&& tokens[k].start == skip_trivia(s, from)
                &&& tokens[k].line_break_before == line_breaks(s, from, tokens[k].start)
            } else {
                skip_trivia(s, from) == s.len()
            }
        }),
    decreases s.len() - i,
{
    lemma_next_token(s, i, previous, delimiters);
    lemma_skip_trivia(s, i);
    let lexed = next_token(s, i, previous, delimiters);
    let tokens = tokens_from(s, i, previous, delimiters);
    if let Some(token) = lexed.token {
        let rest = tokens_from(s, token.end, Some(token), lexed.delimiters);
        assert(tokens =~= seq![token] + rest);
        if k > 0 {
            lemma_tokens_from_gaps(s, token.end, Some(token), lexed.delimiters, k - 1);
            assert(end_before(tokens, k, i) == end_before(rest, k - 1, token.end)) by {
                if k > 1 {
                    assert(tokens[k - 1] == rest[k - 2]);
                }
            }
            if k < tokens.len() {
                assert(tokens[k] == rest[k - 1]);
            }
        }
    }
}

/// Nothing of a source is lost: between two tokens, before the first and after the last stand
/// only white space and comments, and a token knows whether a line ended there.
pub proof fn lemma_only_trivia_between_tokens(s: Seq<char>, k: int)
    requires
        0 <= k <= tokens_of(s).len(),
    ensures
        ({
            let tokens = tokens_of(s);
            let from = end_before(tokens, k, 0);
            if k < tokens.len() {
                &&& tokens[k].start == skip_trivia(s, from)
                &&& tokens[k].line_break_before == line_breaks(s, from, tokens[k].start)
            } else {
                skip_trivia(s, from) == s.len()
            }
        }),
{
    reveal(tokens_of);
    lemma_tokens_from_gaps(s, 0, None, no_delimiters(), k);
}

} // verus!
