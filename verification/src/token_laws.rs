//! What the tokens of a source are, told from its characters.

use vstd::prelude::*;

use crate::js_tokens::{
    annotate, escaped_end, ident_part, line_breaks, next_token, no_delimiters, quoted_end,
    regex_end, regex_flag, run_end, skip_trivia, template_end, token_shape, tokens_from, tokens_of,
    trivia_end, Delimiters, Kind, Tok,
};

verus! {

// ---------------------------------------------------------------------------
// Where tokens come from

/// The delimiters open before the `k`-th token.
pub open spec fn open_before(s: Seq<char>, k: int) -> Delimiters
    decreases k,
{
    if k <= 0 {
        no_delimiters()
    } else {
        next_token(s, end_before(s, k - 1), before(s, k - 1), open_before(s, k - 1)).delimiters
    }
}

/// The token before the `k`-th.
pub open spec fn before(s: Seq<char>, k: int) -> Option<Tok> {
    if k <= 0 {
        None
    } else {
        Some(tokens_of(s)[k - 1])
    }
}

/// Where the token before the `k`-th ends.
pub open spec fn end_before(s: Seq<char>, k: int) -> int {
    if k <= 0 {
        0
    } else {
        tokens_of(s)[k - 1].end
    }
}

proof fn lemma_tail(s: Seq<char>, k: int)
    requires
        0 <= k <= tokens_of(s).len(),
    ensures
        0 <= end_before(s, k) <= s.len(),
        tokens_from(s, end_before(s, k), before(s, k), open_before(s, k)) == tokens_of(s).skip(k),
    decreases k,
{
    let all = tokens_of(s);
    if k == 0 {
        reveal(tokens_of);
        assert(all.skip(0) =~= all);
    } else {
        lemma_tail(s, k - 1);
        let from = end_before(s, k - 1);
        let previous = before(s, k - 1);
        let delimiters = open_before(s, k - 1);
        let tail = tokens_from(s, from, previous, delimiters);
        let lexed = next_token(s, from, previous, delimiters);
        assert(tail.len() > 0);
        let token = lexed.token->0;
        crate::js_tokens::lemma_next_token(s, from, previous, delimiters);
        let rest = tokens_from(s, token.end, Some(token), lexed.delimiters);
        assert(tail == seq![token] + rest);
        assert(tail[0] == token);
        assert(all[k - 1] == token);
        assert(all.skip(k) =~= rest) by {
            assert(rest =~= tail.skip(1));
            assert(all.skip(k) =~= all.skip(k - 1).skip(1));
        }
    }
}

/// Each token is what the scanner makes of the place where it starts, behind the token before
/// it and with what is open there.
pub proof fn lemma_token(s: Seq<char>, k: int)
    requires
        0 <= k < tokens_of(s).len(),
    ensures
        ({
            let token = tokens_of(s)[k];
            let from = end_before(s, k);
            let bare = Tok { closes_control_header: false, closes_statement_block: false, ..token };
            let noted = annotate(s, before(s, k), open_before(s, k), bare);
            &&& 0 <= from <= token.start < token.end <= s.len()
            &&& token.start == skip_trivia(s, from)
            &&& (token.kind, token.end) == token_shape(s, token.start, before(s, k))
            &&& token.line_break_before == line_breaks(s, from, token.start)
            &&& token == noted.0
            &&& open_before(s, k + 1) == noted.1
        }),
{
    lemma_tail(s, k);
    let from = end_before(s, k);
    let tail = tokens_from(s, from, before(s, k), open_before(s, k));
    assert(tail.len() > 0);
    assert(tail[0] == tokens_of(s)[k]);
    let lexed = next_token(s, from, before(s, k), open_before(s, k));
    crate::js_tokens::lemma_next_token(s, from, before(s, k), open_before(s, k));
    let token = lexed.token->0;
    let rest = tokens_from(s, token.end, Some(token), lexed.delimiters);
    assert(tail == seq![token] + rest);
    assert(tail[0] == token);
}

/// Every character of a source belongs to a token, or to the whitespace and comments before one
/// or behind the last.
pub proof fn lemma_nothing_behind_the_last_token(s: Seq<char>)
    ensures
        skip_trivia(s, end_before(s, tokens_of(s).len() as int)) == s.len(),
{
    let n = tokens_of(s).len() as int;
    lemma_tail(s, n);
    let from = end_before(s, n);
    let tail = tokens_from(s, from, before(s, n), open_before(s, n));
    assert(tail.len() == 0);
    let lexed = next_token(s, from, before(s, n), open_before(s, n));
    crate::js_tokens::lemma_next_token(s, from, before(s, n), open_before(s, n));
    if lexed.token is Some {
        let rest = tokens_from(s, lexed.token->0.end, lexed.token, lexed.delimiters);
        assert(tail == seq![lexed.token->0] + rest);
    }
}

// ---------------------------------------------------------------------------
// Strings

/// A backslash escapes the character at `i`, where escapes are counted from `from` on. The line
/// feed behind an escaped carriage return belongs to it.
pub open spec fn is_escaped(s: Seq<char>, from: int, i: int) -> bool
    decreases i - from,
{
    &&& i > from
    &&& !is_escaped(s, from, i - 1) && s[i - 1] == '\\' || is_escaped(s, from, i - 1) && s[i - 1]
        == '\r' && s[i] == '\n'
}

/// Nothing between two places ends a string: each quote of its kind and each line end there
/// follows an escaping backslash.
pub open spec fn stays_open(s: Seq<char>, from: int, to: int, quote: char) -> bool {
    forall|i: int|
        from <= i < to && (#[trigger] s[i] == quote || s[i] == '\r' || s[i] == '\n') ==> is_escaped(
            s,
            from,
            i,
        )
}

proof fn lemma_quoted_scan(s: Seq<char>, from: int, i: int, to: int, quote: char)
    requires
        quote == '"' || quote == '\'',
        0 <= from <= i <= to <= s.len(),
        !is_escaped(s, from, i),
        stays_open(s, from, to, quote),
        to < s.len() ==> !is_escaped(s, from, to) && (s[to] == quote || s[to] == '\r' || s[to]
            == '\n'),
    ensures
        quoted_end(s, i, quote) == if to < s.len() && s[to] == quote {
            to + 1
        } else {
            to
        },
    decreases to - i,
{
    reveal_with_fuel(is_escaped, 3);
    if i < to {
        if s[i] == '\\' {
            assert(is_escaped(s, from, i + 1));
            let next = escaped_end(s, i);
            if i + 1 < s.len() {
                assert(!is_escaped(s, from, next) || next == s.len());
                if next > to {
                    assert(next == i + 2 && to == i + 1 || to == i + 2 && next == i + 3);
                    assert(to < s.len());
                }
                if next == s.len() && is_escaped(s, from, next) {
                    assert(next == to);
                    assert(quoted_end(s, next, quote) == next);
                } else {
                    lemma_quoted_scan(s, from, next, to, quote);
                }
            } else {
                assert(quoted_end(s, next, quote) == next);
            }
        } else {
            assert(!is_escaped(s, from, i + 1));
            lemma_quoted_scan(s, from, i + 1, to, quote);
        }
    }
}

/// A quoted string ends behind the first quote of its kind that no backslash escapes.
pub proof fn lemma_string_ends_at_its_quote(s: Seq<char>, k: int, close: int)
    requires
        0 <= k < tokens_of(s).len(),
        s[tokens_of(s)[k].start] == '"' || s[tokens_of(s)[k].start] == '\'',
        tokens_of(s)[k].start < close < s.len(),
        s[close] == s[tokens_of(s)[k].start],
        !is_escaped(s, tokens_of(s)[k].start + 1, close),
        stays_open(s, tokens_of(s)[k].start + 1, close, s[close]),
    ensures
        tokens_of(s)[k].kind == Kind::String,
        tokens_of(s)[k].end == close + 1,
{
    lemma_token(s, k);
    let start = tokens_of(s)[k].start;
    lemma_quoted_scan(s, start + 1, start + 1, close, s[close]);
}

/// A string that is open at the end of a line ends there, and one that is open at the end of
/// the source ends with it.
pub proof fn lemma_open_string_ends_with_its_line(s: Seq<char>, k: int, stop: int)
    requires
        0 <= k < tokens_of(s).len(),
        s[tokens_of(s)[k].start] == '"' || s[tokens_of(s)[k].start] == '\'',
        tokens_of(s)[k].start < stop <= s.len(),
        stop < s.len() ==> (s[stop] == '\r' || s[stop] == '\n') && !is_escaped(
            s,
            tokens_of(s)[k].start + 1,
            stop,
        ),
        stays_open(s, tokens_of(s)[k].start + 1, stop, s[tokens_of(s)[k].start]),
    ensures
        tokens_of(s)[k].kind == Kind::String,
        tokens_of(s)[k].end == stop,
{
    lemma_token(s, k);
    let start = tokens_of(s)[k].start;
    lemma_quoted_scan(s, start + 1, start + 1, stop, s[start]);
}

proof fn lemma_first_start(s: Seq<char>)
    requires
        s.len() > 0,
        trivia_end(s, 0) is None,
    ensures
        tokens_of(s).len() > 0,
        tokens_of(s)[0].start == 0,
{
    reveal(tokens_of);
    let lexed = next_token(s, 0, None, no_delimiters());
    crate::js_tokens::lemma_next_token(s, 0, None, no_delimiters());
    assert(skip_trivia(s, 0) == 0);
    let rest = tokens_from(s, lexed.token->0.end, lexed.token, lexed.delimiters);
    assert(tokens_from(s, 0, None, no_delimiters()) == seq![lexed.token->0] + rest);
}

/// A quote, a body in which each quote of its kind and each line end is escaped, and the quote
/// again are one string.
pub proof fn lemma_quoted_body_is_one_string(quote: char, body: Seq<char>)
    requires
        quote == '"' || quote == '\'',
        ({
            let s = seq![quote] + body + seq![quote];
            stays_open(s, 1, body.len() as int + 1, quote) && !is_escaped(s, 1, body.len() as int + 1)
        }),
    ensures
        ({
            let s = seq![quote] + body + seq![quote];
            &&& tokens_of(s).len() == 1
            &&& tokens_of(s)[0].kind == Kind::String
            &&& tokens_of(s)[0].start == 0
            &&& tokens_of(s)[0].end == s.len()
        }),
{
    let s = seq![quote] + body + seq![quote];
    assert(s[0] == quote);
    assert(s[body.len() as int + 1] == quote);
    lemma_first_start(s);
    lemma_string_ends_at_its_quote(s, 0, body.len() as int + 1);
    if tokens_of(s).len() > 1 {
        lemma_token(s, 1);
    }
}

// ---------------------------------------------------------------------------
// Templates

/// Nothing between two places ends a template or opens a substitution.
pub open spec fn is_plain_template(s: Seq<char>, from: int, to: int) -> bool {
    forall|i: int|
        from <= i < to && (#[trigger] s[i] == '`' || s[i] == '$' && i + 1 < s.len() && s[i + 1]
            == '{') ==> is_escaped(s, from, i)
}

proof fn lemma_template_scan(s: Seq<char>, from: int, i: int, to: int)
    requires
        0 <= from <= i <= to < s.len(),
        !is_escaped(s, from, i),
        is_plain_template(s, from, to),
        !is_escaped(s, from, to),
        s[to] == '`',
    ensures
        template_end(s, i) == to + 1,
    decreases to - i,
{
    reveal_with_fuel(is_escaped, 3);
    if i < to {
        if s[i] == '\\' {
            assert(is_escaped(s, from, i + 1));
            let next = escaped_end(s, i);
            assert(!is_escaped(s, from, next));
            lemma_template_scan(s, from, next, to);
        } else {
            assert(!is_escaped(s, from, i + 1));
            lemma_template_scan(s, from, i + 1, to);
        }
    }
}

/// A template without substitutions ends behind the first backtick that no backslash escapes,
/// on whatever line.
pub proof fn lemma_template_ends_at_its_backtick(s: Seq<char>, k: int, close: int)
    requires
        0 <= k < tokens_of(s).len(),
        s[tokens_of(s)[k].start] == '`',
        tokens_of(s)[k].start < close < s.len(),
        s[close] == '`',
        !is_escaped(s, tokens_of(s)[k].start + 1, close),
        is_plain_template(s, tokens_of(s)[k].start + 1, close),
    ensures
        tokens_of(s)[k].kind == Kind::Template,
        tokens_of(s)[k].end == close + 1,
{
    lemma_token(s, k);
    let start = tokens_of(s)[k].start;
    lemma_template_scan(s, start + 1, start + 1, close);
}

// ---------------------------------------------------------------------------
// Regular expressions

/// The character at `i` stands in a character class, where classes are counted from `from` on.
pub open spec fn is_in_class(s: Seq<char>, from: int, i: int) -> bool
    decreases i - from,
{
    &&& i > from
    &&& if is_escaped(s, from, i - 1) {
        is_in_class(s, from, i - 1)
    } else if s[i - 1] == '[' {
        true
    } else if s[i - 1] == ']' {
        false
    } else {
        is_in_class(s, from, i - 1)
    }
}

/// A line ends with this character.
pub open spec fn ends_line(c: char) -> bool {
    c == '\r' || c == '\n' || c == '\u{2028}' || c == '\u{2029}'
}

pub open spec fn is_letter(c: char) -> bool {
    ('a' <= c && c <= 'z') || ('A' <= c && c <= 'Z')
}

/// Nothing between two places ends a regular expression: each slash outside character classes
/// and each line end there follows an escaping backslash.
pub open spec fn is_regex_body(s: Seq<char>, from: int, to: int) -> bool {
    forall|i: int|
        from <= i < to && (#[trigger] s[i] == '/' && !is_in_class(s, from, i) || ends_line(s[i]))
            ==> is_escaped(s, from, i)
}

proof fn lemma_regex_scan(s: Seq<char>, from: int, i: int, to: int)
    requires
        0 <= from <= i <= to < s.len(),
        !is_escaped(s, from, i),
        is_regex_body(s, from, to),
        !is_escaped(s, from, to),
        s[to] == '/' && !is_in_class(s, from, to) || ends_line(s[to]),
    ensures
        regex_end(s, i, is_in_class(s, from, i)) == if s[to] == '/' {
            run_end(s, to + 1, regex_flag())
        } else {
            to
        },
    decreases to - i,
{
    reveal_with_fuel(is_escaped, 3);
    if i < to {
        if s[i] == '\\' {
            assert(is_escaped(s, from, i + 1));
            let next = escaped_end(s, i);
            assert(!is_escaped(s, from, next));
            reveal_with_fuel(is_in_class, 4);
            assert(is_in_class(s, from, next) == is_in_class(s, from, i));
            lemma_regex_scan(s, from, next, to);
        } else {
            assert(!is_escaped(s, from, i + 1));
            lemma_regex_scan(s, from, i + 1, to);
        }
    }
}

/// A run ends at the first character that does not belong to it.
pub proof fn lemma_run(s: Seq<char>, i: int, part: spec_fn(char) -> bool)
    requires
        0 <= i <= s.len(),
    ensures
        i <= run_end(s, i, part) <= s.len(),
        forall|k: int| i <= k < run_end(s, i, part) ==> part(#[trigger] s[k]),
        run_end(s, i, part) < s.len() ==> !part(s[run_end(s, i, part)]),
    decreases s.len() - i,
{
    if i < s.len() && part(s[i]) {
        lemma_run(s, i + 1, part);
    }
}

/// Where a run ends is known by what stands before and there.
pub proof fn lemma_run_is(s: Seq<char>, i: int, j: int, part: spec_fn(char) -> bool)
    requires
        0 <= i <= j <= s.len(),
        forall|k: int| i <= k < j ==> part(#[trigger] s[k]),
        j < s.len() ==> !part(s[j]),
    ensures
        run_end(s, i, part) == j,
    decreases j - i,
{
    if i < j {
        assert(part(s[i]));
        lemma_run_is(s, i + 1, j, part);
    }
}

/// A word behind which an operand is still to come.
pub open spec fn asks_for_operand(word: Seq<char>) -> bool {
    ||| word == "await"@
    ||| word == "case"@
    ||| word == "default"@
    ||| word == "delete"@
    ||| word == "do"@
    ||| word == "else"@
    ||| word == "in"@
    ||| word == "instanceof"@
    ||| word == "new"@
    ||| word == "of"@
    ||| word == "return"@
    ||| word == "throw"@
    ||| word == "typeof"@
    ||| word == "void"@
    ||| word == "yield"@
}

/// A sign behind which an operand is complete.
pub open spec fn ends_operand(sign: Seq<char>) -> bool {
    ||| sign == ")"@
    ||| sign == "]"@
    ||| sign == "++"@
    ||| sign == "--"@
    ||| sign == "."@
    ||| sign == "?."@
}

/// An operand is to come behind the token before the `k`-th.
pub open spec fn operand_comes(s: Seq<char>, k: int) -> bool {
    if k == 0 {
        true
    } else {
        let token = tokens_of(s)[k - 1];
        let text = s.subrange(token.start, token.end);
        match token.kind {
            Kind::Ident => asks_for_operand(text),
            Kind::Punct => if text == "}"@ {
                token.closes_statement_block
            } else {
                !ends_operand(text) || token.closes_control_header
            },
            _ => false,
        }
    }
}

/// A slash where an operand is to come starts a regular expression, and one behind an operand
/// is a division.
pub proof fn lemma_slash_is_regex_or_division(s: Seq<char>, k: int)
    requires
        0 <= k < tokens_of(s).len(),
        s[tokens_of(s)[k].start] == '/',
    ensures
        operand_comes(s, k) ==> tokens_of(s)[k].kind == Kind::Regex,
        !operand_comes(s, k) ==> tokens_of(s)[k].kind == Kind::Punct,
{
    lemma_token(s, k);
}

/// A regular expression ends behind the first slash that stands outside its character classes
/// and that no backslash escapes, with the letters that follow.
pub proof fn lemma_regex_ends_at_its_slash(s: Seq<char>, k: int, close: int)
    requires
        0 <= k < tokens_of(s).len(),
        s[tokens_of(s)[k].start] == '/',
        operand_comes(s, k),
        tokens_of(s)[k].start < close < s.len(),
        s[close] == '/',
        !is_escaped(s, tokens_of(s)[k].start + 1, close),
        !is_in_class(s, tokens_of(s)[k].start + 1, close),
        is_regex_body(s, tokens_of(s)[k].start + 1, close),
    ensures
        tokens_of(s)[k].kind == Kind::Regex,
        close < tokens_of(s)[k].end <= s.len(),
        forall|i: int| close < i < tokens_of(s)[k].end ==> is_letter(#[trigger] s[i]),
        tokens_of(s)[k].end < s.len() ==> !is_letter(s[tokens_of(s)[k].end]),
{
    lemma_token(s, k);
    let start = tokens_of(s)[k].start;
    lemma_regex_scan(s, start + 1, start + 1, close);
    lemma_run(s, close + 1, regex_flag());
}

/// A regular expression that is open at the end of a line ends there.
pub proof fn lemma_open_regex_ends_with_its_line(s: Seq<char>, k: int, stop: int)
    requires
        0 <= k < tokens_of(s).len(),
        s[tokens_of(s)[k].start] == '/',
        operand_comes(s, k),
        tokens_of(s)[k].start < stop < s.len(),
        ends_line(s[stop]),
        !is_escaped(s, tokens_of(s)[k].start + 1, stop),
        is_regex_body(s, tokens_of(s)[k].start + 1, stop),
    ensures
        tokens_of(s)[k].kind == Kind::Regex,
        tokens_of(s)[k].end == stop,
{
    lemma_token(s, k);
    let start = tokens_of(s)[k].start;
    lemma_regex_scan(s, start + 1, start + 1, stop);
}

// ---------------------------------------------------------------------------
// Words

/// The characters of Unicode's `White_Space`.
pub open spec fn is_space(c: char) -> bool {
    let code = c as int;
    ||| 9 <= code <= 13
    ||| code == 32
    ||| code == 133
    ||| code == 160
    ||| code == 5760
    ||| 8192 <= code <= 8202
    ||| code == 8232
    ||| code == 8233
    ||| code == 8239
    ||| code == 8287
    ||| code == 12288
}

pub open spec fn is_digit(c: char) -> bool {
    '0' <= c && c <= '9'
}

/// A word may start with this character.
pub open spec fn starts_word(c: char) -> bool {
    c == '_' || c == '$' || is_letter(c) || c as int >= 128 && !is_space(c)
}

/// A word is a character that words start with and those that follow, digits among them, as far
/// as they go.
pub proof fn lemma_word_is_taken_whole(s: Seq<char>, k: int)
    requires
        0 <= k < tokens_of(s).len(),
    ensures
        ({
            let token = tokens_of(s)[k];
            &&& token.kind == Kind::Ident <==> starts_word(s[token.start])
            &&& token.kind == Kind::Ident ==> {
                &&& forall|i: int|
                    token.start < i < token.end ==> starts_word(#[trigger] s[i]) || is_digit(s[i])
                &&& token.end < s.len() ==> !starts_word(s[token.end]) && !is_digit(s[token.end])
            }
        }),
{
    lemma_token(s, k);
    let token = tokens_of(s)[k];
    lemma_run(s, token.start, ident_part());
}

/// The first character of a token tells its kind, but for slashes and for points.
pub proof fn lemma_first_character_tells_the_kind(s: Seq<char>, k: int)
    requires
        0 <= k < tokens_of(s).len(),
    ensures
        ({
            let token = tokens_of(s)[k];
            let c = s[token.start];
            &&& token.kind == Kind::String <==> c == '"' || c == '\''
            &&& token.kind == Kind::Template <==> c == '`'
            &&& token.kind == Kind::Number <==> is_digit(c) || c == '.' && token.start + 1 < s.len()
                && is_digit(s[token.start + 1])
            &&& token.kind == Kind::Regex <==> c == '/' && operand_comes(s, k)
        }),
{
    lemma_token(s, k);
}

} // verus!
