//! How signs, numbers, gaps and brackets are scanned, told from the characters.

use vstd::prelude::*;

use crate::js_tokens::{
    block_comment_end, digit_part, expression_end, next_token, no_delimiters, not_line_terminator,
    operator_end, operator_end_from, operators, run_end, skip_trivia, template_end, tok_text,
    tokens_of, trivia_end, Kind,
};
use crate::text::literal_at;
use crate::token_laws::{
    end_before, ends_line, is_digit, is_escaped, is_plain_template, is_space, lemma_run,
    lemma_run_is, lemma_token, open_before, starts_word,
};

verus! {

// ---------------------------------------------------------------------------
// Signs

/// A sign of more than one character.
pub open spec fn is_sign(text: Seq<char>) -> bool {
    ||| text == ">>>="@
    ||| text == "==="@
    ||| text == "!=="@
    ||| text == ">>>"@
    ||| text == "**="@
    ||| text == "&&="@
    ||| text == "||="@
    ||| text == "??="@
    ||| text == "<<="@
    ||| text == ">>="@
    ||| text == "..."@
    ||| text == "=>"@
    ||| text == "=="@
    ||| text == "!="@
    ||| text == "<="@
    ||| text == ">="@
    ||| text == "++"@
    ||| text == "--"@
    ||| text == "&&"@
    ||| text == "||"@
    ||| text == "??"@
    ||| text == "?."@
    ||| text == "**"@
    ||| text == "<<"@
    ||| text == ">>"@
    ||| text == "+="@
    ||| text == "-="@
    ||| text == "*="@
    ||| text == "/="@
    ||| text == "%="@
    ||| text == "&="@
    ||| text == "|="@
    ||| text == "^="@
}

/// A text stands at a place of a source.
pub open spec fn stands_at(s: Seq<char>, i: int, text: Seq<char>) -> bool {
    0 <= i && i + text.len() <= s.len() && s.subrange(i, i + text.len()) == text
}

proof fn lemma_signs()
    ensures
        operators().len() == 33,
        forall|text: Seq<char>| #[trigger] is_sign(text) ==> operators().contains(text),
        forall|k: int| 0 <= k < 33 ==> is_sign(#[trigger] operators()[k]),
        forall|j: int, k: int|
            0 <= j <= k < 33 ==> (#[trigger] operators()[j]).len() >= (
            #[trigger] operators()[k]).len(),
        forall|k: int| 0 <= k < 33 ==> (#[trigger] operators()[k]).len() >= 2,
{
    reveal_strlit(">>>=");
    reveal_strlit("===");
    reveal_strlit("!==");
    reveal_strlit(">>>");
    reveal_strlit("**=");
    reveal_strlit("&&=");
    reveal_strlit("||=");
    reveal_strlit("??=");
    reveal_strlit("<<=");
    reveal_strlit(">>=");
    reveal_strlit("...");
    reveal_strlit("=>");
    reveal_strlit("==");
    reveal_strlit("!=");
    reveal_strlit("<=");
    reveal_strlit(">=");
    reveal_strlit("++");
    reveal_strlit("--");
    reveal_strlit("&&");
    reveal_strlit("||");
    reveal_strlit("??");
    reveal_strlit("?.");
    reveal_strlit("**");
    reveal_strlit("<<");
    reveal_strlit(">>");
    reveal_strlit("+=");
    reveal_strlit("-=");
    reveal_strlit("*=");
    reveal_strlit("/=");
    reveal_strlit("%=");
    reveal_strlit("&=");
    reveal_strlit("|=");
    reveal_strlit("^=");
    assert(operators()[0] == ">>>="@ && operators()[0].len() == 4);
    assert(operators()[1] == "==="@ && operators()[1].len() == 3);
    assert(operators()[2] == "!=="@ && operators()[2].len() == 3);
    assert(operators()[3] == ">>>"@ && operators()[3].len() == 3);
    assert(operators()[4] == "**="@ && operators()[4].len() == 3);
    assert(operators()[5] == "&&="@ && operators()[5].len() == 3);
    assert(operators()[6] == "||="@ && operators()[6].len() == 3);
    assert(operators()[7] == "??="@ && operators()[7].len() == 3);
    assert(operators()[8] == "<<="@ && operators()[8].len() == 3);
    assert(operators()[9] == ">>="@ && operators()[9].len() == 3);
    assert(operators()[10] == "..."@ && operators()[10].len() == 3);
    assert(operators()[11] == "=>"@ && operators()[11].len() == 2);
    assert(operators()[12] == "=="@ && operators()[12].len() == 2);
    assert(operators()[13] == "!="@ && operators()[13].len() == 2);
    assert(operators()[14] == "<="@ && operators()[14].len() == 2);
    assert(operators()[15] == ">="@ && operators()[15].len() == 2);
    assert(operators()[16] == "++"@ && operators()[16].len() == 2);
    assert(operators()[17] == "--"@ && operators()[17].len() == 2);
    assert(operators()[18] == "&&"@ && operators()[18].len() == 2);
    assert(operators()[19] == "||"@ && operators()[19].len() == 2);
    assert(operators()[20] == "??"@ && operators()[20].len() == 2);
    assert(operators()[21] == "?."@ && operators()[21].len() == 2);
    assert(operators()[22] == "**"@ && operators()[22].len() == 2);
    assert(operators()[23] == "<<"@ && operators()[23].len() == 2);
    assert(operators()[24] == ">>"@ && operators()[24].len() == 2);
    assert(operators()[25] == "+="@ && operators()[25].len() == 2);
    assert(operators()[26] == "-="@ && operators()[26].len() == 2);
    assert(operators()[27] == "*="@ && operators()[27].len() == 2);
    assert(operators()[28] == "/="@ && operators()[28].len() == 2);
    assert(operators()[29] == "%="@ && operators()[29].len() == 2);
    assert(operators()[30] == "&="@ && operators()[30].len() == 2);
    assert(operators()[31] == "|="@ && operators()[31].len() == 2);
    assert(operators()[32] == "^="@ && operators()[32].len() == 2);
    assert forall|k: int| 0 <= k < 33 implies is_sign(#[trigger] operators()[k])
        && operators()[k].len() == if k == 0 {
        4
    } else if k <= 10 {
        3
    } else {
        2int
    } by {
        assert(k == 0 || k == 1 || k == 2 || k == 3 || k == 4 || k == 5 || k == 6 || k == 7 || k == 8 || k == 9 || k == 10 || k == 11 || k == 12 || k == 13 || k == 14 || k == 15 || k == 16 || k == 17 || k == 18 || k == 19 || k == 20 || k == 21 || k == 22 || k == 23 || k == 24 || k == 25 || k == 26 || k == 27 || k == 28 || k == 29 || k == 30 || k == 31 || k == 32);
    }
}

proof fn lemma_longest_from(s: Seq<char>, i: int, k: int)
    requires
        0 <= i < s.len(),
        0 <= k <= 33,
    ensures
        ({
            let end = operator_end_from(s, i, k);
            &&& end == i + 1 || exists|j: int|
                k <= j < 33 && #[trigger] literal_at(s, i, operators()[j]) && end == i
                    + operators()[j].len()
            &&& forall|j: int|
                k <= j < 33 && #[trigger] literal_at(s, i, operators()[j]) ==> i
                    + operators()[j].len() <= end
        }),
    decreases 33 - k,
{
    lemma_signs();
    if k < 33 {
        lemma_longest_from(s, i, k + 1);
        if literal_at(s, i, operators()[k]) {
            assert forall|j: int|
                k <= j < 33 && #[trigger] literal_at(s, i, operators()[j]) implies i
                + operators()[j].len() <= operator_end_from(s, i, k) by {
                assert(operators()[k].len() >= operators()[j].len());
            }
        }
    }
}

/// A sign is the longest that stands at its place, and one character where none does.
pub proof fn lemma_longest_sign_is_taken(s: Seq<char>, k: int, sign: Seq<char>)
    requires
        0 <= k < tokens_of(s).len(),
        tokens_of(s)[k].kind == Kind::Punct,
    ensures
        ({
            let token = tokens_of(s)[k];
            &&& is_sign(sign) && stands_at(s, token.start, sign) ==> token.end >= token.start
                + sign.len()
            &&& token.end == token.start + 1 || is_sign(s.subrange(token.start, token.end))
        }),
{
    lemma_token(s, k);
    let token = tokens_of(s)[k];
    lemma_signs();
    lemma_longest_from(s, token.start, 0);
    if is_sign(sign) && stands_at(s, token.start, sign) {
        assert(operators().contains(sign));
        let j = choose|j: int| 0 <= j < operators().len() && operators()[j] == sign;
        assert(literal_at(s, token.start, operators()[j]));
    }
    if token.end != token.start + 1 {
        let j = choose|j: int|
            0 <= j < 33 && #[trigger] literal_at(s, token.start, operators()[j]) && token.end
                == token.start + operators()[j].len();
        assert(s.subrange(token.start, token.end) == operators()[j]);
    }
}

// ---------------------------------------------------------------------------
// Numbers

/// A digit of a number, or the underscore between digits.
pub open spec fn is_number_part(c: char, radix: int) -> bool {
    ||| c == '_'
    ||| '0' <= c && c <= '9' && c as int - 48 < radix
    ||| radix == 16 && ('a' <= c && c <= 'f' || 'A' <= c && c <= 'F')
}

/// Digits stand from one place to before another, and no further.
pub open spec fn is_digit_run(s: Seq<char>, i: int, j: int, radix: int) -> bool {
    &&& 0 <= i <= j <= s.len()
    &&& forall|k: int| i <= k < j ==> is_number_part(#[trigger] s[k], radix)
    &&& j < s.len() ==> !is_number_part(s[j], radix)
}

/// The character at a place is this one.
pub open spec fn reads(s: Seq<char>, i: int, c: char) -> bool {
    0 <= i < s.len() && s[i] == c
}

proof fn lemma_digit_run(s: Seq<char>, i: int, j: int, radix: int)
    requires
        is_digit_run(s, i, j, radix),
        radix == 2 || radix == 8 || radix == 10 || radix == 16,
    ensures
        run_end(s, i, digit_part(radix)) == j,
{
    assert forall|c: char| #[trigger] is_number_part(c, radix) == digit_part(radix)(c) by {}
    assert forall|k: int| i <= k < j implies digit_part(radix)(#[trigger] s[k]) by {
        assert(is_number_part(s[k], radix));
    }
    if j < s.len() {
        assert(!is_number_part(s[j], radix));
        assert(!digit_part(radix)(s[j]));
    }
    lemma_run_is(s, i, j, digit_part(radix));
}

/// A number starts here without a prefix that names its radix.
pub open spec fn is_plain_number(s: Seq<char>, k: int) -> bool {
    &&& 0 <= k < tokens_of(s).len()
    &&& tokens_of(s)[k].kind == Kind::Number
    &&& !(s[tokens_of(s)[k].start] == '0' && tokens_of(s)[k].start + 1 < s.len() && {
        let c = s[tokens_of(s)[k].start + 1];
        c == 'x' || c == 'X' || c == 'o' || c == 'O' || c == 'b' || c == 'B'
    })
}

/// A whole number is its digits, and the `n` behind them.
pub proof fn lemma_whole_number(s: Seq<char>, k: int, whole: int)
    requires
        is_plain_number(s, k),
        is_digit_run(s, tokens_of(s)[k].start, whole, 10),
        !reads(s, whole, '.'),
        !reads(s, whole, 'e'),
        !reads(s, whole, 'E'),
    ensures
        reads(s, whole, 'n') ==> tokens_of(s)[k].end == whole + 1,
        !reads(s, whole, 'n') ==> tokens_of(s)[k].end == whole,
{
    lemma_token(s, k);
    lemma_digit_run(s, tokens_of(s)[k].start, whole, 10);
}

/// A number with a fraction is its digits, the point and the digits behind it, and no `n`.
pub proof fn lemma_number_with_fraction(s: Seq<char>, k: int, whole: int, fraction: int)
    requires
        is_plain_number(s, k),
        is_digit_run(s, tokens_of(s)[k].start, whole, 10),
        reads(s, whole, '.'),
        is_digit_run(s, whole + 1, fraction, 10),
        !reads(s, fraction, 'e'),
        !reads(s, fraction, 'E'),
    ensures
        tokens_of(s)[k].end == fraction,
{
    lemma_token(s, k);
    lemma_digit_run(s, tokens_of(s)[k].start, whole, 10);
    lemma_digit_run(s, whole + 1, fraction, 10);
}

/// A number with an exponent goes on to the end of the exponent's digits, behind its sign where
/// it has one.
pub proof fn lemma_number_with_exponent(
    s: Seq<char>,
    k: int,
    whole: int,
    mantissa: int,
    digits: int,
    end: int,
)
    requires
        is_plain_number(s, k),
        is_digit_run(s, tokens_of(s)[k].start, whole, 10),
        reads(s, whole, '.') && is_digit_run(s, whole + 1, mantissa, 10) || !reads(s, whole, '.')
            && mantissa == whole,
        reads(s, mantissa, 'e') || reads(s, mantissa, 'E'),
        digits == if reads(s, mantissa + 1, '+') || reads(s, mantissa + 1, '-') {
            mantissa + 2
        } else {
            mantissa + 1
        },
        is_digit_run(s, digits, end, 10),
    ensures
        tokens_of(s)[k].end == end,
{
    lemma_token(s, k);
    lemma_digit_run(s, tokens_of(s)[k].start, whole, 10);
    if reads(s, whole, '.') {
        lemma_digit_run(s, whole + 1, mantissa, 10);
    }
    lemma_digit_run(s, digits, end, 10);
}

/// A number with a prefix is that and the digits of its radix, and the `n` behind them.
pub proof fn lemma_number_with_prefix(s: Seq<char>, k: int, radix: int, end: int)
    requires
        0 <= k < tokens_of(s).len(),
        reads(s, tokens_of(s)[k].start, '0'),
        ({
            let at = tokens_of(s)[k].start + 1;
            ||| radix == 16 && (reads(s, at, 'x') || reads(s, at, 'X'))
            ||| radix == 8 && (reads(s, at, 'o') || reads(s, at, 'O'))
            ||| radix == 2 && (reads(s, at, 'b') || reads(s, at, 'B'))
        }),
        is_digit_run(s, tokens_of(s)[k].start + 2, end, radix),
    ensures
        tokens_of(s)[k].kind == Kind::Number,
        reads(s, end, 'n') ==> tokens_of(s)[k].end == end + 1,
        !reads(s, end, 'n') ==> tokens_of(s)[k].end == end,
{
    lemma_token(s, k);
    lemma_digit_run(s, tokens_of(s)[k].start + 2, end, radix);
}

// ---------------------------------------------------------------------------
// Gaps

/// A comment that two slashes start reaches to the end of its line.
pub open spec fn is_line_comment(s: Seq<char>, body: int, end: int) -> bool {
    &&& body <= end <= s.len()
    &&& forall|i: int| body <= i < end ==> !ends_line(#[trigger] s[i])
    &&& end < s.len() ==> ends_line(s[end])
}

/// A star and a slash stand at a place.
pub open spec fn closes_comment(s: Seq<char>, i: int) -> bool {
    0 <= i && i + 1 < s.len() && s[i] == '*' && s[i + 1] == '/'
}

/// A comment that a slash and a star start reaches to the first star and slash behind them, or
/// to the end of the source.
pub open spec fn is_block_comment(s: Seq<char>, body: int, end: int) -> bool {
    ||| {
        &&& body + 2 <= end <= s.len()
        &&& closes_comment(s, end - 2)
        &&& forall|i: int| body <= i < end - 2 ==> !#[trigger] closes_comment(s, i)
    }
    ||| {
        &&& end == s.len()
        &&& body <= end
        &&& forall|i: int| body <= i < end ==> !#[trigger] closes_comment(s, i)
    }
}

/// Nothing but white space and comments stands from one place to another.
pub open spec fn is_gap(s: Seq<char>, i: int, j: int) -> bool
    decreases j - i,
{
    ||| i == j
    ||| i < j && is_space(s[i]) && is_gap(s, i + 1, j)
    ||| {
        &&& i + 2 <= j
        &&& s[i] == '/' && s[i + 1] == '/'
        &&& exists|e: int| i + 2 <= e <= j && #[trigger] is_line_comment(s, i + 2, e) && is_gap(s, e, j)
    }
    ||| {
        &&& i + 2 <= j
        &&& s[i] == '/' && s[i + 1] == '*'
        &&& exists|e: int| i + 2 <= e <= j && #[trigger] is_block_comment(s, i + 2, e) && is_gap(
            s,
            e,
            j,
        )
    }
}

/// A gap starts at a place.
pub open spec fn starts_gap(s: Seq<char>, i: int) -> bool {
    ||| is_space(s[i])
    ||| s[i] == '/' && (reads(s, i + 1, '/') || reads(s, i + 1, '*'))
}

proof fn lemma_block_end(s: Seq<char>, i: int)
    requires
        0 <= i <= s.len(),
    ensures
        is_block_comment(s, i, block_comment_end(s, i)),
    decreases s.len() - i,
{
    if i < s.len() && !closes_comment(s, i) {
        lemma_block_end(s, i + 1);
        let end = block_comment_end(s, i + 1);
        assert(block_comment_end(s, i) == end);
        assert forall|k: int| i <= k < end - 2 implies !#[trigger] closes_comment(s, k) by {}
    }
}

proof fn lemma_gap(s: Seq<char>, i: int)
    requires
        0 <= i <= s.len(),
    ensures
        i <= skip_trivia(s, i) <= s.len(),
        is_gap(s, i, skip_trivia(s, i)),
        skip_trivia(s, i) < s.len() ==> !starts_gap(s, skip_trivia(s, i)),
    decreases s.len() - i,
{
    crate::js_tokens::lemma_trivia_end(s, i);
    crate::js_tokens::lemma_skip_trivia(s, i);
    if let Some(end) = trivia_end(s, i) {
        lemma_gap(s, end);
        let j = skip_trivia(s, i);
        if !is_space(s[i]) {
            if reads(s, i + 1, '/') {
                lemma_run(s, i + 2, not_line_terminator());
                assert(is_line_comment(s, i + 2, end)) by {
                    assert forall|k: int| i + 2 <= k < end implies !ends_line(#[trigger] s[k]) by {
                        assert(not_line_terminator()(s[k]));
                    }
                }
            } else {
                lemma_block_end(s, i + 2);
                assert(is_block_comment(s, i + 2, end));
            }
        }
    }
}

/// Between two tokens, and before the first, stand white space and comments, as far as they go.
pub proof fn lemma_gap_before_a_token(s: Seq<char>, k: int)
    requires
        0 <= k < tokens_of(s).len(),
    ensures
        is_gap(s, end_before(s, k), tokens_of(s)[k].start),
        !starts_gap(s, tokens_of(s)[k].start),
{
    lemma_token(s, k);
    lemma_gap(s, end_before(s, k));
}

/// Behind the last token stand white space and comments only.
pub proof fn lemma_gap_at_the_end(s: Seq<char>)
    ensures
        is_gap(s, end_before(s, tokens_of(s).len() as int), s.len() as int),
{
    crate::token_laws::lemma_nothing_behind_the_last_token(s);
    let n = tokens_of(s).len() as int;
    if n > 0 {
        lemma_token(s, n - 1);
    }
    lemma_gap(s, end_before(s, n));
}

/// A token knows whether a line ended in the gap before it, be it in a comment.
pub proof fn lemma_line_break_is_known(s: Seq<char>, k: int)
    requires
        0 <= k < tokens_of(s).len(),
    ensures
        tokens_of(s)[k].line_break_before <==> exists|i: int|
            end_before(s, k) <= i < tokens_of(s)[k].start && ends_line(#[trigger] s[i]),
{
    lemma_token(s, k);
    let from = end_before(s, k);
    let start = tokens_of(s)[k].start;
    if tokens_of(s)[k].line_break_before {
        let i = choose|i: int|
            from <= i < start && crate::js_tokens::is_line_terminator(#[trigger] s[i]);
        assert(ends_line(s[i]));
    }
    if exists|i: int| from <= i < start && ends_line(#[trigger] s[i]) {
        let i = choose|i: int| from <= i < start && ends_line(#[trigger] s[i]);
        assert(crate::js_tokens::is_line_terminator(s[i]));
    }
}

// ---------------------------------------------------------------------------
// Brackets

/// The `k`-th token is a sign with this text.
pub open spec fn is_mark(s: Seq<char>, k: int, text: Seq<char>) -> bool {
    let token = tokens_of(s)[k];
    token.kind == Kind::Punct && s.subrange(token.start, token.end) == text
}

/// How many of the tokens from `i` to before `j` are the first sign, less those that are the
/// second.
pub open spec fn depth(s: Seq<char>, open: Seq<char>, close: Seq<char>, i: int, j: int) -> int
    decreases j - i,
{
    if j <= i {
        0
    } else {
        depth(s, open, close, i, j - 1) + if is_mark(s, j - 1, open) {
            1int
        } else if is_mark(s, j - 1, close) {
            -1
        } else {
            0
        }
    }
}

/// The `b`-th token closes what the `a`-th opens.
pub open spec fn belong_together(
    s: Seq<char>,
    open: Seq<char>,
    close: Seq<char>,
    a: int,
    b: int,
) -> bool {
    &&& 0 <= a < b < tokens_of(s).len()
    &&& is_mark(s, a, open)
    &&& is_mark(s, b, close)
    &&& depth(s, open, close, a + 1, b) == 0
    &&& forall|j: int| a < j <= b ==> #[trigger] depth(s, open, close, a + 1, j) >= 0
}

proof fn lemma_marks_differ()
    ensures
        "("@ != ")"@,
        "("@ != "{"@,
        "("@ != "}"@,
        ")"@ != "{"@,
        ")"@ != "}"@,
        "{"@ != "}"@,
        "{"@ != "=>"@,
        "{"@ != ";"@,
{
    reveal_strlit("(");
    reveal_strlit(")");
    reveal_strlit("{");
    reveal_strlit("}");
    reveal_strlit("=>");
    reveal_strlit(";");
    assert("("@[0] == '(' && ")"@[0] == ')' && "{"@[0] == '{' && "}"@[0] == '}');
    assert("=>"@.len() == 2 && ";"@[0] == ';' && "{"@.len() == 1);
}

/// How the parentheses that are open change at a token.
proof fn lemma_parentheses_change(s: Seq<char>, k: int)
    requires
        0 <= k < tokens_of(s).len(),
    ensures
        ({
            let old_headers = open_before(s, k).control_headers;
            let new_headers = open_before(s, k + 1).control_headers;
            if is_mark(s, k, "("@) {
                new_headers == old_headers.push(
                    k > 0 && tokens_of(s)[k - 1].kind == Kind::Ident && is_statement_word(
                        s.subrange(tokens_of(s)[k - 1].start, tokens_of(s)[k - 1].end),
                    ),
                )
            } else if is_mark(s, k, ")"@) {
                &&& old_headers.len() > 0 ==> new_headers == old_headers.drop_last()
                &&& old_headers.len() > 0 ==> tokens_of(s)[k].closes_control_header
                    == old_headers.last()
            } else {
                new_headers == old_headers
            }
        }),
{
    lemma_marks_differ();
    lemma_token(s, k);
}

proof fn lemma_parentheses_kept(s: Seq<char>, a: int, j: int, b: int)
    requires
        belong_together(s, "("@, ")"@, a, b),
        a < j <= b,
    ensures
        ({
            let base = open_before(s, a).control_headers;
            let now = open_before(s, j).control_headers;
            let first = open_before(s, a + 1).control_headers;
            &&& first.len() == base.len() + 1
            &&& now.len() == base.len() + 1 + depth(s, "("@, ")"@, a + 1, j)
            &&& now.len() > base.len()
            &&& now[base.len() as int] == first[base.len() as int]
        }),
    decreases j - a,
{
    lemma_parentheses_change(s, a);
    if j > a + 1 {
        lemma_parentheses_kept(s, a, j - 1, b);
        lemma_parentheses_change(s, j - 1);
        assert(depth(s, "("@, ")"@, a + 1, j) >= 0);
    }
}

/// A word whose parentheses hold the head of a statement.
pub open spec fn is_statement_word(word: Seq<char>) -> bool {
    ||| word == "if"@
    ||| word == "while"@
    ||| word == "for"@
    ||| word == "with"@
    ||| word == "switch"@
    ||| word == "catch"@
}

/// A closing parenthesis ends the head of a statement exactly where the one that it closes
/// stands behind a word that asks for it.
pub proof fn lemma_parenthesis_ends_a_head(s: Seq<char>, a: int, b: int)
    requires
        belong_together(s, "("@, ")"@, a, b),
    ensures
        tokens_of(s)[b].closes_control_header <==> {
            &&& a > 0
            &&& tokens_of(s)[a - 1].kind == Kind::Ident
            &&& is_statement_word(s.subrange(tokens_of(s)[a - 1].start, tokens_of(s)[a - 1].end))
        },
{
    lemma_marks_differ();
    lemma_parentheses_change(s, a);
    lemma_parentheses_change(s, b);
    lemma_parentheses_kept(s, a, b, b);
    let base = open_before(s, a).control_headers;
    let now = open_before(s, b).control_headers;
    assert(now.last() == now[base.len() as int]);
}

/// A word behind which a brace opens a block of statements.
pub open spec fn is_block_word(word: Seq<char>) -> bool {
    ||| word == "catch"@
    ||| word == "do"@
    ||| word == "else"@
    ||| word == "finally"@
    ||| word == "static"@
    ||| word == "try"@
}

/// A brace at the `a`-th token opens a block of statements: it is the first token, or stands
/// behind a head, an arrow, the end of a statement or a word that asks for a block, or behind
/// another such brace.
pub open spec fn opens_block(s: Seq<char>, a: int) -> bool
    decreases a,
{
    if a <= 0 {
        true
    } else {
        let token = tokens_of(s)[a - 1];
        let text = s.subrange(token.start, token.end);
        match token.kind {
            Kind::Ident => is_block_word(text),
            Kind::Punct => text == ")"@ || text == "=>"@ || text == ";"@ || text == "{"@
                && opens_block(s, a - 1),
            _ => false,
        }
    }
}

proof fn lemma_brace_opens(s: Seq<char>, a: int)
    requires
        0 <= a < tokens_of(s).len(),
        is_mark(s, a, "{"@),
    ensures
        open_before(s, a + 1).statement_blocks == open_before(s, a).statement_blocks.push(
            opens_block(s, a),
        ),
    decreases a,
{
    lemma_marks_differ();
    lemma_token(s, a);
    if a > 0 && is_mark(s, a - 1, "{"@) {
        lemma_brace_opens(s, a - 1);
        let blocks = open_before(s, a).statement_blocks;
        assert(blocks.last() == opens_block(s, a - 1));
    }
}

/// How the braces that are open change at a token that is none that opens.
proof fn lemma_braces_change(s: Seq<char>, k: int)
    requires
        0 <= k < tokens_of(s).len(),
        !is_mark(s, k, "{"@),
    ensures
        ({
            let old_blocks = open_before(s, k).statement_blocks;
            let new_blocks = open_before(s, k + 1).statement_blocks;
            if is_mark(s, k, "}"@) {
                &&& old_blocks.len() > 0 ==> new_blocks == old_blocks.drop_last()
                &&& old_blocks.len() > 0 ==> tokens_of(s)[k].closes_statement_block
                    == old_blocks.last()
            } else {
                new_blocks == old_blocks
            }
        }),
{
    lemma_marks_differ();
    lemma_token(s, k);
}

proof fn lemma_braces_kept(s: Seq<char>, a: int, j: int, b: int)
    requires
        belong_together(s, "{"@, "}"@, a, b),
        a < j <= b,
    ensures
        ({
            let base = open_before(s, a).statement_blocks;
            let now = open_before(s, j).statement_blocks;
            &&& now.len() == base.len() + 1 + depth(s, "{"@, "}"@, a + 1, j)
            &&& now.len() > base.len()
            &&& now[base.len() as int] == opens_block(s, a)
        }),
    decreases j - a,
{
    lemma_brace_opens(s, a);
    if j > a + 1 {
        lemma_braces_kept(s, a, j - 1, b);
        if is_mark(s, j - 1, "{"@) {
            lemma_brace_opens(s, j - 1);
        } else {
            lemma_braces_change(s, j - 1);
        }
        assert(depth(s, "{"@, "}"@, a + 1, j) >= 0);
    }
}

/// A closing brace ends a block of statements exactly where the one that it closes opens one.
pub proof fn lemma_brace_ends_a_block(s: Seq<char>, a: int, b: int)
    requires
        belong_together(s, "{"@, "}"@, a, b),
    ensures
        tokens_of(s)[b].closes_statement_block <==> opens_block(s, a),
{
    lemma_marks_differ();
    lemma_braces_change(s, b);
    lemma_braces_kept(s, a, b, b);
    let base = open_before(s, a).statement_blocks;
    let now = open_before(s, b).statement_blocks;
    assert(now.last() == now[base.len() as int]);
}

// ---------------------------------------------------------------------------
// Substitutions

/// A word stands from one place to before another.
pub open spec fn is_word(s: Seq<char>, i: int, j: int) -> bool {
    &&& 0 <= i < j <= s.len()
    &&& starts_word(s[i])
    &&& forall|k: int| i <= k < j ==> starts_word(#[trigger] s[k]) || is_digit(s[k])
}

proof fn lemma_word_in_braces(s: Seq<char>, i: int, close: int)
    requires
        is_word(s, i, close),
        close < s.len(),
        s[close] == '}',
    ensures
        expression_end(s, i, None, no_delimiters(), 1) == close + 1,
{
    reveal_with_fuel(expression_end, 3);
    reveal_strlit("}");
    reveal_strlit("{");
    assert("}"@.len() == 1 && "}"@[0] == '}' && "{"@.len() == 1 && "{"@[0] == '{');
    assert(skip_trivia(s, i) == i);
    assert forall|k: int| i <= k < close implies crate::js_tokens::ident_part()(
        #[trigger] s[k],
    ) by {
        assert(starts_word(s[k]) || is_digit(s[k]));
    }
    lemma_run_is(s, i, close, crate::js_tokens::ident_part());
    let first = next_token(s, i, None, no_delimiters());
    let word = first.token->0;
    assert(word.kind == Kind::Ident && word.end == close);
    assert(skip_trivia(s, close) == close);
    lemma_signs();
    lemma_longest_from(s, close, 0);
    assert(operator_end(s, close) == close + 1) by {
        if operator_end(s, close) != close + 1 {
            let j = choose|j: int|
                0 <= j < 33 && #[trigger] literal_at(s, close, operators()[j]) && operator_end(
                    s,
                    close,
                ) == close + operators()[j].len();
            assert(is_sign(operators()[j]));
            assert(operators()[j][0] == s[close]);
            lemma_no_sign_starts_with_a_brace(operators()[j]);
        }
    }
    let second = next_token(s, close, Some(word), first.delimiters);
    let brace = second.token->0;
    assert(brace.kind == Kind::Punct && brace.end == close + 1);
    assert(tok_text(s, brace) =~= "}"@);
}

proof fn lemma_no_sign_starts_with_a_brace(sign: Seq<char>)
    requires
        is_sign(sign),
    ensures
        sign[0] != '}',
{
    reveal_strlit(">>>=");
    reveal_strlit("===");
    reveal_strlit("!==");
    reveal_strlit(">>>");
    reveal_strlit("**=");
    reveal_strlit("&&=");
    reveal_strlit("||=");
    reveal_strlit("??=");
    reveal_strlit("<<=");
    reveal_strlit(">>=");
    reveal_strlit("...");
    reveal_strlit("=>");
    reveal_strlit("==");
    reveal_strlit("!=");
    reveal_strlit("<=");
    reveal_strlit(">=");
    reveal_strlit("++");
    reveal_strlit("--");
    reveal_strlit("&&");
    reveal_strlit("||");
    reveal_strlit("??");
    reveal_strlit("?.");
    reveal_strlit("**");
    reveal_strlit("<<");
    reveal_strlit(">>");
    reveal_strlit("+=");
    reveal_strlit("-=");
    reveal_strlit("*=");
    reveal_strlit("/=");
    reveal_strlit("%=");
    reveal_strlit("&=");
    reveal_strlit("|=");
    reveal_strlit("^=");
    assert(">>>="@[0] != '}');
    assert("==="@[0] != '}');
    assert("!=="@[0] != '}');
    assert(">>>"@[0] != '}');
    assert("**="@[0] != '}');
    assert("&&="@[0] != '}');
    assert("||="@[0] != '}');
    assert("??="@[0] != '}');
    assert("<<="@[0] != '}');
    assert(">>="@[0] != '}');
    assert("..."@[0] != '}');
    assert("=>"@[0] != '}');
    assert("=="@[0] != '}');
    assert("!="@[0] != '}');
    assert("<="@[0] != '}');
    assert(">="@[0] != '}');
    assert("++"@[0] != '}');
    assert("--"@[0] != '}');
    assert("&&"@[0] != '}');
    assert("||"@[0] != '}');
    assert("??"@[0] != '}');
    assert("?."@[0] != '}');
    assert("**"@[0] != '}');
    assert("<<"@[0] != '}');
    assert(">>"@[0] != '}');
    assert("+="@[0] != '}');
    assert("-="@[0] != '}');
    assert("*="@[0] != '}');
    assert("/="@[0] != '}');
    assert("%="@[0] != '}');
    assert("&="@[0] != '}');
    assert("|="@[0] != '}');
    assert("^="@[0] != '}');
}

proof fn lemma_template_to(s: Seq<char>, from: int, i: int, to: int)
    requires
        0 <= from <= i <= to < s.len(),
        !is_escaped(s, from, i),
        is_plain_template(s, from, to),
        !is_escaped(s, from, to),
    ensures
        template_end(s, i) == template_end(s, to),
    decreases to - i,
{
    reveal_with_fuel(is_escaped, 3);
    if i < to {
        if s[i] == '\\' {
            assert(is_escaped(s, from, i + 1));
            let next = crate::js_tokens::escaped_end(s, i);
            if next <= to {
                assert(!is_escaped(s, from, next));
                lemma_template_to(s, from, next, to);
            }
        } else {
            assert(!is_escaped(s, from, i + 1));
            lemma_template_to(s, from, i + 1, to);
        }
    }
}

/// A template goes on behind the brace that ends a substitution: the backtick behind it is the
/// one that ends the template.
pub proof fn lemma_template_with_substitution(
    s: Seq<char>,
    k: int,
    dollar: int,
    brace: int,
    close: int,
)
    requires
        0 <= k < tokens_of(s).len(),
        s[tokens_of(s)[k].start] == '`',
        tokens_of(s)[k].start < dollar < brace < close < s.len(),
        is_plain_template(s, tokens_of(s)[k].start + 1, dollar),
        !is_escaped(s, tokens_of(s)[k].start + 1, dollar),
        s[dollar] == '$',
        s[dollar + 1] == '{',
        is_word(s, dollar + 2, brace),
        s[brace] == '}',
        is_plain_template(s, brace + 1, close),
        !is_escaped(s, brace + 1, close),
        s[close] == '`',
    ensures
        tokens_of(s)[k].kind == Kind::Template,
        tokens_of(s)[k].end == close + 1,
{
    lemma_token(s, k);
    let start = tokens_of(s)[k].start;
    lemma_template_to(s, start + 1, start + 1, dollar);
    lemma_word_in_braces(s, dollar + 2, brace);
    assert(template_end(s, dollar) == template_end(s, brace + 1));
    lemma_template_to(s, brace + 1, brace + 1, close);
    assert(template_end(s, close) == close + 1);
}

} // verus!
