//! What string literals stand for, told from their characters.

use vstd::prelude::*;

use crate::js_tokens::{
    body_value, escape_at, hex_escape, literal_value, not_closing_brace, run_end, Escape,
};
use crate::number_laws::{is_hex_digit_of, lemma_digit_behind_a_number, lemma_single_digit};
use crate::text::parsed_number;
use crate::token_laws::lemma_run_is;

verus! {

/// A literal with this quote and this body.
pub open spec fn literal(quote: char, body: Seq<char>) -> Seq<char> {
    seq![quote] + body + seq![quote]
}

/// A value with some characters before it.
pub open spec fn with_before(first: Seq<char>, rest: Option<Seq<char>>) -> Option<Seq<char>> {
    match rest {
        Some(rest) => Some(first + rest),
        None => None,
    }
}

proof fn lemma_body(quote: char, body: Seq<char>)
    ensures
        literal_value(literal(quote, body)) == body_value(body, 0, quote),
{
    let raw = literal(quote, body);
    assert(raw[0] == quote && raw.last() == quote);
    assert(raw.subrange(1, raw.len() - 1) =~= body);
}

proof fn lemma_run_shift(x: Seq<char>, t: Seq<char>, i: int)
    requires
        0 <= i <= t.len(),
    ensures
        run_end(x + t, x.len() + i, not_closing_brace()) == x.len() + run_end(
            t,
            i,
            not_closing_brace(),
        ),
        i <= run_end(t, i, not_closing_brace()) <= t.len(),
    decreases t.len() - i,
{
    let whole = x + t;
    if i < t.len() {
        assert(whole[x.len() + i] == t[i]);
        if t[i] != '}' {
            lemma_run_shift(x, t, i + 1);
        }
    }
}

proof fn lemma_hex_shift(x: Seq<char>, t: Seq<char>, i: int, width: int)
    requires
        0 <= i,
        0 <= width,
    ensures
        hex_escape(x + t, x.len() + i, width) == match hex_escape(t, i, width) {
            Some(escape) => Some(Escape { value: escape.value, end: x.len() + escape.end }),
            None => None,
        },
{
    let whole = x + t;
    let n = x.len() as int;
    if i + width <= t.len() {
        assert(whole.subrange(n + i, n + i + width) =~= t.subrange(i, i + width));
    }
}

proof fn lemma_escape_shift(x: Seq<char>, t: Seq<char>, i: int)
    requires
        0 <= i < t.len(),
    ensures
        escape_at(x + t, x.len() + i) == match escape_at(t, i) {
            Some(escape) => Some(Escape { value: escape.value, end: x.len() + escape.end }),
            None => None,
        },
{
    let whole = x + t;
    let n = x.len() as int;
    assert(whole[n + i] == t[i]);
    lemma_hex_shift(x, t, i + 1, 2);
    lemma_hex_shift(x, t, i + 1, 4);
    if i + 1 < t.len() {
        assert(whole[n + i + 1] == t[i + 1]);
        if t[i + 1] == '{' {
            lemma_run_shift(x, t, i + 2);
            let close = run_end(t, i + 2, not_closing_brace());
            if close < t.len() {
                assert(whole.subrange(n + i + 2, n + close) =~= t.subrange(i + 2, close));
            }
        }
    }
}

proof fn lemma_body_shift(x: Seq<char>, t: Seq<char>, i: int, quote: char)
    requires
        0 <= i <= t.len(),
    ensures
        body_value(x + t, x.len() + i, quote) == body_value(t, i, quote),
    decreases t.len() - i,
{
    let whole = x + t;
    let n = x.len() as int;
    if i < t.len() {
        assert(whole[n + i] == t[i]);
        if i + 1 < t.len() {
            assert(whole[n + i + 1] == t[i + 1]);
        }
        if t[i] != '\\' {
            lemma_body_shift(x, t, i + 1, quote);
        } else if i + 1 < t.len() {
            lemma_escape_shift(x, t, i + 1);
            if let Some(escape) = escape_at(t, i + 1) {
                if i < escape.end <= t.len() {
                    lemma_body_shift(x, t, escape.end, quote);
                }
            }
        }
    }
}

/// A literal without a body stands for nothing, and what is no literal for no text.
pub proof fn lemma_empty_literal(quote: char, raw: Seq<char>)
    ensures
        literal_value(literal(quote, Seq::empty())) == Some(Seq::<char>::empty()),
        raw.len() < 2 || raw[0] != raw.last() ==> literal_value(raw) is None,
{
    lemma_body(quote, Seq::empty());
}

/// A character that starts neither an escape nor a substitution stands for itself.
pub proof fn lemma_plain_character(quote: char, c: char, rest: Seq<char>)
    requires
        c != '\\',
        !(quote == '`' && c == '$' && rest.len() > 0 && rest[0] == '{'),
    ensures
        literal_value(literal(quote, seq![c] + rest)) == with_before(
            seq![c],
            literal_value(literal(quote, rest)),
        ),
{
    let body = seq![c] + rest;
    lemma_body(quote, body);
    lemma_body(quote, rest);
    lemma_body_shift(seq![c], rest, 0, quote);
    assert(body[0] == c);
    if rest.len() > 0 {
        assert(body[1] == rest[0]);
    }
}

/// A substitution leaves a template without a text, and so does a backslash at the end.
pub proof fn lemma_no_text(rest: Seq<char>, quote: char)
    ensures
        literal_value(literal('`', seq!['$', '{'] + rest)) is None,
        literal_value(literal(quote, seq!['\\'])) is None,
{
    let body = seq!['$', '{'] + rest;
    lemma_body('`', body);
    assert(body[0] == '$' && body[1] == '{');
    lemma_body(quote, seq!['\\']);
}

/// The character that an escape of one character stands for.
pub open spec fn is_escape_of(c: char, value: char) -> bool {
    ||| c == 'n' && value as int == 10
    ||| c == 'r' && value as int == 13
    ||| c == 't' && value as int == 9
    ||| c == 'b' && value as int == 8
    ||| c == 'v' && value as int == 11
    ||| c == 'f' && value as int == 12
    ||| c == '0' && value as int == 0
    ||| {
        &&& value == c
        &&& c != 'n' && c != 'r' && c != 't' && c != 'b' && c != 'v' && c != 'f' && c != '0'
        &&& c != 'x' && c != 'u'
        &&& c != '\r' && c != '\n' && c != '\u{2028}' && c != '\u{2029}'
    }
}

/// An escape of one character stands for a control character where it is one of their letters,
/// and otherwise for the character itself.
pub proof fn lemma_single_escape(quote: char, c: char, value: char, rest: Seq<char>)
    requires
        is_escape_of(c, value),
    ensures
        literal_value(literal(quote, seq!['\\', c] + rest)) == with_before(
            seq![value],
            literal_value(literal(quote, rest)),
        ),
{
    let body = seq!['\\', c] + rest;
    lemma_body(quote, body);
    lemma_body(quote, rest);
    lemma_body_shift(seq!['\\', c], rest, 0, quote);
    assert(body[0] == '\\' && body[1] == c);
    let escape = escape_at(body, 1)->0;
    assert(escape.end == 2);
    assert(escape.value =~= seq![value]);
}

/// A line that a backslash ends goes on with the next, with a carriage return before its line
/// feed or without.
pub proof fn lemma_line_goes_on(quote: char, c: char, rest: Seq<char>)
    requires
        c == '\n' || c == '\u{2028}' || c == '\u{2029}',
    ensures
        literal_value(literal(quote, seq!['\\', c] + rest)) == literal_value(literal(quote, rest)),
        literal_value(literal(quote, seq!['\\', '\r', '\n'] + rest)) == literal_value(
            literal(quote, rest),
        ),
        rest.len() == 0 || rest[0] != '\n' ==> literal_value(
            literal(quote, seq!['\\', '\r'] + rest),
        ) == literal_value(literal(quote, rest)),
{
    lemma_body(quote, rest);
    let one = seq!['\\', c] + rest;
    lemma_body(quote, one);
    lemma_body_shift(seq!['\\', c], rest, 0, quote);
    assert(one[0] == '\\' && one[1] == c);
    let two = seq!['\\', '\r', '\n'] + rest;
    lemma_body(quote, two);
    lemma_body_shift(seq!['\\', '\r', '\n'], rest, 0, quote);
    assert(two[0] == '\\' && two[1] == '\r' && two[2] == '\n');
    let three = seq!['\\', '\r'] + rest;
    lemma_body(quote, three);
    lemma_body_shift(seq!['\\', '\r'], rest, 0, quote);
    assert(three[0] == '\\' && three[1] == '\r');
    if rest.len() > 0 {
        assert(three[2] == rest[0]);
    }
    let none = Seq::<char>::empty();
    if let Some(value) = body_value(rest, 0, quote) {
        assert(none + value =~= value);
    }
}

/// An escape of two hexadecimal digits stands for the character with their number.
pub proof fn lemma_escape_of_two_digits(
    quote: char,
    a: char,
    b: char,
    high: int,
    low: int,
    rest: Seq<char>,
)
    requires
        is_hex_digit_of(a, high),
        is_hex_digit_of(b, low),
    ensures
        literal_value(literal(quote, seq!['\\', 'x', a, b] + rest)) == with_before(
            seq![(high * 16 + low) as char],
            literal_value(literal(quote, rest)),
        ),
{
    let head = seq!['\\', 'x', a, b];
    let body = head + rest;
    lemma_body(quote, body);
    lemma_body(quote, rest);
    lemma_body_shift(head, rest, 0, quote);
    assert(body[0] == '\\' && body[1] == 'x');
    assert(body.subrange(2, 4) =~= seq![a].push(b));
    lemma_single_digit(a, high, u32::MAX as int);
    lemma_digit_behind_a_number(seq![a], b, low, high, u32::MAX as int);
}

/// A number that is the code of a character.
pub open spec fn is_code(code: int) -> bool {
    0 <= code <= 55_295 || 57_344 <= code <= 1_114_111
}

/// An escape of four hexadecimal digits stands for the character with their number, and half of
/// a pair of surrogates for none.
pub proof fn lemma_escape_of_four_digits(quote: char, digits: Seq<char>, values: Seq<int>, rest: Seq<char>)
    requires
        digits.len() == 4,
        values.len() == 4,
        forall|i: int| 0 <= i < 4 ==> is_hex_digit_of(#[trigger] digits[i], values[i]),
    ensures
        ({
            let code = values[0] * 4096 + values[1] * 256 + values[2] * 16 + values[3];
            let value = literal_value(literal(quote, seq!['\\', 'u'] + digits + rest));
            if is_code(code) {
                value == with_before(seq![code as char], literal_value(literal(quote, rest)))
            } else {
                value is None
            }
        }),
{
    let head = seq!['\\', 'u'] + digits;
    let body = head + rest;
    lemma_body(quote, body);
    lemma_body(quote, rest);
    lemma_body_shift(head, rest, 0, quote);
    assert(body[0] == '\\' && body[1] == 'u' && body[2] == digits[0]);
    assert(is_hex_digit_of(digits[0], values[0]));
    assert(is_hex_digit_of(digits[1], values[1]));
    assert(is_hex_digit_of(digits[2], values[2]));
    assert(is_hex_digit_of(digits[3], values[3]));
    let max = u32::MAX as int;
    let one = seq![digits[0]];
    let two = one.push(digits[1]);
    let three = two.push(digits[2]);
    let four = three.push(digits[3]);
    assert(body.subrange(2, 6) =~= four);
    lemma_single_digit(digits[0], values[0], max);
    lemma_digit_behind_a_number(one, digits[1], values[1], values[0], max);
    lemma_digit_behind_a_number(two, digits[2], values[2], values[0] * 16 + values[1], max);
    lemma_digit_behind_a_number(
        three,
        digits[3],
        values[3],
        (values[0] * 16 + values[1]) * 16 + values[2],
        max,
    );
}

/// An escape of hexadecimal digits in braces stands for the character with their number.
pub proof fn lemma_escape_in_braces(quote: char, digits: Seq<char>, code: int, rest: Seq<char>)
    requires
        forall|i: int| 0 <= i < digits.len() ==> #[trigger] digits[i] != '}',
        parsed_number(digits, 16, u32::MAX as int) == Some(code),
    ensures
        ({
            let value = literal_value(
                literal(quote, seq!['\\', 'u', '{'] + digits + seq!['}'] + rest),
            );
            if is_code(code) {
                value == with_before(seq![code as char], literal_value(literal(quote, rest)))
            } else {
                value is None
            }
        }),
{
    let head = seq!['\\', 'u', '{'] + digits + seq!['}'];
    let body = head + rest;
    let close = 3 + digits.len() as int;
    lemma_body(quote, body);
    lemma_body(quote, rest);
    lemma_body_shift(head, rest, 0, quote);
    assert(body[0] == '\\' && body[1] == 'u' && body[2] == '{' && body[close] == '}');
    assert forall|k: int| 3 <= k < close implies not_closing_brace()(#[trigger] body[k]) by {
        assert(body[k] == digits[k - 3]);
    }
    lemma_run_is(body, 3, close, not_closing_brace());
    assert(body.subrange(3, close) =~= digits);
    crate::text::lemma_parsed_number(digits, 16, u32::MAX as int);
}

} // verus!
