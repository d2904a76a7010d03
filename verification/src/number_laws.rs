//! What numbers look like in text, and what texts are read as numbers.

use vstd::prelude::*;

use crate::digest::{hex_digit, hex_text};
use crate::text::{all_digits, decimal, digit_value, digits_value, parsed_number};

verus! {

/// The value of a decimal digit.
pub open spec fn is_digit_of(c: char, d: int) -> bool {
    0 <= d <= 9 && c as int == '0' as int + d
}

/// The value of a hexadecimal digit, in either case.
pub open spec fn is_hex_digit_of(c: char, d: int) -> bool {
    ||| 0 <= d <= 9 && c as int == '0' as int + d
    ||| 10 <= d <= 15 && c as int == 'a' as int + d - 10
    ||| 10 <= d <= 15 && c as int == 'A' as int + d - 10
}

/// A number is written with decimal digits, the last of which is its remainder by ten and the
/// others the tenth of it. No number starts with a zero but zero.
pub proof fn lemma_decimal_digits(n: nat)
    ensures
        decimal(n).len() > 0,
        is_digit_of(decimal(n).last(), (n % 10) as int),
        n >= 10 ==> decimal(n).drop_last() == decimal(n / 10),
        n < 10 ==> decimal(n).len() == 1,
        n > 0 ==> decimal(n)[0] != '0',
    decreases n,
{
    if n >= 10 {
        lemma_decimal_digits(n / 10);
        assert(decimal(n).drop_last() =~= decimal(n / 10));
        assert(decimal(n)[0] == decimal(n / 10)[0]);
    }
}

proof fn lemma_decimal_reads_back(n: nat)
    ensures
        all_digits(decimal(n), 10),
        digits_value(decimal(n), 10) == n,
        decimal(n)[0] != '+',
    decreases n,
{
    lemma_decimal_digits(n);
    let text = decimal(n);
    if n >= 10 {
        lemma_decimal_reads_back(n / 10);
        assert forall|i: int| 0 <= i < text.len() implies (#[trigger] digit_value(
            text[i],
            10,
        )) is Some by {
            if i < text.len() - 1 {
                assert(digit_value(decimal(n / 10)[i], 10) is Some);
            }
        }
        assert(text[0] == decimal(n / 10)[0]);
    } else {
        reveal_with_fuel(digits_value, 2);
    }
}

/// A number that is written is read back, with a plus sign or without, up to the largest that is
/// asked for.
pub proof fn lemma_written_number_is_read_back(n: nat, max: int)
    ensures
        n <= max ==> parsed_number(decimal(n), 10, max) == Some(n as int),
        n <= max ==> parsed_number(seq!['+'] + decimal(n), 10, max) == Some(n as int),
        n > max ==> parsed_number(decimal(n), 10, max) is None,
{
    lemma_decimal_reads_back(n);
    let signed = seq!['+'] + decimal(n);
    assert(signed[0] == '+');
    assert(signed.skip(1) =~= decimal(n));
}

/// A text with a digit behind it reads as ten times, or sixteen times, as much and the digit.
pub proof fn lemma_digit_behind_a_number(text: Seq<char>, c: char, d: int, value: int, max: int)
    ensures
        parsed_number(text, 10, max) == Some(value) && is_digit_of(c, d) && value * 10 + d <= max
            ==> parsed_number(text.push(c), 10, max) == Some(value * 10 + d),
        parsed_number(text, 16, max) == Some(value) && is_hex_digit_of(c, d) && value * 16 + d
            <= max ==> parsed_number(text.push(c), 16, max) == Some(value * 16 + d),
{
    let longer = text.push(c);
    let signed = text.len() > 0 && text[0] == '+';
    let digits = if signed {
        text.skip(1)
    } else {
        text
    };
    let more = if longer[0] == '+' {
        longer.skip(1)
    } else {
        longer
    };
    if text.len() > 0 {
        assert(longer[0] == text[0]);
        assert(more =~= digits.push(c));
        assert(more.drop_last() =~= digits);
        if all_digits(digits, 10) && is_digit_of(c, d) {
            assert forall|i: int| 0 <= i < more.len() implies (#[trigger] digit_value(
                more[i],
                10,
            )) is Some by {
                if i < digits.len() {
                    assert(digit_value(digits[i], 10) is Some);
                }
            }
        }
        if all_digits(digits, 16) && is_hex_digit_of(c, d) {
            assert forall|i: int| 0 <= i < more.len() implies (#[trigger] digit_value(
                more[i],
                16,
            )) is Some by {
                if i < digits.len() {
                    assert(digit_value(digits[i], 16) is Some);
                }
            }
        }
    }
}

/// One digit reads as itself.
pub proof fn lemma_single_digit(c: char, d: int, max: int)
    requires
        d <= max,
    ensures
        is_digit_of(c, d) ==> parsed_number(seq![c], 10, max) == Some(d),
        is_hex_digit_of(c, d) ==> parsed_number(seq![c], 16, max) == Some(d),
        is_digit_of(c, d) && d <= 7 ==> parsed_number(seq![c], 8, max) == Some(d),
{
    let text = seq![c];
    reveal_with_fuel(digits_value, 2);
    assert(text.drop_last() =~= Seq::<char>::empty());
    assert(text[0] == c);
    if is_digit_of(c, d) || is_hex_digit_of(c, d) {
        assert(c != '+');
    }
}

/// What is empty, a sign alone, or holds anything but digits is no number.
pub proof fn lemma_what_is_no_number(text: Seq<char>, i: int, max: int)
    ensures
        parsed_number(Seq::empty(), 10, max) is None,
        parsed_number(seq!['+'], 10, max) is None,
        0 <= i < text.len() && !('0' <= text[i] && text[i] <= '9') && !(i == 0 && text[0] == '+')
            ==> parsed_number(text, 10, max) is None,
{
    assert(seq!['+'].skip(1) =~= Seq::<char>::empty());
    if 0 <= i < text.len() && !('0' <= text[i] && text[i] <= '9') && !(i == 0 && text[0] == '+') {
        let digits = if text[0] == '+' {
            text.skip(1)
        } else {
            text
        };
        let k = if text[0] == '+' {
            i - 1
        } else {
            i
        };
        assert(digits[k] == text[i]);
        assert(digit_value(digits[k], 10) is None);
    }
}

// ---------------------------------------------------------------------------
// Hexadecimal

/// Bytes are written with two digits each, the higher one first and in lower case, so that they
/// are read back from them.
pub proof fn lemma_byte_is_read_back(bytes: Seq<u8>, i: int)
    requires
        0 <= i < bytes.len(),
    ensures
        hex_text(bytes).len() == 2 * bytes.len(),
        is_hex_digit_of(hex_text(bytes)[2 * i], bytes[i] as int / 16),
        is_hex_digit_of(hex_text(bytes)[2 * i + 1], bytes[i] as int % 16),
        !('A' <= hex_text(bytes)[2 * i] && hex_text(bytes)[2 * i] <= 'F'),
        !('A' <= hex_text(bytes)[2 * i + 1] && hex_text(bytes)[2 * i + 1] <= 'F'),
    decreases bytes.len(),
{
    let rest = bytes.drop_last();
    if rest.len() == 0 {
        assert(hex_text(rest).len() == 0);
    } else {
        lemma_byte_is_read_back(
            rest,
            if i < rest.len() {
                i
            } else {
                0
            },
        );
    }
    let text = hex_text(bytes);
    if i < rest.len() {
        assert(text[2 * i] == hex_text(rest)[2 * i]);
        assert(text[2 * i + 1] == hex_text(rest)[2 * i + 1]);
    } else {
        let byte = bytes[i] as int;
        assert(text[2 * i] == hex_digit(byte / 16));
        assert(text[2 * i + 1] == hex_digit(byte % 16));
    }
}

} // verus!
