//! Texts in UTF-16, as the interfaces of Windows have them.

use vstd::prelude::*;

use crate::json::without_nul;
use crate::text::chars_of;

verus! {

/// The units of a character: one, or a pair of surrogates.
pub open spec fn char_units(c: char) -> Seq<u16> {
    let code = c as u32;
    if code < 0x10000 {
        seq![code as u16]
    } else {
        seq![
            (0xd800 + (code - 0x10000) / 0x400) as u16,
            (0xdc00 + (code - 0x10000) % 0x400) as u16,
        ]
    }
}

/// The units of a text.
pub open spec fn utf16_of(s: Seq<char>) -> Seq<u16>
    decreases s.len(),
{
    if s.len() == 0 {
        Seq::empty()
    } else {
        utf16_of(s.drop_last()) + char_units(s.last())
    }
}

/// The units of a text, with a zero behind them.
pub fn wide(value: &str) -> (units: Vec<u16>)
    ensures
        units@ == utf16_of(value@).push(0),
{
    let chars = chars_of(value);
    let mut units: Vec<u16> = Vec::new();
    let mut k: usize = 0;
    while k < chars.len()
        invariant
            chars@ == value@,
            k <= chars@.len(),
            units@ == utf16_of(value@.take(k as int)),
        decreases chars.len() - k,
    {
        let c = chars[k];
        let ghost before = units@;
        proof {
            assert(value@.take(k + 1).drop_last() =~= value@.take(k as int));
            assert(value@.take(k + 1).last() == c);
        }
        let code = c as u32;
        if code < 0x10000 {
            units.push(code as u16);
            assert(units@ =~= before + char_units(c));
        } else {
            let above = code - 0x10000;
            units.push((0xd800 + above / 0x400) as u16);
            units.push((0xdc00 + above % 0x400) as u16);
            assert(units@ =~= before + char_units(c));
        }
        k += 1;
    }
    assert(value@.take(k as int) =~= value@);
    units.push(0);
    units
}

/// What `String::from_utf16_lossy` makes of units.
pub uninterp spec fn utf16_text(units: Seq<u16>) -> Seq<char>;

/// `String::from_utf16_lossy`: the text that the units encode. Only what are no units of a
/// text is replaced.
#[verifier::external_body]
fn text_of_utf16(units: &[u16]) -> (text: String)
    ensures
        text@ == utf16_text(units@),
        forall|s: Seq<char>| units@ == #[trigger] utf16_of(s) ==> text@ == s,
{
    String::from_utf16_lossy(units)
}

/// First zero from `i` on, the end without one.
pub open spec fn zero_at(units: Seq<u16>, i: int) -> int
    decreases units.len() - i,
{
    if 0 <= i < units.len() && units[i] != 0 {
        zero_at(units, i + 1)
    } else {
        i
    }
}

/// The text in a buffer, up to its first zero.
pub fn trimmed_wide_to_string(buffer: &[u16]) -> (text: String)
    ensures
        text@ == utf16_text(buffer@.take(zero_at(buffer@, 0))),
        forall|s: Seq<char>|
            without_nul(s) && #[trigger] utf16_of(s).push(0).is_prefix_of(buffer@) ==> text@ == s,
{
    let mut used: usize = 0;
    while used < buffer.len() && buffer[used] != 0
        invariant
            used <= buffer@.len(),
            zero_at(buffer@, 0) == zero_at(buffer@, used as int),
            forall|j: int| 0 <= j < used ==> #[trigger] buffer@[j] != 0,
        decreases buffer@.len() - used,
    {
        used += 1;
    }
    let units = vstd::slice::slice_subrange(buffer, 0, used);
    assert(units@ =~= buffer@.take(used as int));
    let text = text_of_utf16(units);
    proof {
        assert forall|s: Seq<char>|
            without_nul(s) && #[trigger] utf16_of(s).push(0).is_prefix_of(buffer@) implies text@
            == s by {
            let own = utf16_of(s);
            lemma_units_not_zero(s);
            assert forall|j: int| 0 <= j <= own.len() implies #[trigger] own.push(0)[j]
                == buffer@[j] by {}
            assert(own.push(0)[own.len() as int] == 0);
            if used > own.len() {
                assert(buffer@[own.len() as int] != 0);
            }
            if used < own.len() {
                assert(own.push(0)[used as int] == own[used as int]);
                assert(own[used as int] != 0);
            }
            assert(units@ =~= own) by {
                assert forall|j: int| 0 <= j < own.len() implies units@[j] == own[j] by {
                    assert(own.push(0)[j] == own[j]);
                }
            }
        }
    }
    text
}

proof fn lemma_char_units(c: char)
    requires
        c != '\0',
    ensures
        forall|j: int| 0 <= j < char_units(c).len() ==> #[trigger] char_units(c)[j] != 0,
{
    let code = c as u32;
    vstd::utf8::char_u32_cast(c, code);
    assert(code != 0);
    assert(code <= 0x10ffff);
    if code >= 0x10000 {
        let above = code - 0x10000;
        assert(0 <= above / 0x400 <= 0x3ff);
        assert(0 <= above % 0x400 <= 0x3ff);
    }
}

/// The units of a text that holds no NUL are not zero.
pub proof fn lemma_units_not_zero(s: Seq<char>)
    requires
        without_nul(s),
    ensures
        forall|j: int| 0 <= j < utf16_of(s).len() ==> #[trigger] utf16_of(s)[j] != 0,
    decreases s.len(),
{
    if s.len() > 0 {
        let front = s.drop_last();
        assert forall|i: int| 0 <= i < front.len() implies #[trigger] front[i] != '\0' by {
            assert(front[i] == s[i]);
        }
        lemma_units_not_zero(front);
        let c = s.last();
        assert(c != '\0') by {
            assert(s[s.len() - 1] != '\0');
        }
        assert forall|j: int| 0 <= j < utf16_of(s).len() implies #[trigger] utf16_of(s)[j]
            != 0 by {
            let before = utf16_of(front);
            if j < before.len() {
                assert(utf16_of(s)[j] == before[j]);
            } else {
                assert(utf16_of(s)[j] == char_units(c)[j - before.len()]);
                lemma_char_units(c);
            }
        }
    }
}

} // verus!
