//! Strings as sequences of characters, with the byte offsets that UTF-8 gives them.

use vstd::prelude::*;
use vstd::utf8::*;

verus! {

// ---------------------------------------------------------------------------
// UTF-8 facts

/// Byte offset of the `i`-th character of `s`.
pub open spec fn byte_offset(s: Seq<char>, i: int) -> int {
    encode_utf8(s.take(i)).len() as int
}

/// Encoding distributes over concatenation.
pub proof fn lemma_encode_concat(a: Seq<char>, b: Seq<char>)
    ensures
        encode_utf8(a + b) == encode_utf8(a) + encode_utf8(b),
    decreases a.len(),
{
    if a.len() == 0 {
        assert(a + b =~= b);
        assert(encode_utf8(a) + encode_utf8(b) =~= encode_utf8(b));
    } else {
        assert((a + b).drop_first() =~= a.drop_first() + b);
        lemma_encode_concat(a.drop_first(), b);
        assert(encode_utf8(a + b) =~= encode_utf8(a) + encode_utf8(b));
    }
}

/// Two texts with the same bytes are the same text.
pub proof fn lemma_encode_injective(a: Seq<char>, b: Seq<char>)
    requires
        encode_utf8(a) == encode_utf8(b),
    ensures
        a == b,
{
    encode_utf8_decode_utf8(a);
    encode_utf8_decode_utf8(b);
}

/// The bytes before and after the `i`-th character.
pub proof fn lemma_split(s: Seq<char>, i: int)
    requires
        0 <= i <= s.len(),
    ensures
        encode_utf8(s) == encode_utf8(s.take(i)) + encode_utf8(s.skip(i)),
        0 <= byte_offset(s, i) <= encode_utf8(s).len(),
        encode_utf8(s).subrange(0, byte_offset(s, i)) == encode_utf8(s.take(i)),
        encode_utf8(s).subrange(byte_offset(s, i), encode_utf8(s).len() as int) == encode_utf8(
            s.skip(i),
        ),
{
    assert(s.take(i) + s.skip(i) =~= s);
    lemma_encode_concat(s.take(i), s.skip(i));
    let e = encode_utf8(s);
    assert(e.subrange(0, byte_offset(s, i)) =~= encode_utf8(s.take(i)));
    assert(e.subrange(byte_offset(s, i), e.len() as int) =~= encode_utf8(s.skip(i)));
}

/// The offset of every character is a character boundary.
pub proof fn lemma_offset_is_boundary(s: Seq<char>, i: int)
    requires
        0 <= i <= s.len(),
    ensures
        valid_utf8(encode_utf8(s)),
        is_char_boundary(encode_utf8(s), byte_offset(s, i)),
    decreases i,
{
    encode_utf8_valid_utf8(s);
    if i == 0 {
        assert(s.take(0) =~= Seq::<char>::empty());
    } else {
        let rest = s.drop_first();
        lemma_offset_is_boundary(rest, i - 1);
        encode_utf8_first_scalar(s);
        assert(pop_first_scalar(encode_utf8(s)) =~= encode_utf8(rest));
        assert(s.take(i).drop_first() =~= rest.take(i - 1));
        assert(byte_offset(s, i) == encode_scalar(s[0] as u32).len() + byte_offset(rest, i - 1));
        lemma_split(s, i);
    }
}

/// One character further is as many bytes further as that character takes.
pub proof fn lemma_offset_step(s: Seq<char>, i: int)
    requires
        0 <= i < s.len(),
    ensures
        byte_offset(s, i + 1) == byte_offset(s, i) + encode_scalar(s[i] as u32).len(),
        encode_scalar(s[i] as u32).len() > 0,
{
    let one = seq![s[i]];
    assert(s.take(i + 1) =~= s.take(i) + one);
    lemma_encode_concat(s.take(i), one);
    assert(one.drop_first() =~= Seq::<char>::empty());
    assert(encode_utf8(one) =~= encode_scalar(s[i] as u32)) by {
        reveal_with_fuel(encode_utf8, 2);
    }
}

/// Offsets grow with the character index.
pub proof fn lemma_offset_monotone(s: Seq<char>, i: int, j: int)
    requires
        0 <= i <= j <= s.len(),
    ensures
        byte_offset(s, i) <= byte_offset(s, j),
        i < j ==> byte_offset(s, i) < byte_offset(s, j),
    decreases j - i,
{
    if i < j {
        lemma_offset_monotone(s, i, j - 1);
        lemma_offset_step(s, j - 1);
    }
}

/// The end of a text is the offset past its last character.
pub proof fn lemma_offset_end(s: Seq<char>)
    ensures
        byte_offset(s, s.len() as int) == encode_utf8(s).len(),
        byte_offset(s, 0) == 0,
{
    assert(s.take(s.len() as int) =~= s);
    assert(s.take(0) =~= Seq::<char>::empty());
}

/// The bytes between two character offsets are the bytes of the characters between.
pub proof fn lemma_slice_bytes(s: Seq<char>, i: int, j: int)
    requires
        0 <= i <= j <= s.len(),
    ensures
        0 <= byte_offset(s, i) <= byte_offset(s, j) <= encode_utf8(s).len(),
        encode_utf8(s).subrange(byte_offset(s, i), byte_offset(s, j)) == encode_utf8(
            s.subrange(i, j),
        ),
{
    lemma_offset_monotone(s, i, j);
    lemma_split(s, j);
    let head = s.take(j);
    lemma_split(head, i);
    assert(head.take(i) =~= s.take(i));
    assert(head.skip(i) =~= s.subrange(i, j));
    let e = encode_utf8(s);
    assert(e.subrange(byte_offset(s, i), byte_offset(s, j)) =~= e.subrange(
        0,
        byte_offset(s, j),
    ).subrange(byte_offset(s, i), byte_offset(s, j)));
}

/// Every character boundary is the offset of a character, or the end.
pub proof fn lemma_boundary_is_offset(s: Seq<char>, index: int) -> (i: int)
    requires
        is_char_boundary(encode_utf8(s), index),
    ensures
        0 <= i <= s.len(),
        byte_offset(s, i) == index,
    decreases s.len(),
{
    encode_utf8_valid_utf8(s);
    lemma_offset_end(s);
    if index == 0 {
        0
    } else {
        encode_utf8_first_scalar(s);
        let rest = s.drop_first();
        let one = seq![s[0]];
        let width = encode_scalar(s[0] as u32).len() as int;
        assert(pop_first_scalar(encode_utf8(s)) =~= encode_utf8(rest));
        let k = lemma_boundary_is_offset(rest, index - width);
        assert(s.take(k + 1) =~= one + rest.take(k));
        lemma_encode_concat(one, rest.take(k));
        assert(one.drop_first() =~= Seq::<char>::empty());
        assert(encode_utf8(one) =~= encode_scalar(s[0] as u32)) by {
            reveal_with_fuel(encode_utf8, 2);
        }
        k + 1
    }
}

/// A character starts at this byte, or the text ends there.
#[verifier::opaque]
pub open spec fn at_boundary(s: Seq<char>, index: int) -> bool {
    is_char_boundary(encode_utf8(s), index)
}

/// A text starts and ends at boundaries, and has none outside itself.
pub proof fn lemma_at_boundary(s: Seq<char>, index: int)
    ensures
        at_boundary(s, 0),
        at_boundary(s, encode_utf8(s).len() as int),
        at_boundary(s, index) ==> 0 <= index <= encode_utf8(s).len(),
{
    reveal(at_boundary);
    encode_utf8_valid_utf8(s);
    lemma_offset_end(s);
    lemma_offset_is_boundary(s, 0);
    lemma_offset_is_boundary(s, s.len() as int);
}

/// Whether a character starts at this byte, or the text ends there.
pub fn is_boundary(source: &str, index: usize) -> (yes: bool)
    ensures
        yes == at_boundary(source@, index as int),
{
    reveal(at_boundary);
    source.is_char_boundary(index)
}

/// Text that the bytes from `start` to before `end` hold.
#[verifier::opaque]
pub open spec fn text_between(s: Seq<char>, start: int, end: int) -> Seq<char> {
    decode_utf8(encode_utf8(s).subrange(start, end))
}

/// Between two character boundaries lie whole characters.
pub proof fn lemma_text_between(s: Seq<char>, start: int, end: int)
    requires
        0 <= start <= end,
        at_boundary(s, start),
        at_boundary(s, end),
    ensures
        end <= encode_utf8(s).len(),
        encode_utf8(text_between(s, start, end)) == encode_utf8(s).subrange(start, end),
        exists|i: int, j: int|
            0 <= i <= j <= s.len() && #[trigger] byte_offset(s, i) == start && #[trigger]
            byte_offset(s, j) == end && text_between(s, start, end) == s.subrange(i, j),
{
    reveal(at_boundary);
    reveal(text_between);
    let i = lemma_boundary_is_offset(s, start);
    let j = lemma_boundary_is_offset(s, end);
    if j < i {
        lemma_offset_monotone(s, j, i);
    }
    lemma_slice_bytes(s, i, j);
    encode_utf8_decode_utf8(s.subrange(i, j));
}

/// The part of a string between two character boundaries.
pub fn byte_slice<'s>(source: &'s str, start: usize, end: usize) -> (part: &'s str)
    requires
        start <= end,
        at_boundary(source@, start as int),
        at_boundary(source@, end as int),
    ensures
        part@ == text_between(source@, start as int, end as int),
{
    reveal(at_boundary);
    reveal(text_between);
    let ghost s = source@;
    let ghost i = lemma_boundary_is_offset(s, start as int);
    let ghost j = lemma_boundary_is_offset(s, end as int);
    proof {
        if j < i {
            lemma_offset_monotone(s, j, i);
        }
        lemma_split(s, j);
    }
    let head = source.split_at(end).0;
    proof {
        lemma_encode_injective(head@, s.take(j));
        assert(head@.take(i) =~= s.take(i));
        lemma_offset_is_boundary(head@, i);
        lemma_split(head@, i);
    }
    let part = head.split_at(start).1;
    proof {
        lemma_encode_injective(part@, head@.skip(i));
        assert(head@.skip(i) =~= s.subrange(i, j));
        lemma_slice_bytes(s, i, j);
        encode_utf8_decode_utf8(s.subrange(i, j));
    }
    part
}

/// Bytes that start with the bytes of `p` decode to text that starts with `p`.
pub proof fn lemma_prefix_bytes(p: Seq<char>, t: Seq<char>)
    ensures
        encode_utf8(p).is_prefix_of(encode_utf8(t)) <==> p.is_prefix_of(t),
    decreases p.len(),
{
    let ep = encode_utf8(p);
    let et = encode_utf8(t);
    if p.is_prefix_of(t) {
        lemma_split(t, p.len() as int);
        assert(t.take(p.len() as int) =~= p);
        assert(ep =~= et.subrange(0, ep.len() as int));
    }
    if ep.is_prefix_of(et) {
        assert(ep =~= et.subrange(0, ep.len() as int));
        if p.len() > 0 {
            encode_utf8_first_scalar(p);
            assert(ep.len() > 0);
            assert(t.len() > 0) by {
                if t.len() == 0 {
                    assert(et.len() == 0);
                }
            }
            encode_utf8_first_scalar(t);
            assert(forall|k: int| 0 <= k < ep.len() ==> ep[k] == et[k]);
            assert(decode_first_scalar(ep) == decode_first_scalar(et));
            assert(p[0] == t[0]) by {
                char_u32_cast(p[0], p[0] as u32);
                char_u32_cast(t[0], t[0] as u32);
            }
            let ep1 = encode_utf8(p.drop_first());
            let et1 = encode_utf8(t.drop_first());
            let w = encode_scalar(p[0] as u32).len() as int;
            assert(ep1 =~= ep.subrange(w, ep.len() as int));
            assert(et1 =~= et.subrange(w, et.len() as int));
            assert(ep1 =~= et1.subrange(0, ep1.len() as int));
            lemma_prefix_bytes(p.drop_first(), t.drop_first());
            assert(p =~= t.subrange(0, p.len() as int)) by {
                assert forall|k: int| 0 <= k < p.len() implies p[k] == t[k] by {
                    if k > 0 {
                        assert(p.drop_first()[k - 1] == t.drop_first()[k - 1]);
                    }
                }
            }
        }
    }
}

// ---------------------------------------------------------------------------
// Whole strings

pub open spec fn texts(parts: Seq<&str>) -> Seq<Seq<char>> {
    parts.map_values(|part: &str| part@)
}

/// The parts one after another.
pub open spec fn joined(parts: Seq<Seq<char>>) -> Seq<char>
    decreases parts.len(),
{
    if parts.len() == 0 {
        Seq::empty()
    } else {
        joined(parts.drop_last()) + parts.last()
    }
}

/// Puts the parts one after another.
pub fn concat(parts: &[&str]) -> (text: String)
    ensures
        text@ == joined(texts(parts@)),
{
    let mut text = String::new();
    let mut k: usize = 0;
    while k < parts.len()
        invariant
            k <= parts@.len(),
            text@ == joined(texts(parts@).take(k as int)),
        decreases parts.len() - k,
    {
        text.append(parts[k]);
        k += 1;
        assert(texts(parts@).take(k as int).drop_last() =~= texts(parts@).take(k - 1));
    }
    assert(texts(parts@).take(k as int) =~= texts(parts@));
    text
}

/// The parts with a separator between them.
pub open spec fn separated(parts: Seq<Seq<char>>, separator: Seq<char>) -> Seq<char>
    decreases parts.len(),
{
    if parts.len() == 0 {
        Seq::empty()
    } else if parts.len() == 1 {
        parts[0]
    } else {
        separated(parts.drop_last(), separator) + separator + parts.last()
    }
}

/// Puts the parts one after another with a separator between them.
pub fn join(parts: &Vec<&str>, separator: &str) -> (text: String)
    ensures
        text@ == separated(texts(parts@), separator@),
{
    let ghost all = texts(parts@);
    let mut text = String::new();
    let mut k: usize = 0;
    while k < parts.len()
        invariant
            all == texts(parts@),
            k <= parts@.len(),
            text@ == separated(all.take(k as int), separator@),
        decreases parts.len() - k,
    {
        proof {
            assert(all.take(k + 1).drop_last() =~= all.take(k as int));
            assert(all.take(k + 1).last() == all[k as int]);
            assert(all[k as int] == parts@[k as int]@);
        }
        let ghost before = text@;
        if k > 0 {
            text.append(separator);
        }
        text.append(parts[k]);
        proof {
            if k == 0 {
                assert(before =~= Seq::empty());
                assert(text@ =~= all[0]);
            }
        }
        k += 1;
    }
    assert(all.take(k as int) =~= all);
    text
}

/// Whether two strings hold the same text.
pub fn str_eq(a: &str, b: &str) -> (same: bool)
    ensures
        same == (a@ == b@),
{
    let x = a.as_bytes();
    let y = b.as_bytes();
    if x.len() != y.len() {
        return false;
    }
    let mut i: usize = 0;
    while i < x.len()
        invariant
            i <= x.len(),
            x.len() == y.len(),
            x@ == encode_utf8(a@),
            y@ == encode_utf8(b@),
            forall|k: int| 0 <= k < i ==> x@[k] == y@[k],
        decreases x.len() - i,
    {
        if x[i] != y[i] {
            return false;
        }
        i += 1;
    }
    proof {
        assert(x@ =~= y@);
        lemma_encode_injective(a@, b@);
    }
    true
}

/// Whether `text` starts with `prefix`.
pub fn starts_with(text: &str, prefix: &str) -> (yes: bool)
    ensures
        yes == prefix@.is_prefix_of(text@),
{
    let t = text.as_bytes();
    let p = prefix.as_bytes();
    proof {
        lemma_prefix_bytes(prefix@, text@);
    }
    if p.len() > t.len() {
        return false;
    }
    let mut i: usize = 0;
    while i < p.len()
        invariant
            i <= p.len() <= t.len(),
            p@ == encode_utf8(prefix@),
            t@ == encode_utf8(text@),
            p@.is_prefix_of(t@) == prefix@.is_prefix_of(text@),
            forall|k: int| 0 <= k < i ==> p@[k] == t@[k],
        decreases p.len() - i,
    {
        if p[i] != t[i] {
            assert(t@.subrange(0, p@.len() as int)[i as int] == t@[i as int]);
            return false;
        }
        i += 1;
    }
    assert(p@ =~= t@.subrange(0, p@.len() as int));
    true
}

/// Lexicographic order of byte sequences.
pub open spec fn bytes_less(a: Seq<u8>, b: Seq<u8>) -> bool
    decreases a.len(),
{
    if b.len() == 0 {
        false
    } else if a.len() == 0 {
        true
    } else if a[0] != b[0] {
        a[0] < b[0]
    } else {
        bytes_less(a.drop_first(), b.drop_first())
    }
}

/// Order of texts: that of their UTF-8 bytes.
pub open spec fn text_less(a: Seq<char>, b: Seq<char>) -> bool {
    bytes_less(encode_utf8(a), encode_utf8(b))
}

pub proof fn lemma_bytes_less_order(a: Seq<u8>, b: Seq<u8>, c: Seq<u8>)
    ensures
        !bytes_less(a, a),
        !(bytes_less(a, b) && bytes_less(b, a)),
        bytes_less(a, b) && bytes_less(b, c) ==> bytes_less(a, c),
        bytes_less(a, b) || bytes_less(b, a) || a == b,
    decreases a.len(),
{
    if a.len() > 0 {
        let bt = if b.len() > 0 { b.drop_first() } else { b };
        let ct = if c.len() > 0 { c.drop_first() } else { c };
        lemma_bytes_less_order(a.drop_first(), bt, ct);
        if b.len() > 0 && a[0] == b[0] && a.drop_first() == b.drop_first() {
            assert(a =~= seq![a[0]] + a.drop_first());
            assert(b =~= seq![b[0]] + b.drop_first());
        }
    } else if b.len() == 0 {
        assert(a =~= b);
    }
}

/// `text_less` is a strict total order.
pub proof fn lemma_text_less_order(a: Seq<char>, b: Seq<char>, c: Seq<char>)
    ensures
        !text_less(a, a),
        !(text_less(a, b) && text_less(b, a)),
        text_less(a, b) && text_less(b, c) ==> text_less(a, c),
        text_less(a, b) || text_less(b, a) || a == b,
{
    lemma_bytes_less_order(encode_utf8(a), encode_utf8(b), encode_utf8(c));
    if encode_utf8(a) == encode_utf8(b) {
        lemma_encode_injective(a, b);
    }
}

/// Whether `a` comes before `b`.
pub fn str_less(a: &str, b: &str) -> (less: bool)
    ensures
        less == text_less(a@, b@),
{
    let x = a.as_bytes();
    let y = b.as_bytes();
    let mut i: usize = 0;
    proof {
        assert(x@.skip(0) =~= x@);
        assert(y@.skip(0) =~= y@);
    }
    while i < x.len() && i < y.len()
        invariant
            i <= x.len(),
            i <= y.len(),
            x@ == encode_utf8(a@),
            y@ == encode_utf8(b@),
            bytes_less(x@, y@) == bytes_less(x@.skip(i as int), y@.skip(i as int)),
        decreases x.len() - i,
    {
        if x[i] != y[i] {
            return x[i] < y[i];
        }
        proof {
            assert(x@.skip(i as int).drop_first() =~= x@.skip(i + 1));
            assert(y@.skip(i as int).drop_first() =~= y@.skip(i + 1));
        }
        i += 1;
    }
    i < y.len()
}

// ---------------------------------------------------------------------------
// Characters

pub open spec fn is_ascii_digit(c: char) -> bool {
    '0' <= c && c <= '9'
}

pub open spec fn is_ascii_alphabetic(c: char) -> bool {
    ('a' <= c && c <= 'z') || ('A' <= c && c <= 'Z')
}

/// The Unicode `White_Space` characters.
pub open spec fn is_whitespace(c: char) -> bool {
    ||| ('\u{9}' <= c && c <= '\u{d}')
    ||| c == ' '
    ||| c == '\u{85}'
    ||| c == '\u{a0}'
    ||| c == '\u{1680}'
    ||| ('\u{2000}' <= c && c <= '\u{200a}')
    ||| c == '\u{2028}'
    ||| c == '\u{2029}'
    ||| c == '\u{202f}'
    ||| c == '\u{205f}'
    ||| c == '\u{3000}'
}

/// Whether `c` has the Unicode property `White_Space`.
pub fn char_is_whitespace(c: char) -> (yes: bool)
    ensures
        yes == is_whitespace(c),
{
    ('\u{9}' <= c && c <= '\u{d}') || c == ' ' || c == '\u{85}' || c == '\u{a0}' || c == '\u{1680}'
        || ('\u{2000}' <= c && c <= '\u{200a}') || c == '\u{2028}' || c == '\u{2029}' || c
        == '\u{202f}' || c == '\u{205f}' || c == '\u{3000}'
}

/// Code point of `c` with ASCII capitals folded to small letters.
pub open spec fn fold_case(c: char) -> int {
    if 'A' <= c && c <= 'Z' {
        c as int + 32
    } else {
        c as int
    }
}

/// Whether two texts differ at most in the case of ASCII letters.
pub open spec fn eq_ignore_case(a: Seq<char>, b: Seq<char>) -> bool {
    a.len() == b.len() && forall|i: int| 0 <= i < a.len() ==> #[trigger] fold_case(a[i])
        == fold_case(b[i])
}

fn char_fold_case(c: char) -> (code: u32)
    ensures
        code == fold_case(c),
{
    if 'A' <= c && c <= 'Z' {
        c as u32 + 32
    } else {
        c as u32
    }
}

/// Number of bytes that `c` takes in UTF-8.
fn char_width(c: char) -> (width: usize)
    ensures
        width == encode_scalar(c as u32).len(),
        1 <= width <= 4,
{
    let code = c as u32;
    if code <= 0x7f {
        1
    } else if code <= 0x7ff {
        2
    } else if code <= 0xffff {
        3
    } else {
        4
    }
}

/// The characters of `text`, in order.
pub fn chars_of(text: &str) -> (chars: Vec<char>)
    ensures
        chars@ == text@,
{
    let mut chars: Vec<char> = Vec::new();
    for c in rest: text.chars()
        invariant
            rest.seq() == text@,
            chars@ == text@.take(rest.index()),
    {
        proof {
            assert(text@.take(rest.index()).push(c) =~= text@.take(rest.index() + 1));
        }
        chars.push(c);
    }
    assert(text@.take(text@.len() as int) =~= text@);
    chars
}

// ---------------------------------------------------------------------------
// Indexed text

/// A string with its characters and their byte offsets.
pub struct Text<'s> {
    source: &'s str,
    chars: Vec<char>,
    offsets: Vec<usize>,
}

impl<'s> View for Text<'s> {
    type V = Seq<char>;

    closed spec fn view(&self) -> Seq<char> {
        self.source@
    }
}

impl<'s> Text<'s> {
    #[verifier::type_invariant]
    pub closed spec fn well_formed(&self) -> bool {
        &&& self.chars@ == self.source@
        &&& self.offsets@.len() == self.source@.len() + 1
        &&& forall|i: int|
            0 <= i <= self.source@.len() ==> #[trigger] self.offsets@[i] == byte_offset(
                self.source@,
                i,
            )
    }

    pub fn new(source: &'s str) -> (text: Text<'s>)
        ensures
            text@ == source@,
    {
        let chars = chars_of(source);
        let total = source.as_bytes().len();
        let mut offsets: Vec<usize> = Vec::new();
        let mut position: usize = 0;
        let mut i: usize = 0;
        proof {
            lemma_offset_end(source@);
        }
        offsets.push(0);
        while i < chars.len()
            invariant
                i <= chars.len(),
                chars@ == source@,
                total == encode_utf8(source@).len(),
                position == byte_offset(source@, i as int),
                offsets@.len() == i + 1,
                forall|k: int| 0 <= k <= i ==> #[trigger] offsets@[k] == byte_offset(source@, k),
            decreases chars.len() - i,
        {
            proof {
                lemma_offset_step(source@, i as int);
                lemma_split(source@, i + 1);
            }
            position += char_width(chars[i]);
            offsets.push(position);
            i += 1;
        }
        Text { source, chars, offsets }
    }

    /// Number of characters.
    pub fn len(&self) -> (n: usize)
        ensures
            n == self@.len(),
    {
        proof {
            use_type_invariant(self);
        }
        self.chars.len()
    }

    /// The `i`-th character.
    pub fn at(&self, i: usize) -> (c: char)
        requires
            i < self@.len(),
        ensures
            c == self@[i as int],
    {
        proof {
            use_type_invariant(self);
        }
        self.chars[i]
    }

    /// Byte offset of the `i`-th character.
    pub fn offset(&self, i: usize) -> (offset: usize)
        requires
            i <= self@.len(),
        ensures
            offset == byte_offset(self@, i as int),
    {
        proof {
            use_type_invariant(self);
        }
        self.offsets[i]
    }

    /// The whole string.
    pub fn source(&self) -> (source: &'s str)
        ensures
            source@ == self@,
    {
        self.source
    }

    /// The part from the `start`-th character up to the `end`-th.
    pub fn slice(&self, start: usize, end: usize) -> (part: &'s str)
        requires
            start <= end <= self@.len(),
        ensures
            part@ == self@.subrange(start as int, end as int),
    {
        proof {
            use_type_invariant(self);
            lemma_offset_is_boundary(self@, end as int);
            lemma_split(self@, end as int);
        }
        let head = self.source.split_at(self.offsets[end]).0;
        proof {
            lemma_encode_injective(head@, self@.take(end as int));
            assert(self@.take(end as int).take(start as int) =~= self@.take(start as int));
            lemma_offset_is_boundary(head@, start as int);
            lemma_split(head@, start as int);
        }
        let part = head.split_at(self.offsets[start]).1;
        proof {
            lemma_encode_injective(part@, head@.skip(start as int));
            assert(head@.skip(start as int) =~= self@.subrange(start as int, end as int));
        }
        part
    }

    /// Whether `literal` stands at the `i`-th character.
    pub fn matches_at(&self, i: usize, literal: &str) -> (yes: bool)
        requires
            i <= self@.len(),
        ensures
            yes == literal_at(self@, i as int, literal@),
    {
        proof {
            use_type_invariant(self);
            lemma_split(self@, i as int);
            lemma_prefix_bytes(literal@, self@.skip(i as int));
            lemma_literal_at(self@, i as int, literal@);
        }
        let bytes = self.source.as_bytes();
        let wanted = literal.as_bytes();
        let base = self.offsets[i];
        let ghost rest = encode_utf8(self@.skip(i as int));
        if wanted.len() > bytes.len() - base {
            return false;
        }
        let mut k: usize = 0;
        while k < wanted.len()
            invariant
                k <= wanted.len(),
                base + wanted.len() <= bytes.len(),
                wanted@ == encode_utf8(literal@),
                rest == bytes@.subrange(base as int, bytes@.len() as int),
                wanted@.is_prefix_of(rest) == literal_at(self@, i as int, literal@),
                forall|j: int| 0 <= j < k ==> wanted@[j] == rest[j],
            decreases wanted.len() - k,
        {
            if bytes[base + k] != wanted[k] {
                assert(rest.subrange(0, wanted@.len() as int)[k as int] == rest[k as int]);
                return false;
            }
            k += 1;
        }
        assert(wanted@ =~= rest.subrange(0, wanted@.len() as int));
        true
    }
}

/// Whether `literal` stands in `s` at index `i`.
pub open spec fn literal_at(s: Seq<char>, i: int, literal: Seq<char>) -> bool {
    0 <= i && i + literal.len() <= s.len() && s.subrange(i, i + literal.len()) == literal
}

pub proof fn lemma_literal_at(s: Seq<char>, i: int, literal: Seq<char>)
    requires
        0 <= i <= s.len(),
    ensures
        literal_at(s, i, literal) == literal.is_prefix_of(s.skip(i)),
{
    if i + literal.len() <= s.len() {
        assert(s.skip(i).subrange(0, literal.len() as int) =~= s.subrange(i, i + literal.len()));
    }
}

/// Whether `part` occurs in `s`.
pub open spec fn contains_text(s: Seq<char>, part: Seq<char>) -> bool {
    exists|i: int| literal_at(s, i, part)
}

/// Whether `part` occurs in `text`.
pub fn contains(text: &Text<'_>, part: &str) -> (yes: bool)
    ensures
        yes == contains_text(text@, part@),
{
    let n = text.len();
    let mut i: usize = 0;
    loop
        invariant
            i <= n == text@.len(),
            forall|k: int| 0 <= k < i ==> !literal_at(text@, k, part@),
        decreases n - i,
    {
        if text.matches_at(i, part) {
            return true;
        }
        if i == n {
            return false;
        }
        i += 1;
    }
}

// ---------------------------------------------------------------------------
// Numbers

pub open spec fn digit_char(d: int) -> char {
    (d + 48) as char
}

/// Decimal digits of `n`.
pub open spec fn decimal(n: nat) -> Seq<char>
    decreases n,
{
    if n < 10 {
        seq![digit_char(n as int)]
    } else {
        decimal(n / 10).push(digit_char((n % 10) as int))
    }
}

fn digit_text(d: u64) -> (text: &'static str)
    requires
        d < 10,
    ensures
        text@ == seq![digit_char(d as int)],
{
    proof {
        reveal_strlit("0");
        reveal_strlit("1");
        reveal_strlit("2");
        reveal_strlit("3");
        reveal_strlit("4");
        reveal_strlit("5");
        reveal_strlit("6");
        reveal_strlit("7");
        reveal_strlit("8");
        reveal_strlit("9");
    }
    match d {
        0 => "0",
        1 => "1",
        2 => "2",
        3 => "3",
        4 => "4",
        5 => "5",
        6 => "6",
        7 => "7",
        8 => "8",
        _ => "9",
    }
}

/// Decimal text of `n`.
pub fn decimal_text(n: u64) -> (text: String)
    ensures
        text@ == decimal(n as nat),
    decreases n,
{
    if n < 10 {
        digit_text(n).to_owned()
    } else {
        let mut text = decimal_text(n / 10);
        text.append(digit_text(n % 10));
        assert(text@ =~= decimal(n as nat));
        text
    }
}

/// Value of `c` as a digit of `radix`, which is at most 16.
pub open spec fn digit_value(c: char, radix: int) -> Option<int> {
    let d = if '0' <= c && c <= '9' {
        c as int - 48
    } else if 'a' <= c && c <= 'f' {
        c as int - 87
    } else if 'A' <= c && c <= 'F' {
        c as int - 55
    } else {
        16
    };
    if d < radix {
        Some(d)
    } else {
        None
    }
}

pub fn char_digit_value(c: char, radix: u32) -> (d: Option<u32>)
    requires
        radix <= 16,
    ensures
        match d {
            Some(d) => digit_value(c, radix as int) == Some(d as int),
            None => digit_value(c, radix as int) is None,
        },
{
    let d: u32 = if '0' <= c && c <= '9' {
        c as u32 - 48
    } else if 'a' <= c && c <= 'f' {
        c as u32 - 87
    } else if 'A' <= c && c <= 'F' {
        c as u32 - 55
    } else {
        16
    };
    if d < radix {
        Some(d)
    } else {
        None
    }
}

/// Value of a run of digits.
pub open spec fn digits_value(s: Seq<char>, radix: int) -> int
    decreases s.len(),
{
    if s.len() == 0 {
        0
    } else {
        digits_value(s.drop_last(), radix) * radix + digit_value(s.last(), radix).unwrap_or(0)
    }
}

pub open spec fn all_digits(s: Seq<char>, radix: int) -> bool {
    forall|i: int| 0 <= i < s.len() ==> (#[trigger] digit_value(s[i], radix)) is Some
}

/// An unsigned number in `radix`: an optional plus sign and at least one digit, with a
/// value of at most `max`.
pub open spec fn parsed_number(s: Seq<char>, radix: int, max: int) -> Option<int> {
    let digits = if s.len() > 0 && s[0] == '+' {
        s.skip(1)
    } else {
        s
    };
    if digits.len() > 0 && all_digits(digits, radix) && digits_value(digits, radix) <= max {
        Some(digits_value(digits, radix))
    } else {
        None
    }
}

proof fn lemma_digits_value_grows(s: Seq<char>, radix: int, i: int)
    requires
        0 <= i <= s.len(),
        1 <= radix,
        all_digits(s, radix),
    ensures
        0 <= digits_value(s.take(i), radix) <= digits_value(s, radix),
    decreases s.len(),
{
    if s.len() == 0 {
        assert(s.take(i) =~= s);
    } else {
        let front = s.drop_last();
        assert forall|k: int| 0 <= k < front.len() implies (#[trigger] digit_value(
            front[k],
            radix,
        )) is Some by {
            assert(digit_value(s[k], radix) is Some);
        }
        assert(digit_value(s[s.len() - 1], radix) is Some);
        if i < s.len() {
            assert(front.take(i) =~= s.take(i));
            lemma_digits_value_grows(front, radix, i);
        } else {
            assert(s.take(i) =~= s);
            assert(front.take(front.len() as int) =~= front);
            lemma_digits_value_grows(front, radix, front.len() as int);
        }
        let v = digits_value(front, radix);
        assert(v * radix >= v) by (nonlinear_arith)
            requires
                v >= 0,
                radix >= 1,
        ;
    }
}

/// A number that is read is not negative and at most `max`.
pub proof fn lemma_parsed_number(s: Seq<char>, radix: int, max: int)
    requires
        1 <= radix,
    ensures
        parsed_number(s, radix, max) matches Some(value) ==> 0 <= value <= max,
{
    let digits = if s.len() > 0 && s[0] == '+' {
        s.skip(1)
    } else {
        s
    };
    if all_digits(digits, radix) {
        lemma_digits_value_grows(digits, radix, 0);
    }
}

/// Reads the characters from `start` up to `end` as an unsigned number.
pub fn parse_number(chars: &Vec<char>, start: usize, end: usize, radix: u32, max: u64) -> (value:
    Option<u64>)
    requires
        start <= end <= chars@.len(),
        1 <= radix <= 16,
        max <= u64::MAX,
    ensures
        match value {
            Some(value) => parsed_number(
                chars@.subrange(start as int, end as int),
                radix as int,
                max as int,
            ) == Some(value as int),
            None => parsed_number(
                chars@.subrange(start as int, end as int),
                radix as int,
                max as int,
            ) is None,
        },
{
    let ghost whole = chars@.subrange(start as int, end as int);
    let mut i: usize = start;
    if i < end && chars[i] == '+' {
        i += 1;
    }
    let first = i;
    let ghost digits = chars@.subrange(first as int, end as int);
    proof {
        if first > start {
            assert(digits =~= whole.skip(1));
        } else {
            assert(digits =~= whole);
        }
    }
    if first == end {
        return None;
    }
    let mut value: u64 = 0;
    while i < end
        invariant
            start <= first <= i <= end <= chars@.len(),
            1 <= radix <= 16,
            first < end,
            whole == chars@.subrange(start as int, end as int),
            digits == chars@.subrange(first as int, end as int),
            all_digits(digits.take(i - first), radix as int),
            value == digits_value(digits.take(i - first), radix as int),
            value <= max,
            parsed_number(whole, radix as int, max as int) == (if all_digits(digits, radix as int)
                && digits_value(digits, radix as int) <= max {
                Some(digits_value(digits, radix as int))
            } else {
                None::<int>
            }),
        decreases end - i,
    {
        let ghost k = i - first;
        match char_digit_value(chars[i], radix) {
            None => {
                assert(digit_value(digits[k], radix as int) is None);
                return None;
            },
            Some(d) => {
                let ghost before = digits.take(k);
                let ghost after = digits.take(k + 1);
                proof {
                    assert(after.drop_last() =~= before);
                    assert(after.last() == chars@[i as int]);
                    assert forall|j: int| 0 <= j < after.len() implies (#[trigger] digit_value(
                        after[j],
                        radix as int,
                    )) is Some by {
                        if j < k {
                            assert(digit_value(before[j], radix as int) is Some);
                        }
                    }
                }
                assert(0 <= value * radix <= 0xffff_ffff_ffff_ffff * 16) by (nonlinear_arith)
                    requires
                        value <= 0xffff_ffff_ffff_ffff,
                        radix <= 16,
                ;
                let next: u128 = value as u128 * radix as u128 + d as u128;
                if next > max as u128 {
                    proof {
                        if all_digits(digits, radix as int) {
                            lemma_digits_value_grows(digits, radix as int, k + 1);
                        }
                    }
                    return None;
                }
                value = next as u64;
                i += 1;
            },
        }
    }
    proof {
        assert(digits.take(i - first) =~= digits);
    }
    Some(value)
}

/// Whether two strings are the same but for the case of ASCII letters.
pub fn str_eq_ignore_case(a: &str, b: &str) -> (same: bool)
    ensures
        same == eq_ignore_case(a@, b@),
{
    let x = chars_of(a);
    let y = chars_of(b);
    if x.len() != y.len() {
        return false;
    }
    let mut i: usize = 0;
    while i < x.len()
        invariant
            x@ == a@,
            y@ == b@,
            i <= x@.len() == y@.len(),
            forall|k: int| 0 <= k < i ==> #[trigger] fold_case(x@[k]) == fold_case(y@[k]),
        decreases x.len() - i,
    {
        if char_fold_case(x[i]) != char_fold_case(y[i]) {
            assert(fold_case(a@[i as int]) != fold_case(b@[i as int]));
            return false;
        }
        i += 1;
    }
    true
}

// ---------------------------------------------------------------------------
// Pieces

/// The pieces of `s` from `start` on, the first of which reaches at least to `i`.
pub open spec fn split_from(s: Seq<char>, start: int, i: int, separator: char) -> Seq<Seq<char>>
    decreases s.len() - i,
{
    if i >= s.len() {
        seq![s.subrange(start, s.len() as int)]
    } else if s[i] == separator {
        seq![s.subrange(start, i)] + split_from(s, i + 1, i + 1, separator)
    } else {
        split_from(s, start, i + 1, separator)
    }
}

/// The pieces of `s` between separators, at least one.
pub open spec fn split_on(s: Seq<char>, separator: char) -> Seq<Seq<char>> {
    split_from(s, 0, 0, separator)
}

/// The pieces of a string between separators, at least one.
pub fn split<'s>(text: &'s str, separator: char) -> (pieces: Vec<&'s str>)
    ensures
        texts(pieces@) == split_on(text@, separator),
{
    let chars = Text::new(text);
    let n = chars.len();
    let mut pieces: Vec<&'s str> = Vec::new();
    let mut start: usize = 0;
    let mut i: usize = 0;
    assert(texts(pieces@) + split_from(text@, 0, 0, separator) =~= split_on(text@, separator));
    while i < n
        invariant
            chars@ == text@,
            start <= i <= n == text@.len(),
            split_on(text@, separator) == texts(pieces@) + split_from(
                text@,
                start as int,
                i as int,
                separator,
            ),
        decreases n - i,
    {
        if chars.at(i) == separator {
            let ghost kept = pieces@;
            let piece = chars.slice(start, i);
            pieces.push(piece);
            proof {
                let rest = split_from(text@, i + 1, i + 1, separator);
                assert(texts(pieces@) =~= texts(kept).push(piece@));
                assert(texts(kept) + (seq![piece@] + rest) =~= texts(pieces@) + rest);
            }
            start = i + 1;
        }
        i += 1;
    }
    let ghost kept = pieces@;
    let piece = chars.slice(start, n);
    pieces.push(piece);
    proof {
        assert(texts(pieces@) =~= texts(kept).push(piece@));
        assert(texts(kept) + seq![piece@] =~= texts(pieces@));
    }
    pieces
}

// ---------------------------------------------------------------------------
// White space and lines

/// First place from `i` on that is not white space.
pub open spec fn past_whitespace(s: Seq<char>, i: int) -> int
    decreases s.len() - i,
{
    if 0 <= i < s.len() && is_whitespace(s[i]) {
        past_whitespace(s, i + 1)
    } else {
        i
    }
}

/// First white space from `i` on, the end without any.
pub open spec fn next_whitespace(s: Seq<char>, i: int) -> int
    decreases s.len() - i,
{
    if 0 <= i < s.len() && !is_whitespace(s[i]) {
        next_whitespace(s, i + 1)
    } else {
        i
    }
}

/// The text without white space at its start.
pub open spec fn trimmed_start(s: Seq<char>) -> Seq<char> {
    s.skip(past_whitespace(s, 0))
}

/// The text without white space at its end.
pub open spec fn trimmed_end(s: Seq<char>) -> Seq<char>
    decreases s.len(),
{
    if s.len() > 0 && is_whitespace(s.last()) {
        trimmed_end(s.drop_last())
    } else {
        s
    }
}

/// The text without white space at its ends.
pub open spec fn trimmed(s: Seq<char>) -> Seq<char> {
    trimmed_end(trimmed_start(s))
}

/// Takes white space off the start of a string.
pub fn trim_start<'s>(text: &'s str) -> (rest: &'s str)
    ensures
        rest@ == trimmed_start(text@),
{
    let chars = Text::new(text);
    let n = chars.len();
    let mut i: usize = 0;
    while i < n && char_is_whitespace(chars.at(i))
        invariant
            chars@ == text@,
            i <= n == text@.len(),
            past_whitespace(text@, 0) == past_whitespace(text@, i as int),
        decreases n - i,
    {
        i += 1;
    }
    let rest = chars.slice(i, n);
    assert(rest@ =~= text@.skip(i as int));
    rest
}

/// Takes white space off both ends of a string.
pub fn trim<'s>(text: &'s str) -> (rest: &'s str)
    ensures
        rest@ == trimmed(text@),
{
    let front = trim_start(text);
    let chars = Text::new(front);
    let mut end: usize = chars.len();
    assert(front@.take(end as int) =~= front@);
    while end > 0 && char_is_whitespace(chars.at(end - 1))
        invariant
            chars@ == front@,
            end <= front@.len(),
            trimmed_end(front@) == trimmed_end(front@.take(end as int)),
        decreases end,
    {
        assert(front@.take(end as int).drop_last() =~= front@.take(end - 1));
        end -= 1;
    }
    let rest = chars.slice(0, end);
    assert(rest@ =~= front@.take(end as int));
    rest
}

/// A line without the carriage return before its line feed.
pub open spec fn without_return(s: Seq<char>) -> Seq<char> {
    if s.len() > 0 && s.last() == '\r' {
        s.drop_last()
    } else {
        s
    }
}

/// The lines of a text: the pieces between line feeds, without the carriage returns before the
/// line feeds. Nothing after the last line feed is no line.
pub open spec fn lines_of(s: Seq<char>) -> Seq<Seq<char>> {
    let pieces = split_on(s, '\n');
    let ended = pieces.drop_last().map_values(|piece: Seq<char>| without_return(piece));
    if pieces.last().len() == 0 {
        ended
    } else {
        ended.push(pieces.last())
    }
}

fn drop_return<'s>(line: &'s str) -> (rest: &'s str)
    ensures
        rest@ == without_return(line@),
{
    let chars = Text::new(line);
    let n = chars.len();
    if n > 0 && chars.at(n - 1) == '\r' {
        let rest = chars.slice(0, n - 1);
        assert(rest@ =~= line@.drop_last());
        rest
    } else {
        line
    }
}

/// The lines of a string.
pub fn lines<'s>(text: &'s str) -> (lines: Vec<&'s str>)
    ensures
        texts(lines@) == lines_of(text@),
{
    let pieces = split(text, '\n');
    let ghost all = split_on(text@, '\n');
    let ghost ended = all.drop_last().map_values(|piece: Seq<char>| without_return(piece));
    proof {
        lemma_split_not_empty(text@, 0, 0, '\n');
        assert(texts(pieces@).len() == pieces@.len());
    }
    let last = pieces.len() - 1;
    let mut lines: Vec<&'s str> = Vec::new();
    let mut k: usize = 0;
    assert(texts(lines@) =~= ended.take(0));
    while k < last
        invariant
            texts(pieces@) == all,
            ended == all.drop_last().map_values(|piece: Seq<char>| without_return(piece)),
            k <= last,
            last + 1 == pieces@.len() == all.len(),
            texts(lines@) == ended.take(k as int),
        decreases last - k,
    {
        let ghost before = lines@;
        let line = drop_return(pieces[k]);
        lines.push(line);
        proof {
            assert(all[k as int] == pieces@[k as int]@);
            assert(texts(lines@) =~= texts(before).push(line@));
            assert(ended.take(k + 1) =~= ended.take(k as int).push(ended[k as int]));
        }
        k += 1;
    }
    assert(ended.take(k as int) =~= ended);
    assert(all.last() == pieces@[last as int]@);
    if Text::new(pieces[last]).len() > 0 {
        let ghost before = lines@;
        lines.push(pieces[last]);
        assert(texts(lines@) =~= texts(before).push(all.last()));
    }
    lines
}

/// A text has at least one piece.
pub proof fn lemma_split_not_empty(s: Seq<char>, start: int, i: int, separator: char)
    requires
        0 <= start <= i <= s.len(),
    ensures
        split_from(s, start, i, separator).len() > 0,
    decreases s.len() - i,
{
    if i < s.len() {
        if s[i] == separator {
            lemma_split_not_empty(s, i + 1, i + 1, separator);
        } else {
            lemma_split_not_empty(s, start, i + 1, separator);
        }
    }
}

// ---------------------------------------------------------------------------
// From the standard library

/// `String::from_utf8`: the text that the bytes encode, none where they are not UTF-8.
#[verifier::external_body]
pub(crate) fn text_of_bytes(bytes: Vec<u8>) -> (text: Option<String>)
    ensures
        match text {
            Some(text) => valid_utf8(bytes@) && encode_utf8(text@) == bytes@,
            None => !valid_utf8(bytes@),
        },
{
    String::from_utf8(bytes).ok()
}

/// How `Debug` writes a string.
pub uninterp spec fn debug_format(text: Seq<char>) -> Seq<char>;

/// `Debug` of a string: the text in quotes, with escapes.
#[verifier::external_body]
pub(crate) fn debug_text(text: &str) -> (quoted: String)
    ensures
        quoted@ == debug_format(text@),
{
    format!("{text:?}")
}

} // verus!
