//! Conversion between UTF-16 ranges used by input methods and UTF-8 byte
//! ranges of the edited text.

use std::ops::Range;

use vstd::prelude::*;
use vstd::utf8::{encode_scalar, encode_utf8};

use crate::text::chars_of;

verus! {

/// Number of bytes in the UTF-8 encoding of `c`.
pub open spec fn utf8_width(c: char) -> nat {
    if (c as u32) < 0x80 {
        1
    } else if (c as u32) < 0x800 {
        2
    } else if (c as u32) < 0x10000 {
        3
    } else {
        4
    }
}

/// Number of code units in the UTF-16 encoding of `c`.
pub open spec fn utf16_width(c: char) -> nat {
    if (c as u32) < 0x10000 {
        1
    } else {
        2
    }
}

/// Length in bytes of the UTF-8 encoding of `s`.
pub open spec fn utf8_length(s: Seq<char>) -> nat
    decreases s.len(),
{
    if s.len() == 0 {
        0
    } else {
        utf8_width(s[0]) + utf8_length(s.drop_first())
    }
}

/// Length in code units of the UTF-16 encoding of `s`.
pub open spec fn utf16_length(s: Seq<char>) -> nat
    decreases s.len(),
{
    if s.len() == 0 {
        0
    } else {
        utf16_width(s[0]) + utf16_length(s.drop_first())
    }
}

/// Number of leading characters of `s` whose UTF-16 encoding ends at or
/// before code unit `offset`.
pub open spec fn utf16_floor(s: Seq<char>, offset: int) -> nat
    decreases s.len(),
{
    if s.len() == 0 || offset < utf16_width(s[0]) {
        0
    } else {
        1 + utf16_floor(s.drop_first(), offset - utf16_width(s[0]))
    }
}

/// Number of leading characters of `s` whose UTF-8 encoding ends at or
/// before byte `offset`.
pub open spec fn utf8_floor(s: Seq<char>, offset: int) -> nat
    decreases s.len(),
{
    if s.len() == 0 || offset < utf8_width(s[0]) {
        0
    } else {
        1 + utf8_floor(s.drop_first(), offset - utf8_width(s[0]))
    }
}

/// Byte offset of the character boundary at or before UTF-16 offset `offset`
/// (the end of the text when `offset` lies past it).
pub open spec fn byte_of_utf16(s: Seq<char>, offset: int) -> nat {
    utf8_length(s.take(utf16_floor(s, offset) as int))
}

/// UTF-16 offset of the character boundary at or before byte `offset` (the
/// end of the text when `offset` lies past it).
pub open spec fn utf16_of_byte(s: Seq<char>, offset: int) -> nat {
    utf16_length(s.take(utf8_floor(s, offset) as int))
}

proof fn lemma_utf8_length_concat(a: Seq<char>, b: Seq<char>)
    ensures
        utf8_length(a + b) == utf8_length(a) + utf8_length(b),
    decreases a.len(),
{
    if a.len() > 0 {
        lemma_utf8_length_concat(a.drop_first(), b);
        assert((a + b).drop_first() =~= a.drop_first() + b);
    } else {
        assert(a + b =~= b);
    }
}

proof fn lemma_utf16_length_concat(a: Seq<char>, b: Seq<char>)
    ensures
        utf16_length(a + b) == utf16_length(a) + utf16_length(b),
    decreases a.len(),
{
    if a.len() > 0 {
        lemma_utf16_length_concat(a.drop_first(), b);
        assert((a + b).drop_first() =~= a.drop_first() + b);
    } else {
        assert(a + b =~= b);
    }
}

/// The UTF-8 length of a text is the length of its encoding.
proof fn lemma_encoded_length(s: Seq<char>)
    ensures
        encode_utf8(s).len() == utf8_length(s),
    decreases s.len(),
{
    if s.len() > 0 {
        lemma_encoded_length(s.drop_first());
        lemma_scalar_width(s[0]);
    }
}

/// The UTF-8 encoding of one character has `utf8_width` bytes.
proof fn lemma_scalar_width(c: char)
    ensures
        encode_scalar(c as u32).len() == utf8_width(c),
{
    let v = c as u32;
    assert(v <= 0x10FFFF);
    assert(!(0xD800 <= v <= 0xDFFF));
}

/// No character takes more UTF-16 units than UTF-8 bytes.
proof fn lemma_utf16_within_utf8(s: Seq<char>)
    ensures
        utf16_length(s) <= utf8_length(s),
    decreases s.len(),
{
    if s.len() > 0 {
        lemma_utf16_within_utf8(s.drop_first());
    }
}

/// Splitting `s` at `i` splits both encoded lengths.
proof fn lemma_lengths_split(s: Seq<char>, i: int)
    requires
        0 <= i < s.len(),
    ensures
        utf8_length(s.take(i + 1)) == utf8_length(s.take(i)) + utf8_width(s[i]),
        utf16_length(s.take(i + 1)) == utf16_length(s.take(i)) + utf16_width(s[i]),
        utf8_length(s.skip(i)) == utf8_width(s[i]) + utf8_length(s.skip(i + 1)),
        utf16_length(s.skip(i)) == utf16_width(s[i]) + utf16_length(s.skip(i + 1)),
        s.skip(i)[0] == s[i],
        s.skip(i).drop_first() == s.skip(i + 1),
{
    reveal_with_fuel(utf8_length, 2);
    reveal_with_fuel(utf16_length, 2);
    assert(s.take(i + 1) =~= s.take(i) + seq![s[i]]);
    lemma_utf8_length_concat(s.take(i), seq![s[i]]);
    lemma_utf16_length_concat(s.take(i), seq![s[i]]);
    assert(seq![s[i]].drop_first() =~= Seq::<char>::empty());
    assert(s.skip(i).drop_first() =~= s.skip(i + 1));
}

proof fn lemma_take_skip(s: Seq<char>, i: int)
    requires
        0 <= i <= s.len(),
    ensures
        utf8_length(s.take(i)) + utf8_length(s.skip(i)) == utf8_length(s),
        utf16_length(s.take(i)) + utf16_length(s.skip(i)) == utf16_length(s),
{
    assert(s =~= s.take(i) + s.skip(i));
    lemma_utf8_length_concat(s.take(i), s.skip(i));
    lemma_utf16_length_concat(s.take(i), s.skip(i));
}

/// Offsets on character boundaries survive a round trip between UTF-16 and
/// bytes: the boundary after the first `k` characters maps to the same
/// boundary in either unit.
pub proof fn lemma_boundary_roundtrip(s: Seq<char>, k: int)
    requires
        0 <= k <= s.len(),
    ensures
        byte_of_utf16(s, utf16_length(s.take(k)) as int) == utf8_length(s.take(k)),
        utf16_of_byte(s, utf8_length(s.take(k)) as int) == utf16_length(s.take(k)),
{
    lemma_floor_at_boundary(s, k);
}

/// Byte range, in order, of the UTF-16 range `start..end` of `s`, both ends
/// moved back to character boundaries.
pub open spec fn utf16_range_bytes(s: Seq<char>, start: int, end: int) -> (int, int) {
    let a = byte_of_utf16(s, start) as int;
    let b = byte_of_utf16(s, end) as int;
    if a <= b { (a, b) } else { (b, a) }
}

/// UTF-16 range, in order, of the byte range `start..end` of `s`, both ends
/// moved back to character boundaries.
pub open spec fn byte_range_units(s: Seq<char>, start: int, end: int) -> (int, int) {
    let a = utf16_of_byte(s, start) as int;
    let b = utf16_of_byte(s, end) as int;
    if a <= b { (a, b) } else { (b, a) }
}

/// Ranges between character boundaries survive a round trip: the UTF-16
/// range between the boundaries after `a` and `b` characters converts to the
/// byte range between the same boundaries and back, and the byte range
/// converts to the UTF-16 range and back.
pub proof fn lemma_range_roundtrip(s: Seq<char>, a: int, b: int)
    requires
        0 <= a <= b <= s.len(),
    ensures
        utf16_range_bytes(s, utf16_length(s.take(a)) as int, utf16_length(s.take(b)) as int) == (
            utf8_length(s.take(a)) as int,
            utf8_length(s.take(b)) as int,
        ),
        byte_range_units(s, utf8_length(s.take(a)) as int, utf8_length(s.take(b)) as int) == (
            utf16_length(s.take(a)) as int,
            utf16_length(s.take(b)) as int,
        ),
        ({
            let (x, y) = utf16_range_bytes(s, utf16_length(s.take(a)) as int, utf16_length(s.take(b)) as int);
            byte_range_units(s, x, y)
        }) == (utf16_length(s.take(a)) as int, utf16_length(s.take(b)) as int),
        ({
            let (x, y) = byte_range_units(s, utf8_length(s.take(a)) as int, utf8_length(s.take(b)) as int);
            utf16_range_bytes(s, x, y)
        }) == (utf8_length(s.take(a)) as int, utf8_length(s.take(b)) as int),
{
    lemma_boundary_roundtrip(s, a);
    lemma_boundary_roundtrip(s, b);
    let t = s.take(b);
    assert(t.take(a) =~= s.take(a));
    lemma_take_skip(t, a);
}

proof fn lemma_floor_at_boundary(s: Seq<char>, k: int)
    requires
        0 <= k <= s.len(),
    ensures
        utf16_floor(s, utf16_length(s.take(k)) as int) == k,
        utf8_floor(s, utf8_length(s.take(k)) as int) == k,
    decreases k,
{
    if k == 0 {
        assert(s.take(0) =~= Seq::<char>::empty());
    } else {
        assert(s.take(k).drop_first() =~= s.drop_first().take(k - 1));
        assert(s.take(k)[0] == s[0]);
        lemma_floor_at_boundary(s.drop_first(), k - 1);
    }
}

pub(crate) fn char_utf8_width(c: char) -> (width: usize)
    ensures
        width == utf8_width(c),
{
    let code = c as u32;
    if code < 0x80 {
        1
    } else if code < 0x800 {
        2
    } else if code < 0x10000 {
        3
    } else {
        4
    }
}

fn char_utf16_width(c: char) -> (width: usize)
    ensures
        width == utf16_width(c),
{
    if (c as u32) < 0x10000 {
        1
    } else {
        2
    }
}

/// Byte offset of the character boundary at or before UTF-16 offset `offset`;
/// the text length when `offset` lies past the end.
pub fn utf16_offset_to_byte(text: &str, offset: usize) -> (byte: usize)
    ensures
        byte == byte_of_utf16(text@, offset as int),
{
    let chars = chars_of(text);
    let total: usize = text.as_bytes().len();
    let ghost s = text@;
    proof {
        lemma_encoded_length(s);
        assert(s.take(0) =~= Seq::<char>::empty());
        assert(s.skip(0) =~= s);
    }
    let mut i: usize = 0;
    let mut utf16: usize = 0;
    let mut byte: usize = 0;
    while i < chars.len()
        invariant
            s == text@,
            chars@ == s,
            i <= s.len(),
            utf8_length(s) == total,
            utf16 == utf16_length(s.take(i as int)),
            byte == utf8_length(s.take(i as int)),
            utf16 <= offset,
            utf16_floor(s, offset as int) == i + utf16_floor(s.skip(i as int), offset - utf16),
        decreases s.len() - i,
    {
        let c = chars[i];
        proof {
            lemma_lengths_split(s, i as int);
            lemma_take_skip(s, (i + 1) as int);
            lemma_utf16_within_utf8(s.take(i + 1));
        }
        let next = utf16 + char_utf16_width(c);
        if offset < next {
            proof {
                assert(utf16_floor(s.skip(i as int), offset - utf16) == 0);
            }
            return byte;
        }
        utf16 = next;
        byte = byte + char_utf8_width(c);
        i = i + 1;
    }
    proof {
        assert(s.skip(i as int).len() == 0);
        assert(s.take(i as int) =~= s.take(utf16_floor(s, offset as int) as int));
    }
    byte
}

/// UTF-16 offset of the character boundary at or before byte `offset`; the
/// UTF-16 length of the text when `offset` lies past the end.
pub fn byte_offset_to_utf16(text: &str, offset: usize) -> (units: usize)
    ensures
        units == utf16_of_byte(text@, offset as int),
{
    let chars = chars_of(text);
    let total: usize = text.as_bytes().len();
    let ghost s = text@;
    proof {
        lemma_encoded_length(s);
        assert(s.take(0) =~= Seq::<char>::empty());
        assert(s.skip(0) =~= s);
    }
    let mut i: usize = 0;
    let mut utf16: usize = 0;
    let mut byte: usize = 0;
    while i < chars.len()
        invariant
            s == text@,
            chars@ == s,
            i <= s.len(),
            utf8_length(s) == total,
            utf16 == utf16_length(s.take(i as int)),
            byte == utf8_length(s.take(i as int)),
            byte <= offset,
            utf8_floor(s, offset as int) == i + utf8_floor(s.skip(i as int), offset - byte),
        decreases s.len() - i,
    {
        let c = chars[i];
        proof {
            lemma_lengths_split(s, i as int);
            lemma_take_skip(s, (i + 1) as int);
            lemma_utf16_within_utf8(s.take(i + 1));
        }
        let next = byte + char_utf8_width(c);
        if offset < next {
            proof {
                assert(utf8_floor(s.skip(i as int), offset - byte) == 0);
            }
            return utf16;
        }
        byte = next;
        utf16 = utf16 + char_utf16_width(c);
        i = i + 1;
    }
    proof {
        assert(s.skip(i as int).len() == 0);
        assert(s.take(i as int) =~= s.take(utf8_floor(s, offset as int) as int));
    }
    utf16
}

/// Byte range covered by a UTF-16 range of `text`, with both ends moved back
/// to character boundaries, clamped to the text and put in order.
pub fn utf16_range_to_byte(text: &str, range: Range<usize>) -> (bytes: Range<usize>)
    ensures
        (bytes.start as int, bytes.end as int) == utf16_range_bytes(
            text@,
            range.start as int,
            range.end as int,
        ),
{
    let start = utf16_offset_to_byte(text, range.start);
    let end = utf16_offset_to_byte(text, range.end);
    if start <= end {
        start..end
    } else {
        end..start
    }
}

/// UTF-16 range covered by a byte range of `text`, with both ends moved back
/// to character boundaries, clamped to the text and put in order.
pub fn byte_range_to_utf16(text: &str, range: Range<usize>) -> (units: Range<usize>)
    ensures
        (units.start as int, units.end as int) == byte_range_units(
            text@,
            range.start as int,
            range.end as int,
        ),
{
    let start = byte_offset_to_utf16(text, range.start);
    let end = byte_offset_to_utf16(text, range.end);
    if start <= end {
        start..end
    } else {
        end..start
    }
}

} // verus!
