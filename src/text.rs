//! The byte encodings of string literals: UTF-8, ASCII and UTF-16.
use vstd::prelude::*;
use vstd::utf8::{encode_scalar, encode_utf8, char_is_scalar};
use crate::bytes::{ordered_bytes, push_ordered};

verus! {

/// The UTF-16 code units of one character.
pub open spec fn utf16_units(c: char) -> Seq<u16> {
    let v = c as u32;
    if v < 0x10000 {
        seq![v as u16]
    } else {
        let w = (v - 0x10000) as u32;
        seq![(0xD800 + w / 1024) as u16, (0xDC00 + w % 1024) as u16]
    }
}

/// The bytes of a sequence of UTF-16 code units, each in the given order.
pub open spec fn units_bytes(u: Seq<u16>, little: bool) -> Seq<u8>
    decreases u.len(),
{
    if u.len() == 0 {
        seq![]
    } else {
        units_bytes(u.drop_last(), little) + ordered_bytes(u.last() as nat, 2, little)
    }
}

/// The UTF-16 encoding of a text, each code unit in the given order.
pub open spec fn utf16_bytes(s: Seq<char>, little: bool) -> Seq<u8>
    decreases s.len(),
{
    if s.len() == 0 {
        seq![]
    } else {
        utf16_bytes(s.drop_last(), little) + units_bytes(utf16_units(s.last()), little)
    }
}

pub proof fn lemma_encode_utf8_push(s: Seq<char>, c: char)
    ensures
        encode_utf8(s.push(c)) == encode_utf8(s) + encode_scalar(c as u32),
    decreases s.len(),
{
    if s.len() == 0 {
        assert(s.push(c).drop_first() =~= seq![]);
        assert(encode_utf8(seq![]) =~= seq![]);
        assert(encode_utf8(s.push(c)) =~= encode_scalar(c as u32));
    } else {
        assert(s.push(c).drop_first() =~= s.drop_first().push(c));
        lemma_encode_utf8_push(s.drop_first(), c);
        assert(encode_utf8(s.push(c)) =~= encode_utf8(s) + encode_scalar(c as u32));
    }
}

/// Appends the UTF-8 encoding of one character.
pub fn push_utf8_char(out: &mut Vec<u8>, c: char)
    ensures
        final(out)@ == old(out)@ + encode_scalar(c as u32),
{
    proof {
        char_is_scalar(c);
    }
    let v = c as u32;
    if v <= 0x7F {
        out.push((v & 0x7F) as u8);
    } else if v <= 0x7FF {
        out.push(0xC0 | ((v >> 6) & 0x1F) as u8);
        out.push(0x80 | (v & 0x3F) as u8);
    } else if v <= 0xFFFF {
        out.push(0xE0 | ((v >> 12) & 0x0F) as u8);
        out.push(0x80 | ((v >> 6) & 0x3F) as u8);
        out.push(0x80 | (v & 0x3F) as u8);
    } else {
        out.push(0xF0 | ((v >> 18) & 0x7) as u8);
        out.push(0x80 | ((v >> 12) & 0x3F) as u8);
        out.push(0x80 | ((v >> 6) & 0x3F) as u8);
        out.push(0x80 | (v & 0x3F) as u8);
    }
}

/// Appends the UTF-8 encoding of a text.
pub fn push_utf8(out: &mut Vec<u8>, s: &Vec<char>)
    ensures
        final(out)@ == old(out)@ + encode_utf8(s@),
{
    let mut i: usize = 0;
    while i < s.len()
        invariant
            i <= s@.len(),
            out@ == old(out)@ + encode_utf8(s@.subrange(0, i as int)),
        decreases s@.len() - i,
    {
        proof {
            lemma_encode_utf8_push(s@.subrange(0, i as int), s@[i as int]);
            assert(s@.subrange(0, i + 1) =~= s@.subrange(0, i as int).push(s@[i as int]));
        }
        push_utf8_char(out, s[i]);
        i = i + 1;
    }
    assert(s@.subrange(0, s@.len() as int) =~= s@);
}

/// Every character of the text is ASCII.
pub open spec fn is_ascii_text(s: Seq<char>) -> bool {
    forall|j: int| 0 <= j < s.len() ==> #[trigger] s[j] <= '\u{7f}'
}

/// Whether every character of a text is ASCII.
pub fn all_ascii(s: &Vec<char>) -> (r: bool)
    ensures
        r == is_ascii_text(s@),
{
    let mut i: usize = 0;
    while i < s.len()
        invariant
            i <= s@.len(),
            forall|j: int| 0 <= j < i ==> #[trigger] s@[j] <= '\u{7f}',
        decreases s@.len() - i,
    {
        if s[i] > '\u{7f}' {
            return false;
        }
        i = i + 1;
    }
    true
}

/// Appends the UTF-16 encoding of a text, each code unit in the given order.
pub fn push_utf16(out: &mut Vec<u8>, s: &Vec<char>, little: bool)
    ensures
        final(out)@ == old(out)@ + utf16_bytes(s@, little),
{
    let mut i: usize = 0;
    while i < s.len()
        invariant
            i <= s@.len(),
            out@ == old(out)@ + utf16_bytes(s@.subrange(0, i as int), little),
        decreases s@.len() - i,
    {
        let c = s[i];
        let ghost before = out@;
        let ghost prefix = s@.subrange(0, i as int);
        assert(s@.subrange(0, i + 1).drop_last() =~= prefix);
        proof {
            char_is_scalar(c);
        }
        let v = c as u32;
        if v < 0x10000 {
            push_ordered(out, v as u16 as u128, 2, little);
            let ghost units = utf16_units(c);
            assert(units.drop_last() =~= Seq::<u16>::empty());
            assert(units_bytes(Seq::<u16>::empty(), little) =~= seq![]);
            assert(units_bytes(units, little) =~= ordered_bytes((v as u16) as nat, 2, little));
        } else {
            let w: u32 = v - 0x10000;
            let hi = (0xD800 + w / 1024) as u16;
            let lo = (0xDC00 + w % 1024) as u16;
            push_ordered(out, hi as u128, 2, little);
            push_ordered(out, lo as u128, 2, little);
            let ghost units = utf16_units(c);
            assert(units.drop_last() =~= seq![hi]);
            assert(seq![hi].drop_last() =~= Seq::<u16>::empty());
            assert(units_bytes(Seq::<u16>::empty(), little) =~= seq![]);
            assert(units_bytes(seq![hi], little) =~= ordered_bytes(hi as nat, 2, little));
        }
        assert(out@ =~= before + units_bytes(utf16_units(c), little));
        i = i + 1;
    }
    assert(s@.subrange(0, s@.len() as int) =~= s@);
}

} // verus!
