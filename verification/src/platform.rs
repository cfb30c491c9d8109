//! Text in the form the Windows API takes it.

use vstd::prelude::*;
use crate::text::chars_of;

verus! {

/// The UTF-16 code units of `c`: one unit inside the basic multilingual
/// plane, a surrogate pair outside it.
pub open spec fn utf16_units(c: char) -> Seq<u16> {
    let u = c as u32;
    if u < 0x10000 {
        seq![u as u16]
    } else {
        let v = u - 0x10000;
        seq![(0xD800 + v / 0x400) as u16, (0xDC00 + v % 0x400) as u16]
    }
}

/// The UTF-16 encoding of `s` (what `str::encode_utf16` yields).
pub open spec fn utf16(s: Seq<char>) -> Seq<u16>
    decreases s.len(),
{
    if s.len() == 0 {
        Seq::empty()
    } else {
        utf16(s.drop_last()) + utf16_units(s.last())
    }
}

/// `text` as a NUL-terminated UTF-16 string.
pub fn wide(text: &str) -> (r: Vec<u16>)
    ensures
        r@ == utf16(text@).push(0u16),
{
    let v = chars_of(text);
    let mut out: Vec<u16> = Vec::new();
    let mut i: usize = 0;
    while i < v.len()
        invariant
            v@ == text@,
            i <= v.len(),
            out@ == utf16(text@.take(i as int)),
        decreases v.len() - i,
    {
        let c = v[i];
        let u = c as u32;
        if u < 0x10000 {
            out.push(u as u16);
        } else {
            let w = u - 0x10000;
            out.push((0xD800 + w / 0x400) as u16);
            out.push((0xDC00 + w % 0x400) as u16);
        }
        proof {
            assert(text@.take(i + 1).drop_last() =~= text@.take(i as int));
            assert(out@ =~= utf16(text@.take(i + 1)));
        }
        i += 1;
    }
    assert(text@.take(v.len() as int) =~= text@);
    out.push(0u16);
    out
}

} // verus!

verus! {

/// The UTF-16 units of a character decode back to it: a character of the
/// basic multilingual plane is its own unit, any other is a high surrogate
/// followed by a low surrogate that together give back its code point.
pub proof fn utf16_units_decode(c: char)
    ensures
        (c as u32) < 0x10000 ==> utf16_units(c) == seq![c as u32 as u16] && (c as u32) == (c as u32 as u16) as u32,
        (c as u32) >= 0x10000 ==> {
            let u = utf16_units(c);
            &&& u.len() == 2
            &&& 0xD800 <= u[0] && u[0] <= 0xDBFF
            &&& 0xDC00 <= u[1] && u[1] <= 0xDFFF
            &&& ((u[0] as int - 0xD800) * 0x400 + (u[1] as int - 0xDC00) + 0x10000) == c as int
        },
{
    let x = c as u32;
    if x >= 0x10000 {
        let v = x - 0x10000;
        assert(v <= 0xFFFFF);
        assert(v / 0x400 <= 0x3FF);
        assert((v / 0x400) * 0x400 + v % 0x400 == v);
    }
}

} // verus!

verus! {

/// Encoding is per character: the encoding of `a` followed by `b` is the
/// encoding of `a` followed by that of `b`.
pub proof fn utf16_is_per_character(a: Seq<char>, b: Seq<char>)
    ensures
        utf16(a + b) == utf16(a) + utf16(b),
    decreases b.len(),
{
    if b.len() == 0 {
        assert(a + b =~= a);
        assert(utf16(a) + utf16(b) =~= utf16(a));
    } else {
        utf16_is_per_character(a, b.drop_last());
        assert((a + b).drop_last() =~= a + b.drop_last());
        assert((a + b).last() == b.last());
        assert(utf16(a + b) =~= utf16(a) + utf16(b));
    }
}

/// One character encodes to exactly its units.
pub proof fn utf16_of_one_character(c: char)
    ensures
        utf16(seq![c]) == utf16_units(c),
{
    let s = seq![c];
    assert(s.drop_last() =~= Seq::<char>::empty());
    assert(s.last() == c);
    assert(utf16(s) == utf16(s.drop_last()) + utf16_units(s.last()));
    assert(utf16(Seq::<char>::empty()) == Seq::<u16>::empty());
    assert(Seq::<u16>::empty() + utf16_units(c) =~= utf16_units(c));
}

} // verus!
