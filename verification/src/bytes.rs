//! Byte-buffer building blocks: little-endian integers and ASCII text.
use vstd::prelude::*;
use crate::strings::chars_of;
use crate::text::decimal;

verus! {

/// Little-endian bytes of a 32-bit value.
#[verifier::opaque]
pub open spec fn le32(x: u32) -> Seq<u8> {
    seq![(x % 256) as u8, ((x / 256) % 256) as u8, ((x / 65536) % 256) as u8, (x / 16777216) as u8]
}

/// Byte `b` of `x`, counting from the least significant byte (`b` in
/// `0..4`).
pub open spec fn byte_of(x: u32, b: int) -> int {
    if b == 0 {
        x as int % 256
    } else if b == 1 {
        (x as int / 256) % 256
    } else if b == 2 {
        (x as int / 65536) % 256
    } else {
        (x as int / 16777216) % 256
    }
}

/// Law: the little-endian bytes of `x` are its bytes from the least
/// significant one up.
pub proof fn lemma_le32_bytes(x: u32)
    ensures
        le32(x).len() == 4,
        forall|b: int| 0 <= b < 4 ==> #[trigger] le32(x)[b] as int == byte_of(x, b),
{
    reveal(le32);
    assert(x as int / 16777216 < 256);
}

/// Four bytes per value.
pub broadcast proof fn lemma_le32_len(x: u32)
    ensures
        #[trigger] le32(x).len() == 4,
{
    reveal(le32);
}

/// The bytes of text whose characters are all ASCII (one byte each).
pub open spec fn ascii_bytes(s: Seq<char>) -> Seq<u8> {
    s.map_values(|c: char| c as u8)
}

/// Appends the little-endian bytes of `x`.
pub fn push_u32_le(v: &mut Vec<u8>, x: u32)
    ensures
        final(v)@ == old(v)@ + le32(x),
{
    v.push((x % 256) as u8);
    v.push(((x / 256) % 256) as u8);
    v.push(((x / 65536) % 256) as u8);
    v.push((x / 16777216) as u8);
    reveal(le32);
    assert(v@ =~= old(v)@ + le32(x));
}

/// Appends the characters of `s` as single bytes.
pub fn push_ascii(v: &mut Vec<u8>, s: &str)
    ensures
        final(v)@ == old(v)@ + ascii_bytes(s@),
{
    let cs = chars_of(s);
    let mut i: usize = 0;
    while i < cs.len()
        invariant
            i <= cs.len(),
            cs@ == s@,
            v@ =~= old(v)@ + ascii_bytes(cs@.take(i as int)),
        decreases cs.len() - i,
    {
        v.push(cs[i] as u8);
        i = i + 1;
        assert(ascii_bytes(cs@.take(i as int)) =~= ascii_bytes(cs@.take(i - 1)).push(cs@[i - 1] as u8));
    }
    assert(cs@.take(cs.len() as int) =~= cs@);
}

/// Appends the decimal digits of `n` as ASCII bytes.
pub fn push_decimal_ascii(v: &mut Vec<u8>, n: u64)
    ensures
        final(v)@ == old(v)@ + ascii_bytes(decimal(n as nat)),
    decreases n,
{
    if n >= 10 {
        push_decimal_ascii(v, n / 10);
    }
    let d: u64 = n % 10;
    v.push((d + 48) as u8);
    assert(ascii_bytes(decimal(n as nat)) =~= ascii_bytes(decimal((n / 10) as nat)).push((d + 48) as u8)
        || n < 10);
    assert(v@ =~= old(v)@ + ascii_bytes(decimal(n as nat)));
}

} // verus!
