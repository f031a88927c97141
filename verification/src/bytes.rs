//! Little-endian byte encodings of the integer fields used by the file formats.
use vstd::prelude::*;

verus! {

/// The two little-endian bytes of `x`.
pub open spec fn u16_le_bytes(x: u16) -> Seq<u8> {
    seq![(x % 256) as u8, (x / 256) as u8]
}

/// The four little-endian bytes of `x`.
pub open spec fn u32_le_bytes(x: u32) -> Seq<u8> {
    seq![(x % 256) as u8, ((x / 256) % 256) as u8, ((x / 65536) % 256) as u8, (x / 16777216) as u8]
}

/// The value of two little-endian bytes.
pub open spec fn u16_from_le(b0: u8, b1: u8) -> u16 {
    (b0 + 256 * b1) as u16
}

/// The value of four little-endian bytes.
pub open spec fn u32_from_le(b0: u8, b1: u8, b2: u8, b3: u8) -> u32 {
    (b0 + 256 * b1 + 65536 * b2 + 16777216 * b3) as u32
}

/// Appends the little-endian bytes of `x`.
pub fn push_u16_le(buffer: &mut Vec<u8>, x: u16)
    ensures
        final(buffer)@ == old(buffer)@ + u16_le_bytes(x),
{
    buffer.push((x % 256) as u8);
    buffer.push((x / 256) as u8);
    assert(final(buffer)@ =~= old(buffer)@ + u16_le_bytes(x));
}

/// Appends the little-endian bytes of `x`.
pub fn push_u32_le(buffer: &mut Vec<u8>, x: u32)
    ensures
        final(buffer)@ == old(buffer)@ + u32_le_bytes(x),
{
    buffer.push((x % 256) as u8);
    buffer.push(((x / 256) % 256) as u8);
    buffer.push(((x / 65536) % 256) as u8);
    buffer.push((x / 16777216) as u8);
    assert(final(buffer)@ =~= old(buffer)@ + u32_le_bytes(x));
}

/// Reading back the bytes of a value gives the value.
pub proof fn lemma_u16_le_roundtrip(x: u16)
    ensures
        u16_from_le(u16_le_bytes(x)[0], u16_le_bytes(x)[1]) == x,
{
}

/// Reading back the bytes of a value gives the value.
pub proof fn lemma_u32_le_roundtrip(x: u32)
    ensures
        u32_from_le(u32_le_bytes(x)[0], u32_le_bytes(x)[1], u32_le_bytes(x)[2], u32_le_bytes(x)[3]) == x,
{
}

} // verus!
