//! Little-endian encoding of fixed-width unsigned integers.

use vstd::prelude::*;

verus! {

/// The two bytes of `x`, least significant first.
pub open spec fn le_u16(x: u16) -> Seq<u8> {
    seq![(x % 256) as u8, ((x / 256) % 256) as u8]
}

/// The four bytes of `x`, least significant first.
pub open spec fn le_u32(x: u32) -> Seq<u8> {
    seq![
        (x % 256) as u8,
        ((x / 0x100) % 256) as u8,
        ((x / 0x1_0000) % 256) as u8,
        ((x / 0x100_0000) % 256) as u8,
    ]
}

/// The eight bytes of `x`, least significant first.
pub open spec fn le_u64(x: u64) -> Seq<u8> {
    le_u32((x % 0x1_0000_0000) as u32) + le_u32((x / 0x1_0000_0000) as u32)
}

/// Appends the little-endian bytes of `x` to `buf`.
pub fn push_u16(buf: &mut Vec<u8>, x: u16)
    ensures
        final(buf)@ == old(buf)@ + le_u16(x),
{
    buf.push((x % 256) as u8);
    buf.push(((x / 256) % 256) as u8);
}

/// Appends the little-endian bytes of `x` to `buf`.
pub fn push_u32(buf: &mut Vec<u8>, x: u32)
    ensures
        final(buf)@ == old(buf)@ + le_u32(x),
{
    buf.push((x % 256) as u8);
    buf.push(((x / 0x100) % 256) as u8);
    buf.push(((x / 0x1_0000) % 256) as u8);
    buf.push(((x / 0x100_0000) % 256) as u8);
}

/// Appends the little-endian bytes of `x` to `buf`.
pub fn push_u64(buf: &mut Vec<u8>, x: u64)
    ensures
        final(buf)@ == old(buf)@ + le_u64(x),
{
    push_u32(buf, (x % 0x1_0000_0000) as u32);
    push_u32(buf, (x / 0x1_0000_0000) as u32);
}

} // verus!
