//! CRC-32 as ZIP uses it (ISO-HDLC: the reflected polynomial `0xEDB88320`,
//! register started and ended inverted), and how it runs over pieces.

use vstd::prelude::*;

verus! {

/// The register after one bit: shift right, and fold in the polynomial when
/// the bit shifted out was set.
pub open spec fn crc32_bit(reg: u32) -> u32 {
    if reg & 1 == 1 {
        (reg >> 1u32) ^ 0xEDB8_8320u32
    } else {
        reg >> 1u32
    }
}

/// The register after one byte, least significant bit first.
pub open spec fn crc32_byte(reg: u32, b: u8) -> u32 {
    let r0 = reg ^ (b as u32);
    crc32_bit(crc32_bit(crc32_bit(crc32_bit(crc32_bit(crc32_bit(crc32_bit(crc32_bit(r0))))))))
}

/// The register after the bytes `data`, in order.
pub open spec fn crc32_register(reg: u32, data: Seq<u8>) -> u32
    decreases data.len(),
{
    if data.len() == 0 {
        reg
    } else {
        crc32_byte(crc32_register(reg, data.drop_last()), data.last())
    }
}

/// The CRC-32 of `data` continued from the CRC-32 `crc` of what came before.
pub open spec fn crc32_continue(crc: u32, data: Seq<u8>) -> u32 {
    !crc32_register(!crc, data)
}

/// The CRC-32 of `data`.
pub open spec fn crc32(data: Seq<u8>) -> u32 {
    crc32_continue(0, data)
}

proof fn lemma_register_concat(reg: u32, a: Seq<u8>, b: Seq<u8>)
    ensures
        crc32_register(crc32_register(reg, a), b) == crc32_register(reg, a + b),
    decreases b.len(),
{
    if b.len() == 0 {
        assert(a + b =~= a);
    } else {
        lemma_register_concat(reg, a, b.drop_last());
        assert((a + b).drop_last() =~= a + b.drop_last());
        assert((a + b).last() == b.last());
    }
}

/// Running the CRC over two pieces in turn gives the CRC of the two joined:
/// continuing the CRC-32 of `a` over `b` is continuing from `crc` over `a + b`.
pub proof fn lemma_crc32_continue_concat(crc: u32, a: Seq<u8>, b: Seq<u8>)
    ensures
        crc32_continue(crc32_continue(crc, a), b) == crc32_continue(crc, a + b),
{
    let r = crc32_register(!crc, a);
    assert(!(!r) == r) by (bit_vector);
    lemma_register_concat(!crc, a, b);
}

/// Continuing a CRC-32 over no bytes leaves it as it was.
pub proof fn lemma_crc32_continue_empty(crc: u32)
    ensures
        crc32_continue(crc, Seq::<u8>::empty()) == crc,
{
    assert(!(!crc) == crc) by (bit_vector);
}

} // verus!
