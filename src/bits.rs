//! Bit-order helpers for the header bytes of the binary format.
use bit_reverse::ParallelReverse;
use vstd::prelude::*;

verus! {

/// The byte `b` with its bit order reversed: bit `i` moves to bit `7 - i`.
pub open spec fn reversed(b: u8) -> u8 {
    (((b & 0x01u8) << 7u8) | ((b & 0x02u8) << 5u8) | ((b & 0x04u8) << 3u8) | ((b & 0x08u8) << 1u8)
        | ((b & 0x10u8) >> 1u8) | ((b & 0x20u8) >> 3u8) | ((b & 0x40u8) >> 5u8) | ((b
        & 0x80u8) >> 7u8)) as u8
}

/// Reversing the bit order twice gives the byte back.
pub proof fn lemma_reversed_involution(b: u8)
    ensures
        reversed(reversed(b)) == b,
{
    assert(reversed(reversed(b)) == b) by (bit_vector);
}

/// Relies on `bit_reverse::ParallelReverse::swap_bits` for `u8`, which moves bit `i` to
/// bit `7 - i`.
#[verifier::external_body]
pub(crate) fn swap_bits(b: u8) -> (r: u8)
    ensures
        r == reversed(b),
{
    b.swap_bits()
}

} // verus!
