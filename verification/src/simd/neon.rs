//! Hamming distance kernels of the ARM NEON path, in portable form.

use crate::bits::{hamming_bits, xor_popcount};
use vstd::prelude::*;

verus! {

/// Hamming distance between two equally long byte slices.
pub fn hamming_distance_slice(a: &[u8], b: &[u8]) -> (d: u32)
    requires
        a@.len() == b@.len(),
        hamming_bits(a@, b@) <= u32::MAX,
    ensures
        d == hamming_bits(a@, b@),
{
    xor_popcount(a, b)
}

/// Hamming distance between two 96-byte (768-bit) binary vectors.
pub fn hamming_distance(a: &[u8; 96], b: &[u8; 96]) -> (d: u32)
    ensures
        d == hamming_bits(a@, b@),
        d <= 768,
{
    proof {
        crate::bits::lemma_hamming_bound(a@, b@);
    }
    hamming_distance_slice(a.as_slice(), b.as_slice())
}

/// The portable Hamming distance over slices, against which the NEON path is
/// checked.
pub fn hamming_distance_portable_ref(a: &[u8], b: &[u8]) -> (d: u32)
    requires
        a@.len() == b@.len(),
        hamming_bits(a@, b@) <= u32::MAX,
    ensures
        d == hamming_bits(a@, b@),
{
    xor_popcount(a, b)
}

} // verus!
