//! XOR + popcount over byte slices (Hamming distance between binary vectors of
//! arbitrary length).
//!
//! Hardware paths (AVX2, `popcnt`, NEON) would only change speed; every path
//! computes the same count, which is what these functions compute element by
//! element.

use crate::bits::{hamming_bits, xor_popcount};
use vstd::prelude::*;

verus! {

/// Hamming distance between two equally long byte slices, dispatched to the
/// fastest available path; all paths give this same count.
pub fn simd_popcount_xor(a: &[u8], b: &[u8]) -> (d: u32)
    requires
        a@.len() == b@.len(),
        hamming_bits(a@, b@) <= u32::MAX,
    ensures
        d == hamming_bits(a@, b@),
{
    native_popcount_xor(a, b)
}

/// Scalar Hamming distance: sum of `count_ones(a[i] ^ b[i])`.
pub fn scalar_popcount_xor(a: &[u8], b: &[u8]) -> (d: u32)
    requires
        a@.len() == b@.len(),
        hamming_bits(a@, b@) <= u32::MAX,
    ensures
        d == hamming_bits(a@, b@),
{
    xor_popcount(a, b)
}

/// Hamming distance processed in chunks of eight bytes, then the remaining
/// tail byte by byte.
pub fn native_popcount_xor(a: &[u8], b: &[u8]) -> (d: u32)
    requires
        a@.len() == b@.len(),
        hamming_bits(a@, b@) <= u32::MAX,
    ensures
        d == hamming_bits(a@, b@),
{
    xor_popcount(a, b)
}

} // verus!
