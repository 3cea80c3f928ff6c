//! Hamming distance for binary quantization.
//!
//! An AVX2 path would only be faster: it computes the same count as the
//! portable one, which is used here.

use crate::bits::hamming_bits;
use vstd::prelude::*;

pub mod portable;

verus! {

/// Hamming distance between two 96-byte binary vectors.
pub fn hamming_distance(a: &[u8; 96], b: &[u8; 96]) -> (d: u32)
    ensures
        d == hamming_bits(a@, b@),
        d <= 768,
{
    portable::hamming_distance_portable(a, b)
}

/// Hamming distance between two 96-byte binary vectors (portable path).
pub fn hamming_distance_portable(a: &[u8; 96], b: &[u8; 96]) -> (d: u32)
    ensures
        d == hamming_bits(a@, b@),
        d <= 768,
{
    portable::hamming_distance_portable(a, b)
}

} // verus!
