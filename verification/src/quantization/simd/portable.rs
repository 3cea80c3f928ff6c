//! Portable Hamming distance over 96-byte binary vectors.

use crate::bits::{hamming_bits, xor_popcount};
use vstd::prelude::*;

verus! {

/// Byte-by-byte XOR and popcount over two 96-byte vectors.
pub fn hamming_distance_portable(a: &[u8; 96], b: &[u8; 96]) -> (d: u32)
    ensures
        d == hamming_bits(a@, b@),
        d <= 768,
{
    proof {
        crate::bits::lemma_hamming_bound(a@, b@);
    }
    xor_popcount(a.as_slice(), b.as_slice())
}

} // verus!
