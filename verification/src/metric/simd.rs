//! Integer distance kernels over byte vectors.
//!
//! These are the portable forms of the SIMD kernels: they compute the same
//! sums element by element.

use crate::bits::{hamming_bits, xor_popcount};
use vstd::prelude::*;

verus! {

/// Sum of squared differences over the first `n` positions.
pub open spec fn l2_squared_prefix(a: Seq<u8>, b: Seq<u8>, n: int) -> int
    decreases n,
{
    if n <= 0 {
        0
    } else {
        l2_squared_prefix(a, b, n - 1) + (a[n - 1] - b[n - 1]) * (a[n - 1] - b[n - 1])
    }
}

/// Sum of squared differences of two byte vectors.
pub open spec fn l2_squared_u8_spec(a: Seq<u8>, b: Seq<u8>) -> int {
    l2_squared_prefix(a, b, a.len() as int)
}

/// Sum of products over the first `n` positions.
pub open spec fn dot_prefix(a: Seq<u8>, b: Seq<u8>, n: int) -> int
    decreases n,
{
    if n <= 0 {
        0
    } else {
        dot_prefix(a, b, n - 1) + a[n - 1] * b[n - 1]
    }
}

/// Dot product of two byte vectors.
pub open spec fn dot_product_u8_spec(a: Seq<u8>, b: Seq<u8>) -> int {
    dot_prefix(a, b, a.len() as int)
}

proof fn lemma_l2_prefix_monotone(a: Seq<u8>, b: Seq<u8>, i: int, j: int)
    requires
        0 <= i <= j,
    ensures
        0 <= l2_squared_prefix(a, b, i) <= l2_squared_prefix(a, b, j),
    decreases j - i,
{
    if i < j {
        lemma_l2_prefix_monotone(a, b, i, j - 1);
        let d = a[j - 1] - b[j - 1];
        assert(d * d >= 0) by (nonlinear_arith);
    } else {
        lemma_l2_prefix_nonneg(a, b, i);
    }
}

proof fn lemma_l2_prefix_nonneg(a: Seq<u8>, b: Seq<u8>, n: int)
    ensures
        l2_squared_prefix(a, b, n) >= 0,
    decreases n,
{
    if n > 0 {
        lemma_l2_prefix_nonneg(a, b, n - 1);
        let d = a[n - 1] - b[n - 1];
        assert(d * d >= 0) by (nonlinear_arith);
    }
}

proof fn lemma_dot_prefix_monotone(a: Seq<u8>, b: Seq<u8>, i: int, j: int)
    requires
        0 <= i <= j,
    ensures
        0 <= dot_prefix(a, b, i) <= dot_prefix(a, b, j),
    decreases j - i,
{
    if i < j {
        lemma_dot_prefix_monotone(a, b, i, j - 1);
        let x = a[j - 1];
        let y = b[j - 1];
        assert(x * y >= 0) by (nonlinear_arith);
    } else {
        lemma_dot_prefix_nonneg(a, b, i);
    }
}

proof fn lemma_dot_prefix_nonneg(a: Seq<u8>, b: Seq<u8>, n: int)
    ensures
        dot_prefix(a, b, n) >= 0,
    decreases n,
{
    if n > 0 {
        lemma_dot_prefix_nonneg(a, b, n - 1);
        let x = a[n - 1];
        let y = b[n - 1];
        assert(x * y >= 0) by (nonlinear_arith);
    }
}

/// Each squared difference of bytes is at most 255 * 255, so the sum is at most
/// 65025 times the length.
pub proof fn lemma_l2_squared_u8_bound(a: Seq<u8>, b: Seq<u8>, n: int)
    requires
        0 <= n,
    ensures
        l2_squared_prefix(a, b, n) <= 65025 * n,
    decreases n,
{
    if n > 0 {
        lemma_l2_squared_u8_bound(a, b, n - 1);
        let d = a[n - 1] - b[n - 1];
        assert(-255 <= d <= 255);
        assert(d * d <= 65025) by (nonlinear_arith)
            requires
                -255 <= d <= 255,
        ;
    }
}

/// Each byte product is at most 255 * 255, so the sum is at most 65025 times
/// the length.
pub proof fn lemma_dot_product_u8_bound(a: Seq<u8>, b: Seq<u8>, n: int)
    requires
        0 <= n,
    ensures
        dot_prefix(a, b, n) <= 65025 * n,
    decreases n,
{
    if n > 0 {
        lemma_dot_product_u8_bound(a, b, n - 1);
        let x = a[n - 1];
        let y = b[n - 1];
        assert(x * y <= 65025) by (nonlinear_arith)
            requires
                0 <= x <= 255,
                0 <= y <= 255,
        ;
    }
}

/// Hamming distance between two equally long binary vectors: the number of
/// differing bits.
pub fn hamming_distance(a: &[u8], b: &[u8]) -> (d: u32)
    requires
        a@.len() == b@.len(),
        hamming_bits(a@, b@) <= u32::MAX,
    ensures
        d == hamming_bits(a@, b@),
{
    xor_popcount(a, b)
}

/// L2 squared distance of two equally long byte vectors.
pub fn l2_squared_u8(a: &[u8], b: &[u8]) -> (d: u32)
    requires
        a@.len() == b@.len(),
        l2_squared_u8_spec(a@, b@) <= u32::MAX,
    ensures
        d == l2_squared_u8_spec(a@, b@),
{
    let mut sum: u32 = 0;
    let mut i: usize = 0;
    while i < a.len()
        invariant
            i <= a@.len(),
            a@.len() == b@.len(),
            l2_squared_u8_spec(a@, b@) <= u32::MAX,
            sum == l2_squared_prefix(a@, b@, i as int),
        decreases a@.len() - i,
    {
        proof {
            lemma_l2_prefix_monotone(a@, b@, i as int + 1, a@.len() as int);
        }
        let x = a[i];
        let y = b[i];
        let diff: i32 = x as i32 - y as i32;
        assert(-255 <= diff <= 255);
        assert(diff * diff <= 65025) by (nonlinear_arith)
            requires
                -255 <= diff <= 255,
        ;
        assert(diff * diff >= 0) by (nonlinear_arith);
        let sq: u32 = (diff * diff) as u32;
        sum = sum + sq;
        i = i + 1;
    }
    sum
}

/// Dot product of two equally long byte vectors.
pub fn dot_product_u8(a: &[u8], b: &[u8]) -> (d: u32)
    requires
        a@.len() == b@.len(),
        dot_product_u8_spec(a@, b@) <= u32::MAX,
    ensures
        d == dot_product_u8_spec(a@, b@),
{
    let mut sum: u32 = 0;
    let mut i: usize = 0;
    while i < a.len()
        invariant
            i <= a@.len(),
            a@.len() == b@.len(),
            dot_product_u8_spec(a@, b@) <= u32::MAX,
            sum == dot_prefix(a@, b@, i as int),
        decreases a@.len() - i,
    {
        proof {
            lemma_dot_prefix_monotone(a@, b@, i as int + 1, a@.len() as int);
        }
        let x = a[i] as u32;
        let y = b[i] as u32;
        assert(x * y <= 65025) by (nonlinear_arith)
            requires
                x <= 255,
                y <= 255,
        ;
        sum = sum + x * y;
        i = i + 1;
    }
    sum
}

} // verus!
