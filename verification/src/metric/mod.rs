//! Distance metrics.
//!
//! The integer kernels over byte vectors live in [`simd`]. The metric marker
//! types name the distance functions; their floating-point evaluation is done
//! outside this crate.

use vstd::prelude::*;

pub mod simd;

verus! {

/// Dot Product metric marker (`sum(a_i * b_i)`).
#[derive(Debug, Clone, Copy, Default)]
pub struct DotProduct;

/// Hamming distance metric marker (number of differing bits).
#[derive(Debug, Clone, Copy, Default)]
pub struct Hamming;

/// L2 Squared (Euclidean squared) metric marker (`sum((a_i - b_i)^2)`).
#[derive(Debug, Clone, Copy, Default)]
pub struct L2Squared;

} // verus!
