//! The flat (brute-force) index, its errors and its distance metrics.

pub mod flat;

pub use flat::{FlatIndex, FlatIndexConfig};

use crate::hex::{decimal, push_decimal};
use vstd::prelude::*;
use vstd::string::*;

verus! {

/// Errors of flat-index operations.
#[derive(Debug, Clone, PartialEq, Eq, Structural)]
pub enum FlatIndexError {
    /// A vector's dimension differs from the index's.
    DimensionMismatch {
        /// The index's dimension.
        expected: usize,
        /// The vector's dimension.
        actual: usize,
    },
    /// A search asked for zero results.
    InvalidK,
    /// Quantized search was requested without quantization.
    QuantizationNotEnabled,
    /// The index holds no vectors.
    EmptyIndex,
}

/// How vectors are compared during search.
#[derive(Debug, Clone, Copy, PartialEq, Eq, Structural, Default)]
pub enum DistanceMetric {
    /// Cosine similarity; higher is more similar.
    #[default]
    Cosine,
    /// Dot product; higher is more similar.
    DotProduct,
    /// Euclidean distance; lower is more similar.
    L2,
    /// Number of positions that differ; lower is more similar.
    Hamming,
}

impl DistanceMetric {
    /// Whether the metric is a similarity (higher is better) rather than a
    /// distance (lower is better).
    pub fn is_similarity(&self) -> (r: bool)
        ensures
            r == (*self is Cosine || *self is DotProduct),
    {
        match self {
            DistanceMetric::Cosine | DistanceMetric::DotProduct => true,
            _ => false,
        }
    }
}


/// The message of a flat-index error.
pub open spec fn flat_index_error_text(e: FlatIndexError) -> Seq<char> {
    match e {
        FlatIndexError::DimensionMismatch { expected, actual } => "dimension mismatch: expected "@
            + decimal(expected as nat) + ", got "@ + decimal(actual as nat),
        FlatIndexError::InvalidK => "invalid k: must be greater than 0"@,
        FlatIndexError::QuantizationNotEnabled => "quantization not enabled: call enable_quantization() first"@,
        FlatIndexError::EmptyIndex => "index is empty"@,
    }
}

impl FlatIndexError {
    /// The error's message.
    pub fn message(&self) -> (s: String)
        ensures
            s@ == flat_index_error_text(*self),
    {
        let mut s = String::new();
        match self {
            FlatIndexError::DimensionMismatch { expected, actual } => {
                s.append("dimension mismatch: expected ");
                push_decimal(&mut s, *expected as u64);
                s.append(", got ");
                push_decimal(&mut s, *actual as u64);
            },
            FlatIndexError::InvalidK => {
                s.append("invalid k: must be greater than 0");
            },
            FlatIndexError::QuantizationNotEnabled => {
                s.append("quantization not enabled: call enable_quantization() first");
            },
            FlatIndexError::EmptyIndex => {
                s.append("index is empty");
            },
        }
        proof {
            assert(s@ =~= flat_index_error_text(*self));
        }
        s
    }
}

} // verus!
