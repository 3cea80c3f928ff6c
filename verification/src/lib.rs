//! EdgeVec: an embedded vector database core.
//!
//! The verified library holds the data layouts, binary formats, validation
//! rules and integer distance kernels of the database. Each public function
//! states its behaviour in its contract.

use vstd::prelude::*;

pub mod bits;
pub mod bitset;
pub mod checksum;
pub mod hex;
pub mod hnsw;
pub mod index;
pub mod metadata;
pub mod le;
pub mod metric;
pub mod persistence;
pub mod quantization;
pub mod simd;
pub mod sparse;
pub mod storage;

pub use hnsw::HnswConfig;

verus! {

/// Which index structure a database uses.
#[derive(Debug, Clone)]
pub enum IndexType {
    /// Brute-force search: constant-time insert, linear-time exact search.
    Flat,
    /// HNSW graph: logarithmic insert and approximate search.
    Hnsw(HnswConfig),
}

impl IndexType {
    /// The flat index type.
    pub fn flat() -> (t: Self)
        ensures
            t is Flat,
    {
        IndexType::Flat
    }

    /// The HNSW index type with the default parameters for `dimensions`.
    pub fn hnsw(dimensions: u32) -> (t: Self)
        ensures
            t matches IndexType::Hnsw(c) && c == (HnswConfig {
                m: 12,
                m0: 24,
                ef_construction: 100,
                ef_search: 50,
                dimensions,
            }),
    {
        IndexType::Hnsw(HnswConfig::new(dimensions))
    }

    /// The HNSW index type with the given parameters.
    pub fn hnsw_with_config(config: HnswConfig) -> (t: Self)
        ensures
            t matches IndexType::Hnsw(c) && c == config,
    {
        IndexType::Hnsw(config)
    }

    /// Whether this is the flat index type.
    pub fn is_flat(&self) -> (r: bool)
        ensures
            r == (*self is Flat),
    {
        matches!(self, IndexType::Flat)
    }

    /// Whether this is the HNSW index type.
    pub fn is_hnsw(&self) -> (r: bool)
        ensures
            r == (*self is Hnsw),
    {
        matches!(self, IndexType::Hnsw(_))
    }
}

/// Returns the crate version string.
pub fn version() -> (v: &'static str)
    ensures
        v@ == VERSION@,
{
    VERSION
}

/// The crate version string.
pub const VERSION: &'static str = "0.1.0";

} // verus!
