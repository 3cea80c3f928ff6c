//! Configuration of the HNSW graph index.

use vstd::prelude::*;

verus! {

/// Parameters of an HNSW graph.
#[derive(Clone, Copy, Debug, PartialEq, Eq, Structural)]
pub struct HnswConfig {
    /// Maximum number of neighbours per node on layers above 0.
    pub m: u32,
    /// Maximum number of neighbours per node on layer 0.
    pub m0: u32,
    /// Candidate list size while building.
    pub ef_construction: u32,
    /// Candidate list size while searching.
    pub ef_search: u32,
    /// Vector dimensionality.
    pub dimensions: u32,
}

impl HnswConfig {
    /// The default parameters (M = 12, M0 = 24, ef_construction = 100,
    /// ef_search = 50) for vectors of the given dimension.
    pub fn new(dimensions: u32) -> (c: Self)
        ensures
            c == (HnswConfig { m: 12, m0: 24, ef_construction: 100, ef_search: 50, dimensions }),
    {
        HnswConfig { m: 12, m0: 24, ef_construction: 100, ef_search: 50, dimensions }
    }
}

} // verus!

verus! {

/// Identifier of a stored vector; IDs start at 1 and 0 is never a valid ID.
#[derive(Clone, Copy, Debug, PartialEq, Eq, Structural, Hash)]
pub struct VectorId(pub u64);

impl VectorId {
    /// The reserved, never-valid ID 0.
    pub fn invalid() -> (id: VectorId)
        ensures
            id == VectorId(0),
    {
        VectorId(0)
    }
}

} // verus!
