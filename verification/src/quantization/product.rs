//! Product-quantization codes and the rules a training set must meet.
//!
//! Training vectors are given as IEEE-754 single-precision bit patterns; the
//! k-means training itself works on floating-point values.

use crate::sparse::vector::{f32_bits_is_finite, is_finite_bits};
use crate::hex::{decimal, push_decimal};
use vstd::prelude::*;
use vstd::string::*;

verus! {

/// Errors of product quantization.
#[derive(Debug, Clone, PartialEq, Eq, Structural)]
pub enum PqError {
    /// The dimension is not a multiple of the number of subquantizers.
    DimensionNotDivisible {
        /// Vector dimensionality.
        dimensions: usize,
        /// Number of subquantizers.
        num_subquantizers: usize,
    },
    /// Fewer training vectors than centroids per subspace.
    InsufficientTrainingData {
        /// Vectors provided.
        provided: usize,
        /// Minimum required.
        required: usize,
    },
    /// A training vector's dimension differs from the first one's.
    InconsistentDimensions {
        /// Dimension of the first vector.
        expected: usize,
        /// Dimension of the offending vector.
        actual: usize,
        /// Index of the offending vector.
        vector_index: usize,
    },
    /// A vector to encode has the wrong dimension.
    DimensionMismatch {
        /// Expected dimension.
        expected: usize,
        /// Actual dimension.
        actual: usize,
    },
    /// The number of subquantizers is zero.
    InvalidM,
    /// The number of centroids per subspace is outside `2 ..= 256`.
    InvalidKsub {
        /// The value given.
        ksub: usize,
    },
    /// A training value is NaN or infinite.
    NonFiniteValue {
        /// Index of the offending vector.
        vector_index: usize,
        /// Dimension of the offending value.
        dimension: usize,
    },
}

/// A PQ-encoded vector: one centroid index per subspace.
#[derive(Debug, Clone, PartialEq, Eq)]
pub struct PqCode {
    codes: Vec<u8>,
}

impl PqCode {
    /// The centroid indices.
    pub closed spec fn view_codes(&self) -> Seq<u8> {
        self.codes@
    }

    /// Creates a code from its centroid indices.
    pub fn new(codes: Vec<u8>) -> (c: Self)
        ensures
            c.view_codes() == codes@,
    {
        PqCode { codes }
    }

    /// The centroid indices.
    pub fn codes(&self) -> (c: &[u8])
        ensures
            c@ == self.view_codes(),
    {
        self.codes.as_slice()
    }

    /// The number of subspaces.
    pub fn num_subquantizers(&self) -> (n: usize)
        ensures
            n == self.view_codes().len(),
    {
        self.codes.len()
    }
}

/// The first position `d >= start` of a non-finite value, or `v.len()`.
pub open spec fn first_non_finite(v: Seq<u32>, start: int) -> int
    decreases v.len() - start,
{
    if start >= v.len() {
        v.len() as int
    } else if !is_finite_bits(v[start]) {
        start
    } else {
        first_non_finite(v, start + 1)
    }
}

/// Whether a training vector is acceptable: right dimension, finite values.
pub open spec fn training_vector_ok(v: Seq<u32>, dims: int) -> bool {
    v.len() == dims && first_non_finite(v, 0) == v.len()
}

/// The first vector at or after `start` that is not acceptable, or `vs.len()`.
pub open spec fn first_bad_vector(vs: Seq<Vec<u32>>, dims: int, start: int) -> int
    decreases vs.len() - start,
{
    if start >= vs.len() {
        vs.len() as int
    } else if !training_vector_ok(vs[start]@, dims) {
        start
    } else {
        first_bad_vector(vs, dims, start + 1)
    }
}

/// The outcome of checking a training set.
pub open spec fn spec_check_training_set(vs: Seq<Vec<u32>>, m: usize, ksub: usize) -> Result<
    (),
    PqError,
> {
    if m == 0 {
        Err(PqError::InvalidM)
    } else if ksub < 2 || ksub > 256 {
        Err(PqError::InvalidKsub { ksub })
    } else if vs.len() < ksub {
        Err(PqError::InsufficientTrainingData { provided: vs.len() as usize, required: ksub })
    } else {
        let dims = vs[0]@.len();
        if dims % (m as nat) != 0 {
            Err(PqError::DimensionNotDivisible { dimensions: dims as usize, num_subquantizers: m })
        } else {
            let i = first_bad_vector(vs, dims as int, 0);
            if i == vs.len() {
                Ok(())
            } else if vs[i]@.len() != dims {
                Err(
                    PqError::InconsistentDimensions {
                        expected: dims as usize,
                        actual: vs[i]@.len() as usize,
                        vector_index: i as usize,
                    },
                )
            } else {
                Err(
                    PqError::NonFiniteValue {
                        vector_index: i as usize,
                        dimension: first_non_finite(vs[i]@, 0) as usize,
                    },
                )
            }
        }
    }
}

/// Checks the parameters and training vectors of PQ training: at least one
/// subquantizer, 2 to 256 centroids per subspace, at least as many vectors as
/// centroids, a dimension divisible by the number of subquantizers, and every
/// vector of that dimension with finite values.
pub fn check_training_set(vectors: &[Vec<u32>], num_subquantizers: usize, ksub: usize) -> (r:
    Result<(), PqError>)
    ensures
        r == spec_check_training_set(vectors@, num_subquantizers, ksub),
{
    if num_subquantizers == 0 {
        return Err(PqError::InvalidM);
    }
    if ksub < 2 || ksub > 256 {
        return Err(PqError::InvalidKsub { ksub });
    }
    let n = vectors.len();
    if n < ksub {
        return Err(PqError::InsufficientTrainingData { provided: n, required: ksub });
    }
    let dimensions = vectors[0].len();
    if dimensions % num_subquantizers != 0 {
        return Err(PqError::DimensionNotDivisible { dimensions, num_subquantizers });
    }
    scan_training_vectors(vectors, dimensions)
}

/// Whether one training vector has the given dimension and finite values.
fn vector_ok(v: &Vec<u32>, dims: usize) -> (r: bool)
    ensures
        r == training_vector_ok(v@, dims as int),
{
    v.len() == dims && first_non_finite_exec(v.as_slice()) == v.len()
}

/// The position of the first non-finite value, or the length.
fn first_non_finite_exec(v: &[u32]) -> (d: usize)
    ensures
        d == first_non_finite(v@, 0),
        d <= v@.len(),
{
    let n = v.len();
    let mut d: usize = 0;
    while d < n
        invariant
            d <= n,
            n == v@.len(),
            first_non_finite(v@, 0) == first_non_finite(v@, d as int),
        decreases n - d,
    {
        if !f32_bits_is_finite(v[d]) {
            return d;
        }
        d = d + 1;
    }
    d
}

/// Finds the first unacceptable training vector and reports it.
fn scan_training_vectors(vectors: &[Vec<u32>], dimensions: usize) -> (r: Result<(), PqError>)
    requires
        vectors@.len() >= 1,
        dimensions == vectors@[0]@.len(),
    ensures
        ({
            let vs = vectors@;
            let i = first_bad_vector(vs, dimensions as int, 0);
            r == if i == vs.len() {
                Ok(())
            } else if vs[i]@.len() != dimensions {
                Err(
                    PqError::InconsistentDimensions {
                        expected: dimensions,
                        actual: vs[i]@.len() as usize,
                        vector_index: i as usize,
                    },
                )
            } else {
                Err(
                    PqError::NonFiniteValue {
                        vector_index: i as usize,
                        dimension: first_non_finite(vs[i]@, 0) as usize,
                    },
                )
            }
        }),
{
    let n = vectors.len();
    let ghost vs = vectors@;
    let mut i: usize = 0;
    while i < n
        invariant
            i <= n,
            n == vs.len(),
            vs == vectors@,
            first_bad_vector(vs, dimensions as int, 0) == first_bad_vector(
                vs,
                dimensions as int,
                i as int,
            ),
        decreases n - i,
    {
        let v = &vectors[i];
        if v.len() != dimensions {
            return Err(
                PqError::InconsistentDimensions {
                    expected: dimensions,
                    actual: v.len(),
                    vector_index: i,
                },
            );
        }
        let d = first_non_finite_exec(v.as_slice());
        if d < v.len() {
            return Err(PqError::NonFiniteValue { vector_index: i, dimension: d });
        }
        assert(training_vector_ok(vs[i as int]@, dimensions as int));
        i = i + 1;
    }
    Ok(())
}


/// The message of a product-quantization error.
pub open spec fn pq_error_text(e: PqError) -> Seq<char> {
    match e {
        PqError::DimensionNotDivisible { dimensions, num_subquantizers } => "dimensions ("@ + decimal(
            dimensions as nat,
        ) + ") must be divisible by num_subquantizers ("@ + decimal(num_subquantizers as nat) + ")"@,
        PqError::InsufficientTrainingData { provided, required } => "need at least "@ + decimal(
            required as nat,
        ) + " training vectors, got "@ + decimal(provided as nat),
        PqError::InconsistentDimensions { expected, actual, vector_index } => "vector "@ + decimal(
            vector_index as nat,
        ) + " has "@ + decimal(actual as nat) + " dims, expected "@ + decimal(expected as nat),
        PqError::DimensionMismatch { expected, actual } => "expected "@ + decimal(expected as nat)
            + " dims, got "@ + decimal(actual as nat),
        PqError::InvalidM => "M (num_subquantizers) must be >= 1"@,
        PqError::InvalidKsub { ksub } => "ksub must be in [2, 256], got "@ + decimal(ksub as nat),
        PqError::NonFiniteValue { vector_index, dimension } => "vector "@ + decimal(
            vector_index as nat,
        ) + " contains non-finite value at dimension "@ + decimal(dimension as nat),
    }
}

impl PqError {
    /// The error's message.
    pub fn message(&self) -> (s: String)
        ensures
            s@ == pq_error_text(*self),
    {
        let mut s = String::new();
        match self {
            PqError::DimensionNotDivisible { dimensions, num_subquantizers } => {
                s.append("dimensions (");
                push_decimal(&mut s, *dimensions as u64);
                s.append(") must be divisible by num_subquantizers (");
                push_decimal(&mut s, *num_subquantizers as u64);
                s.append(")");
            },
            PqError::InsufficientTrainingData { provided, required } => {
                s.append("need at least ");
                push_decimal(&mut s, *required as u64);
                s.append(" training vectors, got ");
                push_decimal(&mut s, *provided as u64);
            },
            PqError::InconsistentDimensions { expected, actual, vector_index } => {
                s.append("vector ");
                push_decimal(&mut s, *vector_index as u64);
                s.append(" has ");
                push_decimal(&mut s, *actual as u64);
                s.append(" dims, expected ");
                push_decimal(&mut s, *expected as u64);
            },
            PqError::DimensionMismatch { expected, actual } => {
                s.append("expected ");
                push_decimal(&mut s, *expected as u64);
                s.append(" dims, got ");
                push_decimal(&mut s, *actual as u64);
            },
            PqError::InvalidM => {
                s.append("M (num_subquantizers) must be >= 1");
            },
            PqError::InvalidKsub { ksub } => {
                s.append("ksub must be in [2, 256], got ");
                push_decimal(&mut s, *ksub as u64);
            },
            PqError::NonFiniteValue { vector_index, dimension } => {
                s.append("vector ");
                push_decimal(&mut s, *vector_index as u64);
                s.append(" contains non-finite value at dimension ");
                push_decimal(&mut s, *dimension as u64);
            },
        }
        proof {
            assert(s@ =~= pq_error_text(*self));
        }
        s
    }
}

proof fn lemma_all_finite(v: Seq<u32>, start: int)
    requires
        0 <= start <= v.len(),
        forall|j: int| 0 <= j < v.len() ==> #[trigger] v[j] & 0x7f80_0000u32 != 0x7f80_0000u32,
    ensures
        first_non_finite(v, start) == v.len(),
    decreases v.len() - start,
{
    if start < v.len() {
        assert(v[start] & 0x7f80_0000u32 != 0x7f80_0000u32);
        lemma_all_finite(v, start + 1);
    }
}

proof fn lemma_all_vectors_ok(vs: Seq<Vec<u32>>, d: int, start: int)
    requires
        0 <= start <= vs.len(),
        forall|i: int| 0 <= i < vs.len() ==> (#[trigger] vs[i])@.len() == d,
        forall|i: int, j: int|
            0 <= i < vs.len() && 0 <= j < vs[i]@.len() ==> #[trigger] vs[i]@[j] & 0x7f80_0000u32
                != 0x7f80_0000u32,
    ensures
        first_bad_vector(vs, d, start) == vs.len(),
    decreases vs.len() - start,
{
    if start < vs.len() {
        let v = vs[start]@;
        assert forall|j: int| 0 <= j < v.len() implies #[trigger] v[j] & 0x7f80_0000u32
            != 0x7f80_0000u32 by {
            assert(vs[start]@[j] & 0x7f80_0000u32 != 0x7f80_0000u32);
        }
        lemma_all_finite(v, 0);
        lemma_all_vectors_ok(vs, d, start + 1);
    }
}

/// A sound training set is accepted: with at least one subquantizer, between
/// 2 and 256 centroids per subspace, at least as many vectors as centroids,
/// all of one dimension divisible by the number of subquantizers, and every
/// value finite (its exponent bits not all ones), the check succeeds.
pub proof fn lemma_training_set_accepted(vs: Seq<Vec<u32>>, m: usize, ksub: usize, d: int)
    requires
        m > 0,
        2 <= ksub <= 256,
        vs.len() >= ksub,
        d % (m as int) == 0,
        forall|i: int| 0 <= i < vs.len() ==> (#[trigger] vs[i])@.len() == d,
        forall|i: int, j: int|
            0 <= i < vs.len() && 0 <= j < vs[i]@.len() ==> #[trigger] vs[i]@[j] & 0x7f80_0000u32
                != 0x7f80_0000u32,
    ensures
        spec_check_training_set(vs, m, ksub) == Ok::<(), PqError>(()),
{
    assert(vs[0]@.len() == d);
    lemma_all_vectors_ok(vs, d, 0);
}

/// The centroid count is refused exactly outside 2 to 256: with at least one
/// subquantizer, the check reports `InvalidKsub` for `ksub` if and only if
/// `ksub < 2` or `ksub > 256`, whatever the vectors.
pub proof fn lemma_invalid_ksub_exactly(vs: Seq<Vec<u32>>, m: usize, ksub: usize)
    requires
        m > 0,
    ensures
        (spec_check_training_set(vs, m, ksub) == Err::<(), PqError>(PqError::InvalidKsub { ksub }))
            <==> (ksub < 2 || ksub > 256),
{
}

} // verus!
