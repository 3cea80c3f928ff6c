//! Flat (brute-force) index: vectors in one contiguous row-major array, with a
//! deletion bitmap. Values are held as single-precision bit patterns. A vector's
//! ID is its slot number; IDs are handed out from 0 upwards.

use crate::bitset::{
    bitvec_get, bitvec_max_len, bitvec_push, bitvec_with_capacity, bits_of, count_true,
    lemma_count_push, Bits,
};
use crate::index::{DistanceMetric, FlatIndexError};
use vstd::prelude::*;

verus! {

/// Bit pattern of the default cleanup threshold, 0.5.
pub const DEFAULT_CLEANUP_THRESHOLD_BITS: u32 = 0x3F00_0000u32;

/// Bit pattern of 1.0.
pub const ONE_BITS: u32 = 0x3F80_0000u32;

/// Magnitude of a single-precision bit pattern (the pattern without its sign bit).
pub open spec fn f32_bits_magnitude(b: u32) -> int {
    if b >= 0x8000_0000 {
        b - 0x8000_0000
    } else {
        b as int
    }
}

/// Whether a single-precision bit pattern is a NaN.
pub open spec fn f32_bits_is_nan(b: u32) -> bool {
    f32_bits_magnitude(b) > 0x7F80_0000
}

/// Whether a single-precision bit pattern is a value other than `+0.0` and `-0.0`
/// (NaN included: it compares unequal to zero).
pub open spec fn f32_bits_nonzero(b: u32) -> bool {
    f32_bits_magnitude(b) != 0
}

/// `x.clamp(0.0, 1.0)` on the bit pattern of `x`: a NaN stays, a value below
/// zero becomes `0.0` (negative zero is not below zero and stays), a value
/// above one becomes `1.0`, any other value stays. Non-negative values order
/// as their bit patterns do.
pub open spec fn clamp_unit_bits(b: u32) -> u32 {
    if f32_bits_is_nan(b) {
        b
    } else if b > 0x8000_0000 {
        0
    } else if b < 0x8000_0000 && b > ONE_BITS {
        ONE_BITS
    } else {
        b
    }
}

/// Configuration of a flat index.
#[derive(Debug, Clone, Copy, PartialEq, Eq, Structural)]
pub struct FlatIndexConfig {
    /// Dimension of every vector.
    pub dimensions: u32,
    /// How search compares vectors.
    pub metric: DistanceMetric,
    /// Number of vectors to reserve room for.
    pub initial_capacity: usize,
    /// Fraction of deleted vectors that calls for compaction, as the bit
    /// pattern of a single-precision value in `[0, 1]`.
    pub cleanup_threshold: u32,
}

impl FlatIndexConfig {
    /// Configuration with cosine similarity, room for 1000 vectors and a
    /// cleanup threshold of 0.5.
    pub fn new(dimensions: u32) -> (c: Self)
        ensures
            c == (FlatIndexConfig {
                dimensions,
                metric: DistanceMetric::Cosine,
                initial_capacity: 1000,
                cleanup_threshold: DEFAULT_CLEANUP_THRESHOLD_BITS,
            }),
    {
        FlatIndexConfig {
            dimensions,
            metric: DistanceMetric::Cosine,
            initial_capacity: 1000,
            cleanup_threshold: DEFAULT_CLEANUP_THRESHOLD_BITS,
        }
    }

    /// The same configuration with another metric.
    pub fn with_metric(self, metric: DistanceMetric) -> (c: Self)
        ensures
            c == (FlatIndexConfig { metric, ..self }),
    {
        FlatIndexConfig { metric, ..self }
    }

    /// The same configuration with room for another number of vectors.
    pub fn with_capacity(self, capacity: usize) -> (c: Self)
        ensures
            c == (FlatIndexConfig { initial_capacity: capacity, ..self }),
    {
        FlatIndexConfig { initial_capacity: capacity, ..self }
    }

    /// The same configuration with the cleanup threshold (a bit pattern)
    /// clamped to `[0, 1]`.
    pub fn with_cleanup_threshold(self, threshold: u32) -> (c: Self)
        ensures
            c == (FlatIndexConfig { cleanup_threshold: clamp_unit_bits(threshold), ..self }),
    {
        let magnitude: u32 = if threshold >= 0x8000_0000 {
            threshold - 0x8000_0000
        } else {
            threshold
        };
        let clamped: u32 = if magnitude > 0x7F80_0000 {
            threshold
        } else if threshold > 0x8000_0000 {
            0
        } else if threshold < 0x8000_0000 && threshold > ONE_BITS {
            ONE_BITS
        } else {
            threshold
        };
        FlatIndexConfig { cleanup_threshold: clamped, ..self }
    }
}

/// The mathematical content of a flat index.
pub struct FlatIndexModel {
    /// The configuration.
    pub config: FlatIndexConfig,
    /// All stored values, row-major, deleted vectors included.
    pub vectors: Seq<u32>,
    /// One deletion flag per slot.
    pub deleted: Seq<bool>,
    /// Number of deleted slots.
    pub delete_count: nat,
    /// The ID the next insertion receives.
    pub next_id: nat,
    /// The binary-quantized copy of the vectors, when there is one.
    pub quantized: Option<Seq<u8>>,
}

/// Number of slots (stored vectors, deleted ones included).
pub open spec fn flat_slots(m: FlatIndexModel) -> nat {
    m.deleted.len()
}

/// The values of slot `i`.
pub open spec fn flat_slot(m: FlatIndexModel, i: int) -> Seq<u32> {
    let d = m.config.dimensions as int;
    m.vectors.subrange(i * d, (i + 1) * d)
}

/// Whether `id` names a slot that is not deleted.
pub open spec fn flat_live(m: FlatIndexModel, id: u64) -> bool {
    id < m.deleted.len() && !m.deleted[id as int]
}

/// The index after appending `rows` as new vectors.
pub open spec fn flat_appended(m: FlatIndexModel, rows: Seq<Seq<u32>>) -> FlatIndexModel {
    FlatIndexModel {
        vectors: m.vectors + concat_rows(rows),
        deleted: m.deleted + Seq::new(rows.len(), |i: int| false),
        next_id: m.next_id + rows.len(),
        quantized: if rows.len() == 0 {
            m.quantized
        } else {
            None
        },
        ..m
    }
}

/// The rows laid end to end.
pub open spec fn concat_rows(rows: Seq<Seq<u32>>) -> Seq<u32>
    decreases rows.len(),
{
    if rows.len() == 0 {
        Seq::empty()
    } else {
        concat_rows(rows.drop_last()) + rows.last()
    }
}

/// Row `k` is the first whose length is not `d`.
pub open spec fn first_mismatch(rows: Seq<Seq<u32>>, d: nat, k: int) -> bool {
    &&& 0 <= k < rows.len()
    &&& rows[k].len() != d
    &&& forall|i: int| 0 <= i < k ==> (#[trigger] rows[i]).len() == d
}

/// The values of each slice.
pub open spec fn slice_views(vs: Seq<&[u32]>) -> Seq<Seq<u32>> {
    Seq::new(vs.len(), |i: int| vs[i]@)
}

/// Number of positions below `n` where exactly one of the two values is
/// nonzero.
pub open spec fn hamming_prefix(a: Seq<u32>, b: Seq<u32>, n: int) -> nat
    decreases n,
{
    if n <= 0 {
        0
    } else {
        hamming_prefix(a, b, n - 1) + (if f32_bits_nonzero(a[n - 1]) != f32_bits_nonzero(b[n - 1]) {
            1nat
        } else {
            0nat
        })
    }
}

/// Flat (brute-force) index over vectors of one dimension.
pub struct FlatIndex {
    config: FlatIndexConfig,
    vectors: Vec<u32>,
    count: u64,
    deleted: Bits,
    delete_count: usize,
    next_id: u64,
    quantized: Option<Vec<u8>>,
}

impl View for FlatIndex {
    type V = FlatIndexModel;

    closed spec fn view(&self) -> FlatIndexModel {
        FlatIndexModel {
            config: self.config,
            vectors: self.vectors@,
            deleted: bits_of(self.deleted),
            delete_count: self.delete_count as nat,
            next_id: self.next_id as nat,
            quantized: match self.quantized {
                Some(q) => Some(q@),
                None => None,
            },
        }
    }
}

/// Consistency of a flat index: one row of `dimensions` values and one
/// deletion flag per slot, IDs equal to slots, the deletion count matching the
/// bitmap, and sizes within what the machine can hold. No operation here
/// builds a quantized copy, so there is none.
pub open spec fn flat_wf(m: FlatIndexModel) -> bool {
    &&& m.vectors.len() == flat_slots(m) * (m.config.dimensions as nat)
    &&& m.next_id == flat_slots(m)
    &&& m.delete_count == count_true(m.deleted)
    &&& flat_slots(m) <= bitvec_max_len()
    &&& m.vectors.len() <= isize::MAX / 4
    &&& m.quantized is None
}

proof fn lemma_row_bounds(slots: int, i: int, d: int)
    requires
        0 <= i < slots,
        0 <= d,
    ensures
        0 <= i * d,
        i * d + d == (i + 1) * d,
        (i + 1) * d <= slots * d,
{
    assert(0 <= i * d) by (nonlinear_arith)
        requires
            0 <= i,
            0 <= d,
    ;
    assert(i * d + d == (i + 1) * d) by (nonlinear_arith);
    assert((i + 1) * d <= slots * d) by (nonlinear_arith)
        requires
            i + 1 <= slots,
            0 <= d,
    ;
}

proof fn lemma_machine_sizes()
    ensures
        bitvec_max_len() == usize::MAX / 8,
        usize::MAX == 2 * isize::MAX + 1,
{
    let mx: usize = usize::MAX;
    assert(mx >> 3 == mx / 8) by (bit_vector);
}

proof fn lemma_concat_push(rows: Seq<Seq<u32>>, row: Seq<u32>)
    ensures
        concat_rows(rows.push(row)) == concat_rows(rows) + row,
{
    assert(rows.push(row).drop_last() =~= rows);
}

proof fn lemma_concat_len(rows: Seq<Seq<u32>>, d: nat)
    requires
        forall|i: int| 0 <= i < rows.len() ==> (#[trigger] rows[i]).len() == d,
    ensures
        concat_rows(rows).len() == rows.len() * d,
    decreases rows.len(),
{
    if rows.len() > 0 {
        lemma_concat_len(rows.drop_last(), d);
        assert((rows.len() - 1) * d + d == rows.len() * d) by (nonlinear_arith);
    }
}

/// What an insertion writes is what a read gives back: after appending a
/// vector of the index's dimension to a consistent index, its ID (the former
/// `next_id`) names a live slot holding exactly that vector, and every earlier
/// slot keeps its values and its deletion state.
pub proof fn lemma_flat_insert_then_get(m: FlatIndexModel, v: Seq<u32>)
    requires
        flat_wf(m),
        v.len() == m.config.dimensions,
    ensures
        ({
            let n = flat_appended(m, seq![v]);
            &&& flat_live(n, m.next_id as u64)
            &&& flat_slot(n, m.next_id as int) == v
            &&& forall|i: int|
                0 <= i < flat_slots(m) ==> #[trigger] flat_slot(n, i) == flat_slot(m, i)
                    && flat_live(n, i as u64) == flat_live(m, i as u64)
        }),
{
    let n = flat_appended(m, seq![v]);
    let d = m.config.dimensions as int;
    let slots = flat_slots(m) as int;
    assert(Seq::<Seq<u32>>::empty().push(v) =~= seq![v]);
    lemma_concat_push(Seq::<Seq<u32>>::empty(), v);
    assert(concat_rows(seq![v]) =~= v);
    assert(n.vectors =~= m.vectors + v);
    assert(slots * d + d == (slots + 1) * d) by (nonlinear_arith);
    assert(flat_slot(n, slots) =~= v);
    assert forall|i: int| 0 <= i < flat_slots(m) implies #[trigger] flat_slot(n, i) == flat_slot(m, i)
        && flat_live(n, i as u64) == flat_live(m, i as u64) by {
        lemma_row_bounds(slots, i, d);
        assert(flat_slot(n, i) =~= flat_slot(m, i));
    }
}

impl FlatIndex {
    #[verifier::type_invariant]
    spec fn inv(self) -> bool {
        &&& flat_wf(self@)
        &&& self.count == flat_slots(self@)
    }

    /// The index is consistent.
    pub fn check_wf(&self)
        ensures
            flat_wf(self@),
    {
        proof {
            use_type_invariant(self);
        }
    }

    /// An empty index with room for `config.initial_capacity` vectors.
    pub fn new(config: FlatIndexConfig) -> (s: Self)
        requires
            config.initial_capacity <= bitvec_max_len(),
            config.initial_capacity * config.dimensions <= usize::MAX,
        ensures
            s@ == (FlatIndexModel {
                config,
                vectors: Seq::empty(),
                deleted: Seq::empty(),
                delete_count: 0,
                next_id: 0,
                quantized: None,
            }),
    {
        let capacity = config.initial_capacity;
        let dim = config.dimensions as usize;
        let vectors: Vec<u32> = Vec::with_capacity(capacity * dim);
        let deleted = bitvec_with_capacity(capacity);
        proof {
            assert(vectors@ =~= Seq::<u32>::empty());
            assert(count_true(bits_of(deleted)) == 0);
            assert(0 * (config.dimensions as nat) == 0);
        }
        FlatIndex { config, vectors, count: 0, deleted, delete_count: 0, next_id: 0, quantized: None }
    }

    /// The vector dimension.
    pub fn dimensions(&self) -> (d: u32)
        ensures
            d == self@.config.dimensions,
    {
        self.config.dimensions
    }

    /// The distance metric.
    pub fn metric(&self) -> (m: DistanceMetric)
        ensures
            m == self@.config.metric,
    {
        self.config.metric
    }

    /// Number of vectors that are not deleted.
    pub fn len(&self) -> (n: usize)
        ensures
            n == flat_slots(self@) - self@.delete_count,
    {
        proof {
            use_type_invariant(self);
            crate::bitset::lemma_count_true_false(self@.deleted);
        }
        (self.count as usize) - self.delete_count
    }

    /// Whether no vector is left that is not deleted.
    pub fn is_empty(&self) -> (b: bool)
        ensures
            b == (flat_slots(self@) == self@.delete_count),
    {
        self.len() == 0
    }

    /// Number of slots, deleted ones included.
    pub fn capacity(&self) -> (n: usize)
        ensures
            n == flat_slots(self@),
    {
        proof {
            use_type_invariant(self);
        }
        self.count as usize
    }

    /// The configuration.
    pub fn config(&self) -> (c: &FlatIndexConfig)
        ensures
            *c == self@.config,
    {
        &self.config
    }

    /// Appends a vector and returns its ID. A vector of another dimension is
    /// refused and leaves the index unchanged.
    pub fn insert(&mut self, vector: &[u32]) -> (r: Result<u64, FlatIndexError>)
        requires
            flat_slots(old(self)@) < bitvec_max_len(),
            old(self)@.vectors.len() + vector@.len() <= isize::MAX / 4,
        ensures
            vector@.len() != old(self)@.config.dimensions ==> r == Err::<u64, FlatIndexError>(
                FlatIndexError::DimensionMismatch {
                    expected: old(self)@.config.dimensions as usize,
                    actual: vector@.len() as usize,
                },
            ) && final(self)@ == old(self)@,
            vector@.len() == old(self)@.config.dimensions ==> r == Ok::<u64, FlatIndexError>(
                old(self)@.next_id as u64,
            ) && final(self)@ == flat_appended(old(self)@, seq![vector@]),
    {
        proof {
            use_type_invariant(&*self);
        }
        let expected_dim = self.config.dimensions as usize;
        if vector.len() != expected_dim {
            return Err(FlatIndexError::DimensionMismatch { expected: expected_dim, actual: vector.len() });
        }
        let ghost old_m = self@;
        let mut taken = FlatIndex::new(FlatIndexConfig::new(0).with_capacity(0));
        std::mem::swap(self, &mut taken);
        let FlatIndex { config, mut vectors, count, mut deleted, delete_count, next_id, quantized } =
            taken;
        let id = next_id;
        let mut i: usize = 0;
        while i < vector.len()
            invariant
                i <= vector@.len(),
                vectors@ == old_m.vectors + vector@.subrange(0, i as int),
            decreases vector@.len() - i,
        {
            vectors.push(vector[i]);
            proof {
                assert(vectors@ =~= old_m.vectors + vector@.subrange(0, i + 1));
            }
            i = i + 1;
        }
        bitvec_push(&mut deleted, false);
        let ghost rows = seq![vector@];
        proof {
            assert(vector@.subrange(0, vector@.len() as int) =~= vector@);
            assert(Seq::<Seq<u32>>::empty().push(vector@) =~= rows);
            lemma_concat_push(Seq::<Seq<u32>>::empty(), vector@);
            assert(concat_rows(rows) =~= vector@);
            assert(old_m.deleted.push(false) =~= old_m.deleted + Seq::new(1, |k: int| false));
            lemma_count_push(old_m.deleted, false);
            assert(vectors@.len() == (flat_slots(old_m) + 1) * (config.dimensions as nat)) by (
            nonlinear_arith)
                requires
                    vectors@.len() == flat_slots(old_m) * (config.dimensions as nat)
                        + config.dimensions,
            ;
        }
        *self = FlatIndex {
            config,
            vectors,
            count: count + 1,
            deleted,
            delete_count,
            next_id: next_id + 1,
            quantized: None,
        };
        Ok(id)
    }

    /// Appends vectors in order and returns their IDs. At the first vector of
    /// another dimension it stops with that error; the vectors before it stay
    /// inserted.
    pub fn insert_batch(&mut self, vectors: &[&[u32]]) -> (r: Result<Vec<u64>, FlatIndexError>)
        requires
            flat_slots(old(self)@) + vectors@.len() <= bitvec_max_len(),
            old(self)@.vectors.len() + vectors@.len() * old(self)@.config.dimensions <= isize::MAX
                / 4,
        ensures
            ({
                let rows = slice_views(vectors@);
                let d = old(self)@.config.dimensions;
                match r {
                    Ok(ids) => (forall|i: int| 0 <= i < rows.len() ==> (#[trigger] rows[i]).len() == d)
                        && ids@ == Seq::new(rows.len(), |i: int| (old(self)@.next_id + i) as u64)
                        && final(self)@ == flat_appended(old(self)@, rows),
                    Err(e) => exists|k: int|
                        #[trigger] first_mismatch(rows, d as nat, k) && e
                            == FlatIndexError::DimensionMismatch {
                            expected: d as usize,
                            actual: rows[k].len() as usize,
                        } && final(self)@ == flat_appended(old(self)@, rows.subrange(0, k)),
                }
            }),
    {
        proof {
            use_type_invariant(&*self);
        }
        let ghost rows = slice_views(vectors@);
        let ghost old_m = self@;
        let ghost d = old_m.config.dimensions;
        let mut ids: Vec<u64> = Vec::with_capacity(vectors.len());
        let mut j: usize = 0;
        proof {
            assert(rows.subrange(0, 0) =~= Seq::<Seq<u32>>::empty());
            assert(old_m.deleted + Seq::new(0, |i: int| false) =~= old_m.deleted);
            assert(old_m.vectors + concat_rows(Seq::<Seq<u32>>::empty()) =~= old_m.vectors);
        }
        while j < vectors.len()
            invariant
                j <= vectors@.len(),
                rows == slice_views(vectors@),
                old_m == old(self)@,
                d == old_m.config.dimensions,
                forall|i: int| 0 <= i < j ==> (#[trigger] rows[i]).len() == d,
                self@ == flat_appended(old_m, rows.subrange(0, j as int)),
                ids@ == Seq::new(j as nat, |i: int| (old_m.next_id + i) as u64),
                flat_slots(old_m) + vectors@.len() <= bitvec_max_len(),
                old_m.vectors.len() + vectors@.len() * d <= isize::MAX / 4,
                old_m.vectors.len() == flat_slots(old_m) * d,
                old_m.next_id == flat_slots(old_m),
            decreases vectors@.len() - j,
        {
            let v: &[u32] = vectors[j];
            let ghost before = self@;
            proof {
                assert(rows[j as int] == v@);
                let pre = rows.subrange(0, j as int);
                assert forall|i: int| 0 <= i < pre.len() implies (#[trigger] pre[i]).len() == d by {
                    assert(pre[i] == rows[i]);
                }
                lemma_concat_len(pre, d as nat);
                assert(self@.vectors.len() == old_m.vectors.len() + j * d);
                assert(j * d + d <= vectors@.len() * d) by (nonlinear_arith)
                    requires
                        j < vectors@.len(),
                ;
            }
            if v.len() != self.config.dimensions as usize {
                let e = FlatIndexError::DimensionMismatch {
                    expected: self.config.dimensions as usize,
                    actual: v.len(),
                };
                proof {
                    let k = j as int;
                    assert(rows[k].len() != d);
                    assert(e == FlatIndexError::DimensionMismatch {
                        expected: d as usize,
                        actual: rows[k].len() as usize,
                    });
                    assert(self@ == flat_appended(old_m, rows.subrange(0, k)));
                    assert(first_mismatch(rows, d as nat, k));
                }
                return Err(e);
            }
            let id = self.insert(v);
            proof {
                let pre = rows.subrange(0, j as int);
                assert(rows.subrange(0, j + 1) =~= pre.push(v@));
                lemma_concat_push(pre, v@);
                assert(Seq::<Seq<u32>>::empty().push(v@) =~= seq![v@]);
                lemma_concat_push(Seq::<Seq<u32>>::empty(), v@);
                assert(concat_rows(seq![v@]) =~= v@);
                assert(self@.vectors =~= old_m.vectors + concat_rows(rows.subrange(0, j + 1)));
                assert(self@.deleted =~= old_m.deleted + Seq::new((j + 1) as nat, |i: int| false));
            }
            match id {
                Ok(x) => {
                    ids.push(x);
                },
                Err(e) => {
                    return Err(e);
                },
            }
            proof {
                assert(ids@ =~= Seq::new((j + 1) as nat, |i: int| (old_m.next_id + i) as u64));
            }
            j = j + 1;
        }
        proof {
            assert(rows.subrange(0, vectors@.len() as int) =~= rows);
        }
        Ok(ids)
    }

    /// The values of the vector with this ID, unless it does not exist or is
    /// deleted.
    pub fn get(&self, id: u64) -> (r: Option<&[u32]>)
        ensures
            match r {
                Some(s) => flat_live(self@, id) && s@ == flat_slot(self@, id as int),
                None => !flat_live(self@, id),
            },
    {
        proof {
            use_type_invariant(self);
        }
        if id >= self.count {
            return None;
        }
        let idx = id as usize;
        if bitvec_get(&self.deleted, idx) {
            return None;
        }
        let dim = self.config.dimensions as usize;
        proof {
            lemma_row_bounds(self.count as int, idx as int, dim as int);
        }
        let start = idx * dim;
        let end = start + dim;
        Some(vstd::slice::slice_subrange(self.vectors.as_slice(), start, end))
    }

    /// Whether the ID names a vector that is not deleted.
    pub fn contains(&self, id: u64) -> (b: bool)
        ensures
            b == flat_live(self@, id),
    {
        proof {
            use_type_invariant(self);
        }
        id < self.count && !bitvec_get(&self.deleted, id as usize)
    }

    /// Number of deleted vectors.
    pub fn deleted_count(&self) -> (n: usize)
        ensures
            n == self@.delete_count,
    {
        self.delete_count
    }

    /// Whether a binary-quantized copy of the vectors is held.
    pub fn is_quantized(&self) -> (b: bool)
        ensures
            b == self@.quantized is Some,
    {
        self.quantized.is_some()
    }

    /// Approximate memory use in bytes: four per stored value, one per eight
    /// deletion flags (rounded up), and the quantized copy.
    pub fn memory_usage(&self) -> (n: usize)
        ensures
            n == self@.vectors.len() * 4 + (flat_slots(self@) + 7) / 8 + match self@.quantized {
                Some(q) => q.len(),
                None => 0,
            },
    {
        proof {
            use_type_invariant(self);
            lemma_machine_sizes();
        }
        let vector_bytes = self.vectors.len() * 4;
        let bitmap_bytes = (self.count as usize + 7) / 8;
        let quantized_bytes = match &self.quantized {
            Some(q) => q.len(),
            None => 0,
        };
        vector_bytes + bitmap_bytes + quantized_bytes
    }

    /// Hamming distance of two vectors read as binary (a value is 1 unless it
    /// is `+0.0` or `-0.0`): the number of positions, up to the shorter length,
    /// where they differ.
    pub fn hamming_distance(a: &[u32], b: &[u32]) -> (d: usize)
        ensures
            d == hamming_prefix(a@, b@, if a@.len() <= b@.len() { a@.len() as int } else { b@.len() as int }),
    {
        let n = if a.len() <= b.len() {
            a.len()
        } else {
            b.len()
        };
        let mut count: usize = 0;
        let mut i: usize = 0;
        while i < n
            invariant
                i <= n,
                n <= a@.len(),
                n <= b@.len(),
                count == hamming_prefix(a@, b@, i as int),
                count <= i,
            decreases n - i,
        {
            let x = a[i];
            let y = b[i];
            let xm: u32 = if x >= 0x8000_0000 { x - 0x8000_0000 } else { x };
            let ym: u32 = if y >= 0x8000_0000 { y - 0x8000_0000 } else { y };
            if (xm != 0) != (ym != 0) {
                count = count + 1;
            }
            i = i + 1;
        }
        count
    }
}

} // verus!
