//! Sparse vectors in CSR form: strictly increasing indices, one value per index.
//!
//! Values are single-precision IEEE-754 numbers held as their bit patterns
//! (`f32::to_bits`); the vector only stores them and checks that each is finite.

use super::error::SparseError;
use vstd::prelude::*;

verus! {

/// An `f32` bit pattern encodes a finite number (not NaN, not an infinity):
/// its exponent field is not all ones.
pub open spec fn is_finite_bits(b: u32) -> bool {
    b & 0x7f80_0000u32 != 0x7f80_0000u32
}

/// Whether an `f32` bit pattern encodes a finite number.
pub fn f32_bits_is_finite(b: u32) -> (r: bool)
    ensures
        r == is_finite_bits(b),
{
    b & 0x7f80_0000u32 != 0x7f80_0000u32
}

/// The first position `i >= start` (with `i >= 1`) at which `idx[i - 1] >= idx[i]`,
/// or `idx.len()` if there is none.
pub open spec fn first_order_violation(idx: Seq<u32>, start: int) -> int
    decreases idx.len() - start,
{
    if start >= idx.len() {
        idx.len() as int
    } else if start >= 1 && idx[start - 1] >= idx[start] {
        start
    } else {
        first_order_violation(idx, start + 1)
    }
}

/// The entry at position `k` has an index below `dim` and a finite value.
pub open spec fn entry_ok(idx: Seq<u32>, vals: Seq<u32>, dim: u32, k: int) -> bool {
    idx[k] < dim && is_finite_bits(vals[k])
}

/// The first position `j >= start` whose index is out of bounds or whose value
/// is not finite, or `idx.len()` if there is none.
pub open spec fn first_entry_violation(idx: Seq<u32>, vals: Seq<u32>, dim: u32, start: int) -> int
    decreases idx.len() - start,
{
    if start >= idx.len() {
        idx.len() as int
    } else if !entry_ok(idx, vals, dim, start) {
        start
    } else {
        first_entry_violation(idx, vals, dim, start + 1)
    }
}

/// The outcome of validating a sparse vector: lengths first, then emptiness,
/// then order (the first out-of-order or repeated index), then, position by
/// position, the bound and the value.
pub open spec fn spec_validate(idx: Seq<u32>, vals: Seq<u32>, dim: u32) -> Result<(), SparseError> {
    if idx.len() != vals.len() {
        Err(SparseError::LengthMismatch { indices: idx.len() as usize, values: vals.len() as usize })
    } else if idx.len() == 0 {
        Err(SparseError::EmptyVector)
    } else {
        let i = first_order_violation(idx, 1);
        if i < idx.len() {
            if idx[i - 1] > idx[i] {
                Err(SparseError::UnsortedIndices)
            } else {
                Err(SparseError::DuplicateIndex(i as usize))
            }
        } else {
            let j = first_entry_violation(idx, vals, dim, 0);
            if j < idx.len() {
                if idx[j] >= dim {
                    Err(SparseError::IndexOutOfBounds { index: idx[j], dim })
                } else {
                    Err(SparseError::InvalidValue(j as usize))
                }
            } else {
                Ok(())
            }
        }
    }
}

/// A valid sparse vector: equal lengths, at least one entry, strictly
/// increasing indices, every index below `dim`, every value finite.
pub open spec fn valid_sparse(idx: Seq<u32>, vals: Seq<u32>, dim: u32) -> bool {
    &&& idx.len() == vals.len()
    &&& idx.len() > 0
    &&& forall|i: int, j: int| 0 <= i < j < idx.len() ==> idx[i] < idx[j]
    &&& forall|k: int| 0 <= k < idx.len() ==> #[trigger] entry_ok(idx, vals, dim, k)
}

proof fn lemma_order_violation_none(idx: Seq<u32>, start: int)
    requires
        1 <= start,
        first_order_violation(idx, start) == idx.len(),
    ensures
        forall|k: int| start <= k < idx.len() ==> idx[k - 1] < #[trigger] idx[k],
    decreases idx.len() - start,
{
    if start < idx.len() {
        lemma_order_violation_none(idx, start + 1);
    }
}

proof fn lemma_order_violation_some(idx: Seq<u32>, start: int)
    requires
        1 <= start,
        forall|k: int| 1 <= k < idx.len() ==> idx[k - 1] < #[trigger] idx[k],
    ensures
        first_order_violation(idx, start) == if start >= idx.len() { idx.len() as int } else { idx.len() as int },
    decreases idx.len() - start,
{
    if start < idx.len() {
        lemma_order_violation_some(idx, start + 1);
    }
}

proof fn lemma_entry_violation_none(idx: Seq<u32>, vals: Seq<u32>, dim: u32, start: int)
    requires
        0 <= start,
        first_entry_violation(idx, vals, dim, start) == idx.len(),
    ensures
        forall|k: int| start <= k < idx.len() ==> #[trigger] entry_ok(idx, vals, dim, k),
    decreases idx.len() - start,
{
    if start < idx.len() {
        assert(entry_ok(idx, vals, dim, start));
        lemma_entry_violation_none(idx, vals, dim, start + 1);
        assert forall|k: int| start <= k < idx.len() implies #[trigger] entry_ok(idx, vals, dim, k) by {
            if k > start {
                assert(entry_ok(idx, vals, dim, k));
            }
        }
    }
}

proof fn lemma_entry_violation_all(idx: Seq<u32>, vals: Seq<u32>, dim: u32, start: int)
    requires
        0 <= start,
        forall|k: int| 0 <= k < idx.len() ==> #[trigger] entry_ok(idx, vals, dim, k),
    ensures
        first_entry_violation(idx, vals, dim, start) == idx.len(),
    decreases idx.len() - start,
{
    if start < idx.len() {
        assert(entry_ok(idx, vals, dim, start));
        lemma_entry_violation_all(idx, vals, dim, start + 1);
    }
}

proof fn lemma_adjacent_sorted(idx: Seq<u32>)
    requires
        forall|k: int| 1 <= k < idx.len() ==> idx[k - 1] < #[trigger] idx[k],
    ensures
        forall|i: int, j: int| 0 <= i < j < idx.len() ==> idx[i] < idx[j],
{
    assert forall|i: int, j: int| 0 <= i < j < idx.len() implies idx[i] < idx[j] by {
        lemma_adjacent_sorted_pair(idx, i, j);
    }
}

proof fn lemma_adjacent_sorted_pair(idx: Seq<u32>, i: int, j: int)
    requires
        forall|k: int| 1 <= k < idx.len() ==> idx[k - 1] < #[trigger] idx[k],
        0 <= i < j < idx.len(),
    ensures
        idx[i] < idx[j],
    decreases j - i,
{
    if j > i + 1 {
        lemma_adjacent_sorted_pair(idx, i, j - 1);
    }
    assert(idx[j - 1] < idx[j]);
}

/// Validation succeeds exactly on valid sparse vectors.
pub proof fn lemma_validate_ok_iff_valid(idx: Seq<u32>, vals: Seq<u32>, dim: u32)
    ensures
        (spec_validate(idx, vals, dim) is Ok) <==> valid_sparse(idx, vals, dim),
{
    if idx.len() == vals.len() && idx.len() > 0 {
        lemma_first_order_violation_in_range(idx, 1);
        let i = first_order_violation(idx, 1);
        if i == idx.len() {
            lemma_order_violation_none(idx, 1);
            lemma_adjacent_sorted(idx);
            lemma_first_entry_violation_in_range(idx, vals, dim, 0);
            let j = first_entry_violation(idx, vals, dim, 0);
            if j == idx.len() {
                lemma_entry_violation_none(idx, vals, dim, 0);
            } else {
                assert(!entry_ok(idx, vals, dim, j));
            }
        } else {
            assert(idx[i - 1] >= idx[i]);
            assert(!(idx[i - 1] < idx[i]));
        }
    }
}

proof fn lemma_first_order_violation_in_range(idx: Seq<u32>, start: int)
    requires
        1 <= start,
    ensures
        ({
            let i = first_order_violation(idx, start);
            (start <= i < idx.len() && idx[i - 1] >= idx[i]) || i == idx.len()
        }),
    decreases idx.len() - start,
{
    if start < idx.len() {
        lemma_first_order_violation_in_range(idx, start + 1);
    }
}

proof fn lemma_first_entry_violation_in_range(idx: Seq<u32>, vals: Seq<u32>, dim: u32, start: int)
    requires
        0 <= start,
    ensures
        ({
            let j = first_entry_violation(idx, vals, dim, start);
            (start <= j < idx.len() && (idx[j] >= dim || !is_finite_bits(vals[j]))) || j
                == idx.len()
        }),
    decreases idx.len() - start,
{
    if start < idx.len() {
        lemma_first_entry_violation_in_range(idx, vals, dim, start + 1);
    }
}

/// Pairs ordered by their first component (not necessarily strictly).
pub open spec fn keys_sorted(s: Seq<(u32, u32)>) -> bool {
    forall|i: int, j: int| 0 <= i < j < s.len() ==> s[i].0 <= s[j].0
}

/// The first components of a sequence of pairs.
pub open spec fn pair_firsts(s: Seq<(u32, u32)>) -> Seq<u32> {
    s.map_values(|p: (u32, u32)| p.0)
}

/// The second components of a sequence of pairs.
pub open spec fn pair_seconds(s: Seq<(u32, u32)>) -> Seq<u32> {
    s.map_values(|p: (u32, u32)| p.1)
}

/// The pairs reordered by index: the same multiset, ordered by first component.
pub open spec fn is_sorting_of(s: Seq<(u32, u32)>, pairs: Seq<(u32, u32)>) -> bool {
    s.to_multiset() == pairs.to_multiset() && keys_sorted(s)
}

/// Sorts pairs by their first component, keeping the order of pairs with equal
/// first components.
fn sort_pairs_by_index(pairs: &[(u32, u32)]) -> (sorted: Vec<(u32, u32)>)
    ensures
        is_sorting_of(sorted@, pairs@),
        sorted@.len() == pairs@.len(),
{
    broadcast use vstd::seq_lib::group_to_multiset_ensures;

    let mut sorted: Vec<(u32, u32)> = Vec::new();
    let mut i: usize = 0;
    while i < pairs.len()
        invariant
            i <= pairs@.len(),
            sorted@.to_multiset() == pairs@.subrange(0, i as int).to_multiset(),
            keys_sorted(sorted@),
            sorted@.len() == i,
        decreases pairs@.len() - i,
    {
        let p = pairs[i];
        let mut pos: usize = 0;
        while pos < sorted.len() && sorted[pos].0 <= p.0
            invariant
                pos <= sorted@.len(),
                forall|k: int| 0 <= k < pos ==> #[trigger] sorted@[k].0 <= p.0,
            decreases sorted@.len() - pos,
        {
            pos = pos + 1;
        }
        let ghost old_sorted = sorted@;
        assert(forall|k: int| pos <= k < old_sorted.len() ==> #[trigger] old_sorted[k].0 > p.0) by {
            if pos < old_sorted.len() {
                assert forall|k: int| pos <= k < old_sorted.len() implies #[trigger] old_sorted[k].0
                    > p.0 by {
                    assert(old_sorted[pos as int].0 <= old_sorted[k].0 || k == pos);
                }
            }
        }
        sorted.insert(pos, p);
        proof {
            vstd::seq_lib::to_multiset_insert(old_sorted, pos as int, p);
            assert(pairs@.subrange(0, i as int + 1) =~= pairs@.subrange(0, i as int).push(p));
            vstd::seq_lib::to_multiset_build(pairs@.subrange(0, i as int), p);
            assert forall|a: int, b: int| 0 <= a < b < sorted@.len() implies sorted@[a].0
                <= sorted@[b].0 by {
                if b < pos {
                } else if b == pos {
                    assert(sorted@[a] == old_sorted[a]);
                } else if a < pos {
                    assert(sorted@[a] == old_sorted[a]);
                    assert(sorted@[b] == old_sorted[b - 1]);
                } else if a == pos {
                    assert(sorted@[b] == old_sorted[b - 1]);
                } else {
                    assert(sorted@[a] == old_sorted[a - 1]);
                    assert(sorted@[b] == old_sorted[b - 1]);
                }
            }
        }
        i = i + 1;
    }
    proof {
        assert(pairs@.subrange(0, pairs@.len() as int) =~= pairs@);
    }
    sorted
}

/// The abstract contents of a sparse vector.
/// Whether `r` lists exactly the pairs of positions `(i, j)` at which the
/// increasing index sequences `a` and `b` hold the same index, in increasing
/// order.
pub open spec fn is_shared_positions(a: Seq<u32>, b: Seq<u32>, r: Seq<(usize, usize)>) -> bool {
    &&& forall|k: int|
        0 <= k < r.len() ==> (#[trigger] r[k]).0 < a.len() && r[k].1 < b.len() && a[r[k].0 as int]
            == b[r[k].1 as int]
    &&& forall|i: int, j: int|
        0 <= i < a.len() && 0 <= j < b.len() && #[trigger] a[i] == #[trigger] b[j] ==> exists|k: int|
            0 <= k < r.len() && #[trigger] r[k] == (i as usize, j as usize)
    &&& forall|k: int, l: int| 0 <= k < l < r.len() ==> (#[trigger] r[k]).0 < (#[trigger] r[l]).0
}

pub struct SparseVectorModel {
    /// Sorted, distinct indices.
    pub indices: Seq<u32>,
    /// Values (as `f32` bit patterns), one per index.
    pub values: Seq<u32>,
    /// The dimension of the space the vector lives in.
    pub dim: u32,
}

/// A sparse vector in CSR format.
#[derive(Debug, PartialEq)]
pub struct SparseVector {
    indices: Vec<u32>,
    values: Vec<u32>,
    dim: u32,
}

impl Clone for SparseVector {
    fn clone(&self) -> (c: Self)
        ensures
            c@ == self@,
    {
        proof {
            use_type_invariant(self);
        }
        let indices = self.indices.clone();
        let values = self.values.clone();
        proof {
            assert(indices@ =~= self.indices@);
            assert(values@ =~= self.values@);
        }
        SparseVector { indices, values, dim: self.dim }
    }
}

impl View for SparseVector {
    type V = SparseVectorModel;

    closed spec fn view(&self) -> SparseVectorModel {
        SparseVectorModel { indices: self.indices@, values: self.values@, dim: self.dim }
    }
}

impl SparseVector {
    #[verifier::type_invariant]
    spec fn well_formed(self) -> bool {
        valid_sparse(self.indices@, self.values@, self.dim)
    }

    /// Checks the invariants of a sparse vector and reports the first violation.
    pub fn validate(indices: &[u32], values: &[u32], dim: u32) -> (r: Result<(), SparseError>)
        ensures
            r == spec_validate(indices@, values@, dim),
    {
        let n = indices.len();
        if n != values.len() {
            return Err(SparseError::LengthMismatch { indices: n, values: values.len() });
        }
        if n == 0 {
            return Err(SparseError::EmptyVector);
        }
        let mut i: usize = 1;
        while i < n
            invariant
                1 <= i <= n,
                n == indices@.len(),
                n == values@.len(),
                first_order_violation(indices@, 1) == first_order_violation(indices@, i as int),
            decreases n - i,
        {
            let prev = indices[i - 1];
            let cur = indices[i];
            if prev >= cur {
                assert(first_order_violation(indices@, i as int) == i as int);
                if prev > cur {
                    return Err(SparseError::UnsortedIndices);
                } else {
                    return Err(SparseError::DuplicateIndex(i));
                }
            }
            i = i + 1;
        }
        let mut j: usize = 0;
        while j < n
            invariant
                j <= n,
                n == indices@.len(),
                n == values@.len(),
                first_order_violation(indices@, 1) == n,
                first_entry_violation(indices@, values@, dim, 0) == first_entry_violation(
                    indices@,
                    values@,
                    dim,
                    j as int,
                ),
            decreases n - j,
        {
            let idx = indices[j];
            let fin = f32_bits_is_finite(values[j]);
            if idx >= dim || !fin {
                assert(!entry_ok(indices@, values@, dim, j as int));
                assert(first_entry_violation(indices@, values@, dim, j as int) == j as int);
            }
            if idx >= dim {
                return Err(SparseError::IndexOutOfBounds { index: idx, dim });
            }
            if !fin {
                return Err(SparseError::InvalidValue(j));
            }
            j = j + 1;
        }
        Ok(())
    }

    /// Creates a sparse vector after validation.
    pub fn new(indices: Vec<u32>, values: Vec<u32>, dim: u32) -> (r: Result<Self, SparseError>)
        ensures
            match r {
                Ok(v) => spec_validate(indices@, values@, dim) is Ok && v@ == (SparseVectorModel {
                    indices: indices@,
                    values: values@,
                    dim,
                }),
                Err(e) => spec_validate(indices@, values@, dim) == Err::<(), SparseError>(e),
            },
    {
        match Self::validate(indices.as_slice(), values.as_slice(), dim) {
            Ok(()) => {
                proof {
                    lemma_validate_ok_iff_valid(indices@, values@, dim);
                }
                Ok(SparseVector { indices, values, dim })
            },
            Err(e) => Err(e),
        }
    }

    /// Creates a sparse vector from data already known to be valid.
    pub(crate) fn new_unchecked(indices: Vec<u32>, values: Vec<u32>, dim: u32) -> (v: Self)
        requires
            valid_sparse(indices@, values@, dim),
        ensures
            v@ == (SparseVectorModel { indices: indices@, values: values@, dim }),
    {
        SparseVector { indices, values, dim }
    }

    /// Creates a sparse vector from `(index, value)` pairs in any order: the pairs
    /// are sorted by index and then validated as by [`SparseVector::new`].
    pub fn from_pairs(pairs: &[(u32, u32)], dim: u32) -> (r: Result<Self, SparseError>)
        ensures
            pairs@.len() == 0 ==> r matches Err(SparseError::EmptyVector),
            pairs@.len() > 0 ==> exists|s: Seq<(u32, u32)>|
                #![trigger is_sorting_of(s, pairs@)]
                is_sorting_of(s, pairs@) && s.len() == pairs@.len() && match r {
                    Ok(v) => spec_validate(pair_firsts(s), pair_seconds(s), dim) is Ok && v@ == (
                    SparseVectorModel {
                        indices: pair_firsts(s),
                        values: pair_seconds(s),
                        dim,
                    }),
                    Err(e) => spec_validate(pair_firsts(s), pair_seconds(s), dim) == Err::<
                        (),
                        SparseError,
                    >(e),
                },
    {
        if pairs.len() == 0 {
            return Err(SparseError::EmptyVector);
        }
        let sorted = sort_pairs_by_index(pairs);
        let mut indices: Vec<u32> = Vec::new();
        let mut values: Vec<u32> = Vec::new();
        let mut k: usize = 0;
        while k < sorted.len()
            invariant
                k <= sorted@.len(),
                indices@ == pair_firsts(sorted@).subrange(0, k as int),
                values@ == pair_seconds(sorted@).subrange(0, k as int),
            decreases sorted@.len() - k,
        {
            indices.push(sorted[k].0);
            values.push(sorted[k].1);
            k = k + 1;
            proof {
                assert(indices@ =~= pair_firsts(sorted@).subrange(0, k as int));
                assert(values@ =~= pair_seconds(sorted@).subrange(0, k as int));
            }
        }
        proof {
            assert(indices@ =~= pair_firsts(sorted@));
            assert(values@ =~= pair_seconds(sorted@));
        }
        let r = Self::new(indices, values, dim);
        proof {
            assert(is_sorting_of(sorted@, pairs@));
        }
        r
    }

    /// Creates a sparse vector with a single entry.
    pub fn singleton(index: u32, value: u32, dim: u32) -> (r: Result<Self, SparseError>)
        ensures
            match r {
                Ok(v) => index < dim && is_finite_bits(value) && v@ == (SparseVectorModel {
                    indices: seq![index],
                    values: seq![value],
                    dim,
                }),
                Err(e) => (index >= dim && e == SparseError::IndexOutOfBounds { index, dim }) || (
                index < dim && !is_finite_bits(value) && e == SparseError::InvalidValue(0)),
            },
    {
        let mut indices: Vec<u32> = Vec::new();
        indices.push(index);
        let mut values: Vec<u32> = Vec::new();
        values.push(value);
        proof {
            assert(indices@ =~= seq![index]);
            assert(values@ =~= seq![value]);
            reveal_with_fuel(first_order_violation, 2);
            reveal_with_fuel(first_entry_violation, 2);
        }
        Self::new(indices, values, dim)
    }

    /// The sorted indices.
    pub fn indices(&self) -> (s: &[u32])
        ensures
            s@ == self@.indices,
            valid_sparse(self@.indices, self@.values, self@.dim),
    {
        proof {
            use_type_invariant(self);
        }
        self.indices.as_slice()
    }

    /// The values (as `f32` bit patterns), aligned with the indices.
    pub fn values(&self) -> (s: &[u32])
        ensures
            s@ == self@.values,
            valid_sparse(self@.indices, self@.values, self@.dim),
    {
        proof {
            use_type_invariant(self);
        }
        self.values.as_slice()
    }

    /// The dimension.
    pub fn dim(&self) -> (d: u32)
        ensures
            d == self@.dim,
    {
        self.dim
    }

    /// The number of stored (non-zero) entries.
    pub fn nnz(&self) -> (n: usize)
        ensures
            n == self@.indices.len(),
            n >= 1,
    {
        proof {
            use_type_invariant(self);
        }
        self.indices.len()
    }

    /// The entries as `(index, value)` pairs, in index order.
    pub fn to_pairs(&self) -> (pairs: Vec<(u32, u32)>)
        ensures
            pairs@.len() == self@.indices.len(),
            forall|k: int|
                0 <= k < pairs@.len() ==> #[trigger] pairs@[k] == (self@.indices[k], self@.values[k]),
    {
        proof {
            use_type_invariant(self);
        }
        let mut pairs: Vec<(u32, u32)> = Vec::new();
        let mut k: usize = 0;
        while k < self.indices.len()
            invariant
                k <= self.indices@.len(),
                self.indices@.len() == self.values@.len(),
                pairs@.len() == k,
                forall|m: int|
                    0 <= m < k ==> #[trigger] pairs@[m] == (self.indices@[m], self.values@[m]),
            decreases self.indices@.len() - k,
        {
            pairs.push((self.indices[k], self.values[k]));
            k = k + 1;
        }
        pairs
    }

    /// The pairs of positions `(i, j)` at which this vector and `other` have
    /// the same index, in increasing order: the entries a dot product of the
    /// two multiplies.
    pub fn shared_positions(&self, other: &SparseVector) -> (r: Vec<(usize, usize)>)
        ensures
            is_shared_positions(self@.indices, other@.indices, r@),
    {
        proof {
            use_type_invariant(self);
            use_type_invariant(other);
        }
        let a = self.indices.as_slice();
        let b = other.indices.as_slice();
        let mut r: Vec<(usize, usize)> = Vec::new();
        let mut i: usize = 0;
        let mut j: usize = 0;
        while i < a.len() && j < b.len()
            invariant
                i <= a@.len(),
                j <= b@.len(),
                a@ == self@.indices,
                b@ == other@.indices,
                forall|x: int, y: int| 0 <= x < y < a@.len() ==> a@[x] < a@[y],
                forall|x: int, y: int| 0 <= x < y < b@.len() ==> b@[x] < b@[y],
                forall|k: int|
                    0 <= k < r@.len() ==> (#[trigger] r@[k]).0 < i && r@[k].1 < j && a@[r@[k].0 as int]
                        == b@[r@[k].1 as int],
                forall|x: int, y: int|
                    0 <= x < a@.len() && 0 <= y < b@.len() && #[trigger] a@[x] == #[trigger] b@[y]
                        && (x < i || y < j) ==> exists|k: int|
                        0 <= k < r@.len() && #[trigger] r@[k] == (x as usize, y as usize),
                forall|k: int, l: int| 0 <= k < l < r@.len() ==> (#[trigger] r@[k]).0 < (#[trigger] r@[l]).0,
            decreases a@.len() - i + b@.len() - j,
        {
            let x = a[i];
            let y = b[j];
            if x < y {
                proof {
                    assert forall|p: int, q: int|
                        0 <= p < a@.len() && 0 <= q < b@.len() && #[trigger] a@[p] == #[trigger] b@[q]
                            && (p < i + 1 || q < j) implies exists|k: int|
                        0 <= k < r@.len() && #[trigger] r@[k] == (p as usize, q as usize) by {
                        if p == i && q >= j {
                            if q > j {
                                assert(b@[j as int] < b@[q]);
                            }
                            assert(false);
                        }
                    }
                }
                i = i + 1;
            } else if x > y {
                proof {
                    assert forall|p: int, q: int|
                        0 <= p < a@.len() && 0 <= q < b@.len() && #[trigger] a@[p] == #[trigger] b@[q]
                            && (p < i || q < j + 1) implies exists|k: int|
                        0 <= k < r@.len() && #[trigger] r@[k] == (p as usize, q as usize) by {
                        if q == j && p >= i {
                            if p > i {
                                assert(a@[i as int] < a@[p]);
                            }
                            assert(false);
                        }
                    }
                }
                j = j + 1;
            } else {
                let ghost r0 = r@;
                r.push((i, j));
                proof {
                    let n = r0.len() as int;
                    assert(r@[n] == (i, j));
                    assert forall|p: int, q: int|
                        0 <= p < a@.len() && 0 <= q < b@.len() && #[trigger] a@[p] == #[trigger] b@[q]
                            && (p < i + 1 || q < j + 1) implies exists|k: int|
                        0 <= k < r@.len() && #[trigger] r@[k] == (p as usize, q as usize) by {
                        if p < i || q < j {
                            let k = choose|k: int| 0 <= k < r0.len() && #[trigger] r0[k] == (p as usize, q as usize);
                            assert(r@[k] == r0[k]);
                        } else {
                            if p > i {
                                assert(a@[i as int] < a@[p]);
                                if q > j {
                                    assert(b@[j as int] < b@[q]);
                                }
                                assert(false);
                            }
                            if q > j {
                                assert(b@[j as int] < b@[q]);
                                assert(false);
                            }
                            assert(r@[n] == (p as usize, q as usize));
                        }
                    }
                    assert forall|k: int| 0 <= k < r@.len() implies (#[trigger] r@[k]).0 < i + 1 && r@[k].1
                        < j + 1 && a@[r@[k].0 as int] == b@[r@[k].1 as int] by {
                        if k < n {
                            assert(r@[k] == r0[k]);
                        }
                    }
                    assert forall|k: int, l: int| 0 <= k < l < r@.len() implies (#[trigger] r@[k]).0
                        < (#[trigger] r@[l]).0 by {
                        if l < n {
                            assert(r@[k] == r0[k]);
                            assert(r@[l] == r0[l]);
                        } else {
                            assert(r@[k] == r0[k]);
                        }
                    }
                }
                i = i + 1;
                j = j + 1;
            }
        }
        proof {
            assert forall|p: int, q: int|
                0 <= p < a@.len() && 0 <= q < b@.len() && #[trigger] a@[p] == #[trigger] b@[q] implies exists|k: int|
                0 <= k < r@.len() && #[trigger] r@[k] == (p as usize, q as usize) by {
                assert(p < i || q < j);
            }
        }
        r
    }

    /// The value stored at `index`, if the vector has an entry there.
    pub fn get(&self, index: u32) -> (r: Option<u32>)
        ensures
            match r {
                Some(v) => exists|p: int|
                    0 <= p < self@.indices.len() && self@.indices[p] == index && #[trigger] self@.values[p] == v,
                None => forall|p: int| 0 <= p < self@.indices.len() ==> #[trigger] self@.indices[p] != index,
            },
    {
        proof {
            use_type_invariant(self);
        }
        let mut lo: usize = 0;
        let mut hi: usize = self.indices.len();
        while lo < hi
            invariant
                0 <= lo <= hi <= self.indices@.len(),
                self.indices@.len() == self.values@.len(),
                valid_sparse(self.indices@, self.values@, self.dim),
                forall|p: int| 0 <= p < lo ==> #[trigger] self.indices@[p] < index,
                forall|p: int| hi <= p < self.indices@.len() ==> #[trigger] self.indices@[p] > index,
            decreases hi - lo,
        {
            let mid = lo + (hi - lo) / 2;
            let m = self.indices[mid];
            if m == index {
                assert(self@.values[mid as int] == self.values@[mid as int]);
                return Some(self.values[mid]);
            } else if m < index {
                lo = mid + 1;
            } else {
                hi = mid;
            }
        }
        None
    }
}

} // verus!
