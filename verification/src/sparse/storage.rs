//! Sparse vector storage in packed arrays.
//!
//! All vectors' indices and values are concatenated into packed arrays; the
//! `offsets` array tracks where each vector starts:
//!
//! ```text
//! Vector 0: indices[0..offsets[1]], values[0..offsets[1]]
//! Vector 1: indices[offsets[1]..offsets[2]], values[offsets[1]..offsets[2]]
//! ```
//!
//! Deleted vectors keep their data; a bitmap marks them.

use super::error::SparseError;
use super::vector::{valid_sparse, SparseVector, SparseVectorModel};
use crate::bits::{lemma_unpack_pack, pack_byte, pack_group, packed_bits, unpacked_bits};
use crate::checksum::{crc32_hash, crc32_of};
use crate::le::{
    append_u32_le, append_u32s_le, append_u64_le, le32, le32s, le64, lemma_le32s_decode,
    lemma_le32s_len, lemma_le_roundtrip, lemma_u32_at_concat, lemma_u64_at_concat, read_u32_le,
    read_u32s_le, read_u64_le, u32_at, u32s_at, u64_at,
};
use crate::bitset::{
    bits_of, bitvec_capacity, bitvec_count_ones, bitvec_count_zeros, bitvec_get, bitvec_len,
    bitvec_max_len, bitvec_new, bitvec_push, bitvec_set, bitvec_with_capacity, count_false, count_true,
    lemma_count_update, vec_capacity, Bits,
};
use vstd::prelude::*;

verus! {

broadcast use vstd::std_specs::vec::axiom_spec_into_iter;

/// Magic number for sparse storage files: "ESPV".
pub const SPARSE_MAGIC: [u8; 4] = [0x45u8, 0x53u8, 0x50u8, 0x56u8];

/// Current format version.
pub const SPARSE_FORMAT_VERSION: u32 = 2;

/// Highest format version that can be read.
pub const SPARSE_MAX_SUPPORTED_VERSION: u32 = 2;

/// Identifier of a sparse vector in storage: its insertion position.
#[derive(Copy, Clone, Debug, PartialEq, Eq, Structural, Hash)]
pub struct SparseId(pub u64);

impl SparseId {
    /// Creates a `SparseId` from a raw value.
    pub fn new(id: u64) -> (r: Self)
        ensures
            r.0 == id,
    {
        SparseId(id)
    }

    /// Returns the raw value.
    /// The text `SparseId(n)`.
    pub fn text(&self) -> (s: String)
        ensures
            s@ == "SparseId("@ + crate::hex::decimal(self.0 as nat) + ")"@,
    {
        let mut s = String::new();
        s.append("SparseId(");
        crate::hex::push_decimal(&mut s, self.0);
        s.append(")");
        s
    }

    pub fn as_u64(self) -> (r: u64)
        ensures
            r == self.0,
    {
        self.0
    }
}

impl From<u64> for SparseId {
    fn from(id: u64) -> (r: Self) {
        SparseId(id)
    }
}

impl vstd::std_specs::convert::FromSpecImpl<u64> for SparseId {
    open spec fn obeys_from_spec() -> bool {
        true
    }

    open spec fn from_spec(v: u64) -> SparseId {
        SparseId(v)
    }
}

impl From<SparseId> for u64 {
    fn from(id: SparseId) -> (r: u64) {
        id.0
    }
}

impl vstd::std_specs::convert::FromSpecImpl<SparseId> for u64 {
    open spec fn obeys_from_spec() -> bool {
        true
    }

    open spec fn from_spec(v: SparseId) -> u64 {
        v.0
    }
}

/// `a * b`, or `usize::MAX` where the product does not fit.
fn saturating_mul_usize(a: usize, b: usize) -> (r: usize)
    ensures
        r == (if a * b <= usize::MAX { a * b } else { usize::MAX as int }),
{
    match a.checked_mul(b) {
        Some(p) => p,
        None => usize::MAX,
    }
}

/// The memory estimate for the given capacities of the indices, values,
/// offsets and dimensions arrays (four bytes a slot) and of the deletion
/// bitmap (bits, rounded up to bytes), or `usize::MAX` where it does not fit.
pub open spec fn memory_from(a: usize, b: usize, c: usize, d: usize, e: usize) -> int {
    let total = 4 * a + 4 * b + 4 * c + 4 * d + (e + 7) / 8;
    if total <= usize::MAX {
        total
    } else {
        usize::MAX as int
    }
}

/// Whether capacities `a` to `e` hold the arrays and the bitmap of `m`.
pub open spec fn capacities_cover(m: SparseStorageModel, a: usize, b: usize, c: usize, d: usize, e: usize) -> bool {
    &&& a >= m.indices.len()
    &&& b >= m.values.len()
    &&& c >= m.offsets.len()
    &&& d >= m.dims.len()
    &&& e >= m.deleted.len()
}

/// The memory estimate of a sparse storage whose arrays have capacities `a`
/// (indices), `b` (values), `c` (offsets), `d` (dimensions) and whose
/// deletion bitmap has capacity `e` bits, saturating at `usize::MAX`.
pub fn memory_from_capacities(a: usize, b: usize, c: usize, d: usize, e: usize) -> (n: usize)
    ensures
        n == memory_from(a, b, c, d, e),
{
    let a4 = saturating_mul_usize(a, 4);
    let b4 = saturating_mul_usize(b, 4);
    let c4 = saturating_mul_usize(c, 4);
    let d4 = saturating_mul_usize(d, 4);
    let e8 = e / 8 + if e % 8 == 0 { 0 } else { 1 };
    assert(e8 == (e + 7) / 8);
    a4.saturating_add(b4).saturating_add(c4).saturating_add(d4).saturating_add(e8)
}

/// The layout-level contents of a sparse storage.
pub struct SparseStorageModel {
    /// Packed indices of all vectors.
    pub indices: Seq<u32>,
    /// Packed values (`f32` bit patterns) of all vectors.
    pub values: Seq<u32>,
    /// Start of each vector in the packed arrays, plus a final end offset.
    pub offsets: Seq<u32>,
    /// Dimension of each vector.
    pub dims: Seq<u32>,
    /// Deletion flag of each vector.
    pub deleted: Seq<bool>,
    /// The ID the next insertion receives.
    pub next_id: u64,
}

/// The vector stored at position `k`.
pub open spec fn vector_at(m: SparseStorageModel, k: int) -> SparseVectorModel {
    SparseVectorModel {
        indices: m.indices.subrange(m.offsets[k] as int, m.offsets[k + 1] as int),
        values: m.values.subrange(m.offsets[k] as int, m.offsets[k + 1] as int),
        dim: m.dims[k],
    }
}

/// Consistency of the packed layout: one offset more than vectors, offsets
/// start at 0, never decrease and end at the packed length; one deletion flag
/// per vector; each stored segment is a valid sparse vector.
pub open spec fn storage_wf(m: SparseStorageModel) -> bool {
    &&& m.offsets.len() == m.dims.len() + 1
    &&& m.deleted.len() == m.dims.len()
    &&& m.indices.len() == m.values.len()
    &&& m.indices.len() <= u32::MAX
    &&& m.offsets[0] == 0
    &&& m.offsets[m.dims.len() as int] == m.indices.len()
    &&& forall|i: int, j: int| 0 <= i <= j <= m.dims.len() ==> m.offsets[i] <= m.offsets[j]
    &&& forall|k: int|
        0 <= k < m.dims.len() ==> valid_sparse(
            #[trigger] vector_at(m, k).indices,
            vector_at(m, k).values,
            vector_at(m, k).dim,
        )
}

/// The storage after appending vector `v`.
pub open spec fn sparse_appended(m: SparseStorageModel, v: SparseVectorModel) -> SparseStorageModel {
    SparseStorageModel {
        indices: m.indices + v.indices,
        values: m.values + v.values,
        offsets: m.offsets.push((m.indices.len() + v.indices.len()) as u32),
        dims: m.dims.push(v.dim),
        deleted: m.deleted.push(false),
        next_id: (m.next_id + 1) as u64,
    }
}

/// IDs of the vectors that are not deleted, in order.
pub open spec fn live_ids(deleted: Seq<bool>) -> Seq<u64>
    decreases deleted.len(),
{
    if deleted.len() == 0 {
        Seq::empty()
    } else {
        let rest = live_ids(deleted.drop_last());
        if deleted.last() {
            rest
        } else {
            rest.push((deleted.len() - 1) as u64)
        }
    }
}

/// Storage for sparse vectors in packed arrays.
#[derive(Debug)]
pub struct SparseStorage {
    indices: Vec<u32>,
    values: Vec<u32>,
    offsets: Vec<u32>,
    dims: Vec<u32>,
    deleted: Bits,
    next_id: u64,
}

/// Iterator over the live vectors of a storage, with their IDs.
pub type SparseStorageIter = std::vec::IntoIter<(SparseId, SparseVector)>;

impl Default for SparseStorage {
    fn default() -> (s: Self)
        ensures
            s@.indices.len() == 0,
            s@.dims.len() == 0,
            s@.next_id == 0,
            s@.offsets == seq![0u32],
            s@.deleted.len() == 0,
    {
        SparseStorage::new()
    }
}

impl View for SparseStorage {
    type V = SparseStorageModel;

    closed spec fn view(&self) -> SparseStorageModel {
        SparseStorageModel {
            indices: self.indices@,
            values: self.values@,
            offsets: self.offsets@,
            dims: self.dims@,
            deleted: bits_of(self.deleted),
            next_id: self.next_id,
        }
    }
}

impl SparseStorage {
    #[verifier::type_invariant]
    spec fn inv(self) -> bool {
        &&& storage_wf(self@)
        &&& self@.dims.len() < bitvec_max_len()
    }

    /// The storage's layout is consistent, and its deletion flags fit a
    /// bit-vector on this machine.
    pub fn check_wf(&self)
        ensures
            storage_wf(self@),
            self@.dims.len() < bitvec_max_len(),
    {
        proof {
            use_type_invariant(self);
        }
    }

    /// Creates an empty storage.
    pub fn new() -> (s: Self)
        ensures
            s@.indices.len() == 0,
            s@.dims.len() == 0,
            s@.next_id == 0,
            s@.offsets == seq![0u32],
            s@.deleted.len() == 0,
    {
        let mut offsets: Vec<u32> = Vec::new();
        offsets.push(0);
        proof {
            crate::bitset::lemma_bitvec_max_len();
        }
        let s = SparseStorage {
            indices: Vec::new(),
            values: Vec::new(),
            offsets,
            dims: Vec::new(),
            deleted: bitvec_new(),
            next_id: 0,
        };
        proof {
            assert(s@.offsets =~= seq![0u32]);
        }
        s
    }

    /// Creates an empty storage with room for `num_vectors` vectors of about
    /// `avg_nnz` entries each.
    pub fn with_capacity(num_vectors: usize, avg_nnz: usize) -> (s: Self)
        ensures
            s@.indices.len() == 0,
            s@.values.len() == 0,
            s@.dims.len() == 0,
            s@.next_id == 0,
            s@.offsets == seq![0u32],
            s@.deleted.len() == 0,
    {
        let total_elements = saturating_mul_usize(num_vectors, avg_nnz);
        let mut offsets: Vec<u32> = Vec::with_capacity(num_vectors.saturating_add(1));
        offsets.push(0);
        let cap = if num_vectors <= (usize::MAX >> 3) { num_vectors } else { usize::MAX >> 3 };
        proof {
            crate::bitset::lemma_bitvec_max_len();
        }
        let s = SparseStorage {
            indices: Vec::with_capacity(total_elements),
            values: Vec::with_capacity(total_elements),
            offsets,
            dims: Vec::with_capacity(num_vectors),
            deleted: bitvec_with_capacity(cap),
            next_id: 0,
        };
        proof {
            assert(s@.offsets =~= seq![0u32]);
        }
        s
    }

    /// Number of stored vectors, deleted ones included.
    pub fn len(&self) -> (n: usize)
        ensures
            n == self@.dims.len(),
    {
        self.dims.len()
    }

    /// Whether no vector was ever stored.
    pub fn is_empty(&self) -> (b: bool)
        ensures
            b == (self@.dims.len() == 0),
    {
        self.dims.len() == 0
    }

    /// Number of vectors that are not deleted.
    pub fn live_count(&self) -> (n: usize)
        ensures
            n == count_false(self@.deleted),
    {
        bitvec_count_zeros(&self.deleted)
    }

    /// Number of deleted vectors.
    pub fn deleted_count(&self) -> (n: usize)
        ensures
            n == count_true(self@.deleted),
    {
        bitvec_count_ones(&self.deleted)
    }

    /// Number of vectors that are not deleted.
    pub fn active_count(&self) -> (n: usize)
        ensures
            n == count_false(self@.deleted),
    {
        self.live_count()
    }

    /// Number of stored vectors, deleted ones included.
    pub fn total_count(&self) -> (n: usize)
        ensures
            n == self@.dims.len(),
    {
        self.len()
    }

    /// Total number of stored entries over all vectors.
    pub fn total_nnz(&self) -> (n: usize)
        ensures
            n == self@.indices.len(),
    {
        self.indices.len()
    }

    /// The ID the next insertion receives.
    pub fn next_id(&self) -> (n: u64)
        ensures
            n == self@.next_id,
    {
        self.next_id
    }

    /// Approximate heap memory in bytes: four bytes per allocated slot of each
    /// packed array, plus the deletion bitmap rounded up to whole bytes, from
    /// the capacities the allocator gave (`memory_from_capacities` on them);
    /// each capacity is at least the length it holds.
    pub fn memory_usage(&self) -> (n: usize)
        ensures
            exists|a: usize, b: usize, c: usize, d: usize, e: usize|
                capacities_cover(self@, a, b, c, d, e) && n == #[trigger] memory_from(a, b, c, d, e),
            n >= 4 * (self@.indices.len() + self@.values.len() + self@.offsets.len()
                + self@.dims.len()) + (self@.deleted.len() + 7) / 8 || n == usize::MAX,
    {
        let a = vec_capacity(&self.indices);
        let b = vec_capacity(&self.values);
        let c = vec_capacity(&self.offsets);
        let d = vec_capacity(&self.dims);
        let e = bitvec_capacity(&self.deleted);
        let n = memory_from_capacities(a, b, c, d, e);
        proof {
            assert(capacities_cover(self@, a, b, c, d, e));
        }
        n
    }

    /// Appends a vector and returns its ID.
    ///
    /// Fails with `IdOverflow` and leaves the storage unchanged when the ID
    /// counter is exhausted.
    pub fn insert(&mut self, vector: &SparseVector) -> (r: Result<SparseId, SparseError>)
        requires
            old(self)@.indices.len() + vector@.indices.len() <= u32::MAX,
            old(self)@.dims.len() + 1 < bitvec_max_len(),
        ensures
            old(self)@.next_id == u64::MAX ==> r == Err::<SparseId, SparseError>(
                SparseError::IdOverflow,
            ) && final(self)@ == old(self)@,
            old(self)@.next_id < u64::MAX ==> r == Ok::<SparseId, SparseError>(
                SparseId(old(self)@.next_id),
            ) && final(self)@ == sparse_appended(old(self)@, vector@),
            old(self)@.next_id < u64::MAX ==> vector_at(final(self)@, old(self)@.dims.len() as int)
                == vector@,
    {
        proof {
            use_type_invariant(&*self);
        }
        let id = SparseId(self.next_id);
        if self.next_id == u64::MAX {
            return Err(SparseError::IdOverflow);
        }
        let vi = vector.indices();
        let vv = vector.values();
        let ghost old_m = self@;
        let mut taken = SparseStorage::new();
        std::mem::swap(self, &mut taken);
        let SparseStorage { mut indices, mut values, mut offsets, mut dims, mut deleted, next_id } =
            taken;
        proof {
            assert(indices@ == old_m.indices);
        }
        indices.extend_from_slice(vi);
        values.extend_from_slice(vv);
        proof {
            assert(indices@ =~= old_m.indices + vector@.indices);
            assert(values@ =~= old_m.values + vector@.values);
        }
        let new_offset = indices.len() as u32;
        offsets.push(new_offset);
        dims.push(vector.dim());
        bitvec_push(&mut deleted, false);
        let ghost new_m = SparseStorageModel {
            indices: indices@,
            values: values@,
            offsets: offsets@,
            dims: dims@,
            deleted: bits_of(deleted),
            next_id: (old_m.next_id + 1) as u64,
        };
        proof {
            let n = old_m.dims.len() as int;
            assert(vector_at(new_m, n).indices =~= vector@.indices);
            assert(vector_at(new_m, n).values =~= vector@.values);
            assert forall|k: int| 0 <= k < new_m.dims.len() implies valid_sparse(
                #[trigger] vector_at(new_m, k).indices,
                vector_at(new_m, k).values,
                vector_at(new_m, k).dim,
            ) by {
                if k < n {
                    assert(vector_at(new_m, k).indices =~= vector_at(old_m, k).indices);
                    assert(vector_at(new_m, k).values =~= vector_at(old_m, k).values);
                    assert(vector_at(old_m, k) == vector_at(old_m, k));
                }
            }
        }
        *self = SparseStorage {
            indices,
            values,
            offsets,
            dims,
            deleted,
            next_id: next_id + 1,
        };
        Ok(id)
    }

    /// Position of `id` in the packed arrays and the bounds of its segment.
    fn segment(&self, idx: usize) -> (r: (usize, usize))
        requires
            idx < self@.dims.len(),
        ensures
            r.0 == self@.offsets[idx as int],
            r.1 == self@.offsets[idx as int + 1],
            r.0 <= r.1 <= self@.indices.len(),
            self@.indices.len() == self@.values.len(),
    {
        proof {
            use_type_invariant(self);
        }
        let n_offsets = self.offsets.len();
        assert(idx + 1 < n_offsets);
        let start = self.offsets[idx] as usize;
        let end = self.offsets[idx + 1] as usize;
        (start, end)
    }

    /// Whether the ID names a stored vector that is not deleted.
    fn is_live(&self, id: SparseId) -> (b: bool)
        ensures
            b == spec_is_live(self@, id),
    {
        proof {
            use_type_invariant(self);
        }
        let n = self.dims.len();
        if id.0 >= n as u64 {
            false
        } else {
            !bitvec_get(&self.deleted, id.0 as usize)
        }
    }

    /// The vector with this ID, unless it does not exist or is deleted.
    pub fn get(&self, id: SparseId) -> (r: Option<SparseVector>)
        ensures
            match r {
                Some(v) => spec_is_live(self@, id) && v@ == vector_at(self@, id.0 as int),
                None => !spec_is_live(self@, id),
            },
    {
        proof {
            use_type_invariant(self);
        }
        if !self.is_live(id) {
            return None;
        }
        let n = self.dims.len();
        assert(id.0 < n);
        let idx = id.0 as usize;
        assert(idx as int == id.0 as int);
        let (start, end) = self.segment(idx);
        let indices = vstd::slice::slice_to_vec(vstd::slice::slice_subrange(self.indices.as_slice(), start, end));
        let values = vstd::slice::slice_to_vec(vstd::slice::slice_subrange(self.values.as_slice(), start, end));
        let dim = self.dims[idx];
        proof {
            assert(vector_at(self@, idx as int).indices =~= indices@);
            assert(vector_at(self@, idx as int).values =~= values@);
            assert(vector_at(self@, idx as int).dim == dim);
        }
        let v = SparseVector::new_unchecked(indices, values, dim);
        proof {
            assert(v@ == vector_at(self@, idx as int));
        }
        Some(v)
    }

    /// Checks a vector before insertion: it must have at least one entry.
    /// Vectors of different dimensions may share one storage.
    pub fn validate_for_insert(vector: &SparseVector) -> (r: Result<(), SparseError>)
        ensures
            r is Ok <==> vector@.indices.len() > 0,
            r is Err ==> r == Err::<(), SparseError>(SparseError::EmptyVector),
    {
        if vector.nnz() == 0 {
            return Err(SparseError::EmptyVector);
        }
        Ok(())
    }

    /// The packed indices of all stored vectors, deleted ones included.
    pub fn indices_slice(&self) -> (s: &[u32])
        ensures
            s@ == self@.indices,
    {
        self.indices.as_slice()
    }

    /// The packed values of all stored vectors, deleted ones included.
    pub fn values_slice(&self) -> (s: &[u32])
        ensures
            s@ == self@.values,
    {
        self.values.as_slice()
    }

    /// The start offset of each stored vector in the packed arrays.
    pub fn offsets_slice(&self) -> (s: &[u32])
        ensures
            s@ == self@.offsets.drop_last(),
    {
        proof {
            use_type_invariant(self);
        }
        let n = self.offsets.len() - 1;
        let s = vstd::slice::slice_subrange(self.offsets.as_slice(), 0, n);
        proof {
            assert(s@ =~= self@.offsets.drop_last());
        }
        s
    }

    /// The dimension of each stored vector.
    pub fn dims_slice(&self) -> (s: &[u32])
        ensures
            s@ == self@.dims,
    {
        self.dims.as_slice()
    }

    /// The indices of the vector with this ID, unless it does not exist or is deleted.
    pub fn get_indices(&self, id: SparseId) -> (r: Option<&[u32]>)
        ensures
            match r {
                Some(s) => spec_is_live(self@, id) && s@ == vector_at(self@, id.0 as int).indices,
                None => !spec_is_live(self@, id),
            },
    {
        if !self.is_live(id) {
            return None;
        }
        let n = self.dims.len();
        assert(id.0 < n);
        let (start, end) = self.segment(id.0 as usize);
        let s = vstd::slice::slice_subrange(self.indices.as_slice(), start, end);
        proof {
            assert(s@ =~= vector_at(self@, id.0 as int).indices);
        }
        Some(s)
    }

    /// The values of the vector with this ID, unless it does not exist or is deleted.
    pub fn get_values(&self, id: SparseId) -> (r: Option<&[u32]>)
        ensures
            match r {
                Some(s) => spec_is_live(self@, id) && s@ == vector_at(self@, id.0 as int).values,
                None => !spec_is_live(self@, id),
            },
    {
        if !self.is_live(id) {
            return None;
        }
        let n = self.dims.len();
        assert(id.0 < n);
        let (start, end) = self.segment(id.0 as usize);
        let s = vstd::slice::slice_subrange(self.values.as_slice(), start, end);
        proof {
            assert(s@ =~= vector_at(self@, id.0 as int).values);
        }
        Some(s)
    }

    /// The dimension of the vector with this ID, unless it does not exist or is deleted.
    pub fn get_dim(&self, id: SparseId) -> (r: Option<u32>)
        ensures
            match r {
                Some(d) => spec_is_live(self@, id) && d == self@.dims[id.0 as int],
                None => !spec_is_live(self@, id),
            },
    {
        if !self.is_live(id) {
            return None;
        }
        let n = self.dims.len();
        assert(id.0 < n);
        Some(self.dims[id.0 as usize])
    }

    /// Whether the ID names a stored vector that is not deleted.
    pub fn contains(&self, id: SparseId) -> (b: bool)
        ensures
            b == spec_is_live(self@, id),
    {
        self.is_live(id)
    }

    /// Whether the vector is deleted; IDs that were never assigned count as deleted.
    pub fn is_deleted(&self, id: SparseId) -> (b: bool)
        ensures
            b == !spec_is_live(self@, id),
    {
        !self.is_live(id)
    }

    /// Whether the ID was ever assigned to a stored vector, deleted or not.
    pub fn exists_id(&self, id: SparseId) -> (b: bool)
        ensures
            b == (id.0 < self@.dims.len()),
    {
        let n = self.dims.len();
        id.0 < n as u64
    }

    /// Marks a vector as deleted. Returns whether it was live before.
    pub fn delete(&mut self, id: SparseId) -> (r: Result<bool, SparseError>)
        ensures
            id.0 >= old(self)@.dims.len() ==> r == Err::<bool, SparseError>(
                SparseError::IdNotFound(id.0),
            ) && final(self)@ == old(self)@,
            id.0 < old(self)@.dims.len() ==> r == Ok::<bool, SparseError>(
                !old(self)@.deleted[id.0 as int],
            ) && final(self)@ == (SparseStorageModel {
                deleted: old(self)@.deleted.update(id.0 as int, true),
                ..old(self)@
            }),
    {
        self.set_deleted(id, true)
    }

    /// Clears the deletion mark of a vector. Returns whether it was deleted before.
    pub fn restore(&mut self, id: SparseId) -> (r: Result<bool, SparseError>)
        ensures
            id.0 >= old(self)@.dims.len() ==> r == Err::<bool, SparseError>(
                SparseError::IdNotFound(id.0),
            ) && final(self)@ == old(self)@,
            id.0 < old(self)@.dims.len() ==> r == Ok::<bool, SparseError>(
                old(self)@.deleted[id.0 as int],
            ) && final(self)@ == (SparseStorageModel {
                deleted: old(self)@.deleted.update(id.0 as int, false),
                ..old(self)@
            }),
    {
        self.set_deleted(id, false)
    }

    /// Sets the deletion flag of a stored vector; reports whether the flag changed.
    fn set_deleted(&mut self, id: SparseId, flag: bool) -> (r: Result<bool, SparseError>)
        ensures
            id.0 >= old(self)@.dims.len() ==> r == Err::<bool, SparseError>(
                SparseError::IdNotFound(id.0),
            ) && final(self)@ == old(self)@,
            id.0 < old(self)@.dims.len() ==> r == Ok::<bool, SparseError>(
                old(self)@.deleted[id.0 as int] != flag,
            ) && final(self)@ == (SparseStorageModel {
                deleted: old(self)@.deleted.update(id.0 as int, flag),
                ..old(self)@
            }),
    {
        proof {
            use_type_invariant(&*self);
        }
        let n = self.dims.len();
        if id.0 >= n as u64 {
            return Err(SparseError::IdNotFound(id.0));
        }
        let idx = id.0 as usize;
        assert(idx as int == id.0 as int);
        let current = bitvec_get(&self.deleted, idx);
        if current == flag {
            proof {
                assert(self@.deleted.update(idx as int, flag) =~= self@.deleted);
            }
            return Ok(false);
        }
        let ghost old_m = self@;
        let mut taken = SparseStorage::new();
        std::mem::swap(self, &mut taken);
        let SparseStorage { indices, values, offsets, dims, mut deleted, next_id } = taken;
        bitvec_set(&mut deleted, idx, flag);
        proof {
            let new_m = SparseStorageModel { deleted: bits_of(deleted), ..old_m };
            assert forall|k: int| 0 <= k < new_m.dims.len() implies valid_sparse(
                #[trigger] vector_at(new_m, k).indices,
                vector_at(new_m, k).values,
                vector_at(new_m, k).dim,
            ) by {
                assert(vector_at(new_m, k) == vector_at(old_m, k));
            }
        }
        *self = SparseStorage { indices, values, offsets, dims, deleted, next_id };
        proof {
            assert(bits_of(self.deleted) =~= old_m.deleted.update(idx as int, flag));
        }
        Ok(true)
    }

    /// Deletes several vectors at once. If any ID does not exist, nothing is
    /// deleted and the first such ID is reported. Returns how many vectors were
    /// newly deleted.
    pub fn delete_batch(&mut self, ids: &[SparseId]) -> (r: Result<usize, SparseError>)
        ensures
            match r {
                Err(e) => (exists|i: int|
                    0 <= i < ids@.len() && #[trigger] ids@[i].0 >= old(self)@.dims.len() && (forall|
                        j: int,
                    |
                        0 <= j < i ==> ids@[j].0 < old(self)@.dims.len()) && e
                        == SparseError::IdNotFound(ids@[i].0)) && final(self)@ == old(self)@,
                Ok(n) => (forall|i: int|
                    0 <= i < ids@.len() ==> #[trigger] ids@[i].0 < old(self)@.dims.len())
                    && final(self)@ == (SparseStorageModel {
                    deleted: marked_deleted(old(self)@.deleted, ids@, ids@.len() as int),
                    ..old(self)@
                }) && n == count_true(final(self)@.deleted) - count_true(old(self)@.deleted),
            },
    {
        proof {
            use_type_invariant(&*self);
        }
        let len = self.dims.len();
        let mut i: usize = 0;
        while i < ids.len()
            invariant
                i <= ids@.len(),
                len == self@.dims.len(),
                forall|j: int| 0 <= j < i ==> #[trigger] ids@[j].0 < len,
            decreases ids@.len() - i,
        {
            if ids[i].0 >= len as u64 {
                return Err(SparseError::IdNotFound(ids[i].0));
            }
            i = i + 1;
        }
        let ghost old_m = self@;
        let mut count: usize = 0;
        let mut k: usize = 0;
        proof {
            assert(marked_deleted(old_m.deleted, ids@, 0) =~= old_m.deleted);
        }
        while k < ids.len()
            invariant
                k <= ids@.len(),
                len == old_m.dims.len(),
                forall|j: int| 0 <= j < ids@.len() ==> #[trigger] ids@[j].0 < len,
                old_m.deleted.len() == len,
                self@ == (SparseStorageModel {
                    deleted: marked_deleted(old_m.deleted, ids@, k as int),
                    ..old_m
                }),
                count == count_true(self@.deleted) - count_true(old_m.deleted),
                count <= k,
            decreases ids@.len() - k,
        {
            let ghost before = self@.deleted;
            let changed = self.set_deleted(ids[k], true);
            let ghost idk = ids@[k as int].0 as int;
            proof {
                lemma_count_update(before, idk, true);
                assert(self@.deleted =~= marked_deleted(old_m.deleted, ids@, k as int + 1)) by {
                    assert forall|q: int| 0 <= q < self@.deleted.len() implies self@.deleted[q]
                        == marked_deleted(old_m.deleted, ids@, k as int + 1)[q] by {
                        if q == idk {
                            assert(ids@[k as int].0 == q);
                        } else {
                            if exists|j: int| 0 <= j < k + 1 && #[trigger] ids@[j].0 == q {
                                let j = choose|j: int| 0 <= j < k + 1 && #[trigger] ids@[j].0 == q;
                                assert(j < k);
                            }
                        }
                    }
                }
            }
            match changed {
                Ok(true) => {
                    count = count + 1;
                },
                _ => {},
            }
            k = k + 1;
        }
        Ok(count)
    }

    /// Appends several vectors and returns their IDs. When the ID counter runs
    /// out midway, the vectors appended so far stay and `IdOverflow` is returned.
    pub fn insert_batch(&mut self, vectors: &[SparseVector]) -> (r: Result<Vec<SparseId>, SparseError>)
        requires
            old(self)@.indices.len() + total_nnz_of(vectors@, vectors@.len() as int) <= u32::MAX,
            old(self)@.dims.len() + vectors@.len() + 1 < bitvec_max_len(),
        ensures
            ({
                let n = vectors@.len() as int;
                let fits = old(self)@.next_id + n <= u64::MAX;
                let done = if fits { n } else { u64::MAX - old(self)@.next_id };
                &&& final(self)@.dims.len() == old(self)@.dims.len() + done
                &&& final(self)@.next_id == old(self)@.next_id + done
                &&& final(self)@.deleted == old(self)@.deleted + Seq::new(done as nat, |k: int| false)
                &&& forall|j: int|
                    0 <= j < old(self)@.dims.len() ==> vector_at(final(self)@, j) == vector_at(
                        old(self)@,
                        j,
                    )
                &&& forall|k: int|
                    0 <= k < done ==> vector_at(final(self)@, old(self)@.dims.len() + k)
                        == #[trigger] vectors@[k]@
                &&& match r {
                    Ok(ids) => fits && ids@.len() == n && forall|k: int|
                        0 <= k < n ==> #[trigger] ids@[k] == SparseId((old(self)@.next_id + k) as u64),
                    Err(e) => !fits && e == SparseError::IdOverflow,
                }
            }),
    {
        proof {
            use_type_invariant(&*self);
        }
        let ghost old_m = self@;
        let mut ids: Vec<SparseId> = Vec::new();
        let mut k: usize = 0;
        while k < vectors.len()
            invariant
                k <= vectors@.len(),
                old_m == old(self)@,
                old_m.next_id + k <= u64::MAX,
                self@.dims.len() == old_m.dims.len() + k,
                self@.next_id == old_m.next_id + k,
                self@.indices.len() == old_m.indices.len() + total_nnz_of(vectors@, k as int),
                old_m.indices.len() + total_nnz_of(vectors@, vectors@.len() as int) <= u32::MAX,
                old_m.dims.len() + vectors@.len() + 1 < bitvec_max_len(),
                self@.deleted == old_m.deleted + Seq::new(k as nat, |q: int| false),
                forall|j: int|
                    0 <= j < old_m.dims.len() ==> vector_at(self@, j) == vector_at(old_m, j),
                forall|q: int|
                    0 <= q < k ==> vector_at(self@, old_m.dims.len() + q) == #[trigger] vectors@[q]@,
                ids@.len() == k,
                forall|q: int|
                    0 <= q < k ==> #[trigger] ids@[q] == SparseId((old_m.next_id + q) as u64),
            decreases vectors@.len() - k,
        {
            proof {
                use_type_invariant(&*self);
                lemma_total_nnz_monotone(vectors@, k as int + 1, vectors@.len() as int);
            }
            let ghost before = self@;
            let r = self.insert(&vectors[k]);
            match r {
                Ok(id) => {
                    ids.push(id);
                },
                Err(e) => {
                    proof {
                        assert(old_m.next_id + k == u64::MAX);
                        assert(self@ == before);
                        let done = u64::MAX - old_m.next_id;
                        assert(done == k);
                        assert(old_m.next_id + vectors@.len() > u64::MAX);
                        assert(Seq::new(done as nat, |q: int| false) =~= Seq::new(k as nat, |q: int| false));
                    }
                    return Err(e);
                },
            }
            proof {
                assert(self@.deleted =~= old_m.deleted + Seq::new((k + 1) as nat, |q: int| false));
                assert forall|j: int| 0 <= j < old_m.dims.len() implies vector_at(self@, j)
                    == vector_at(old_m, j) by {
                    lemma_vector_at_after_insert(before, self@, vectors@[k as int]@, j);
                }
                assert forall|q: int| 0 <= q < k + 1 implies vector_at(
                    self@,
                    old_m.dims.len() + q,
                ) == #[trigger] vectors@[q]@ by {
                    if q < k {
                        lemma_vector_at_after_insert(
                            before,
                            self@,
                            vectors@[k as int]@,
                            old_m.dims.len() + q,
                        );
                    }
                }
            }
            k = k + 1;
        }
        Ok(ids)
    }

    /// IDs of the vectors that are not deleted, in ascending order.
    pub fn ids(&self) -> (r: std::vec::IntoIter<SparseId>)
        ensures
            exists|v: Vec<SparseId>|
                r == vstd::std_specs::vec::spec_into_iter(v) && v@.len() == live_ids(
                    self@.deleted,
                ).len() && forall|k: int|
                    0 <= k < v@.len() ==> #[trigger] v@[k] == SparseId(live_ids(self@.deleted)[k]),
    {
        proof {
            use_type_invariant(self);
        }
        let n = self.dims.len();
        let mut out: Vec<SparseId> = Vec::new();
        let mut idx: usize = 0;
        while idx < n
            invariant
                idx <= n,
                n == self@.dims.len(),
                self@.deleted.len() == n,
                out@.len() == live_ids(self@.deleted.subrange(0, idx as int)).len(),
                forall|k: int|
                    0 <= k < out@.len() ==> #[trigger] out@[k] == SparseId(
                        live_ids(self@.deleted.subrange(0, idx as int))[k],
                    ),
            decreases n - idx,
        {
            proof {
                assert(self@.deleted.subrange(0, idx as int + 1).drop_last() =~= self@.deleted.subrange(
                    0,
                    idx as int,
                ));
            }
            if !bitvec_get(&self.deleted, idx) {
                out.push(SparseId(idx as u64));
            }
            idx = idx + 1;
        }
        proof {
            assert(self@.deleted.subrange(0, n as int) =~= self@.deleted);
        }
        out.into_iter()
    }

    /// The vectors that are not deleted, with their IDs, in ascending ID order.
    pub fn iter(&self) -> (r: SparseStorageIter)
        ensures
            exists|v: Vec<(SparseId, SparseVector)>|
                r == vstd::std_specs::vec::spec_into_iter(v) && v@.len() == live_ids(
                    self@.deleted,
                ).len() && forall|k: int|
                    0 <= k < v@.len() ==> (#[trigger] v@[k]).0 == SparseId(live_ids(self@.deleted)[k])
                        && v@[k].1@ == vector_at(self@, live_ids(self@.deleted)[k] as int),
    {
        proof {
            use_type_invariant(self);
        }
        let n = self.dims.len();
        let mut out: Vec<(SparseId, SparseVector)> = Vec::new();
        let mut idx: usize = 0;
        while idx < n
            invariant
                idx <= n,
                n == self@.dims.len(),
                self@.deleted.len() == n,
                out@.len() == live_ids(self@.deleted.subrange(0, idx as int)).len(),
                forall|k: int|
                    0 <= k < out@.len() ==> (#[trigger] out@[k]).0 == SparseId(
                        live_ids(self@.deleted.subrange(0, idx as int))[k],
                    ) && out@[k].1@ == vector_at(
                        self@,
                        live_ids(self@.deleted.subrange(0, idx as int))[k] as int,
                    ),
            decreases n - idx,
        {
            proof {
                assert(self@.deleted.subrange(0, idx as int + 1).drop_last() =~= self@.deleted.subrange(
                    0,
                    idx as int,
                ));
            }
            let id = SparseId(idx as u64);
            match self.get(id) {
                Some(v) => {
                    out.push((id, v));
                },
                None => {},
            }
            idx = idx + 1;
        }
        proof {
            assert(self@.deleted.subrange(0, n as int) =~= self@.deleted);
        }
        out.into_iter()
    }

    /// The deletion flags packed eight per byte, least significant bit first.
    fn pack_deleted_bits(&self) -> (bytes: Vec<u8>)
        ensures
            bytes@ == packed_bits(self@.deleted),
    {
        proof {
            use_type_invariant(self);
        }
        let count = bitvec_len(&self.deleted);
        let byte_count = count / 8 + if count % 8 == 0 { 0 } else { 1 };
        assert(byte_count == (count + 7) / 8);
        let ghost d = self@.deleted;
        let mut bytes: Vec<u8> = Vec::new();
        let mut b: usize = 0;
        while b < byte_count
            invariant
                b <= byte_count,
                byte_count == (count + 7) / 8,
                count == d.len(),
                d == bits_of(self.deleted),
                bytes@.len() == b,
                forall|q: int| 0 <= q < b ==> #[trigger] bytes@[q] == pack_byte(d, 8 * q, 8),
            decreases byte_count - b,
        {
            let mut group: Vec<bool> = Vec::new();
            let mut k: usize = 0;
            while k < 8
                invariant
                    k <= 8,
                    b < byte_count,
                    byte_count == (count + 7) / 8,
                    count == d.len(),
                    d == bits_of(self.deleted),
                    group@.len() == k,
                    forall|q: int|
                        0 <= q < k ==> #[trigger] group@[q] == (0 <= 8 * b + q < d.len() && d[8 * b
                            + q]),
                decreases 8 - k,
            {
                let pos = 8 * b + k;
                let bit = if pos < count {
                    bitvec_get(&self.deleted, pos)
                } else {
                    false
                };
                group.push(bit);
                k = k + 1;
            }
            let byte = pack_group(Ghost(d), 8 * b, group.as_slice());
            bytes.push(byte);
            b = b + 1;
        }
        proof {
            assert(bytes@ =~= packed_bits(d));
        }
        bytes
    }

    /// Serializes the storage: magic, version, vector count, offsets, dims,
    /// deletion bitmap, next ID, entry count, indices, values, and a CRC32 of
    /// everything after the version.
    pub fn to_bytes(&self) -> (bytes: Vec<u8>)
        ensures
            bytes@ == spec_storage_bytes(self@),
    {
        proof {
            use_type_invariant(self);
        }
        let count = self.dims.len();
        let total_nnz = self.indices.len();
        let mut payload: Vec<u8> = Vec::new();
        append_u64_le(&mut payload, count as u64);
        append_u32s_le(&mut payload, self.offsets.as_slice());
        append_u32s_le(&mut payload, self.dims.as_slice());
        let mut deleted_bytes = self.pack_deleted_bits();
        payload.append(&mut deleted_bytes);
        append_u64_le(&mut payload, self.next_id);
        append_u64_le(&mut payload, total_nnz as u64);
        append_u32s_le(&mut payload, self.indices.as_slice());
        append_u32s_le(&mut payload, self.values.as_slice());
        let checksum = crc32_hash(payload.as_slice());
        let mut bytes: Vec<u8> = Vec::new();
        bytes.push(SPARSE_MAGIC[0]);
        bytes.push(SPARSE_MAGIC[1]);
        bytes.push(SPARSE_MAGIC[2]);
        bytes.push(SPARSE_MAGIC[3]);
        append_u32_le(&mut bytes, SPARSE_FORMAT_VERSION);
        proof {
            assert(bytes@ =~= sparse_magic() + le32(2));
            assert(payload@ =~= spec_storage_payload(self@));
        }
        bytes.append(&mut payload);
        append_u32_le(&mut bytes, checksum);
        bytes
    }

    /// Unpacks `count` deletion flags from packed bytes (bits past the end of
    /// `bytes` read as not deleted).
    fn unpack_deleted_bits(bytes: &[u8], count: usize) -> (bits: Bits)
        requires
            count < bitvec_max_len(),
        ensures
            bits_of(bits) == unpacked_bits(bytes@, count as int),
    {
        let cap = count;
        let mut bits = bitvec_with_capacity(cap);
        let mut i: usize = 0;
        while i < count
            invariant
                i <= count,
                count < bitvec_max_len(),
                bits_of(bits) == unpacked_bits(bytes@, i as int),
            decreases count - i,
        {
            let byte_idx = i / 8;
            let bit_idx = (i % 8) as u8;
            let is_deleted = if byte_idx < bytes.len() {
                (bytes[byte_idx] >> bit_idx) & 1u8 == 1u8
            } else {
                false
            };
            bitvec_push(&mut bits, is_deleted);
            i = i + 1;
            proof {
                assert(bits_of(bits) =~= unpacked_bits(bytes@, i as int));
            }
        }
        bits
    }

    /// Whether packed arrays form a consistent storage layout.
    fn layout_is_consistent(
        offsets: &Vec<u32>,
        dims: &Vec<u32>,
        indices: &Vec<u32>,
        values: &Vec<u32>,
    ) -> (ok: bool)
        requires
            offsets@.len() == dims@.len() + 1,
            indices@.len() == values@.len(),
        ensures
            ok == storage_wf(
                SparseStorageModel {
                    indices: indices@,
                    values: values@,
                    offsets: offsets@,
                    dims: dims@,
                    deleted: Seq::new(dims@.len(), |k: int| false),
                    next_id: 0,
                },
            ),
    {
        let ghost m = SparseStorageModel {
            indices: indices@,
            values: values@,
            offsets: offsets@,
            dims: dims@,
            deleted: Seq::new(dims@.len(), |k: int| false),
            next_id: 0,
        };
        let c = dims.len();
        let n = indices.len();
        if n > 0xffff_ffffusize {
            return false;
        }
        if offsets[0] != 0 || offsets[c] as usize != n {
            return false;
        }
        let mut k: usize = 0;
        while k < c
            invariant
                k <= c,
                c == dims@.len(),
                n == indices@.len(),
                m == (SparseStorageModel {
                    indices: indices@,
                    values: values@,
                    offsets: offsets@,
                    dims: dims@,
                    deleted: Seq::new(dims@.len(), |k: int| false),
                    next_id: 0,
                }),
                offsets@.len() == c + 1,
                indices@.len() == values@.len(),
                n <= u32::MAX,
                offsets@[0] == 0,
                offsets@[c as int] == n,
                forall|i: int, j: int| 0 <= i <= j <= k ==> offsets@[i] <= offsets@[j],
                forall|q: int|
                    0 <= q < k ==> valid_sparse(
                        #[trigger] vector_at(m, q).indices,
                        vector_at(m, q).values,
                        vector_at(m, q).dim,
                    ),
            decreases c - k,
        {
            let start = offsets[k];
            let end = offsets[k + 1];
            if start > end || end as usize > n {
                proof {
                    if storage_wf(m) {
                        assert(m.offsets[k as int] <= m.offsets[k + 1]);
                        assert(m.offsets[k + 1] <= m.offsets[c as int]);
                    }
                }
                return false;
            }
            let seg_i = vstd::slice::slice_subrange(indices.as_slice(), start as usize, end as usize);
            let seg_v = vstd::slice::slice_subrange(values.as_slice(), start as usize, end as usize);
            let verdict = SparseVector::validate(seg_i, seg_v, dims[k]);
            proof {
                crate::sparse::vector::lemma_validate_ok_iff_valid(seg_i@, seg_v@, dims@[k as int]);
                assert(seg_i@ =~= vector_at(m, k as int).indices);
                assert(seg_v@ =~= vector_at(m, k as int).values);
            }
            if verdict.is_err() {
                return false;
            }
            proof {
                assert forall|i: int, j: int| 0 <= i <= j <= k + 1 implies offsets@[i]
                    <= offsets@[j] by {
                    if j == k + 1 && i <= k {
                        assert(offsets@[i] <= offsets@[k as int]);
                    }
                }
            }
            k = k + 1;
        }
        true
    }

    /// Parses a serialized storage. Format version 1 (no checksum) and version 2
    /// (checksum over everything after the version) are read. Data whose layout
    /// is inconsistent is reported as corrupted.
    pub fn from_bytes(bytes: &[u8]) -> (r: Result<Self, SparseError>)
        ensures
            match r {
                Ok(s) => spec_decode_storage(bytes@) == StorageDecoding::Decoded(s@),
                Err(SparseError::InvalidMagic { expected, found }) => expected@ == sparse_magic()
                    && spec_decode_storage(bytes@) == StorageDecoding::BadMagic(found@),
                Err(SparseError::UnsupportedVersion { expected, found }) => expected == 2
                    && spec_decode_storage(bytes@) == StorageDecoding::BadVersion(found),
                Err(SparseError::CorruptedData(_)) => spec_decode_storage(bytes@)
                    == StorageDecoding::Corrupted,
                _ => false,
            },
    {
        let len = bytes.len();
        if len < 4 {
            return Err(SparseError::CorruptedData(
                String::from_str("Failed to read magic: failed to fill whole buffer"),
            ));
        }
        let found: [u8; 4] = [bytes[0], bytes[1], bytes[2], bytes[3]];
        proof {
            assert(found@ =~= bytes@.subrange(0, 4));
            assert(SPARSE_MAGIC@ =~= sparse_magic());
        }
        if found[0] != SPARSE_MAGIC[0] || found[1] != SPARSE_MAGIC[1] || found[2] != SPARSE_MAGIC[2]
            || found[3] != SPARSE_MAGIC[3] {
            return Err(SparseError::InvalidMagic { expected: SPARSE_MAGIC, found });
        }
        if len < 8 {
            return Err(SparseError::CorruptedData(
                String::from_str("Failed to read version: failed to fill whole buffer"),
            ));
        }
        let version = read_u32_le(bytes, 4);
        if version == 0 || version > SPARSE_MAX_SUPPORTED_VERSION {
            return Err(
                SparseError::UnsupportedVersion { expected: SPARSE_FORMAT_VERSION, found: version },
            );
        }
        if version >= 2 {
            if len < 12 {
                return Err(SparseError::CorruptedData(
                    String::from_str("File too short for v2 format (missing checksum)"),
                ));
            }
            let expected_checksum = read_u32_le(bytes, len - 4);
            let actual_checksum = crc32_hash(vstd::slice::slice_subrange(bytes, 8, len - 4));
            if expected_checksum != actual_checksum {
                let mut msg = String::from_str("CRC32 checksum mismatch: expected ");
                crate::hex::push_hex_u32(&mut msg, expected_checksum);
                msg.append(", got ");
                crate::hex::push_hex_u32(&mut msg, actual_checksum);
                return Err(SparseError::CorruptedData(msg));
            }
        }
        if len < 16 {
            return Err(SparseError::CorruptedData(
                String::from_str("Failed to read count: failed to fill whole buffer"),
            ));
        }
        let count64 = read_u64_le(bytes, 8);
        let ghost c = count64 as int;
        let mut pos: usize = 16;
        if count64 >= ((len - pos) / 4) as u64 {
            return Err(SparseError::CorruptedData(
                String::from_str("Failed to read offset: failed to fill whole buffer"),
            ));
        }
        let count = count64 as usize;
        let offsets = read_u32s_le(bytes, pos, count + 1);
        pos = pos + 4 * (count + 1);
        if count > (len - pos) / 4 {
            return Err(SparseError::CorruptedData(
                String::from_str("Failed to read dim: failed to fill whole buffer"),
            ));
        }
        let dims = read_u32s_le(bytes, pos, count);
        pos = pos + 4 * count;
        let deleted_len = count / 8 + if count % 8 == 0 { 0 } else { 1 };
        assert(deleted_len == (count + 7) / 8);
        if deleted_len > len - pos || count >= (usize::MAX >> 3) {
            return Err(SparseError::CorruptedData(
                String::from_str("Failed to read deleted bitmap: failed to fill whole buffer"),
            ));
        }
        let deleted_slice = vstd::slice::slice_subrange(bytes, pos, pos + deleted_len);
        pos = pos + deleted_len;
        if len - pos < 8 {
            return Err(SparseError::CorruptedData(
                String::from_str("Failed to read next_id: failed to fill whole buffer"),
            ));
        }
        let next_id = read_u64_le(bytes, pos);
        pos = pos + 8;
        if len - pos < 8 {
            return Err(SparseError::CorruptedData(
                String::from_str("Failed to read total_nnz: failed to fill whole buffer"),
            ));
        }
        let nnz64 = read_u64_le(bytes, pos);
        pos = pos + 8;
        if nnz64 > ((len - pos) / 4) as u64 {
            return Err(SparseError::CorruptedData(
                String::from_str("Failed to read index: failed to fill whole buffer"),
            ));
        }
        let total_nnz = nnz64 as usize;
        let indices = read_u32s_le(bytes, pos, total_nnz);
        pos = pos + 4 * total_nnz;
        if total_nnz > (len - pos) / 4 {
            return Err(SparseError::CorruptedData(
                String::from_str("Failed to read value: failed to fill whole buffer"),
            ));
        }
        let values = read_u32s_le(bytes, pos, total_nnz);
        let deleted = Self::unpack_deleted_bits(deleted_slice, count);
        let ghost m = SparseStorageModel {
            indices: indices@,
            values: values@,
            offsets: offsets@,
            dims: dims@,
            deleted: bits_of(deleted),
            next_id,
        };
        proof {
            let b = bytes@;
            let dims_at = 16 + 4 * (c + 1);
            let del_at = dims_at + 4 * c;
            let nid_at = del_at + (c + 7) / 8;
            assert(m == spec_decoded_model(b));
            assert(storage_wf(m) == storage_wf(
                SparseStorageModel {
                    indices: indices@,
                    values: values@,
                    offsets: offsets@,
                    dims: dims@,
                    deleted: Seq::new(dims@.len(), |k: int| false),
                    next_id: 0,
                },
            )) by {
                let m0 = SparseStorageModel {
                    indices: indices@,
                    values: values@,
                    offsets: offsets@,
                    dims: dims@,
                    deleted: Seq::new(dims@.len(), |k: int| false),
                    next_id: 0,
                };
                assert forall|k: int| 0 <= k < dims@.len() implies vector_at(m, k) == vector_at(m0, k) by {
                }
            }
        }
        if !Self::layout_is_consistent(&offsets, &dims, &indices, &values) {
            return Err(SparseError::CorruptedData(
                String::from_str("Inconsistent vector layout"),
            ));
        }
        Ok(SparseStorage { indices, values, offsets, dims, deleted, next_id })
    }
}

/// The deletion flags after marking every ID among the first `n` of `ids`.
pub open spec fn marked_deleted(d: Seq<bool>, ids: Seq<SparseId>, n: int) -> Seq<bool> {
    Seq::new(d.len(), |k: int| d[k] || exists|j: int| 0 <= j < n && #[trigger] ids[j].0 == k)
}

/// The ID names a stored vector that is not deleted.
pub open spec fn spec_is_live(m: SparseStorageModel, id: SparseId) -> bool {
    id.0 < m.dims.len() && !m.deleted[id.0 as int]
}
/// Total number of entries of the first `n` vectors.
pub open spec fn total_nnz_of(vs: Seq<SparseVector>, n: int) -> int
    decreases n,
{
    if n <= 0 {
        0
    } else {
        total_nnz_of(vs, n - 1) + vs[n - 1]@.indices.len()
    }
}

proof fn lemma_total_nnz_monotone(vs: Seq<SparseVector>, i: int, j: int)
    requires
        0 <= i <= j,
    ensures
        total_nnz_of(vs, i) <= total_nnz_of(vs, j),
    decreases j - i,
{
    if i < j {
        lemma_total_nnz_monotone(vs, i, j - 1);
    }
}

/// Appending a vector leaves the vectors stored before unchanged.
proof fn lemma_vector_at_after_insert(
    before: SparseStorageModel,
    after: SparseStorageModel,
    v: SparseVectorModel,
    j: int,
)
    requires
        storage_wf(before),
        after.indices == before.indices + v.indices,
        after.values == before.values + v.values,
        after.offsets == before.offsets.push((before.indices.len() + v.indices.len()) as u32),
        after.dims == before.dims.push(v.dim),
        0 <= j < before.dims.len(),
    ensures
        vector_at(after, j) == vector_at(before, j),
{
    assert(before.offsets[j] <= before.offsets[j + 1] <= before.offsets[before.dims.len() as int]);
    assert(vector_at(after, j).indices =~= vector_at(before, j).indices);
    assert(vector_at(after, j).values =~= vector_at(before, j).values);
}


/// The four magic bytes "ESPV" as a sequence.
pub open spec fn sparse_magic() -> Seq<u8> {
    seq![0x45u8, 0x53u8, 0x50u8, 0x56u8]
}

/// The checksummed part of the file format.
pub open spec fn spec_storage_payload(m: SparseStorageModel) -> Seq<u8> {
    le64(m.dims.len() as u64) + le32s(m.offsets) + le32s(m.dims) + packed_bits(m.deleted) + le64(
        m.next_id,
    ) + le64(m.indices.len() as u64) + le32s(m.indices) + le32s(m.values)
}

/// The serialized form of a storage (format version 2).
pub open spec fn spec_storage_bytes(m: SparseStorageModel) -> Seq<u8> {
    let p = spec_storage_payload(m);
    sparse_magic() + le32(2) + p + le32(crc32_of(p))
}


/// Outcome of parsing a serialized storage.
pub enum StorageDecoding {
    /// The bytes hold this storage.
    Decoded(SparseStorageModel),
    /// The first four bytes are not the magic number.
    BadMagic(Seq<u8>),
    /// The version is 0 or newer than supported.
    BadVersion(u32),
    /// The bytes are truncated, fail their checksum, or describe an inconsistent layout.
    Corrupted,
}

/// The storage laid out in the body of a serialized storage (from byte 8 on):
/// vector count at 8, offsets at 16, then dims, deletion bitmap, next ID,
/// entry count, indices and values.
pub open spec fn spec_decoded_model(b: Seq<u8>) -> SparseStorageModel {
    let c = u64_at(b, 8) as int;
    let dims_at = 16 + 4 * (c + 1);
    let del_at = dims_at + 4 * c;
    let nid_at = del_at + (c + 7) / 8;
    let n = u64_at(b, nid_at + 8) as int;
    let idx_at = nid_at + 16;
    SparseStorageModel {
        offsets: u32s_at(b, 16, c + 1),
        dims: u32s_at(b, dims_at, c),
        deleted: unpacked_bits(b.subrange(del_at, nid_at), c),
        next_id: u64_at(b, nid_at),
        indices: u32s_at(b, idx_at, n),
        values: u32s_at(b, idx_at + 4 * n, n),
    }
}

/// Whether the body of a serialized storage is long enough for the counts it
/// declares (and the vector count fits a bitmap on this machine).
pub open spec fn spec_body_fits(b: Seq<u8>) -> bool {
    let c = u64_at(b, 8) as int;
    let nid_at = 16 + 4 * (c + 1) + 4 * c + (c + 7) / 8;
    &&& b.len() >= 16
    &&& nid_at + 16 <= b.len()
    &&& c < bitvec_max_len()
    &&& nid_at + 16 + 8 * (u64_at(b, nid_at + 8) as int) <= b.len()
}

/// Parsing a serialized storage: magic, then version, then (for version 2)
/// the checksum, then the body.
pub open spec fn spec_decode_storage(b: Seq<u8>) -> StorageDecoding {
    if b.len() < 4 {
        StorageDecoding::Corrupted
    } else if b.subrange(0, 4) != sparse_magic() {
        StorageDecoding::BadMagic(b.subrange(0, 4))
    } else if b.len() < 8 {
        StorageDecoding::Corrupted
    } else if u32_at(b, 4) == 0 || u32_at(b, 4) > 2 {
        StorageDecoding::BadVersion(u32_at(b, 4))
    } else if u32_at(b, 4) == 2 && (b.len() < 12 || u32_at(b, b.len() - 4) != crc32_of(
        b.subrange(8, b.len() - 4),
    )) {
        StorageDecoding::Corrupted
    } else if !spec_body_fits(b) || !storage_wf(spec_decoded_model(b)) {
        StorageDecoding::Corrupted
    } else {
        StorageDecoding::Decoded(spec_decoded_model(b))
    }
}


/// Parsing a serialized storage gives back the storage: for every consistent
/// storage whose vector count fits a bit-vector (every storage, as `check_wf`
/// shows), `from_bytes(to_bytes(s))` yields `s`.
pub proof fn lemma_storage_bytes_roundtrip(m: SparseStorageModel)
    requires
        storage_wf(m),
        m.dims.len() < bitvec_max_len(),
    ensures
        spec_decode_storage(spec_storage_bytes(m)) == StorageDecoding::Decoded(m),
{
    lemma_le_roundtrip();
    let p = spec_storage_payload(m);
    let crc = crc32_of(p);
    let b = spec_storage_bytes(m);
    let h = sparse_magic() + le32(2);
    let t = le32(crc);
    assert(b =~= h + p + t);
    assert(b.subrange(0, 4) =~= sparse_magic());
    assert(u32_at(b, 4) == 2) by {
        assert(b =~= sparse_magic() + le32(2) + (p + t));
        lemma_u32_at_concat(sparse_magic(), 2, p + t);
    }
    assert(u32_at(b, b.len() - 4) == crc) by {
        assert(b =~= (h + p) + t + Seq::<u8>::empty());
        lemma_u32_at_concat(h + p, crc, Seq::<u8>::empty());
    }
    assert(b.subrange(8, b.len() - 4) =~= p);
    lemma_storage_body_decode(m, h, t);
}

/// A corrupted byte is caught: changing any one byte after the magic and the
/// version of a serialized storage makes it fail to parse as corrupted (a
/// byte of the checksummed part changes its CRC-32; a byte of the stored
/// checksum changes the stored value).
pub proof fn lemma_storage_bytes_detect_corruption(m: SparseStorageModel, p: int, x: u8)
    requires
        8 <= p < spec_storage_bytes(m).len(),
        x != spec_storage_bytes(m)[p],
    ensures
        spec_decode_storage(spec_storage_bytes(m).update(p, x)) == StorageDecoding::Corrupted,
{
    lemma_le_roundtrip();
    vstd::bytes::lemma_auto_spec_u32_to_from_le_bytes();
    let pl = spec_storage_payload(m);
    let crc = crc32_of(pl);
    let b = spec_storage_bytes(m);
    let b2 = b.update(p, x);
    let len = b.len() as int;
    let t = le32(crc);
    assert(b =~= sparse_magic() + le32(2) + (pl + t));
    assert(b2.subrange(0, 4) =~= b.subrange(0, 4));
    assert(b.subrange(0, 4) =~= sparse_magic());
    lemma_u32_at_concat(sparse_magic(), 2, pl + t);
    assert(b2.subrange(4, 8) =~= b.subrange(4, 8));
    assert(u32_at(b2, 4) == 2);
    assert(b =~= (sparse_magic() + le32(2) + pl) + t + Seq::<u8>::empty());
    lemma_u32_at_concat(sparse_magic() + le32(2) + pl, crc, Seq::<u8>::empty());
    assert(u32_at(b, len - 4) == crc);
    if p < len - 4 {
        assert(b.subrange(8, len - 4) =~= pl);
        assert(b2.subrange(8, len - 4) =~= pl.update(p - 8, x));
        assert(pl[p - 8] == b[p]);
        crate::checksum::lemma_crc32_detects_byte_change(pl, p - 8, x);
        assert(b2.subrange(len - 4, len) =~= b.subrange(len - 4, len));
        assert(u32_at(b2, len - 4) == crc);
    } else {
        assert(b2.subrange(8, len - 4) =~= pl);
        let s1 = b.subrange(len - 4, len);
        let s2 = b2.subrange(len - 4, len);
        assert(s2[p - (len - 4)] != s1[p - (len - 4)]);
        if u32_at(b2, len - 4) == u32_at(b, len - 4) {
            assert(vstd::bytes::spec_u32_to_le_bytes(vstd::bytes::spec_u32_from_le_bytes(s1)) == s1);
            assert(vstd::bytes::spec_u32_to_le_bytes(vstd::bytes::spec_u32_from_le_bytes(s2)) == s2);
            assert(s1 == s2);
        }
    }
}

#[verifier::rlimit(100)]
#[verifier::spinoff_prover]
proof fn lemma_storage_body_decode(m: SparseStorageModel, h: Seq<u8>, t: Seq<u8>)
    requires
        storage_wf(m),
        m.dims.len() < bitvec_max_len(),
        h.len() == 8,
        t.len() == 4,
    ensures
        spec_body_fits(h + spec_storage_payload(m) + t),
        spec_decoded_model(h + spec_storage_payload(m) + t) == m,
{
    lemma_le_roundtrip();
    let c = m.dims.len() as int;
    let n = m.indices.len() as int;
    let a0 = le64(c as u64);
    let a1 = le32s(m.offsets);
    let a2 = le32s(m.dims);
    let a3 = packed_bits(m.deleted);
    let a4 = le64(m.next_id);
    let a5 = le64(n as u64);
    let a6 = le32s(m.indices);
    let a7 = le32s(m.values);
    let p = spec_storage_payload(m);
    let b = h + p + t;
    lemma_le32s_len(m.offsets);
    lemma_le32s_len(m.dims);
    lemma_le32s_len(m.indices);
    lemma_le32s_len(m.values);
    assert(p =~= a0 + a1 + a2 + a3 + a4 + a5 + a6 + a7);
    let p1 = h + a0;
    let p2 = p1 + a1;
    let p3 = p2 + a2;
    let p4 = p3 + a3;
    let p5 = p4 + a4;
    let p6 = p5 + a5;
    let p7 = p6 + a6;
    assert(u64_at(b, 8) == c as u64) by {
        assert(b =~= h + a0 + (a1 + a2 + a3 + a4 + a5 + a6 + a7 + t));
        lemma_u64_at_concat(h, c as u64, a1 + a2 + a3 + a4 + a5 + a6 + a7 + t);
    }
    assert(u32s_at(b, 16, c + 1) == m.offsets) by {
        assert(b =~= p1 + a1 + (a2 + a3 + a4 + a5 + a6 + a7 + t));
        lemma_le32s_decode(p1, m.offsets, a2 + a3 + a4 + a5 + a6 + a7 + t);
    }
    assert(u32s_at(b, p2.len() as int, c) == m.dims) by {
        assert(b =~= p2 + a2 + (a3 + a4 + a5 + a6 + a7 + t));
        lemma_le32s_decode(p2, m.dims, a3 + a4 + a5 + a6 + a7 + t);
    }
    assert(unpacked_bits(b.subrange(p3.len() as int, p4.len() as int), c) == m.deleted) by {
        assert(b =~= p3 + a3 + (a4 + a5 + a6 + a7 + t));
        assert(b.subrange(p3.len() as int, p4.len() as int) =~= a3);
        lemma_unpack_pack(m.deleted);
    }
    assert(u64_at(b, p4.len() as int) == m.next_id) by {
        assert(b =~= p4 + a4 + (a5 + a6 + a7 + t));
        lemma_u64_at_concat(p4, m.next_id, a5 + a6 + a7 + t);
    }
    assert(u64_at(b, p5.len() as int) == n as u64) by {
        assert(b =~= p5 + a5 + (a6 + a7 + t));
        lemma_u64_at_concat(p5, n as u64, a6 + a7 + t);
    }
    assert(u32s_at(b, p6.len() as int, n) == m.indices) by {
        assert(b =~= p6 + a6 + (a7 + t));
        lemma_le32s_decode(p6, m.indices, a7 + t);
    }
    assert(u32s_at(b, p7.len() as int, n) == m.values) by {
        assert(b =~= p7 + a7 + t);
        lemma_le32s_decode(p7, m.values, t);
    }
    let d = spec_decoded_model(b);
    assert(d.offsets == m.offsets);
    assert(d.dims == m.dims);
    assert(d.deleted == m.deleted);
    assert(d.indices == m.indices);
    assert(d.values == m.values);
    assert(d == m);
}


/// Every stored vector is either live or deleted: the live count and the
/// deleted count add up to the total count.
pub proof fn lemma_sparse_counts(m: SparseStorageModel)
    ensures
        count_false(m.deleted) + count_true(m.deleted) == m.deleted.len(),
{
    crate::bitset::lemma_count_true_false(m.deleted);
}

/// What an insertion writes is what a read gives back: in a consistent storage
/// whose next ID equals its vector count (as in every storage built by
/// insertions), appending a valid vector makes its ID name a live vector equal
/// to it, and every earlier vector keeps its contents and its deletion state.
pub proof fn lemma_sparse_insert_then_get(m: SparseStorageModel, v: SparseVectorModel)
    requires
        storage_wf(m),
        m.next_id == m.dims.len(),
        m.next_id < u64::MAX,
        valid_sparse(v.indices, v.values, v.dim),
        m.indices.len() + v.indices.len() <= u32::MAX,
    ensures
        ({
            let n = sparse_appended(m, v);
            &&& spec_is_live(n, SparseId(m.next_id))
            &&& vector_at(n, m.next_id as int) == v
            &&& forall|k: int|
                0 <= k < m.dims.len() ==> #[trigger] vector_at(n, k) == vector_at(m, k)
                    && n.deleted[k] == m.deleted[k]
        }),
{
    let n = sparse_appended(m, v);
    let c = m.dims.len() as int;
    assert(n.offsets[c] == m.indices.len());
    assert(n.indices.subrange(m.indices.len() as int, n.indices.len() as int) =~= v.indices);
    assert(n.values.subrange(m.values.len() as int, n.values.len() as int) =~= v.values);
    assert(vector_at(n, c) =~= v);
    assert forall|k: int| 0 <= k < m.dims.len() implies #[trigger] vector_at(n, k) == vector_at(m, k)
        && n.deleted[k] == m.deleted[k] by {
        assert(m.offsets[k] <= m.offsets[k + 1] <= m.offsets[c]);
        assert(n.offsets[k] == m.offsets[k]);
        assert(n.offsets[k + 1] == m.offsets[k + 1]);
        assert(vector_at(n, k).indices =~= vector_at(m, k).indices);
        assert(vector_at(n, k).values =~= vector_at(m, k).values);
    }
}


/// Restoring undoes deleting: marking a live vector deleted and then restoring
/// it gives back the storage as it was, and the vector is read again.
pub proof fn lemma_sparse_delete_then_restore(m: SparseStorageModel, id: SparseId)
    requires
        storage_wf(m),
        spec_is_live(m, id),
    ensures
        ({
            let d = SparseStorageModel { deleted: m.deleted.update(id.0 as int, true), ..m };
            let r = SparseStorageModel { deleted: d.deleted.update(id.0 as int, false), ..d };
            &&& !spec_is_live(d, id)
            &&& r == m
        }),
{
    let d = SparseStorageModel { deleted: m.deleted.update(id.0 as int, true), ..m };
    assert(d.deleted.update(id.0 as int, false) =~= m.deleted);
}

} // verus!
