//! Contiguous vector storage with deletion flags, and its recovery from a
//! write-ahead log.
//!
//! Full-precision vectors are held as single-precision bit patterns; 8-bit
//! quantized vectors as bytes. Vector IDs start at 1. Inserting goes in two
//! steps: `prepare_insert` checks the vector and frames its log record (to be
//! written before memory changes), `apply_insert` then adds it to memory.

use crate::bitset::{
    bitvec_get, bitvec_len, bitvec_max_len, bitvec_new, bitvec_push, bitvec_set,
    bitvec_shrink_to_fit, bits_of, vec_shrink_to_fit, Bits,
};
use crate::hnsw::{HnswConfig, VectorId};
use crate::le::{append_u32s_le, append_u64_le, le32s, le64, read_u32_le, read_u64_le, u32s_at, u64_at};
use crate::persistence::wal::{
    spec_wal_step, WalAppender, WalEntry, WalError, WalIterator, WalStep, MAX_PAYLOAD_SIZE,
};
use vstd::prelude::*;
use vstd::string::*;

verus! {

/// Errors of storage operations.
#[derive(Debug)]
pub enum StorageError {
    /// A vector's dimension differs from the storage's.
    DimensionMismatch {
        /// The storage's dimension.
        expected: u32,
        /// The vector's dimension.
        actual: u32,
    },
    /// The write-ahead log failed.
    Wal(WalError),
    /// Reading the log failed.
    Io(std::io::Error),
    /// The log holds invalid data.
    Corrupted(String),
}

/// The range of an 8-bit quantizer, as single-precision bit patterns.
#[derive(Clone, Copy, Debug, PartialEq, Eq, Structural)]
pub struct QuantizerConfig {
    /// Bit pattern of the value mapped to 0.
    pub min: u32,
    /// Bit pattern of the value mapped to 255.
    pub max: u32,
}

/// How vectors are stored.
#[derive(Clone, Copy, Debug, PartialEq, Eq, Structural, Default)]
pub enum StorageType {
    /// Full-precision values.
    #[default]
    Float32,
    /// 8-bit quantized values.
    QuantizedU8(QuantizerConfig),
}

/// The mathematical content of a storage.
pub struct StorageModel {
    /// Full-precision data, vector after vector.
    pub data: Seq<u32>,
    /// Quantized data, vector after vector.
    pub quantized: Seq<u8>,
    /// One deletion flag per vector.
    pub deleted: Seq<bool>,
    /// The next ID to hand out.
    pub next_id: u64,
}

/// Contiguous vector storage.
#[derive(Debug)]
pub struct VectorStorage {
    data_f32: Vec<u32>,
    quantized_data: Vec<u8>,
    config: StorageType,
    deleted: Bits,
    dimensions: u32,
    wal: Option<WalAppender>,
    next_id: u64,
}

/// The ID after `id` (wrapping at the top of the range).
pub open spec fn next_after(id: u64) -> u64 {
    if id == u64::MAX {
        0
    } else {
        (id + 1) as u64
    }
}

impl VectorStorage {
    /// The mathematical content.
    pub closed spec fn model(&self) -> StorageModel {
        StorageModel {
            data: self.data_f32@,
            quantized: self.quantized_data@,
            deleted: bits_of(self.deleted),
            next_id: self.next_id,
        }
    }

    /// The storage type.
    pub closed spec fn storage_type(&self) -> StorageType {
        self.config
    }

    /// The vector dimension.
    pub closed spec fn dims(&self) -> u32 {
        self.dimensions
    }

    /// The sequence number of the next log record, if a log is attached.
    pub closed spec fn wal_sequence(&self) -> Option<u64> {
        match self.wal {
            Some(w) => Some(w.next_sequence()),
            None => None,
        }
    }

    /// An empty storage for vectors of `config.dimensions`, writing to `wal`
    /// if given.
    pub fn new(config: &HnswConfig, wal: Option<WalAppender>) -> (s: Self)
        ensures
            s.model() == (StorageModel {
                data: Seq::empty(),
                quantized: Seq::empty(),
                deleted: Seq::empty(),
                next_id: 1,
            }),
            s.storage_type() == StorageType::Float32,
            s.dims() == config.dimensions,
            s.wal_sequence() == match wal {
                Some(w) => Some(w.next_sequence()),
                None => None::<u64>,
            },
    {
        VectorStorage {
            data_f32: Vec::new(),
            quantized_data: Vec::new(),
            config: StorageType::Float32,
            deleted: bitvec_new(),
            dimensions: config.dimensions,
            wal,
            next_id: 1,
        }
    }

    /// Sets how future vectors are stored; stored data is not converted.
    pub fn set_storage_type(&mut self, config: StorageType)
        ensures
            final(self).storage_type() == config,
            final(self).model() == old(self).model(),
            final(self).dims() == old(self).dims(),
            final(self).wal_sequence() == old(self).wal_sequence(),
    {
        self.config = config;
    }

    /// The number of vectors stored.
    pub fn len(&self) -> (n: usize)
        ensures
            n == self.model().deleted.len(),
    {
        bitvec_len(&self.deleted)
    }

    /// Whether no vector is stored.
    pub fn is_empty(&self) -> (b: bool)
        ensures
            b == (self.model().deleted.len() == 0),
    {
        bitvec_len(&self.deleted) == 0
    }

    /// The vector dimension.
    pub fn dimensions(&self) -> (d: u32)
        ensures
            d == self.dims(),
    {
        self.dimensions
    }

    /// How vectors are stored.
    pub fn storage_config(&self) -> (c: StorageType)
        ensures
            c == self.storage_type(),
    {
        self.config
    }

    /// The ID the next insertion receives.
    pub fn next_id(&self) -> (n: u64)
        ensures
            n == self.model().next_id,
    {
        self.next_id
    }

    /// The sequence number of the next log record, if a log is attached.
    pub fn wal_next_sequence(&self) -> (s: Option<u64>)
        ensures
            s == self.wal_sequence(),
    {
        match &self.wal {
            Some(w) => Some(w.peek_sequence()),
            None => None,
        }
    }

    /// The full-precision data (internal layout).
    pub fn raw_data(&self) -> (d: &[u32])
        ensures
            d@ == self.model().data,
    {
        self.data_f32.as_slice()
    }

    /// The quantized data (internal layout).
    pub fn raw_quantized(&self) -> (d: &[u8])
        ensures
            d@ == self.model().quantized,
    {
        self.quantized_data.as_slice()
    }

    /// Checks a vector for insertion and, when a log is attached, frames its
    /// log record (type 0: the new ID, then the values, little-endian) and
    /// advances the log's sequence. Returns the record to write to the log
    /// before `apply_insert`.
    pub fn prepare_insert(&mut self, vector: &[u32]) -> (r: Result<Option<Vec<u8>>, StorageError>)
        requires
            old(self).wal_sequence() matches Some(s) ==> s < u64::MAX,
        ensures
            final(self).model() == old(self).model(),
            final(self).storage_type() == old(self).storage_type(),
            final(self).dims() == old(self).dims(),
            vector@.len() != old(self).dims() ==> (r matches Err(StorageError::DimensionMismatch {
                expected,
                actual,
            }) && expected == old(self).dims() && actual == (if vector@.len() > u32::MAX {
                u32::MAX as int
            } else {
                vector@.len() as int
            })) && final(self).wal_sequence() == old(self).wal_sequence(),
            vector@.len() == old(self).dims() ==> match old(self).wal_sequence() {
                None => r matches Ok(None) && final(self).wal_sequence() == old(
                    self,
                ).wal_sequence(),
                Some(s) => (8 + 4 * vector@.len() <= MAX_PAYLOAD_SIZE ==> (r matches Ok(Some(b))
                    && b@ == crate::persistence::wal::wal_record_bytes(
                    s,
                    0,
                    le64(old(self).model().next_id) + le32s(vector@),
                )) && final(self).wal_sequence() == Some((s + 1) as u64)) && (8 + 4
                    * vector@.len() > MAX_PAYLOAD_SIZE ==> (r matches Err(
                    StorageError::Wal(WalError::PayloadTooLarge { size, max }),
                ) && size == 8 + 4 * vector@.len() && max == MAX_PAYLOAD_SIZE)
                    && final(self).wal_sequence() == old(self).wal_sequence()),
            },
    {
        let len = vector.len();
        if len > 0xFFFF_FFFFusize {
            return Err(StorageError::DimensionMismatch { expected: self.dimensions, actual: u32::MAX });
        }
        if len as u32 != self.dimensions {
            return Err(
                StorageError::DimensionMismatch { expected: self.dimensions, actual: len as u32 },
            );
        }
        let id = self.next_id;
        match self.wal.take() {
            None => Ok(None),
            Some(mut w) => {
                let mut payload: Vec<u8> = Vec::new();
                append_u64_le(&mut payload, id);
                append_u32s_le(&mut payload, vector);
                proof {
                    crate::le::lemma_le_roundtrip();
                    crate::le::lemma_le32s_len(vector@);
                }
                let res = w.append(0, payload.as_slice());
                self.wal = Some(w);
                match res {
                    Ok(bytes) => Ok(Some(bytes)),
                    Err(e) => Err(StorageError::Wal(e)),
                }
            },
        }
    }

    /// Adds a checked vector to memory: its values (full-precision storage)
    /// or its quantized form (quantized storage), an active deletion flag, and
    /// the next ID, which it returns.
    pub fn apply_insert(&mut self, vector: &[u32], quantized: &[u8]) -> (id: VectorId)
        requires
            old(self).model().deleted.len() + 1 < bitvec_max_len(),
            old(self).model().next_id < u64::MAX,
        ensures
            id == VectorId(old(self).model().next_id),
            final(self).model() == (StorageModel {
                data: if old(self).storage_type() is Float32 {
                    old(self).model().data + vector@
                } else {
                    old(self).model().data
                },
                quantized: if old(self).storage_type() is Float32 {
                    old(self).model().quantized
                } else {
                    old(self).model().quantized + quantized@
                },
                deleted: old(self).model().deleted.push(false),
                next_id: (old(self).model().next_id + 1) as u64,
            }),
            final(self).storage_type() == old(self).storage_type(),
            final(self).dims() == old(self).dims(),
            final(self).wal_sequence() == old(self).wal_sequence(),
    {
        match self.config {
            StorageType::Float32 => {
                extend_words(&mut self.data_f32, vector);
            },
            StorageType::QuantizedU8(_) => {
                extend_bytes(&mut self.quantized_data, quantized);
            },
        }
        bitvec_push(&mut self.deleted, false);
        let id = self.next_id;
        self.next_id = self.next_id + 1;
        VectorId(id)
    }

    /// Checks pre-quantized data for insertion (right dimension, quantized
    /// storage) and, when a log is attached, frames its log record (type 1:
    /// the new ID, then the bytes) and advances the log's sequence.
    pub fn prepare_insert_quantized(&mut self, data: &[u8]) -> (r: Result<
        Option<Vec<u8>>,
        StorageError,
    >)
        requires
            old(self).wal_sequence() matches Some(s) ==> s < u64::MAX,
        ensures
            final(self).model() == old(self).model(),
            final(self).storage_type() == old(self).storage_type(),
            final(self).dims() == old(self).dims(),
            data@.len() != old(self).dims() ==> (r matches Err(StorageError::DimensionMismatch {
                expected,
                actual,
            }) && expected == old(self).dims() && actual == (if data@.len() > u32::MAX {
                u32::MAX as int
            } else {
                data@.len() as int
            })),
            data@.len() == old(self).dims() && old(self).storage_type() is Float32 ==> (r matches Err(
                StorageError::Corrupted(msg),
            ) && msg@ == "Cannot insert quantized data into Float32 storage"@),
            r is Err ==> final(self).wal_sequence() == old(self).wal_sequence(),
            data@.len() == old(self).dims() && old(self).storage_type() is QuantizedU8 ==> match old(
                self,
            ).wal_sequence() {
                None => r matches Ok(None) && final(self).wal_sequence() == old(
                    self,
                ).wal_sequence(),
                Some(s) => (8 + data@.len() <= MAX_PAYLOAD_SIZE ==> (r matches Ok(Some(b)) && b@
                    == crate::persistence::wal::wal_record_bytes(
                    s,
                    1,
                    le64(old(self).model().next_id) + data@,
                )) && final(self).wal_sequence() == Some((s + 1) as u64)) && (8 + data@.len()
                    > MAX_PAYLOAD_SIZE ==> (r matches Err(
                    StorageError::Wal(WalError::PayloadTooLarge { size, max }),
                ) && size == 8 + data@.len() && max == MAX_PAYLOAD_SIZE)
                    && final(self).wal_sequence() == old(self).wal_sequence()),
            },
    {
        let len = data.len();
        if len > 0xFFFF_FFFFusize {
            return Err(StorageError::DimensionMismatch { expected: self.dimensions, actual: u32::MAX });
        }
        if len as u32 != self.dimensions {
            return Err(
                StorageError::DimensionMismatch { expected: self.dimensions, actual: len as u32 },
            );
        }
        if self.config == StorageType::Float32 {
            return Err(
                StorageError::Corrupted(
                    String::from_str("Cannot insert quantized data into Float32 storage"),
                ),
            );
        }
        let id = self.next_id;
        match self.wal.take() {
            None => Ok(None),
            Some(mut w) => {
                let mut payload: Vec<u8> = Vec::new();
                append_u64_le(&mut payload, id);
                extend_bytes(&mut payload, data);
                proof {
                    crate::le::lemma_le_roundtrip();
                }
                let res = w.append(1, payload.as_slice());
                self.wal = Some(w);
                match res {
                    Ok(bytes) => Ok(Some(bytes)),
                    Err(e) => Err(StorageError::Wal(e)),
                }
            },
        }
    }

    /// Adds checked quantized data to memory, with an active deletion flag
    /// and the next ID, which it returns.
    pub fn apply_insert_quantized(&mut self, data: &[u8]) -> (id: VectorId)
        requires
            old(self).model().deleted.len() + 1 < bitvec_max_len(),
            old(self).model().next_id < u64::MAX,
        ensures
            id == VectorId(old(self).model().next_id),
            final(self).model() == (StorageModel {
                quantized: old(self).model().quantized + data@,
                deleted: old(self).model().deleted.push(false),
                next_id: (old(self).model().next_id + 1) as u64,
                ..old(self).model()
            }),
            final(self).storage_type() == old(self).storage_type(),
            final(self).dims() == old(self).dims(),
            final(self).wal_sequence() == old(self).wal_sequence(),
    {
        extend_bytes(&mut self.quantized_data, data);
        bitvec_push(&mut self.deleted, false);
        let id = self.next_id;
        self.next_id = self.next_id + 1;
        VectorId(id)
    }

    /// The full-precision values of vector `id`.
    pub fn get_vector(&self, id: VectorId) -> (v: &[u32])
        requires
            id.0 != 0,
            self.storage_type() is Float32,
            self.model().data.len() > 0,
            (id.0 - 1) * self.dims() + self.dims() <= self.model().data.len(),
        ensures
            v@ == self.model().data.subrange(
                (id.0 - 1) * self.dims(),
                (id.0 - 1) * self.dims() + self.dims(),
            ),
    {
        let (start, end) = vector_range(id.0, self.dimensions, self.data_f32.len());
        vstd::slice::slice_subrange(self.data_f32.as_slice(), start, end)
    }

    /// The quantized bytes of vector `id`.
    pub fn get_quantized_vector(&self, id: VectorId) -> (v: &[u8])
        requires
            id.0 != 0,
            self.model().quantized.len() > 0,
            (id.0 - 1) * self.dims() + self.dims() <= self.model().quantized.len(),
        ensures
            v@ == self.model().quantized.subrange(
                (id.0 - 1) * self.dims(),
                (id.0 - 1) * self.dims() + self.dims(),
            ),
    {
        let (start, end) = vector_range(id.0, self.dimensions, self.quantized_data.len());
        vstd::slice::slice_subrange(self.quantized_data.as_slice(), start, end)
    }

    /// Marks vector `id` deleted; whether it was active (an ID past the end
    /// counts as not active).
    pub fn mark_deleted(&mut self, id: VectorId) -> (was_active: bool)
        requires
            id.0 != 0,
        ensures
            ({
                let d = old(self).model().deleted;
                let i = id.0 - 1;
                &&& was_active == (i < d.len() && !d[i])
                &&& final(self).model() == (StorageModel {
                    deleted: if i < d.len() {
                        d.update(i, true)
                    } else {
                        d
                    },
                    ..old(self).model()
                })
            }),
            final(self).storage_type() == old(self).storage_type(),
            final(self).dims() == old(self).dims(),
            final(self).wal_sequence() == old(self).wal_sequence(),
    {
        let n = bitvec_len(&self.deleted);
        let i = id.0 - 1;
        if i >= n as u64 {
            return false;
        }
        let idx = i as usize;
        let was_active = !bitvec_get(&self.deleted, idx);
        bitvec_set(&mut self.deleted, idx, true);
        was_active
    }

    /// Releases spare capacity; the content is unchanged.
    pub fn compact(&mut self)
        ensures
            final(self).model() == old(self).model(),
            final(self).storage_type() == old(self).storage_type(),
            final(self).dims() == old(self).dims(),
            final(self).wal_sequence() == old(self).wal_sequence(),
    {
        vec_shrink_to_fit(&mut self.data_f32);
        vec_shrink_to_fit(&mut self.quantized_data);
        bitvec_shrink_to_fit(&mut self.deleted);
    }

    /// Whether vector `id` is marked deleted (ID 0 and IDs past the end are
    /// not).
    pub fn is_deleted(&self, id: VectorId) -> (b: bool)
        ensures
            b == (id.0 != 0 && id.0 - 1 < self.model().deleted.len() && self.model().deleted[id.0
                - 1]),
    {
        if id.0 == 0 {
            return false;
        }
        let n = bitvec_len(&self.deleted);
        let i = id.0 - 1;
        if i >= n as u64 {
            return false;
        }
        bitvec_get(&self.deleted, i as usize)
    }
}

/// Why recovering from a log failed.
pub enum RecoverFailure {
    /// The log holds invalid data; the message.
    Corrupted(Seq<char>),
    /// A record's vector has the wrong dimension (expected, actual).
    DimensionMismatch(u32, u32),
    /// A record announces a payload above the limit.
    TooLarge(int),
}

/// Applies one log record to a storage model: type 0 adds full-precision
/// values, type 1 quantized bytes, other types change nothing.
pub open spec fn apply_record(m: StorageModel, e: WalEntry, p: Seq<u8>, dims: u32) -> Result<
    StorageModel,
    RecoverFailure,
> {
    if e.entry_type == 0 {
        if p.len() < 8 {
            Err(RecoverFailure::Corrupted("Insert payload too short"@))
        } else {
            let vb = p.subrange(8, p.len() as int);
            if vb.len() % 4 != 0 {
                Err(RecoverFailure::Corrupted("Vector bytes alignment error"@))
            } else if vb.len() / 4 > u32::MAX {
                Err(RecoverFailure::DimensionMismatch(dims, u32::MAX))
            } else if vb.len() / 4 != dims {
                Err(RecoverFailure::DimensionMismatch(dims, (vb.len() / 4) as u32))
            } else {
                Ok(
                    StorageModel {
                        data: m.data + u32s_at(vb, 0, (vb.len() / 4) as int),
                        deleted: m.deleted.push(false),
                        next_id: next_after(u64_at(p, 0)),
                        ..m
                    },
                )
            }
        }
    } else if e.entry_type == 1 {
        if p.len() < 8 {
            Err(RecoverFailure::Corrupted("Insert payload too short"@))
        } else {
            let vb = p.subrange(8, p.len() as int);
            if vb.len() <= u32::MAX && vb.len() != dims {
                Err(RecoverFailure::DimensionMismatch(dims, vb.len() as u32))
            } else {
                Ok(
                    StorageModel {
                        quantized: m.quantized + vb,
                        deleted: m.deleted.push(false),
                        next_id: next_after(u64_at(p, 0)),
                        ..m
                    },
                )
            }
        }
    } else {
        Ok(m)
    }
}

/// Replays the log `d` from byte position `pos` onto `m`: records are applied
/// in order; the replay stops at the clean end, at a truncated record or at
/// a checksum mismatch (keeping what came before), and fails on an invalid
/// record or an oversized payload.
pub open spec fn replay(d: Seq<u8>, pos: int, m: StorageModel, dims: u32) -> Result<
    StorageModel,
    RecoverFailure,
>
    decreases d.len() - pos,
{
    let (step, next) = spec_wal_step(d, pos);
    if pos < 0 || pos > d.len() {
        Ok(m)
    } else {
        match step {
            WalStep::End => Ok(m),
            WalStep::Truncated(_, _) => Ok(m),
            WalStep::BadChecksum(_, _) => Ok(m),
            WalStep::TooLarge(size) => Err(RecoverFailure::TooLarge(size)),
            WalStep::Record(e, p) => match apply_record(m, e, p, dims) {
                Err(f) => Err(f),
                Ok(m2) => if pos < next <= d.len() {
                    replay(d, next, m2, dims)
                } else {
                    Ok(m2)
                },
            },
        }
    }
}

/// The empty storage model.
pub open spec fn empty_model() -> StorageModel {
    StorageModel { data: Seq::empty(), quantized: Seq::empty(), deleted: Seq::empty(), next_id: 1 }
}

/// Whether `r` is what recovery gives for the outcome `o`.
pub open spec fn recover_result(r: Result<VectorStorage, StorageError>, o: Result<
    StorageModel,
    RecoverFailure,
>, dims: u32) -> bool {
    match o {
        Ok(m) => r matches Ok(s) && s.model() == m && s.storage_type() == StorageType::Float32
            && s.dims() == dims && s.wal_sequence() is None,
        Err(RecoverFailure::Corrupted(msg)) => r matches Err(StorageError::Corrupted(t)) && t@
            == msg,
        Err(RecoverFailure::DimensionMismatch(x, y)) => r matches Err(
            StorageError::DimensionMismatch { expected, actual },
        ) && expected == x && actual == y,
        Err(RecoverFailure::TooLarge(n)) => r matches Err(
            StorageError::Wal(WalError::PayloadTooLarge { size, max }),
        ) && size == n && max == MAX_PAYLOAD_SIZE,
    }
}

impl VectorStorage {
    /// Rebuilds a storage (full-precision, no log attached) by replaying the
    /// log `data`.
    pub fn recover(data: Vec<u8>, config: &HnswConfig) -> (r: Result<VectorStorage, StorageError>)
        ensures
            recover_result(r, replay(data@, 0, empty_model(), config.dimensions), config.dimensions),
    {
        let dims = config.dimensions;
        let mut storage = Self::new(config, None);
        let ghost d = data@;
        if data.len() == 0 {
            return Ok(storage);
        }
        let total = data.len();
        let mut it = WalIterator::new(data);
        loop
            invariant
                it.log() == d,
                d == data@,
                dims == config.dimensions,
                total == d.len(),
                0 <= it.position() <= d.len(),
                20 * storage.model().deleted.len() <= it.position(),
                storage.storage_type() == StorageType::Float32,
                storage.dims() == dims,
                storage.wal_sequence() is None,
                replay(d, 0, empty_model(), dims) == replay(d, it.position(), storage.model(), dims),
            decreases d.len() - it.position(),
        {
            let ghost pos = it.position();
            let ghost m = storage.model();
            let next = it.next();
            match next {
                None => {
                    assert(spec_wal_step(d, pos).0 is End);
                    assert(replay(d, pos, m, dims) == Ok::<StorageModel, RecoverFailure>(m));
                    assert(replay(d, 0, empty_model(), dims) == Ok::<StorageModel, RecoverFailure>(storage.model()));
                    return Ok(storage);
                },
                Some(Err(WalError::Truncated { expected, actual })) => {
                    assert(spec_wal_step(d, pos).0 is Truncated);
                    assert(replay(d, pos, m, dims) == Ok::<StorageModel, RecoverFailure>(m));
                    return Ok(storage);
                },
                Some(Err(WalError::ChecksumMismatch { expected, actual })) => {
                    return Ok(storage);
                },
                Some(Err(e)) => {
                    return Err(StorageError::Wal(e));
                },
                Some(Ok((entry, payload))) => {
                    proof {
                        crate::persistence::wal::lemma_record_advances(d, pos);
                        assert(20 * (storage.model().deleted.len() + 1) <= it.position());
                        assert(it.position() <= usize::MAX);
                        let mx: usize = usize::MAX;
                        assert(mx >> 3 == mx / 8) by (bit_vector);
                        assert(mx >= 0xFFFF_FFFF);
                    }
                    match storage.apply_record_exec(&entry, payload.as_slice(), dims) {
                        Err(e) => {
                            return Err(e);
                        },
                        Ok(()) => {},
                    }
                },
            }
        }
    }

    /// Applies one log record (see `apply_record`).
    fn apply_record_exec(&mut self, entry: &WalEntry, payload: &[u8], dims: u32) -> (r: Result<
        (),
        StorageError,
    >)
        requires
            old(self).model().deleted.len() + 1 < bitvec_max_len(),
        ensures
            final(self).storage_type() == old(self).storage_type(),
            final(self).dims() == old(self).dims(),
            final(self).wal_sequence() == old(self).wal_sequence(),
            match apply_record(old(self).model(), *entry, payload@, dims) {
                Ok(m) => r is Ok && final(self).model() == m,
                Err(RecoverFailure::Corrupted(msg)) => r matches Err(StorageError::Corrupted(t))
                    && t@ == msg,
                Err(RecoverFailure::DimensionMismatch(x, y)) => r matches Err(
                    StorageError::DimensionMismatch { expected, actual },
                ) && expected == x && actual == y,
                Err(RecoverFailure::TooLarge(_)) => false,
            },
    {
        let len = payload.len();
        if entry.entry_type == 0 {
            if len < 8 {
                return Err(StorageError::Corrupted(String::from_str("Insert payload too short")));
            }
            let id = read_u64_le(payload, 0);
            let vb = vstd::slice::slice_subrange(payload, 8, len);
            let vlen = len - 8;
            if vlen % 4 != 0 {
                return Err(StorageError::Corrupted(String::from_str("Vector bytes alignment error")));
            }
            let n = vlen / 4;
            if n > 0xFFFF_FFFFusize {
                return Err(StorageError::DimensionMismatch { expected: dims, actual: u32::MAX });
            }
            if n as u32 != dims {
                return Err(StorageError::DimensionMismatch { expected: dims, actual: n as u32 });
            }
            append_words_le(&mut self.data_f32, vb, n);
            bitvec_push(&mut self.deleted, false);
            self.next_id = id.wrapping_add(1);
            proof {
                assert(payload@.subrange(0, 8) =~= payload@.subrange(0, 8));
            }
            Ok(())
        } else if entry.entry_type == 1 {
            if len < 8 {
                return Err(StorageError::Corrupted(String::from_str("Insert payload too short")));
            }
            let id = read_u64_le(payload, 0);
            let vb = vstd::slice::slice_subrange(payload, 8, len);
            let vlen = len - 8;
            if vlen <= 0xFFFF_FFFFusize && vlen as u32 != dims {
                return Err(StorageError::DimensionMismatch { expected: dims, actual: vlen as u32 });
            }
            extend_bytes(&mut self.quantized_data, vb);
            bitvec_push(&mut self.deleted, false);
            self.next_id = id.wrapping_add(1);
            Ok(())
        } else {
            Ok(())
        }
    }
}

/// Appends the `n` little-endian `u32` values at the start of `bytes`.
fn append_words_le(dst: &mut Vec<u32>, bytes: &[u8], n: usize)
    requires
        4 * n <= bytes@.len(),
    ensures
        final(dst)@ == old(dst)@ + u32s_at(bytes@, 0, n as int),
{
    let ghost d0 = dst@;
    let len = bytes.len();
    let mut k: usize = 0;
    while k < n
        invariant
            k <= n,
            len == bytes@.len(),
            4 * n <= bytes@.len(),
            dst@ == d0 + u32s_at(bytes@, 0, k as int),
        decreases n - k,
    {
        assert(4 * k + 4 <= 4 * n) by (nonlinear_arith)
            requires
                k < n,
        ;
        let x = read_u32_le(bytes, 4 * k);
        dst.push(x);
        k = k + 1;
        proof {
            assert(dst@ =~= d0 + u32s_at(bytes@, 0, k as int));
        }
    }
}

/// The position range of vector `id` in data of length `len`.
fn vector_range(id: u64, dims: u32, len: usize) -> (r: (usize, usize))
    requires
        id != 0,
        (id - 1) * dims + dims <= len,
    ensures
        r.0 == (id - 1) * dims,
        r.1 == (id - 1) * dims + dims,
{
    let i = id - 1;
    let d = dims as u64;
    proof {
        assert(0 <= i * d <= i * d + d) by (nonlinear_arith)
            requires
                i >= 0,
                d >= 0,
        ;
        assert(i * d + d <= usize::MAX);
    }
    let start = (i * d) as usize;
    let end = (i * d + d) as usize;
    (start, end)
}

/// Appends `src` to `dst`.
fn extend_words(dst: &mut Vec<u32>, src: &[u32])
    ensures
        final(dst)@ == old(dst)@ + src@,
{
    let ghost d0 = dst@;
    let mut k: usize = 0;
    while k < src.len()
        invariant
            k <= src@.len(),
            dst@ == d0 + src@.subrange(0, k as int),
        decreases src@.len() - k,
    {
        dst.push(src[k]);
        k = k + 1;
        proof {
            assert(dst@ =~= d0 + src@.subrange(0, k as int));
        }
    }
    proof {
        assert(src@.subrange(0, src@.len() as int) =~= src@);
    }
}

/// Appends `src` to `dst`.
fn extend_bytes(dst: &mut Vec<u8>, src: &[u8])
    ensures
        final(dst)@ == old(dst)@ + src@,
{
    let ghost d0 = dst@;
    let mut k: usize = 0;
    while k < src.len()
        invariant
            k <= src@.len(),
            dst@ == d0 + src@.subrange(0, k as int),
        decreases src@.len() - k,
    {
        dst.push(src[k]);
        k = k + 1;
        proof {
            assert(dst@ =~= d0 + src@.subrange(0, k as int));
        }
    }
    proof {
        assert(src@.subrange(0, src@.len() as int) =~= src@);
    }
}

} // verus!

verus! {

/// The log records of inserting the vectors `vs` under the IDs `ids`, with
/// consecutive sequence numbers from `first_seq`.
pub open spec fn insert_records(vs: Seq<Seq<u32>>, ids: Seq<u64>, first_seq: u64) -> Seq<
    (u64, u8, Seq<u8>),
> {
    Seq::new(
        vs.len(),
        |i: int| (((first_seq + i) as u64), 0u8, le64(ids[i]) + le32s(vs[i])),
    )
}

/// The vectors `vs` laid end to end.
pub open spec fn concat_vectors(vs: Seq<Seq<u32>>) -> Seq<u32>
    decreases vs.len(),
{
    if vs.len() == 0 {
        Seq::empty()
    } else {
        concat_vectors(vs.drop_last()) + vs.last()
    }
}

/// The model after inserting the first `k` vectors.
pub open spec fn inserted_model(vs: Seq<Seq<u32>>, ids: Seq<u64>, k: int) -> StorageModel {
    StorageModel {
        data: concat_vectors(vs.take(k)),
        quantized: Seq::empty(),
        deleted: Seq::new(k as nat, |i: int| false),
        next_id: if k == 0 {
            1
        } else {
            next_after(ids[k - 1])
        },
    }
}

/// Recovering from a log of inserts gives back every inserted vector, in
/// order, all active, with the ID counter after the last one.
pub proof fn lemma_recover_inserts(vs: Seq<Seq<u32>>, ids: Seq<u64>, first_seq: u64, dims: u32)
    requires
        ids.len() == vs.len(),
        forall|i: int| 0 <= i < vs.len() ==> #[trigger] vs[i].len() == dims,
        8 + 4 * dims <= MAX_PAYLOAD_SIZE,
    ensures
        replay(
            crate::persistence::wal::wal_log(insert_records(vs, ids, first_seq)),
            0,
            empty_model(),
            dims,
        ) == Ok::<StorageModel, RecoverFailure>(inserted_model(vs, ids, vs.len() as int)),
{
    let recs = insert_records(vs, ids, first_seq);
    let d = crate::persistence::wal::wal_log(recs);
    crate::le::lemma_le_roundtrip();
    assert forall|k: int| 0 <= k < recs.len() implies (#[trigger] recs[k]).2.len()
        <= MAX_PAYLOAD_SIZE by {
        crate::le::lemma_le32s_len(vs[k]);
    }
    assert(inserted_model(vs, ids, 0) == empty_model()) by {
        assert(concat_vectors(vs.take(0)) =~= Seq::<u32>::empty());
        assert(Seq::new(0, |i: int| false) =~= Seq::<bool>::empty());
    }
    lemma_replay_suffix(vs, ids, first_seq, dims, 0);
    assert(recs.take(0) =~= Seq::<(u64, u8, Seq<u8>)>::empty());
}

proof fn lemma_replay_suffix(vs: Seq<Seq<u32>>, ids: Seq<u64>, first_seq: u64, dims: u32, k: int)
    requires
        ids.len() == vs.len(),
        0 <= k <= vs.len(),
        forall|i: int| 0 <= i < vs.len() ==> #[trigger] vs[i].len() == dims,
        8 + 4 * dims <= MAX_PAYLOAD_SIZE,
        forall|i: int|
            0 <= i < insert_records(vs, ids, first_seq).len() ==> (#[trigger] insert_records(
                vs,
                ids,
                first_seq,
            )[i]).2.len() <= MAX_PAYLOAD_SIZE,
    ensures
        replay(
            crate::persistence::wal::wal_log(insert_records(vs, ids, first_seq)),
            crate::persistence::wal::wal_log(insert_records(vs, ids, first_seq).take(k)).len()
                as int,
            inserted_model(vs, ids, k),
            dims,
        ) == Ok::<StorageModel, RecoverFailure>(inserted_model(vs, ids, vs.len() as int)),
    decreases vs.len() - k,
{
    let recs = insert_records(vs, ids, first_seq);
    let d = crate::persistence::wal::wal_log(recs);
    let pos = crate::persistence::wal::wal_log(recs.take(k)).len() as int;
    crate::persistence::wal::lemma_wal_replay(recs, k);
    crate::persistence::wal::lemma_wal_log_prefix_len(recs, k);
    if k == vs.len() {
        assert(recs.take(k) =~= recs);
    } else {
        crate::persistence::wal::lemma_wal_log_prefix_len(recs, k + 1);
        crate::persistence::wal::lemma_record_len(recs[k].0, recs[k].1, recs[k].2);
        let p = recs[k].2;
        let v = vs[k];
        crate::le::lemma_le_roundtrip();
        crate::le::lemma_le32s_len(v);
        crate::le::lemma_u64_at_concat(Seq::empty(), ids[k], le32s(v));
        assert(Seq::<u8>::empty() + le64(ids[k]) + le32s(v) =~= p);
        let vb = p.subrange(8, p.len() as int);
        assert(vb =~= le32s(v));
        crate::le::lemma_le32s_decode(Seq::empty(), v, Seq::empty());
        assert(Seq::<u8>::empty() + le32s(v) + Seq::<u8>::empty() =~= vb);
        let m = inserted_model(vs, ids, k);
        let m2 = inserted_model(vs, ids, k + 1);
        assert(vs.take(k + 1).drop_last() =~= vs.take(k));
        assert(m2.data =~= m.data + u32s_at(vb, 0, (vb.len() / 4) as int));
        assert(m2.deleted =~= m.deleted.push(false));
        lemma_replay_suffix(vs, ids, first_seq, dims, k + 1);
    }
}

/// The IDs `first, first + 1, ...` of `n` consecutive inserts.
pub open spec fn consecutive_ids(first: u64, n: nat) -> Seq<u64> {
    Seq::new(n, |i: int| (first + i) as u64)
}

/// The record bytes of `n` consecutive logged inserts, each as
/// `prepare_insert` frames it: sequence numbers from `first_seq`, IDs from
/// `first_id` (as `apply_insert` hands them out), type 0, the vector's values.
pub open spec fn logged_inserts(records: Seq<Seq<u8>>, vs: Seq<Seq<u32>>, first_seq: u64, first_id: u64) -> bool {
    &&& records.len() == vs.len()
    &&& forall|i: int|
        0 <= i < vs.len() ==> #[trigger] records[i] == crate::persistence::wal::wal_record_bytes(
            (first_seq + i) as u64,
            0,
            le64((first_id + i) as u64) + le32s(vs[i]),
        )
}

proof fn lemma_logged_inserts_log(records: Seq<Seq<u8>>, vs: Seq<Seq<u32>>, first_seq: u64, first_id: u64)
    requires
        logged_inserts(records, vs, first_seq, first_id),
    ensures
        crate::persistence::chunking::joined(records) == crate::persistence::wal::wal_log(
            insert_records(vs, consecutive_ids(first_id, vs.len()), first_seq),
        ),
    decreases vs.len(),
{
    let ids = consecutive_ids(first_id, vs.len());
    let recs = insert_records(vs, ids, first_seq);
    if vs.len() > 0 {
        let n = vs.len() - 1;
        let rs = records.drop_last();
        let ws = vs.drop_last();
        assert forall|i: int| 0 <= i < ws.len() implies #[trigger] rs[i]
            == crate::persistence::wal::wal_record_bytes(
            (first_seq + i) as u64,
            0,
            le64((first_id + i) as u64) + le32s(ws[i]),
        ) by {
            assert(rs[i] == records[i]);
            assert(ws[i] == vs[i]);
        }
        lemma_logged_inserts_log(rs, ws, first_seq, first_id);
        assert(recs.drop_last() =~= insert_records(ws, consecutive_ids(first_id, ws.len()), first_seq));
        assert(records[n] == crate::persistence::wal::wal_record_bytes(
            (first_seq + n) as u64,
            0,
            le64((first_id + n) as u64) + le32s(vs[n]),
        ));
    } else {
        assert(recs =~= Seq::<(u64, u8, Seq<u8>)>::empty());
    }
}

/// What a run of logged inserts writes, recovery reads back: when the records
/// of consecutive inserts (each as `prepare_insert` returns it, the log's
/// sequence and the storage's next ID going up by one per insert) are written
/// one after the other, replaying that log from an empty storage gives every
/// inserted vector in order, all active, with the ID counter after the last.
pub proof fn lemma_logged_inserts_recover(
    records: Seq<Seq<u8>>,
    vs: Seq<Seq<u32>>,
    first_seq: u64,
    first_id: u64,
    dims: u32,
)
    requires
        logged_inserts(records, vs, first_seq, first_id),
        forall|i: int| 0 <= i < vs.len() ==> #[trigger] vs[i].len() == dims,
        8 + 4 * dims <= MAX_PAYLOAD_SIZE,
    ensures
        replay(crate::persistence::chunking::joined(records), 0, empty_model(), dims) == Ok::<
            StorageModel,
            RecoverFailure,
        >(inserted_model(vs, consecutive_ids(first_id, vs.len()), vs.len() as int)),
{
    lemma_logged_inserts_log(records, vs, first_seq, first_id);
    lemma_recover_inserts(vs, consecutive_ids(first_id, vs.len()), first_seq, dims);
}

/// The log records of inserting the quantized vectors `qs` under the IDs
/// `ids` (type 1: the ID, then the bytes), with consecutive sequence numbers
/// from `first_seq`.
pub open spec fn quantized_insert_records(qs: Seq<Seq<u8>>, ids: Seq<u64>, first_seq: u64) -> Seq<
    (u64, u8, Seq<u8>),
> {
    Seq::new(qs.len(), |i: int| (((first_seq + i) as u64), 1u8, le64(ids[i]) + qs[i]))
}

/// The model after inserting the first `k` quantized vectors: their bytes
/// one after another, no full-precision data, all active.
pub open spec fn quantized_inserted_model(qs: Seq<Seq<u8>>, ids: Seq<u64>, k: int) -> StorageModel {
    StorageModel {
        data: Seq::empty(),
        quantized: crate::persistence::chunking::joined(qs.take(k)),
        deleted: Seq::new(k as nat, |i: int| false),
        next_id: if k == 0 {
            1
        } else {
            next_after(ids[k - 1])
        },
    }
}

/// Recovering from a log of quantized inserts gives back every inserted
/// quantized vector's bytes, in order, all active, with no full-precision
/// data and the ID counter after the last one.
pub proof fn lemma_recover_quantized_inserts(qs: Seq<Seq<u8>>, ids: Seq<u64>, first_seq: u64, dims: u32)
    requires
        ids.len() == qs.len(),
        forall|i: int| 0 <= i < qs.len() ==> #[trigger] qs[i].len() == dims,
        8 + dims <= MAX_PAYLOAD_SIZE,
    ensures
        replay(
            crate::persistence::wal::wal_log(quantized_insert_records(qs, ids, first_seq)),
            0,
            empty_model(),
            dims,
        ) == Ok::<StorageModel, RecoverFailure>(quantized_inserted_model(qs, ids, qs.len() as int)),
{
    let recs = quantized_insert_records(qs, ids, first_seq);
    crate::le::lemma_le_roundtrip();
    assert forall|k: int| 0 <= k < recs.len() implies (#[trigger] recs[k]).2.len()
        <= MAX_PAYLOAD_SIZE by {
        assert(qs[k].len() == dims);
    }
    assert(quantized_inserted_model(qs, ids, 0) == empty_model()) by {
        assert(qs.take(0) =~= Seq::<Seq<u8>>::empty());
        assert(Seq::new(0, |i: int| false) =~= Seq::<bool>::empty());
    }
    lemma_replay_quantized_suffix(qs, ids, first_seq, dims, 0);
    assert(recs.take(0) =~= Seq::<(u64, u8, Seq<u8>)>::empty());
}

proof fn lemma_replay_quantized_suffix(qs: Seq<Seq<u8>>, ids: Seq<u64>, first_seq: u64, dims: u32, k: int)
    requires
        ids.len() == qs.len(),
        0 <= k <= qs.len(),
        forall|i: int| 0 <= i < qs.len() ==> #[trigger] qs[i].len() == dims,
        8 + dims <= MAX_PAYLOAD_SIZE,
        forall|i: int|
            0 <= i < quantized_insert_records(qs, ids, first_seq).len() ==> (
            #[trigger] quantized_insert_records(qs, ids, first_seq)[i]).2.len() <= MAX_PAYLOAD_SIZE,
    ensures
        replay(
            crate::persistence::wal::wal_log(quantized_insert_records(qs, ids, first_seq)),
            crate::persistence::wal::wal_log(quantized_insert_records(qs, ids, first_seq).take(k)).len()
                as int,
            quantized_inserted_model(qs, ids, k),
            dims,
        ) == Ok::<StorageModel, RecoverFailure>(quantized_inserted_model(qs, ids, qs.len() as int)),
    decreases qs.len() - k,
{
    let recs = quantized_insert_records(qs, ids, first_seq);
    crate::persistence::wal::lemma_wal_replay(recs, k);
    crate::persistence::wal::lemma_wal_log_prefix_len(recs, k);
    if k == qs.len() {
        assert(recs.take(k) =~= recs);
    } else {
        crate::persistence::wal::lemma_wal_log_prefix_len(recs, k + 1);
        crate::persistence::wal::lemma_record_len(recs[k].0, recs[k].1, recs[k].2);
        let p = recs[k].2;
        let q = qs[k];
        crate::le::lemma_le_roundtrip();
        crate::le::lemma_u64_at_concat(Seq::empty(), ids[k], q);
        assert(Seq::<u8>::empty() + le64(ids[k]) + q =~= p);
        let vb = p.subrange(8, p.len() as int);
        assert(vb =~= q);
        let m = quantized_inserted_model(qs, ids, k);
        let m2 = quantized_inserted_model(qs, ids, k + 1);
        assert(qs.take(k + 1).drop_last() =~= qs.take(k));
        assert(m2.quantized =~= m.quantized + vb);
        assert(m2.deleted =~= m.deleted.push(false));
        lemma_replay_quantized_suffix(qs, ids, first_seq, dims, k + 1);
    }
}

} // verus!
