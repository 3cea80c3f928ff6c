//! Write-ahead log framing.
//!
//! Each record is a 16-byte header (sequence: u64, entry type: u8, three zero
//! padding bytes, payload length: u32, all little-endian), the payload, and a
//! CRC32 of header and payload. The appender frames records; the iterator
//! reads them back in order and reports truncation and corruption.

use super::PersistenceError;
use crate::checksum::{crc32_hash, crc32_of};
use crate::le::{
    append_u32_le, append_u64_le, le32, le64, lemma_le_roundtrip, lemma_u32_at_concat,
    lemma_u64_at_concat, read_u32_le, read_u64_le, u32_at, u64_at,
};
use vstd::prelude::*;

verus! {

/// Header size in bytes: sequence(8) + type(1) + pad(3) + len(4).
pub const WAL_HEADER_SIZE: usize = 16;

/// CRC checksum size in bytes.
pub const CRC_SIZE: usize = 4;

/// Maximum allowed payload size (16 MiB).
pub const MAX_PAYLOAD_SIZE: usize = 16777216;

/// Errors that can occur while reading or writing the WAL.
#[derive(Debug)]
pub enum WalError {
    /// I/O error.
    Io(std::io::Error),
    /// Persistence (storage backend) error.
    Persistence(PersistenceError),
    /// CRC32 checksum mismatch.
    ChecksumMismatch {
        /// The checksum stored in the log.
        expected: u32,
        /// The checksum computed from the record.
        actual: u32,
    },
    /// The log ended inside a record.
    Truncated {
        /// Number of bytes expected.
        expected: usize,
        /// Number of bytes available.
        actual: usize,
    },
    /// Payload size exceeds the limit.
    PayloadTooLarge {
        /// The payload size.
        size: usize,
        /// The maximum allowed size.
        max: usize,
    },
}

/// Header of a WAL record.
#[derive(Clone, Copy, Debug, PartialEq, Eq, Structural)]
pub struct WalEntry {
    /// Sequence number of the record.
    pub sequence: u64,
    /// Type of the record (0 = insert, 1 = insert quantized, ...).
    pub entry_type: u8,
    /// Length of the payload in bytes.
    pub payload_len: u32,
}

impl WalEntry {
    /// Creates a record header.
    pub fn new(sequence: u64, entry_type: u8, payload_len: u32) -> (e: Self)
        ensures
            e == (WalEntry { sequence, entry_type, payload_len }),
    {
        WalEntry { sequence, entry_type, payload_len }
    }
}

/// The 16 header bytes of a record.
pub open spec fn wal_header_bytes(sequence: u64, entry_type: u8, len: u32) -> Seq<u8> {
    le64(sequence) + seq![entry_type, 0u8, 0u8, 0u8] + le32(len)
}

/// The bytes of a whole record: header, payload, CRC32 of header and payload.
pub open spec fn wal_record_bytes(sequence: u64, entry_type: u8, payload: Seq<u8>) -> Seq<u8> {
    let h = wal_header_bytes(sequence, entry_type, payload.len() as u32);
    h + payload + le32(crc32_of(h + payload))
}

/// What reading one record yields.
pub enum WalStep {
    /// The log ends exactly here.
    End,
    /// A complete, intact record.
    Record(WalEntry, Seq<u8>),
    /// The log ends inside a record: expected and available byte counts.
    Truncated(int, int),
    /// The header announces a payload above the limit.
    TooLarge(int),
    /// The stored checksum (first) differs from the computed one (second).
    BadChecksum(u32, u32),
}

/// Reading one record at byte position `pos` of the log `d`: the outcome and
/// the position after it.
pub open spec fn spec_wal_step(d: Seq<u8>, pos: int) -> (WalStep, int) {
    let avail = d.len() - pos;
    if avail == 0 {
        (WalStep::End, pos)
    } else if avail < 16 {
        (WalStep::Truncated(16, avail), d.len() as int)
    } else {
        let plen = u32_at(d, pos + 12) as int;
        let p = pos + 16;
        if plen > MAX_PAYLOAD_SIZE {
            (WalStep::TooLarge(plen), p)
        } else if plen > 0 && d.len() - p < plen {
            (WalStep::Truncated(plen, d.len() - p), d.len() as int)
        } else if d.len() - (p + plen) < 4 {
            (WalStep::Truncated(4, d.len() - (p + plen)), d.len() as int)
        } else {
            let q = p + plen;
            let stored = u32_at(d, q);
            let calc = crc32_of(d.subrange(pos, q));
            if calc != stored {
                (WalStep::BadChecksum(stored, calc), q + 4)
            } else {
                (
                    WalStep::Record(
                        WalEntry { sequence: u64_at(d, pos), entry_type: d[pos + 8], payload_len: plen as u32 },
                        d.subrange(p, q),
                    ),
                    q + 4,
                )
            }
        }
    }
}

/// Frames records for the log, numbering them consecutively.
#[derive(Debug)]
pub struct WalAppender {
    next_sequence: u64,
}

impl WalAppender {
    /// Creates an appender whose next record gets sequence `next_sequence`.
    pub fn new(next_sequence: u64) -> (a: Self)
        ensures
            a.next_sequence() == next_sequence,
    {
        WalAppender { next_sequence }
    }

    /// The sequence number of the next record.
    pub closed spec fn next_sequence(&self) -> u64 {
        self.next_sequence
    }

    /// The sequence number of the next record.
    pub fn peek_sequence(&self) -> (s: u64)
        ensures
            s == self.next_sequence(),
    {
        self.next_sequence
    }

    /// Frames a record with the next sequence number and returns the bytes to
    /// append to the log. Payloads above the limit are refused.
    pub fn append(&mut self, entry_type: u8, payload: &[u8]) -> (r: Result<Vec<u8>, WalError>)
        requires
            old(self).next_sequence() < u64::MAX,
        ensures
            payload@.len() > MAX_PAYLOAD_SIZE ==> (r matches Err(WalError::PayloadTooLarge { size, max })
                && size == payload@.len() && max == MAX_PAYLOAD_SIZE && final(self).next_sequence()
                == old(self).next_sequence()),
            payload@.len() <= MAX_PAYLOAD_SIZE ==> (r matches Ok(bytes) && bytes@ == wal_record_bytes(
                old(self).next_sequence(),
                entry_type,
                payload@,
            ) && final(self).next_sequence() == old(self).next_sequence() + 1),
    {
        let payload_len = payload.len();
        if payload_len > MAX_PAYLOAD_SIZE {
            return Err(WalError::PayloadTooLarge { size: payload_len, max: MAX_PAYLOAD_SIZE });
        }
        let payload_len_u32 = payload_len as u32;
        let entry_sequence = self.next_sequence;
        self.next_sequence = self.next_sequence + 1;
        let mut buffer: Vec<u8> = Vec::new();
        append_u64_le(&mut buffer, entry_sequence);
        buffer.push(entry_type);
        buffer.push(0);
        buffer.push(0);
        buffer.push(0);
        append_u32_le(&mut buffer, payload_len_u32);
        proof {
            assert(buffer@ =~= wal_header_bytes(entry_sequence, entry_type, payload_len_u32));
        }
        let mut k: usize = 0;
        let ghost h = buffer@;
        while k < payload_len
            invariant
                k <= payload_len,
                payload_len == payload@.len(),
                buffer@ == h + payload@.subrange(0, k as int),
            decreases payload_len - k,
        {
            buffer.push(payload[k]);
            k = k + 1;
            proof {
                assert(buffer@ =~= h + payload@.subrange(0, k as int));
            }
        }
        proof {
            assert(payload@.subrange(0, payload_len as int) =~= payload@);
        }
        let crc = crc32_hash(buffer.as_slice());
        append_u32_le(&mut buffer, crc);
        Ok(buffer)
    }

    /// Flushes the log. Appends are durable once the backend has written them,
    /// so there is nothing to do.
    pub fn sync(&mut self) -> (r: Result<(), WalError>)
        ensures
            r is Ok,
            final(self).next_sequence() == old(self).next_sequence(),
    {
        Ok(())
    }
}

/// Reads the records of a log in order.
#[derive(Debug)]
pub struct WalIterator {
    data: Vec<u8>,
    pos: usize,
}

impl WalIterator {
    /// Creates an iterator over the whole log `data`.
    pub fn new(data: Vec<u8>) -> (it: Self)
        ensures
            it.log() == data@,
            it.position() == 0,
    {
        WalIterator { data, pos: 0 }
    }

    /// The log being read.
    pub closed spec fn log(&self) -> Seq<u8> {
        self.data@
    }

    /// The byte position of the next record.
    pub closed spec fn position(&self) -> int {
        self.pos as int
    }

    /// Reads the next record: `None` at the clean end of the log, otherwise the
    /// record or the error found there.
    pub fn next(&mut self) -> (r: Option<Result<(WalEntry, Vec<u8>), WalError>>)
        requires
            0 <= old(self).position() <= old(self).log().len(),
        ensures
            final(self).log() == old(self).log(),
            0 <= final(self).position() <= final(self).log().len(),
            ({
                let (step, next) = spec_wal_step(old(self).log(), old(self).position());
                &&& final(self).position() == next
                &&& match step {
                    WalStep::End => r is None,
                    WalStep::Record(e, p) => r matches Some(Ok((e2, p2))) && e2 == e && p2@ == p,
                    WalStep::Truncated(x, y) => r matches Some(Err(WalError::Truncated { expected, actual }))
                        && expected == x && actual == y,
                    WalStep::TooLarge(s) => r matches Some(Err(WalError::PayloadTooLarge { size, max }))
                        && size == s && max == MAX_PAYLOAD_SIZE,
                    WalStep::BadChecksum(x, y) => r matches Some(Err(WalError::ChecksumMismatch { expected, actual }))
                        && expected == x && actual == y,
                }
            }),
    {
        let len = self.data.len();
        let pos = self.pos;
        let avail = len - pos;
        if avail == 0 {
            return None;
        }
        if avail < WAL_HEADER_SIZE {
            self.pos = len;
            return Some(Err(WalError::Truncated { expected: WAL_HEADER_SIZE, actual: avail }));
        }
        let sequence = read_u64_le(self.data.as_slice(), pos);
        let entry_type = self.data[pos + 8];
        let payload_len_u32 = read_u32_le(self.data.as_slice(), pos + 12);
        let payload_len = payload_len_u32 as usize;
        let p = pos + WAL_HEADER_SIZE;
        self.pos = p;
        if payload_len > MAX_PAYLOAD_SIZE {
            return Some(Err(WalError::PayloadTooLarge { size: payload_len, max: MAX_PAYLOAD_SIZE }));
        }
        let avail2 = len - p;
        if payload_len > 0 && avail2 < payload_len {
            self.pos = len;
            return Some(Err(WalError::Truncated { expected: payload_len, actual: avail2 }));
        }
        let q = p + payload_len;
        let avail3 = len - q;
        if avail3 < CRC_SIZE {
            self.pos = len;
            return Some(Err(WalError::Truncated { expected: CRC_SIZE, actual: avail3 }));
        }
        let stored = read_u32_le(self.data.as_slice(), q);
        self.pos = q + CRC_SIZE;
        let calculated = crc32_hash(vstd::slice::slice_subrange(self.data.as_slice(), pos, q));
        if calculated != stored {
            return Some(Err(WalError::ChecksumMismatch { expected: stored, actual: calculated }));
        }
        let payload = vstd::slice::slice_to_vec(vstd::slice::slice_subrange(self.data.as_slice(), p, q));
        Some(Ok((WalEntry::new(sequence, entry_type, payload_len_u32), payload)))
    }
}

/// A record that follows `pre` is read back intact, and reading continues
/// right after it.
pub proof fn lemma_wal_record_roundtrip(
    pre: Seq<u8>,
    sequence: u64,
    entry_type: u8,
    payload: Seq<u8>,
    post: Seq<u8>,
)
    requires
        payload.len() <= MAX_PAYLOAD_SIZE,
    ensures
        spec_wal_step(pre + wal_record_bytes(sequence, entry_type, payload) + post, pre.len() as int)
            == (
            WalStep::Record(
                WalEntry { sequence, entry_type, payload_len: payload.len() as u32 },
                payload,
            ),
            (pre.len() + 20 + payload.len()) as int,
        ),
{
    lemma_le_roundtrip();
    let len = payload.len() as u32;
    let h = wal_header_bytes(sequence, entry_type, len);
    let crc = crc32_of(h + payload);
    let d = pre + wal_record_bytes(sequence, entry_type, payload) + post;
    let pos = pre.len() as int;
    assert(h.len() == 16);
    assert(d =~= pre + le64(sequence) + (seq![entry_type, 0u8, 0u8, 0u8] + le32(len) + payload
        + le32(crc) + post));
    lemma_u64_at_concat(pre, sequence, seq![entry_type, 0u8, 0u8, 0u8] + le32(len) + payload + le32(
        crc,
    ) + post);
    assert(d =~= (pre + le64(sequence) + seq![entry_type, 0u8, 0u8, 0u8]) + le32(len) + (payload
        + le32(crc) + post));
    lemma_u32_at_concat(
        pre + le64(sequence) + seq![entry_type, 0u8, 0u8, 0u8],
        len,
        payload + le32(crc) + post,
    );
    assert(d =~= (pre + h + payload) + le32(crc) + post);
    lemma_u32_at_concat(pre + h + payload, crc, post);
    assert(d.subrange(pos, pos + 16 + payload.len()) =~= h + payload);
    assert(d.subrange(pos + 16, pos + 16 + payload.len()) =~= payload);
    assert(d[pos + 8] == entry_type);
}

/// A log made of records in sequence.
pub open spec fn wal_log(records: Seq<(u64, u8, Seq<u8>)>) -> Seq<u8>
    decreases records.len(),
{
    if records.len() == 0 {
        Seq::empty()
    } else {
        wal_log(records.drop_last()) + wal_record_bytes(
            records.last().0,
            records.last().1,
            records.last().2,
        )
    }
}

/// Reading a log made of records gives every record back, in order, and then
/// the clean end: replay after appends returns what was appended.
pub proof fn lemma_wal_replay(records: Seq<(u64, u8, Seq<u8>)>, i: int)
    requires
        forall|k: int| 0 <= k < records.len() ==> (#[trigger] records[k]).2.len() <= MAX_PAYLOAD_SIZE,
        0 <= i <= records.len(),
    ensures
        i < records.len() ==> spec_wal_step(wal_log(records), wal_log(records.take(i)).len() as int)
            == (
            WalStep::Record(
                WalEntry {
                    sequence: records[i].0,
                    entry_type: records[i].1,
                    payload_len: records[i].2.len() as u32,
                },
                records[i].2,
            ),
            wal_log(records.take(i + 1)).len() as int,
        ),
        i == records.len() ==> spec_wal_step(wal_log(records), wal_log(records).len() as int).0
            is End,
{
    if i < records.len() {
        let pre = wal_log(records.take(i));
        let r = records[i];
        let post = wal_log_from(records, i + 1);
        lemma_wal_log_split(records, i + 1);
        assert(records.take(i + 1).drop_last() =~= records.take(i));
        assert(wal_log(records.take(i + 1)) == pre + wal_record_bytes(r.0, r.1, r.2));
        lemma_wal_record_roundtrip(pre, r.0, r.1, r.2, post);
        lemma_record_len(r.0, r.1, r.2);
    } else {
        assert(records.take(i) =~= records);
    }
}

/// The bytes of the records from position `start` on.
pub open spec fn wal_log_from(records: Seq<(u64, u8, Seq<u8>)>, start: int) -> Seq<u8>
    decreases records.len() - start,
{
    if start >= records.len() {
        Seq::empty()
    } else {
        wal_record_bytes(records[start].0, records[start].1, records[start].2) + wal_log_from(
            records,
            start + 1,
        )
    }
}

pub proof fn lemma_record_len(sequence: u64, entry_type: u8, payload: Seq<u8>)
    ensures
        wal_record_bytes(sequence, entry_type, payload).len() == 20 + payload.len(),
{
    lemma_le_roundtrip();
}

proof fn lemma_wal_log_split(records: Seq<(u64, u8, Seq<u8>)>, i: int)
    requires
        0 <= i <= records.len(),
    ensures
        wal_log(records) == wal_log(records.take(i)) + wal_log_from(records, i),
    decreases records.len() - i,
{
    if i < records.len() {
        lemma_wal_log_split(records, i + 1);
        let r = records[i];
        assert(records.take(i + 1).drop_last() =~= records.take(i));
        assert(wal_log(records.take(i + 1)) == wal_log(records.take(i)) + wal_record_bytes(
            r.0,
            r.1,
            r.2,
        ));
        assert(wal_log(records) =~= wal_log(records.take(i)) + wal_log_from(records, i));
    } else {
        assert(records.take(i) =~= records);
        assert(wal_log(records) =~= wal_log(records.take(i)) + wal_log_from(records, i));
    }
}

/// A record read intact takes at least 20 bytes of the log.
pub proof fn lemma_record_advances(d: Seq<u8>, pos: int)
    requires
        0 <= pos <= d.len(),
        spec_wal_step(d, pos).0 is Record,
    ensures
        spec_wal_step(d, pos).1 >= pos + 20,
        spec_wal_step(d, pos).1 <= d.len(),
{
}

/// A prefix of the records takes no more bytes than the whole log.
pub proof fn lemma_wal_log_prefix_len(records: Seq<(u64, u8, Seq<u8>)>, i: int)
    requires
        0 <= i <= records.len(),
    ensures
        wal_log(records.take(i)).len() <= wal_log(records).len(),
{
    lemma_wal_log_split(records, i);
}

/// The records a run of appends returns: `append` on an appender at sequence
/// `first_seq` returns the `i`-th of them, with type `types[i]` and payload
/// `payloads[i]`.
pub open spec fn appended_records(
    bytes: Seq<Seq<u8>>,
    first_seq: u64,
    types: Seq<u8>,
    payloads: Seq<Seq<u8>>,
) -> bool {
    &&& bytes.len() == types.len()
    &&& payloads.len() == types.len()
    &&& forall|i: int|
        0 <= i < bytes.len() ==> #[trigger] bytes[i] == wal_record_bytes(
            (first_seq + i) as u64,
            types[i],
            payloads[i],
        ) && payloads[i].len() <= MAX_PAYLOAD_SIZE
}

/// The `(sequence, type, payload)` of each appended record.
pub open spec fn appended_triples(first_seq: u64, types: Seq<u8>, payloads: Seq<Seq<u8>>) -> Seq<
    (u64, u8, Seq<u8>),
> {
    Seq::new(types.len(), |i: int| (((first_seq + i) as u64), types[i], payloads[i]))
}

proof fn lemma_appended_prefix(
    bytes: Seq<Seq<u8>>,
    first_seq: u64,
    types: Seq<u8>,
    payloads: Seq<Seq<u8>>,
    k: int,
)
    requires
        appended_records(bytes, first_seq, types, payloads),
        0 <= k <= bytes.len(),
    ensures
        crate::persistence::chunking::joined(bytes.take(k)) == wal_log(
            appended_triples(first_seq, types, payloads).take(k),
        ),
    decreases k,
{
    let recs = appended_triples(first_seq, types, payloads);
    if k == 0 {
        assert(bytes.take(0) =~= Seq::<Seq<u8>>::empty());
        assert(recs.take(0) =~= Seq::<(u64, u8, Seq<u8>)>::empty());
    } else {
        lemma_appended_prefix(bytes, first_seq, types, payloads, k - 1);
        assert(bytes.take(k).drop_last() =~= bytes.take(k - 1));
        assert(recs.take(k).drop_last() =~= recs.take(k - 1));
        assert(bytes[k - 1] == wal_record_bytes(
            (first_seq + (k - 1)) as u64,
            types[k - 1],
            payloads[k - 1],
        ));
    }
}

/// Replay after a run of appends returns what was appended: when the records
/// that successive calls of `append` returned (sequence numbers going up by
/// one from `first_seq`) are written one after another, reading the log from
/// the end of the first `i` records gives record `i` (its sequence, type,
/// payload length and payload) and moves to the end of record `i`; at the
/// end of all of them the log ends cleanly.
pub proof fn lemma_appends_replay(
    bytes: Seq<Seq<u8>>,
    first_seq: u64,
    types: Seq<u8>,
    payloads: Seq<Seq<u8>>,
    i: int,
)
    requires
        appended_records(bytes, first_seq, types, payloads),
        0 <= i <= bytes.len(),
    ensures
        ({
            let log = crate::persistence::chunking::joined(bytes);
            &&& i < bytes.len() ==> spec_wal_step(
                log,
                crate::persistence::chunking::joined(bytes.take(i)).len() as int,
            ) == (
                WalStep::Record(
                    WalEntry {
                        sequence: (first_seq + i) as u64,
                        entry_type: types[i],
                        payload_len: payloads[i].len() as u32,
                    },
                    payloads[i],
                ),
                crate::persistence::chunking::joined(bytes.take(i + 1)).len() as int,
            )
            &&& i == bytes.len() ==> spec_wal_step(log, log.len() as int).0 is End
        }),
{
    let recs = appended_triples(first_seq, types, payloads);
    let n = bytes.len() as int;
    assert forall|k: int| 0 <= k < recs.len() implies (#[trigger] recs[k]).2.len()
        <= MAX_PAYLOAD_SIZE by {
        assert(bytes[k] == wal_record_bytes((first_seq + k) as u64, types[k], payloads[k]));
    }
    lemma_appended_prefix(bytes, first_seq, types, payloads, n);
    assert(bytes.take(n) =~= bytes);
    assert(recs.take(n) =~= recs);
    lemma_appended_prefix(bytes, first_seq, types, payloads, i);
    if i < n {
        lemma_appended_prefix(bytes, first_seq, types, payloads, i + 1);
    }
    lemma_wal_replay(recs, i);
}

/// The layout of a record: the sequence number (8 bytes, little-endian), the
/// type, three zero bytes, the payload length (4 bytes), the payload, and last
/// the CRC-32 of everything before it (the 16 header bytes and the payload).
#[verifier::spinoff_prover]
pub proof fn lemma_wal_record_layout(sequence: u64, entry_type: u8, payload: Seq<u8>)
    ensures
        ({
            let r = wal_record_bytes(sequence, entry_type, payload);
            let n = r.len() as int;
            &&& n == 20 + payload.len()
            &&& u64_at(r, 0) == sequence
            &&& r[8] == entry_type && r[9] == 0 && r[10] == 0 && r[11] == 0
            &&& u32_at(r, 12) == payload.len() as u32
            &&& r.subrange(16, n - 4) == payload
            &&& u32_at(r, n - 4) == crc32_of(r.subrange(0, n - 4))
        }),
{
    lemma_le_roundtrip();
    let len = payload.len() as u32;
    let h = wal_header_bytes(sequence, entry_type, len);
    let crc = crc32_of(h + payload);
    let r = wal_record_bytes(sequence, entry_type, payload);
    let n = r.len() as int;
    let a = le64(sequence);
    let b = seq![entry_type, 0u8, 0u8, 0u8];
    let c = le32(len);
    let t = le32(crc);
    assert(h =~= a + b + c);
    assert(r =~= a + b + c + payload + t);
    assert(n == 20 + payload.len());
    assert(r.subrange(0, 8) =~= a);
    assert(r.subrange(12, 16) =~= c);
    assert(r.subrange(n - 4, n) =~= t);
    assert(r.subrange(0, n - 4) =~= h + payload);
    assert(r.subrange(16, n - 4) =~= payload);
    assert(r[8] == b[0]);
    assert(r[9] == b[1]);
    assert(r[10] == b[2]);
    assert(r[11] == b[3]);
}

/// A record whose header is damaged is caught: in a log holding a record
/// after `pre`, changing any of its first 12 bytes (sequence number, type or
/// the reserved bytes) makes reading there report a checksum mismatch.
pub proof fn lemma_wal_header_corruption_detected(
    pre: Seq<u8>,
    sequence: u64,
    entry_type: u8,
    payload: Seq<u8>,
    post: Seq<u8>,
    j: int,
    x: u8,
)
    requires
        payload.len() <= MAX_PAYLOAD_SIZE,
        0 <= j < 12,
        x != wal_record_bytes(sequence, entry_type, payload)[j],
    ensures
        spec_wal_step(
            (pre + wal_record_bytes(sequence, entry_type, payload) + post).update(pre.len() + j, x),
            pre.len() as int,
        ).0 is BadChecksum,
{
    lemma_le_roundtrip();
    let r = wal_record_bytes(sequence, entry_type, payload);
    let n = r.len() as int;
    lemma_wal_record_layout(sequence, entry_type, payload);
    let d = pre + r + post;
    let pos = pre.len() as int;
    let d2 = d.update(pos + j, x);
    let q = pos + 16 + payload.len();
    assert(d2.subrange(pos + 12, pos + 16) =~= r.subrange(12, 16));
    assert(d2.subrange(q, q + 4) =~= r.subrange(n - 4, n));
    let body = r.subrange(0, n - 4);
    assert(d2.subrange(pos, q) =~= body.update(j, x));
    assert(body[j] == r[j]);
    crate::checksum::lemma_crc32_detects_byte_change(body, j, x);
}

} // verus!
