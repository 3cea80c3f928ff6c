//! Snapshots: building the bytes of a snapshot file from the parts of a
//! database, and taking a snapshot file apart again.

use super::chunking::{snapshot_stream, ChunkIter};
use super::header::{
    decode_file_header, decode_metadata_header, evec_magic, file_header_bytes, file_header_checksum,
    lemma_file_header_roundtrip, metadata_header_bytes, metadata_header_error_text,
    spec_check_file_header, spec_check_metadata_header, FileHeader, HeaderError, MetadataHeaderError,
    MetadataSectionHeader, VERSION_MAJOR, VERSION_MINOR,
};
use super::{Flags, PersistenceError};
use crate::checksum::{crc32_hash, crc32_of};
use crate::bits::unpacked_bits;
use crate::bitset::bits_from_bytes;
use crate::hex::{alt_lower_hex, decimal, push_alt_lower_hex, push_decimal, push_decimal_wide};
use crate::le::{le32s, lemma_le32s_len, read_u32_le, u32s_at};
use vstd::string::*;
use vstd::prelude::*;

verus! {

/// The chunk size used when assembling a snapshot (1 MiB).
pub const SNAPSHOT_CHUNK_SIZE: usize = 1048576;

/// The parts of a database that a snapshot holds.
pub struct SnapshotParts {
    /// Vector dimensionality.
    pub dimensions: u32,
    /// The vector data, each single-precision value as its bit pattern.
    pub vectors: Vec<u32>,
    /// The HNSW nodes, 16 bytes each.
    pub nodes: Vec<u8>,
    /// The HNSW neighbour pool.
    pub neighbors: Vec<u8>,
    /// One deletion flag per vector.
    pub deleted: Vec<bool>,
    /// Number of nodes marked deleted in the index.
    pub deleted_count: usize,
    /// HNSW M parameter.
    pub hnsw_m: u32,
    /// HNSW M0 parameter.
    pub hnsw_m0: u32,
    /// The metadata section (empty when there is no metadata).
    pub metadata_section: Vec<u8>,
}

/// The header a snapshot of `p` starts with (before its data checksum is set).
pub open spec fn snapshot_header(p: SnapshotParts) -> FileHeader {
    let h = FileHeader {
        magic: [0x45u8, 0x56u8, 0x45u8, 0x43u8],
        version_major: VERSION_MAJOR,
        version_minor: VERSION_MINOR,
        flags: if p.metadata_section@.len() > 0 {
            Flags::HAS_METADATA
        } else {
            0
        },
        vector_count: p.deleted@.len() as u64,
        index_offset: (64 + 4 * p.vectors@.len()) as u64,
        metadata_offset: (64 + 4 * p.vectors@.len() + p.nodes@.len() + p.neighbors@.len()) as u64,
        rng_seed: 0,
        dimensions: p.dimensions,
        header_crc: 0,
        hnsw_m: p.hnsw_m,
        hnsw_m0: p.hnsw_m0,
        data_crc: 0,
        deleted_count: p.deleted_count as u32,
    };
    FileHeader { header_crc: file_header_checksum(h), ..h }
}

/// Whether the parts fit in a snapshot (whose size must fit in a `u64` and
/// in memory).
pub open spec fn parts_fit(p: SnapshotParts) -> bool {
    &&& p.nodes@.len() % 16 == 0
    &&& 64 + 4 * p.vectors@.len() + p.nodes@.len() + p.neighbors@.len() + (p.deleted@.len() + 7) / 8
        + p.metadata_section@.len() <= usize::MAX
    &&& 64 + 4 * p.vectors@.len() + p.nodes@.len() + p.neighbors@.len() <= u64::MAX
}

/// Everything after the header in a snapshot of `p`.
pub open spec fn snapshot_body(p: SnapshotParts) -> Seq<u8> {
    le32s(p.vectors@) + p.nodes@ + p.neighbors@ + crate::bits::packed_bits(p.deleted@)
        + p.metadata_section@
}

/// The bytes of a snapshot file of `p`: the header, with the checksum of
/// the body, then the body.
pub open spec fn snapshot_file(p: SnapshotParts) -> Seq<u8> {
    let body = snapshot_body(p);
    let h = FileHeader { data_crc: crc32_of(body), ..snapshot_header(p) };
    file_header_bytes(FileHeader { header_crc: file_header_checksum(h), ..h }) + body
}

impl SnapshotParts {
    /// An iterator over the snapshot of these parts, in chunks of at most
    /// `chunk_size` bytes (at least 64).
    pub fn export_chunked(self, chunk_size: usize) -> (it: ChunkIter)
        requires
            parts_fit(self),
        ensures
            it.wf(),
            it.position() == 0,
            it.stream() == file_header_bytes(snapshot_header(self)) + snapshot_body(self),
            it.max_chunk() == if chunk_size < 64 {
                64
            } else {
                chunk_size
            },
            it.vectors_end() == 64 + 4 * self.vectors@.len(),
            it.nodes_end() == 64 + 4 * self.vectors@.len() + self.nodes@.len(),
    {
        let mut header = FileHeader::new(self.dimensions);
        header.vector_count = self.deleted.len() as u64;
        let vector_bytes = (self.vectors.len() as u64) * 4;
        let index_offset = 64 + vector_bytes;
        header.index_offset = index_offset;
        header.metadata_offset = index_offset + (self.nodes.len() as u64) + (
        self.neighbors.len() as u64);
        header.hnsw_m = self.hnsw_m;
        header.hnsw_m0 = self.hnsw_m0;
        if self.metadata_section.len() > 0 {
            header.flags = header.flags | Flags::HAS_METADATA;
        }
        header.deleted_count = self.deleted_count as u32;
        header.update_checksum();
        proof {
            assert(0u16 | 4u16 == 4u16) by (bit_vector);
            let h0 = FileHeader { header_crc: 0, ..header };
            let s0 = FileHeader { header_crc: 0, ..snapshot_header(self) };
            assert(h0.magic =~= s0.magic);
            assert(h0.index_offset == s0.index_offset);
            assert(h0.metadata_offset == s0.metadata_offset);
            assert(h0.flags == s0.flags);
            assert(h0 == s0);
            assert(header == snapshot_header(self));
        }
        let bytes = header.as_bytes();
        let ghost parts = self;
        proof {
            lemma_file_header_roundtrip(header);
            crate::bits::lemma_packed_len(self.deleted@);
            lemma_le32s_len(self.vectors@);
        }
        let it = ChunkIter::new(
            bytes,
            self.vectors,
            self.nodes,
            self.neighbors,
            self.deleted,
            self.metadata_section,
            chunk_size,
        );
        proof {
            assert(it.stream() =~= file_header_bytes(snapshot_header(parts)) + snapshot_body(parts));
        }
        it
    }

    /// The bytes of a snapshot file of these parts: all chunks in order, with
    /// the checksum of the body stored in the header.
    pub fn write_snapshot_bytes(self) -> (r: Result<Vec<u8>, PersistenceError>)
        requires
            parts_fit(self),
        ensures
            r matches Ok(bytes) && bytes@ == snapshot_file(self),
    {
        let ghost parts = self;
        let mut it = self.export_chunked(SNAPSHOT_CHUNK_SIZE);
        let ghost stream = it.stream();
        let mut buffer: Vec<u8> = Vec::new();
        loop
            invariant
                it.wf(),
                it.stream() == stream,
                0 <= it.position() <= stream.len(),
                buffer@ == stream.subrange(0, it.position()),
            ensures
                buffer@ == stream,
            decreases stream.len() - it.position(),
        {
            let ghost p0 = it.position();
            match it.next() {
                Some(chunk) => {
                    let mut c = chunk;
                    proof {
                        assert(stream.subrange(0, it.position()) =~= stream.subrange(0, p0)
                            + stream.subrange(p0, it.position()));
                    }
                    buffer.append(&mut c);
                },
                None => {
                    proof {
                        assert(stream.subrange(0, stream.len() as int) =~= stream);
                    }
                    break;
                },
            }
        }
        proof {
            lemma_file_header_roundtrip(snapshot_header(parts));
            super::header::lemma_decode_file_header_prefix(
                file_header_bytes(snapshot_header(parts)),
                snapshot_body(parts),
            );
            assert(buffer@ =~= file_header_bytes(snapshot_header(parts)) + snapshot_body(parts));
            assert(snapshot_header(parts).magic@ =~= evec_magic());
        }
        let total = buffer.len();
        if total < 64 {
            return Err(PersistenceError::BufferTooSmall { expected: 64, actual: total });
        }
        let mut header = match FileHeader::decode(buffer.as_slice()) {
            Ok(h) => h,
            Err(e) => return Err(PersistenceError::Header(e)),
        };
        let body = vstd::slice::slice_subrange(buffer.as_slice(), 64, total);
        header.data_crc = crc32_hash(body);
        header.update_checksum();
        let head = header.as_bytes();
        proof {
            lemma_file_header_roundtrip(header);
        }
        let mut out: Vec<u8> = Vec::new();
        let mut k: usize = 0;
        while k < 64
            invariant
                k <= 64,
                head@.len() == 64,
                out@ == head@.subrange(0, k as int),
            decreases 64 - k,
        {
            out.push(head[k]);
            k = k + 1;
            proof {
                assert(out@ =~= head@.subrange(0, k as int));
            }
        }
        let ghost out0 = out@;
        let mut j: usize = 64;
        while j < total
            invariant
                64 <= j <= total,
                total == buffer@.len(),
                out@ == out0 + buffer@.subrange(64, j as int),
            decreases total - j,
        {
            out.push(buffer[j]);
            j = j + 1;
            proof {
                assert(out@ =~= out0 + buffer@.subrange(64, j as int));
            }
        }
        proof {
            assert(head@.subrange(0, 64) =~= head@);
            assert(buffer@.subrange(64, total as int) =~= snapshot_body(parts));
            assert(out@ =~= snapshot_file(parts));
        }
        Ok(out)
    }
}

/// Builds the metadata section for serialized metadata: its 16-byte header
/// (Postcard format, size and CRC32 of the data), then the data.
pub fn metadata_section(serialized: &[u8]) -> (section: Vec<u8>)
    requires
        serialized@.len() <= u32::MAX,
    ensures
        section@ == postcard_section(serialized@),
{
    let crc = crc32_hash(serialized);
    let header = MetadataSectionHeader::new_postcard(serialized.len() as u32, crc);
    let mut section = header.as_bytes();
    let n = serialized.len();
    let ghost s0 = section@;
    let mut k: usize = 0;
    while k < n
        invariant
            k <= n,
            n == serialized@.len(),
            section@ == s0 + serialized@.subrange(0, k as int),
        decreases n - k,
    {
        section.push(serialized[k]);
        k = k + 1;
        proof {
            assert(section@ =~= s0 + serialized@.subrange(0, k as int));
        }
    }
    proof {
        assert(serialized@.subrange(0, n as int) =~= serialized@);
        assert(header.magic@ =~= seq![0x4Du8, 0x45u8, 0x54u8, 0x41u8]);
    }
    section
}

/// The header of a Postcard metadata section holding `serialized`.
pub open spec fn postcard_section_header(serialized: Seq<u8>) -> MetadataSectionHeader {
    MetadataSectionHeader {
        magic: [0x4Du8, 0x45u8, 0x54u8, 0x41u8],
        version: 1,
        format: 1,
        reserved: 0,
        size: serialized.len() as u32,
        crc: crc32_of(serialized),
    }
}

/// A Postcard metadata section: its 16-byte header, then the data.
pub open spec fn postcard_section(serialized: Seq<u8>) -> Seq<u8> {
    metadata_header_bytes(postcard_section_header(serialized)) + serialized
}

/// The serialized metadata a snapshot carries.
pub enum MetadataPayload {
    /// No metadata section.
    Absent,
    /// Postcard-serialized metadata.
    Postcard(Vec<u8>),
    /// JSON-serialized metadata.
    Json(Vec<u8>),
}

/// What a snapshot holds, taken apart.
pub struct SnapshotContents {
    /// The vector data, each single-precision value as its bit pattern.
    pub vectors: Vec<u32>,
    /// One deletion flag per vector.
    pub deleted: Vec<bool>,
    /// The next vector ID to hand out.
    pub next_id: u64,
    /// The HNSW nodes, 16 bytes each.
    pub nodes: Vec<u8>,
    /// The HNSW neighbour pool.
    pub neighbors: Vec<u8>,
    /// The serialized metadata.
    pub metadata: MetadataPayload,
}

/// The mathematical content of a metadata payload.
pub enum PayloadModel {
    /// No metadata section.
    Absent,
    /// Postcard-serialized metadata.
    Postcard(Seq<u8>),
    /// JSON-serialized metadata.
    Json(Seq<u8>),
}

/// The mathematical content of a taken-apart snapshot.
pub struct ContentsModel {
    /// Vector data.
    pub vectors: Seq<u32>,
    /// Deletion flags.
    pub deleted: Seq<bool>,
    /// Next vector ID.
    pub next_id: u64,
    /// Node bytes.
    pub nodes: Seq<u8>,
    /// Neighbour pool.
    pub neighbors: Seq<u8>,
    /// Metadata.
    pub metadata: PayloadModel,
}

/// Why taking a snapshot apart failed.
pub enum ReadFailure {
    /// The data is corrupt; the message.
    Corrupted(Seq<char>),
    /// The data is shorter than the index offset says.
    TooShort(usize),
}

impl SnapshotContents {
    /// The mathematical content.
    pub open spec fn model(&self) -> ContentsModel {
        ContentsModel {
            vectors: self.vectors@,
            deleted: self.deleted@,
            next_id: self.next_id,
            nodes: self.nodes@,
            neighbors: self.neighbors@,
            metadata: match self.metadata {
                MetadataPayload::Absent => PayloadModel::Absent,
                MetadataPayload::Postcard(v) => PayloadModel::Postcard(v@),
                MetadataPayload::Json(v) => PayloadModel::Json(v@),
            },
        }
    }
}

/// `x - 64`, or 0 below 64.
pub open spec fn less_header(x: u64) -> int {
    if x >= 64 {
        x - 64
    } else {
        0
    }
}

/// The deletion flags of a snapshot: bit `i` of the bitmap at the metadata
/// offset, or `false` where the bitmap is missing or short.
pub open spec fn snapshot_deleted(h: FileHeader, data: Seq<u8>) -> Seq<bool> {
    let vc = h.vector_count as int;
    let mo = less_header(h.metadata_offset);
    if h.metadata_offset > 0 && mo <= data.len() {
        unpacked_bits(data.subrange(mo, data.len() as int), vc)
    } else {
        Seq::new(vc as nat, |i: int| false)
    }
}

/// Taking apart the metadata section (after the nodes and neighbours have
/// been found); `aligned` is whether the section header sits at a 4-byte
/// aligned address.
pub open spec fn snapshot_metadata(h: FileHeader, data: Seq<u8>, aligned: bool) -> Result<
    PayloadModel,
    ReadFailure,
> {
    if h.flags & Flags::HAS_METADATA == 0 {
        Ok(PayloadModel::Absent)
    } else {
        let mso = less_header(h.metadata_offset) + (h.vector_count + 7) / 8;
        if mso + 16 > data.len() {
            Err(ReadFailure::Corrupted("Metadata section header extends beyond file"@))
        } else if !aligned {
            Err(
                ReadFailure::Corrupted(
                    "Invalid metadata header: "@ + metadata_header_error_text(
                        MetadataHeaderError::UnalignedBuffer,
                    ),
                ),
            )
        } else {
            match spec_check_metadata_header(
                decode_metadata_header(data.subrange(mso, data.len() as int)),
            ) {
                Err(e) => Err(
                    ReadFailure::Corrupted("Invalid metadata header: "@ + metadata_header_error_text(e)),
                ),
                Ok(mh) => {
                    let start = mso + 16;
                    let end = start + mh.size;
                    if end > data.len() {
                        Err(
                            ReadFailure::Corrupted(
                                "Metadata section data extends beyond file: need "@ + decimal(
                                    end as nat,
                                ) + " bytes, have "@ + decimal(data.len()),
                            ),
                        )
                    } else {
                        let md = data.subrange(start, end);
                        if crc32_of(md) != mh.crc {
                            Err(
                                ReadFailure::Corrupted(
                                    "Metadata CRC mismatch: expected "@ + alt_lower_hex(
                                        mh.crc as nat,
                                    ) + ", got "@ + alt_lower_hex(crc32_of(md) as nat),
                                ),
                            )
                        } else if mh.format == 1 {
                            Ok(PayloadModel::Postcard(md))
                        } else if mh.format == 2 {
                            Ok(PayloadModel::Json(md))
                        } else {
                            Err(
                                ReadFailure::Corrupted(
                                    "Unknown metadata format: "@ + decimal(mh.format as nat),
                                ),
                            )
                        }
                    }
                },
            }
        }
    }
}

/// Taking apart the data that follows the header of a snapshot.
pub open spec fn spec_parse_snapshot(h: FileHeader, data: Seq<u8>, aligned: bool) -> Result<
    ContentsModel,
    ReadFailure,
> {
    let vc = h.vector_count as int;
    let vdl = vc * h.dimensions * 4;
    let iol = less_header(h.index_offset);
    if h.flags & 0xFFFBu16 != 0 {
        Err(
            ReadFailure::Corrupted(
                "Unsupported flags: "@ + alt_lower_hex(h.flags as nat)
                    + ". Supported: 0x4 (HAS_METADATA)."@,
            ),
        )
    } else if h.index_offset > usize::MAX || h.metadata_offset > usize::MAX {
        Err(ReadFailure::Corrupted("Snapshot offsets exceed addressable memory"@))
    } else if iol > data.len() {
        Err(ReadFailure::TooShort(iol as usize))
    } else if iol != vdl {
        Err(
            ReadFailure::Corrupted(
                "Vector data length mismatch: expected "@ + decimal(vdl as nat) + ", got "@
                    + decimal(iol as nat),
            ),
        )
    } else if h.metadata_offset > 0 && less_header(h.metadata_offset) < iol {
        Err(ReadFailure::Corrupted("Metadata offset precedes index offset"@))
    } else {
        let index_bytes = data.subrange(iol, data.len() as int);
        let nlb = vc * 16;
        let neighbors_end = if h.metadata_offset > 0 {
            less_header(h.metadata_offset) - iol
        } else {
            index_bytes.len() as int
        };
        if nlb > index_bytes.len() {
            Err(ReadFailure::Corrupted("Index data too short for nodes"@))
        } else {
            let rest = index_bytes.subrange(nlb, index_bytes.len() as int);
            let nl = if neighbors_end >= nlb {
                neighbors_end - nlb
            } else {
                0
            };
            let take = if nl < rest.len() {
                nl
            } else {
                rest.len() as int
            };
            match snapshot_metadata(h, data, aligned) {
                Err(f) => Err(f),
                Ok(m) => Ok(
                    ContentsModel {
                        vectors: u32s_at(data, 0, vc * h.dimensions),
                        deleted: snapshot_deleted(h, data),
                        next_id: (h.vector_count + 1) as u64,
                        nodes: index_bytes.subrange(0, nlb),
                        neighbors: rest.subrange(0, take),
                        metadata: m,
                    },
                ),
            }
        }
    }
}

/// Whether `r` is what taking the snapshot apart gives for the outcome `o`.
pub open spec fn parse_result(r: Result<SnapshotContents, PersistenceError>, o: Result<
    ContentsModel,
    ReadFailure,
>) -> bool {
    match o {
        Ok(m) => r matches Ok(c) && c.model() == m,
        Err(ReadFailure::Corrupted(msg)) => r matches Err(PersistenceError::Corrupted(t)) && t@
            == msg,
        Err(ReadFailure::TooShort(n)) => r matches Err(
            PersistenceError::Header(HeaderError::BufferTooShort(k)),
        ) && k == n,
    }
}

/// Decoding a metadata header reads only its first 16 bytes.
proof fn lemma_decode_metadata_header_prefix(a: Seq<u8>, b: Seq<u8>)
    requires
        a.len() == 16,
    ensures
        decode_metadata_header(a + b) == decode_metadata_header(a),
{
    let c = a + b;
    assert(c.subrange(4, 6) =~= a.subrange(4, 6));
    assert(c.subrange(8, 12) =~= a.subrange(8, 12));
    assert(c.subrange(12, 16) =~= a.subrange(12, 16));
}

/// Unpacking the first `n` bits reads only the bytes that hold them.
proof fn lemma_unpacked_prefix(a: Seq<u8>, b: Seq<u8>, n: int)
    requires
        0 <= n <= 8 * a.len(),
    ensures
        unpacked_bits(a + b, n) == unpacked_bits(a, n),
{
    assert forall|i: int| 0 <= i < n implies #[trigger] unpacked_bits(a + b, n)[i]
        == unpacked_bits(a, n)[i] by {
        assert(i / 8 < a.len());
        assert((a + b)[i / 8] == a[i / 8]);
    }
    assert(unpacked_bits(a + b, n) =~= unpacked_bits(a, n));
}

/// The header a snapshot file of `p` carries: with the checksum of the body
/// and, over that, its own checksum.
pub open spec fn written_header(p: SnapshotParts) -> FileHeader {
    let h1 = FileHeader { data_crc: crc32_of(snapshot_body(p)), ..snapshot_header(p) };
    FileHeader { header_crc: file_header_checksum(h1), ..h1 }
}

/// The consistency the roundtrip of a snapshot asks of its parts.
pub open spec fn parts_consistent(p: SnapshotParts, serialized: Seq<u8>) -> bool {
    &&& parts_fit(p)
    &&& p.vectors@.len() == p.deleted@.len() * p.dimensions
    &&& p.nodes@.len() == p.deleted@.len() * 16
    &&& p.metadata_section@.len() == 0 || p.metadata_section@ == postcard_section(serialized)
    &&& serialized.len() <= u32::MAX
}

proof fn lemma_snapshot_file_header(p: SnapshotParts)
    requires
        parts_fit(p),
    ensures
        snapshot_file(p) == file_header_bytes(written_header(p)) + snapshot_body(p),
        decode_file_header(snapshot_file(p)) == written_header(p),
        super::header::spec_check_file_header(written_header(p)) == Ok::<FileHeader, HeaderError>(
            written_header(p),
        ),
        snapshot_file(p).subrange(64, snapshot_file(p).len() as int) == snapshot_body(p),
{
    let h = written_header(p);
    let h1 = FileHeader { data_crc: crc32_of(snapshot_body(p)), ..snapshot_header(p) };
    let file = snapshot_file(p);
    lemma_file_header_roundtrip(h);
    super::header::lemma_decode_file_header_prefix(file_header_bytes(h), snapshot_body(p));
    assert(file == file_header_bytes(h) + snapshot_body(p));
    assert(file.subrange(64, file.len() as int) =~= snapshot_body(p));
    assert(h.magic@ =~= evec_magic());
    assert(FileHeader { header_crc: 0, ..h } == FileHeader { header_crc: 0, ..h1 });
    super::header::lemma_new_file_header_decodes(h);
}

proof fn lemma_snapshot_metadata(p: SnapshotParts, serialized: Seq<u8>)
    requires
        parts_consistent(p, serialized),
    ensures
        snapshot_metadata(written_header(p), snapshot_body(p), true) == Ok::<PayloadModel, ReadFailure>(
            if p.metadata_section@.len() == 0 {
                PayloadModel::Absent
            } else {
                PayloadModel::Postcard(serialized)
            },
        ),
{
    let h = written_header(p);
    let body = snapshot_body(p);
    let ms = p.metadata_section@;
    let vs = p.vectors@;
    let vc = p.deleted@.len() as int;
    lemma_le32s_len(vs);
    crate::bits::lemma_packed_len(p.deleted@);
    if ms.len() == 0 {
        assert(h.flags == 0);
        assert(0u16 & 4u16 == 0) by (bit_vector);
    } else {
        assert(h.flags == 4);
        assert(4u16 & 4u16 != 0) by (bit_vector);
        let mh = postcard_section_header(serialized);
        let mo: int = 4 * (vs.len() as int) + p.nodes@.len() + p.neighbors@.len();
        let mso = mo + (vc + 7) / 8;
        assert(h.metadata_offset == 64 + mo);
        assert(body.subrange(mso, body.len() as int) =~= metadata_header_bytes(mh) + serialized);
        super::header::lemma_metadata_header_roundtrip(mh);
        lemma_decode_metadata_header_prefix(metadata_header_bytes(mh), serialized);
        assert(mh.magic@ =~= super::header::meta_magic());
        super::header::lemma_new_metadata_header_decodes(mh);
        assert(body.subrange(mso + 16, mso + 16 + mh.size) =~= serialized);
    }
}

proof fn lemma_snapshot_layout(p: SnapshotParts, serialized: Seq<u8>)
    requires
        parts_consistent(p, serialized),
    ensures
        ({
            let h = written_header(p);
            let body = snapshot_body(p);
            let vc = p.deleted@.len() as int;
            &&& h.flags & 0xFFFBu16 == 0
            &&& h.vector_count == vc
            &&& h.dimensions == p.dimensions
            &&& less_header(h.index_offset) == vc * h.dimensions * 4
            &&& less_header(h.index_offset) <= body.len()
            &&& h.metadata_offset > 0
            &&& less_header(h.metadata_offset) == less_header(h.index_offset) + vc * 16
                + p.neighbors@.len()
            &&& u32s_at(body, 0, vc * h.dimensions) == p.vectors@
            &&& body.subrange(less_header(h.index_offset), body.len() as int) == p.nodes@
                + p.neighbors@ + crate::bits::packed_bits(p.deleted@) + p.metadata_section@
            &&& snapshot_deleted(h, body) == p.deleted@
        }),
{
    let h = written_header(p);
    let body = snapshot_body(p);
    let vs = p.vectors@;
    let ns = p.nodes@;
    let bs = p.neighbors@;
    let ds = crate::bits::packed_bits(p.deleted@);
    let ms = p.metadata_section@;
    let vc = p.deleted@.len() as int;
    lemma_le32s_len(vs);
    crate::bits::lemma_packed_len(p.deleted@);
    if ms.len() == 0 {
        assert(h.flags == 0);
        assert(0u16 & 0xFFFBu16 == 0) by (bit_vector);
    } else {
        assert(h.flags == 4);
        assert(4u16 & 0xFFFBu16 == 0) by (bit_vector);
    }
    assert(vc * p.dimensions * 4 == 4 * vs.len()) by (nonlinear_arith)
        requires
            vs.len() == vc * p.dimensions,
    ;
    assert(body =~= le32s(vs) + (ns + bs + ds + ms));
    crate::le::lemma_le32s_decode(Seq::<u8>::empty(), vs, ns + bs + ds + ms);
    assert(Seq::<u8>::empty() + le32s(vs) + (ns + bs + ds + ms) =~= body);
    let iol: int = 4 * (vs.len() as int);
    assert(body.subrange(iol, body.len() as int) =~= ns + bs + ds + ms);
    let mo: int = iol + ns.len() + bs.len();
    assert(body.subrange(mo, body.len() as int) =~= ds + ms);
    lemma_unpacked_prefix(ds, ms, vc);
    crate::bits::lemma_unpack_pack(p.deleted@);
}

/// The header a snapshot file carries holds what was written: the
/// dimensions, the vector count, the HNSW parameters M and M0, the deleted
/// count, the metadata flag exactly when there is a metadata section, and the
/// offsets of the index data (after the vectors) and of the deletion bitmap
/// (after the nodes and neighbours).
pub proof fn lemma_snapshot_header_fields(p: SnapshotParts)
    requires
        parts_fit(p),
    ensures
        ({
            let h = decode_file_header(snapshot_file(p));
            &&& h.dimensions == p.dimensions
            &&& h.vector_count == p.deleted@.len() as u64
            &&& h.hnsw_m == p.hnsw_m
            &&& h.hnsw_m0 == p.hnsw_m0
            &&& h.deleted_count == p.deleted_count as u32
            &&& h.flags == (if p.metadata_section@.len() > 0 {
                4u16
            } else {
                0u16
            })
            &&& h.index_offset == 64 + 4 * p.vectors@.len()
            &&& h.metadata_offset == 64 + 4 * p.vectors@.len() + p.nodes@.len() + p.neighbors@.len()
        }),
{
    lemma_snapshot_file_header(p);
}

/// What a snapshot write stores is what a read gives back. For consistent parts
/// (one row of values and one 16-byte node per vector, and either no metadata
/// or a Postcard section), the bytes of the snapshot decode to a header that
/// passes its checks and carries the checksum of the rest; and taking the rest
/// apart (with the metadata header at an aligned address) returns the vectors,
/// deletion flags, nodes, neighbour pool and serialized metadata that were
/// written, with the next ID one past the vector count. These are the three
/// steps of `read_snapshot`, on any machine.
#[verifier::rlimit(40)]
pub proof fn lemma_snapshot_roundtrip(p: SnapshotParts, serialized: Seq<u8>)
    requires
        parts_consistent(p, serialized),
    ensures
        ({
            let file = snapshot_file(p);
            let h = decode_file_header(file);
            &&& super::header::spec_check_file_header(h) == Ok::<FileHeader, HeaderError>(h)
            &&& h.data_crc == crc32_of(file.subrange(64, file.len() as int))
            &&& h.vector_count == p.deleted@.len() as u64
            &&& h.dimensions == p.dimensions
            &&& spec_parse_snapshot(h, file.subrange(64, file.len() as int), true) == Ok::<
                ContentsModel,
                ReadFailure,
            >(
                ContentsModel {
                    vectors: p.vectors@,
                    deleted: p.deleted@,
                    next_id: (p.deleted@.len() + 1) as u64,
                    nodes: p.nodes@,
                    neighbors: p.neighbors@,
                    metadata: if p.metadata_section@.len() == 0 {
                        PayloadModel::Absent
                    } else {
                        PayloadModel::Postcard(serialized)
                    },
                },
            )
        }),
{
    lemma_snapshot_file_header(p);
    lemma_snapshot_layout(p, serialized);
    lemma_snapshot_metadata(p, serialized);
    let h = written_header(p);
    let body = snapshot_body(p);
    let vc = p.deleted@.len() as int;
    let index_bytes = body.subrange(less_header(h.index_offset), body.len() as int);
    let ns = p.nodes@;
    let bs = p.neighbors@;
    assert(index_bytes.subrange(0, vc * 16) =~= ns);
    let rest = index_bytes.subrange(vc * 16, index_bytes.len() as int);
    assert(rest =~= bs + crate::bits::packed_bits(p.deleted@) + p.metadata_section@);
    assert(rest.subrange(0, bs.len() as int) =~= bs);
    let expected = ContentsModel {
        vectors: p.vectors@,
        deleted: p.deleted@,
        next_id: (p.deleted@.len() + 1) as u64,
        nodes: p.nodes@,
        neighbors: p.neighbors@,
        metadata: if p.metadata_section@.len() == 0 {
            PayloadModel::Absent
        } else {
            PayloadModel::Postcard(serialized)
        },
    };
    let iol = less_header(h.index_offset);
    let neighbors_end = less_header(h.metadata_offset) - iol;
    assert(neighbors_end - vc * 16 == bs.len());
    assert(bs.len() <= rest.len());
    assert(spec_parse_snapshot(h, body, true) == Ok::<ContentsModel, ReadFailure>(expected));
}

/// Takes apart the data that follows the header of a snapshot: checks the
/// flags and the offsets, reads the vector data and the deletion bitmap, finds
/// the nodes and the neighbour pool, and checks and extracts the metadata
/// section. Sizes that do not fit in memory are reported as corruption.
pub fn parse_snapshot(header: &FileHeader, data: &[u8]) -> (r: Result<
    SnapshotContents,
    PersistenceError,
>)
    ensures
        parse_result(r, spec_parse_snapshot(*header, data@, true)) || parse_result(
            r,
            spec_parse_snapshot(*header, data@, false),
        ),
{
    let h = *header;
    let unsupported = h.flags & 0xFFFBu16;
    if unsupported != 0 {
        let mut msg = String::new();
        msg.append("Unsupported flags: ");
        push_alt_lower_hex(&mut msg, h.flags as u64);
        msg.append(". Supported: 0x4 (HAS_METADATA).");
        proof {
            assert(msg@ =~= "Unsupported flags: "@ + alt_lower_hex(h.flags as nat)
                + ". Supported: 0x4 (HAS_METADATA)."@);
        }
        return Err(PersistenceError::Corrupted(msg));
    }
    if h.index_offset > usize::MAX as u64 || h.metadata_offset > usize::MAX as u64 {
        let msg = String::from_str("Snapshot offsets exceed addressable memory");
        return Err(PersistenceError::Corrupted(msg));
    }
    let len = data.len();
    let iol: usize = if h.index_offset >= 64 {
        (h.index_offset - 64) as usize
    } else {
        0
    };
    if iol > len {
        return Err(PersistenceError::Header(HeaderError::BufferTooShort(iol)));
    }
    let vc64 = h.vector_count;
    proof {
        assert(vc64 as int * h.dimensions as int <= 0xFFFF_FFFF_FFFF_FFFFint * 0xFFFF_FFFFint)
            by (nonlinear_arith)
            requires
                vc64 <= 0xFFFF_FFFF_FFFF_FFFFu64,
                h.dimensions <= 0xFFFF_FFFFu32,
        ;
    }
    let vec_data_len: u128 = (vc64 as u128) * (h.dimensions as u128) * 4;
    if iol as u128 != vec_data_len {
        let mut msg = String::new();
        msg.append("Vector data length mismatch: expected ");
        push_decimal_wide(&mut msg, vec_data_len);
        msg.append(", got ");
        push_decimal(&mut msg, iol as u64);
        proof {
            assert(msg@ =~= "Vector data length mismatch: expected "@ + decimal(
                vec_data_len as nat,
            ) + ", got "@ + decimal(iol as nat));
        }
        return Err(PersistenceError::Corrupted(msg));
    }
    let mo: usize = if h.metadata_offset >= 64 {
        (h.metadata_offset - 64) as usize
    } else {
        0
    };
    if h.metadata_offset > 0 && mo < iol {
        let msg = String::from_str("Metadata offset precedes index offset");
        return Err(PersistenceError::Corrupted(msg));
    }
    let index_len = len - iol;
    if (vc64 as u128) * 16 > index_len as u128 {
        let msg = String::from_str("Index data too short for nodes");
        return Err(PersistenceError::Corrupted(msg));
    }
    let vc = vc64 as usize;
    let dim = h.dimensions as usize;
    proof {
        assert(0 <= vc * dim <= vc * dim * 4) by (nonlinear_arith)
            requires
                vc * dim >= 0,
        ;
    }
    let vectors = read_u32s(data, vc * dim);
    let deleted = read_deleted(&h, data);
    let next_id = h.vector_count + 1;
    let nlb = vc * 16;
    let neighbors_end = if h.metadata_offset > 0 {
        mo - iol
    } else {
        index_len
    };
    let nodes = copy_bytes(data, iol, iol + nlb);
    let rest_len = index_len - nlb;
    let nl = if neighbors_end >= nlb {
        neighbors_end - nlb
    } else {
        0
    };
    let take = if nl < rest_len {
        nl
    } else {
        rest_len
    };
    let neighbors = copy_bytes(data, iol + nlb, iol + nlb + take);
    let metadata = read_metadata(&h, data);
    proof {
        let index_bytes = data@.subrange(iol as int, len as int);
        assert(index_bytes.subrange(0, nlb as int) =~= data@.subrange(iol as int, iol + nlb));
        assert(index_bytes.subrange(nlb as int, index_bytes.len() as int).subrange(0, take as int)
            =~= data@.subrange(iol + nlb, iol + nlb + take));
    }
    match metadata {
        Err(e) => Err(e),
        Ok(m) => Ok(SnapshotContents { vectors, deleted, next_id, nodes, neighbors, metadata: m }),
    }
}

/// Whether `r` is what reading a snapshot whose header is `h` gives for the
/// outcome `o` of taking its data apart.
pub open spec fn read_result(r: Result<(FileHeader, SnapshotContents), PersistenceError>, h: FileHeader, o: Result<
    ContentsModel,
    ReadFailure,
>) -> bool {
    match r {
        Ok((rh, c)) => rh == h && parse_result(Ok(c), o),
        Err(e) => parse_result(Err(e), o),
    }
}

/// Reads a snapshot from its bytes: checks the 64-byte header, then the
/// checksum of the data that follows it, then takes the data apart.
pub fn read_snapshot(bytes: &[u8]) -> (r: Result<(FileHeader, SnapshotContents), PersistenceError>)
    ensures
        bytes@.len() < 64 ==> (r matches Err(
            PersistenceError::Header(HeaderError::BufferTooShort(n)),
        ) && n == bytes@.len()),
        bytes@.len() >= 64 ==> ({
            let rest = bytes@.subrange(64, bytes@.len() as int);
            match spec_check_file_header(decode_file_header(bytes@)) {
                Err(e) => (r matches Err(PersistenceError::Header(f)) && f == e),
                Ok(h) => if crc32_of(rest) != h.data_crc {
                    (r matches Err(PersistenceError::ChecksumMismatch { expected, actual })
                        && expected == h.data_crc && actual == crc32_of(rest))
                } else {
                    read_result(r, h, spec_parse_snapshot(h, rest, true)) || read_result(
                        r,
                        h,
                        spec_parse_snapshot(h, rest, false),
                    )
                },
            }
        }),
{
    let len = bytes.len();
    if len < 64 {
        return Err(PersistenceError::Header(HeaderError::BufferTooShort(len)));
    }
    let header = match FileHeader::decode(bytes) {
        Ok(h) => h,
        Err(e) => return Err(PersistenceError::Header(e)),
    };
    let data = vstd::slice::slice_subrange(bytes, 64, len);
    let actual = crc32_hash(data);
    if actual != header.data_crc {
        return Err(PersistenceError::ChecksumMismatch { expected: header.data_crc, actual });
    }
    match parse_snapshot(&header, data) {
        Ok(c) => Ok((header, c)),
        Err(e) => Err(e),
    }
}

/// `n` little-endian `u32` values from the start of `data`.
fn read_u32s(data: &[u8], n: usize) -> (v: Vec<u32>)
    requires
        4 * n <= data@.len(),
    ensures
        v@ == u32s_at(data@, 0, n as int),
{
    let mut v: Vec<u32> = Vec::new();
    let len = data.len();
    let mut k: usize = 0;
    while k < n
        invariant
            k <= n,
            len == data@.len(),
            4 * n <= data@.len(),
            v@ == u32s_at(data@, 0, k as int),
        decreases n - k,
    {
        assert(4 * k + 4 <= 4 * n) by (nonlinear_arith)
            requires
                k < n,
        ;
        v.push(read_u32_le(data, 4 * k));
        k = k + 1;
        proof {
            assert(v@ =~= u32s_at(data@, 0, k as int));
        }
    }
    v
}

/// A copy of `data[a..b]`.
fn copy_bytes(data: &[u8], a: usize, b: usize) -> (v: Vec<u8>)
    requires
        a <= b <= data@.len(),
    ensures
        v@ == data@.subrange(a as int, b as int),
{
    let mut v: Vec<u8> = Vec::new();
    let mut k: usize = a;
    while k < b
        invariant
            a <= k <= b,
            b <= data@.len(),
            v@ == data@.subrange(a as int, k as int),
        decreases b - k,
    {
        v.push(data[k]);
        k = k + 1;
        proof {
            assert(v@ =~= data@.subrange(a as int, k as int));
        }
    }
    v
}

/// The deletion flags of a snapshot. Only the bytes that hold the first
/// `vector_count` bits are unpacked.
fn read_deleted(h: &FileHeader, data: &[u8]) -> (d: Vec<bool>)
    requires
        h.metadata_offset <= usize::MAX,
        h.vector_count * 16 <= data@.len(),
    ensures
        d@ == snapshot_deleted(*h, data@),
{
    let vc = h.vector_count as usize;
    let len = data.len();
    let ghost full = data@.subrange(less_header(h.metadata_offset), len as int);
    let ghost have = h.metadata_offset > 0 && less_header(h.metadata_offset) <= len;
    let mut bits: Vec<bool> = Vec::new();
    if h.metadata_offset > 0 {
        let mo = if h.metadata_offset >= 64 {
            (h.metadata_offset - 64) as usize
        } else {
            0
        };
        if mo <= len {
            let tb = vc / 8 + if vc % 8 == 0 {
                0
            } else {
                1
            };
            let avail = len - mo;
            let take = if tb < avail {
                tb
            } else {
                avail
            };
            let tail = vstd::slice::slice_subrange(data, mo, mo + take);
            proof {
                let mx: usize = usize::MAX;
                assert(mx >> 3 == mx / 8) by (bit_vector);
                assert(8 * take <= crate::bitset::bitvec_max_len());
            }
            bits = bits_from_bytes(tail);
            proof {
                assert forall|j: int| 0 <= j < vc implies ((j < bits@.len() && #[trigger] bits@[j])
                    == crate::bits::bit_of(full, j)) by {
                    assert(j / 8 < tb);
                    if j / 8 < take {
                        assert(tail@[j / 8] == full[j / 8]);
                    }
                }
            }
        }
    }
    let ghost src = bits@;
    let nb = bits.len();
    let mut d: Vec<bool> = Vec::new();
    let mut i: usize = 0;
    while i < vc
        invariant
            i <= vc,
            nb == src.len(),
            bits@ == src,
            d@.len() == i,
            forall|j: int| 0 <= j < i ==> #[trigger] d@[j] == (j < nb && src[j]),
        decreases vc - i,
    {
        if i < nb {
            d.push(bits[i]);
        } else {
            d.push(false);
        }
        i = i + 1;
    }
    proof {
        if have {
            assert forall|j: int| 0 <= j < vc implies #[trigger] d@[j] == unpacked_bits(
                full,
                vc as int,
            )[j] by {
                assert(d@[j] == (j < nb && src[j]));
            }
            assert(d@ =~= unpacked_bits(full, vc as int));
        } else {
            assert(d@ =~= Seq::new(vc as nat, |i: int| false));
        }
    }
    d
}

/// Checks and extracts the metadata section.
fn read_metadata(h: &FileHeader, data: &[u8]) -> (r: Result<MetadataPayload, PersistenceError>)
    requires
        h.metadata_offset <= usize::MAX,
        h.vector_count * 16 <= data@.len(),
    ensures
        metadata_result(r, snapshot_metadata(*h, data@, true)) || metadata_result(
            r,
            snapshot_metadata(*h, data@, false),
        ),
{
    if h.flags & Flags::HAS_METADATA == 0 {
        return Ok(MetadataPayload::Absent);
    }
    let len = data.len();
    let vc = h.vector_count as usize;
    let tombstone_bytes = vc / 8 + if vc % 8 == 0 {
        0
    } else {
        1
    };
    let tombstone_offset = if h.metadata_offset >= 64 {
        (h.metadata_offset - 64) as usize
    } else {
        0
    };
    let mso_wide: u128 = tombstone_offset as u128 + tombstone_bytes as u128;
    if mso_wide + 16 > len as u128 {
        let msg = String::from_str("Metadata section header extends beyond file");
        return Err(PersistenceError::Corrupted(msg));
    }
    let mso = mso_wide as usize;
    let tail = vstd::slice::slice_subrange(data, mso, len);
    let mh = match MetadataSectionHeader::from_bytes(tail) {
        Ok(mh) => mh,
        Err(e) => {
            let mut msg = String::from_str("Invalid metadata header: ");
            let text = e.message();
            msg.append(text.as_str());
            return Err(PersistenceError::Corrupted(msg));
        },
    };
    let start = mso + 16;
    let end_wide: u128 = start as u128 + mh.size as u128;
    if end_wide > len as u128 {
        let mut msg = String::from_str("Metadata section data extends beyond file: need ");
        push_decimal_wide(&mut msg, end_wide);
        msg.append(" bytes, have ");
        push_decimal(&mut msg, len as u64);
        proof {
            assert(msg@ =~= "Metadata section data extends beyond file: need "@ + decimal(
                end_wide as nat,
            ) + " bytes, have "@ + decimal(len as nat));
        }
        return Err(PersistenceError::Corrupted(msg));
    }
    let end = end_wide as usize;
    let md = copy_bytes(data, start, end);
    let actual = crc32_hash(md.as_slice());
    if actual != mh.crc {
        let mut msg = String::from_str("Metadata CRC mismatch: expected ");
        push_alt_lower_hex(&mut msg, mh.crc as u64);
        msg.append(", got ");
        push_alt_lower_hex(&mut msg, actual as u64);
        proof {
            assert(msg@ =~= "Metadata CRC mismatch: expected "@ + alt_lower_hex(mh.crc as nat)
                + ", got "@ + alt_lower_hex(actual as nat));
        }
        return Err(PersistenceError::Corrupted(msg));
    }
    if mh.is_postcard() {
        Ok(MetadataPayload::Postcard(md))
    } else if mh.is_json() {
        Ok(MetadataPayload::Json(md))
    } else {
        let mut msg = String::from_str("Unknown metadata format: ");
        push_decimal(&mut msg, mh.format as u64);
        proof {
            assert(msg@ =~= "Unknown metadata format: "@ + decimal(mh.format as nat));
        }
        Err(PersistenceError::Corrupted(msg))
    }
}

/// Whether `r` is what extracting the metadata section gives for `o`.
pub open spec fn metadata_result(r: Result<MetadataPayload, PersistenceError>, o: Result<
    PayloadModel,
    ReadFailure,
>) -> bool {
    match o {
        Ok(PayloadModel::Absent) => r matches Ok(MetadataPayload::Absent),
        Ok(PayloadModel::Postcard(b)) => r matches Ok(MetadataPayload::Postcard(v)) && v@ == b,
        Ok(PayloadModel::Json(b)) => r matches Ok(MetadataPayload::Json(v)) && v@ == b,
        Err(ReadFailure::Corrupted(msg)) => r matches Err(PersistenceError::Corrupted(t)) && t@
            == msg,
        Err(ReadFailure::TooShort(_)) => false,
    }
}

} // verus!
