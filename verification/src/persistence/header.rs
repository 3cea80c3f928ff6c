//! File headers of the `.evec` index format and of its metadata section.
//!
//! Both headers are fixed-size little-endian records: 64 bytes for the file
//! header, 16 bytes for the metadata section header.

use crate::checksum::{crc32_hash, crc32_of, is_aligned_4, is_aligned_8};
use crate::le::{
    append_u16_le, append_u32_le, append_u64_le, le16, le32, le64, lemma_le_roundtrip,
    lemma_u16_at_concat, lemma_u32_at_concat, lemma_u64_at_concat, read_u16_le, read_u32_le,
    read_u64_le, u16_at, u32_at, u64_at,
};
use crate::hex::{alt_lower_hex, decimal, push_alt_lower_hex, push_decimal};
use vstd::prelude::*;

verus! {

/// Magic number: "EVEC".
pub const MAGIC: [u8; 4] = [0x45u8, 0x56u8, 0x45u8, 0x43u8];

/// Current major version.
pub const VERSION_MAJOR: u8 = 0;

/// Current minor version (3: soft-delete support).
pub const VERSION_MINOR: u8 = 3;

/// Minimum supported minor version for migration.
pub const VERSION_MINOR_MIN: u8 = 1;

/// Magic number of the metadata section: "META".
pub const METADATA_MAGIC: [u8; 4] = [0x4Du8, 0x45u8, 0x54u8, 0x41u8];

/// Current metadata section version.
pub const METADATA_VERSION: u16 = 1;

/// Serialization format: Postcard (binary, compact).
pub const FORMAT_POSTCARD: u8 = 1;

/// Serialization format: JSON (text, debugging).
pub const FORMAT_JSON: u8 = 2;

/// "EVEC" as a sequence.
pub open spec fn evec_magic() -> Seq<u8> {
    seq![0x45u8, 0x56u8, 0x45u8, 0x43u8]
}

/// "META" as a sequence.
pub open spec fn meta_magic() -> Seq<u8> {
    seq![0x4Du8, 0x45u8, 0x54u8, 0x41u8]
}

/// File header for `.evec` index files (64 bytes).
#[derive(Clone, Copy, Debug, PartialEq, Eq)]
pub struct FileHeader {
    /// Magic number: "EVEC".
    pub magic: [u8; 4],
    /// Format version major part.
    pub version_major: u8,
    /// Format version minor part.
    pub version_minor: u8,
    /// Flags (bit 0: compressed, bit 1: quantized, bit 2: metadata).
    pub flags: u16,
    /// Number of vectors in file.
    pub vector_count: u64,
    /// Byte offset to index section.
    pub index_offset: u64,
    /// Byte offset to metadata section (0 if none).
    pub metadata_offset: u64,
    /// RNG seed for deterministic replay.
    pub rng_seed: u64,
    /// Vector dimensionality.
    pub dimensions: u32,
    /// CRC32 of the header bytes (computed with this field zeroed).
    pub header_crc: u32,
    /// HNSW M parameter.
    pub hnsw_m: u32,
    /// HNSW M0 parameter.
    pub hnsw_m0: u32,
    /// CRC32 of data payload.
    pub data_crc: u32,
    /// Count of deleted (tombstone) nodes in the index (v0.3+).
    pub deleted_count: u32,
}

/// Errors that can occur during header parsing.
#[derive(Debug, PartialEq, Eq)]
pub enum HeaderError {
    /// Invalid magic number.
    InvalidMagic([u8; 4]),
    /// Unsupported version.
    UnsupportedVersion(u8, u8),
    /// Checksum mismatch.
    ChecksumMismatch {
        /// Expected checksum (from header).
        expected: u32,
        /// Actual calculated checksum.
        actual: u32,
    },
    /// Buffer too short.
    BufferTooShort(usize),
    /// Buffer is not 8-byte aligned.
    UnalignedBuffer,
}

/// The 64-byte layout of a file header.
pub open spec fn file_header_bytes(h: FileHeader) -> Seq<u8> {
    h.magic@ + seq![h.version_major, h.version_minor] + le16(h.flags) + le64(h.vector_count) + le64(
        h.index_offset,
    ) + le64(h.metadata_offset) + le64(h.rng_seed) + le32(h.dimensions) + le32(h.header_crc)
        + le32(h.hnsw_m) + le32(h.hnsw_m0) + le32(h.data_crc) + le32(h.deleted_count)
}

/// The checksum a header should carry: the CRC32 of its bytes with the
/// checksum field zeroed.
pub open spec fn file_header_checksum(h: FileHeader) -> u32 {
    crc32_of(file_header_bytes(FileHeader { header_crc: 0, ..h }))
}

/// The header laid out in 64 bytes.
pub open spec fn decode_file_header(b: Seq<u8>) -> FileHeader {
    FileHeader {
        magic: [b[0], b[1], b[2], b[3]],
        version_major: b[4],
        version_minor: b[5],
        flags: u16_at(b, 6),
        vector_count: u64_at(b, 8),
        index_offset: u64_at(b, 16),
        metadata_offset: u64_at(b, 24),
        rng_seed: u64_at(b, 32),
        dimensions: u32_at(b, 40),
        header_crc: u32_at(b, 44),
        hnsw_m: u32_at(b, 48),
        hnsw_m0: u32_at(b, 52),
        data_crc: u32_at(b, 56),
        deleted_count: u32_at(b, 60),
    }
}

/// The checks applied to a parsed header: magic, then version (major must be
/// current, minor at least the minimum), then checksum.
pub open spec fn spec_check_file_header(h: FileHeader) -> Result<FileHeader, HeaderError> {
    if h.magic@ != evec_magic() {
        Err(HeaderError::InvalidMagic(h.magic))
    } else if h.version_major != 0 || h.version_minor < 1 {
        Err(HeaderError::UnsupportedVersion(h.version_major, h.version_minor))
    } else if file_header_checksum(h) != h.header_crc {
        Err(
            HeaderError::ChecksumMismatch {
                expected: h.header_crc,
                actual: file_header_checksum(h),
            },
        )
    } else {
        Ok(h)
    }
}

fn same_magic(a: &[u8; 4], b: &[u8; 4]) -> (r: bool)
    ensures
        r == (a@ == b@),
{
    let r = a[0] == b[0] && a[1] == b[1] && a[2] == b[2] && a[3] == b[3];
    proof {
        if r {
            assert(a@ =~= b@);
        } else {
            if a@ == b@ {
                assert(a@[0] == b@[0] && a@[1] == b@[1] && a@[2] == b@[2] && a@[3] == b@[3]);
            }
        }
    }
    r
}

impl FileHeader {
    /// Creates a header for the current version with default values and a
    /// correct checksum.
    pub fn new(dimensions: u32) -> (h: Self)
        ensures
            h.magic@ == evec_magic(),
            h.version_major == VERSION_MAJOR,
            h.version_minor == VERSION_MINOR,
            h.flags == 0,
            h.vector_count == 0,
            h.index_offset == 0,
            h.metadata_offset == 0,
            h.rng_seed == 0,
            h.dimensions == dimensions,
            h.hnsw_m == 16,
            h.hnsw_m0 == 32,
            h.data_crc == 0,
            h.deleted_count == 0,
            h.header_crc == file_header_checksum(h),
            spec_check_file_header(h) == Ok::<FileHeader, HeaderError>(h),
    {
        let mut header = FileHeader {
            magic: MAGIC,
            version_major: VERSION_MAJOR,
            version_minor: VERSION_MINOR,
            flags: 0,
            vector_count: 0,
            index_offset: 0,
            metadata_offset: 0,
            rng_seed: 0,
            dimensions,
            header_crc: 0,
            hnsw_m: 16,
            hnsw_m0: 32,
            data_crc: 0,
            deleted_count: 0,
        };
        proof {
            assert(MAGIC@ =~= evec_magic());
        }
        header.update_checksum();
        proof {
            lemma_new_file_header_decodes(header);
            lemma_file_header_roundtrip(header);
        }
        header
    }

    /// The 64-byte little-endian representation of the header; decoding it
    /// gives the header back.
    pub fn as_bytes(&self) -> (bytes: Vec<u8>)
        ensures
            bytes@ == file_header_bytes(*self),
            bytes@.len() == 64,
            decode_file_header(bytes@) == *self,
    {
        let mut v: Vec<u8> = Vec::new();
        v.push(self.magic[0]);
        v.push(self.magic[1]);
        v.push(self.magic[2]);
        v.push(self.magic[3]);
        v.push(self.version_major);
        v.push(self.version_minor);
        proof {
            assert(v@ =~= self.magic@ + seq![self.version_major, self.version_minor]);
        }
        append_u16_le(&mut v, self.flags);
        append_u64_le(&mut v, self.vector_count);
        append_u64_le(&mut v, self.index_offset);
        append_u64_le(&mut v, self.metadata_offset);
        append_u64_le(&mut v, self.rng_seed);
        append_u32_le(&mut v, self.dimensions);
        append_u32_le(&mut v, self.header_crc);
        append_u32_le(&mut v, self.hnsw_m);
        append_u32_le(&mut v, self.hnsw_m0);
        append_u32_le(&mut v, self.data_crc);
        append_u32_le(&mut v, self.deleted_count);
        proof {
            lemma_file_header_roundtrip(*self);
        }
        v
    }

    /// Recomputes the checksum from the current fields.
    pub fn update_checksum(&mut self)
        ensures
            *final(self) == (FileHeader { header_crc: file_header_checksum(*old(self)), ..*old(self) }),
    {
        self.header_crc = 0;
        let bytes = self.as_bytes();
        self.header_crc = crc32_hash(bytes.as_slice());
        proof {
            assert(FileHeader { header_crc: 0, ..*old(self) } == FileHeader { header_crc: 0, ..*self });
        }
    }

    /// Parses and checks the first 64 bytes (no alignment requirement).
    pub fn decode(bytes: &[u8]) -> (r: Result<Self, HeaderError>)
        requires
            bytes@.len() >= 64,
        ensures
            r == spec_check_file_header(decode_file_header(bytes@)),
    {
        let h = FileHeader {
            magic: [bytes[0], bytes[1], bytes[2], bytes[3]],
            version_major: bytes[4],
            version_minor: bytes[5],
            flags: read_u16_le(bytes, 6),
            vector_count: read_u64_le(bytes, 8),
            index_offset: read_u64_le(bytes, 16),
            metadata_offset: read_u64_le(bytes, 24),
            rng_seed: read_u64_le(bytes, 32),
            dimensions: read_u32_le(bytes, 40),
            header_crc: read_u32_le(bytes, 44),
            hnsw_m: read_u32_le(bytes, 48),
            hnsw_m0: read_u32_le(bytes, 52),
            data_crc: read_u32_le(bytes, 56),
            deleted_count: read_u32_le(bytes, 60),
        };
        proof {
            assert(MAGIC@ =~= evec_magic());
        }
        if !same_magic(&h.magic, &MAGIC) {
            return Err(HeaderError::InvalidMagic(h.magic));
        }
        if h.version_major != VERSION_MAJOR {
            return Err(HeaderError::UnsupportedVersion(h.version_major, h.version_minor));
        }
        if h.version_minor < VERSION_MINOR_MIN {
            return Err(HeaderError::UnsupportedVersion(h.version_major, h.version_minor));
        }
        let mut verify = h;
        verify.header_crc = 0;
        let calculated = crc32_hash(verify.as_bytes().as_slice());
        proof {
            assert(verify == FileHeader { header_crc: 0, ..h });
        }
        if h.header_crc != calculated {
            return Err(HeaderError::ChecksumMismatch { expected: h.header_crc, actual: calculated });
        }
        Ok(h)
    }

    /// Parses a header from a buffer of at least 64 bytes that is 8-byte aligned.
    pub fn from_bytes(bytes: &[u8]) -> (r: Result<Self, HeaderError>)
        ensures
            bytes@.len() < 64 ==> r == Err::<FileHeader, HeaderError>(
                HeaderError::BufferTooShort(bytes@.len() as usize),
            ),
            bytes@.len() >= 64 ==> (r == Err::<FileHeader, HeaderError>(HeaderError::UnalignedBuffer)
                || r == spec_check_file_header(decode_file_header(bytes@))),
    {
        if bytes.len() < 64 {
            return Err(HeaderError::BufferTooShort(bytes.len()));
        }
        if !is_aligned_8(bytes) {
            return Err(HeaderError::UnalignedBuffer);
        }
        Self::decode(bytes)
    }

    /// Whether the header is from an older minor version that needs migration.
    pub fn needs_migration(&self) -> (b: bool)
        ensures
            b == (self.version_minor < VERSION_MINOR),
    {
        self.version_minor < VERSION_MINOR
    }

    /// Whether the header's format supports soft delete (v0.3+).
    pub fn supports_soft_delete(&self) -> (b: bool)
        ensures
            b == (self.version_minor >= 3),
    {
        self.version_minor >= 3
    }
}

/// Decoding reads only the first 64 bytes.
pub proof fn lemma_decode_file_header_prefix(a: Seq<u8>, b: Seq<u8>)
    requires
        a.len() == 64,
    ensures
        decode_file_header(a + b) == decode_file_header(a),
{
    let c = a + b;
    assert(c.subrange(6, 8) =~= a.subrange(6, 8));
    assert(c.subrange(8, 16) =~= a.subrange(8, 16));
    assert(c.subrange(16, 24) =~= a.subrange(16, 24));
    assert(c.subrange(24, 32) =~= a.subrange(24, 32));
    assert(c.subrange(32, 40) =~= a.subrange(32, 40));
    assert(c.subrange(40, 44) =~= a.subrange(40, 44));
    assert(c.subrange(44, 48) =~= a.subrange(44, 48));
    assert(c.subrange(48, 52) =~= a.subrange(48, 52));
    assert(c.subrange(52, 56) =~= a.subrange(52, 56));
    assert(c.subrange(56, 60) =~= a.subrange(56, 60));
    assert(c.subrange(60, 64) =~= a.subrange(60, 64));
}

/// Decoding the bytes of a header gives the header back.
pub proof fn lemma_file_header_roundtrip(h: FileHeader)
    ensures
        file_header_bytes(h).len() == 64,
        decode_file_header(file_header_bytes(h)) == h,
{
    lemma_le_roundtrip();
    let b = file_header_bytes(h);
    let s0 = h.magic@ + seq![h.version_major, h.version_minor];
    let s1 = s0 + le16(h.flags);
    let s2 = s1 + le64(h.vector_count);
    let s3 = s2 + le64(h.index_offset);
    let s4 = s3 + le64(h.metadata_offset);
    let s5 = s4 + le64(h.rng_seed);
    let s6 = s5 + le32(h.dimensions);
    let s7 = s6 + le32(h.header_crc);
    let s8 = s7 + le32(h.hnsw_m);
    let s9 = s8 + le32(h.hnsw_m0);
    let s10 = s9 + le32(h.data_crc);
    assert(b == s10 + le32(h.deleted_count));
    assert(u16_at(b, 6) == h.flags) by {
        assert(b =~= s0 + le16(h.flags) + b.subrange(8, 64));
        lemma_u16_at_concat(s0, h.flags, b.subrange(8, 64));
    }
    assert(u64_at(b, 8) == h.vector_count) by {
        assert(b =~= s1 + le64(h.vector_count) + b.subrange(16, 64));
        lemma_u64_at_concat(s1, h.vector_count, b.subrange(16, 64));
    }
    assert(u64_at(b, 16) == h.index_offset) by {
        assert(b =~= s2 + le64(h.index_offset) + b.subrange(24, 64));
        lemma_u64_at_concat(s2, h.index_offset, b.subrange(24, 64));
    }
    assert(u64_at(b, 24) == h.metadata_offset) by {
        assert(b =~= s3 + le64(h.metadata_offset) + b.subrange(32, 64));
        lemma_u64_at_concat(s3, h.metadata_offset, b.subrange(32, 64));
    }
    assert(u64_at(b, 32) == h.rng_seed) by {
        assert(b =~= s4 + le64(h.rng_seed) + b.subrange(40, 64));
        lemma_u64_at_concat(s4, h.rng_seed, b.subrange(40, 64));
    }
    assert(u32_at(b, 40) == h.dimensions) by {
        assert(b =~= s5 + le32(h.dimensions) + b.subrange(44, 64));
        lemma_u32_at_concat(s5, h.dimensions, b.subrange(44, 64));
    }
    assert(u32_at(b, 44) == h.header_crc) by {
        assert(b =~= s6 + le32(h.header_crc) + b.subrange(48, 64));
        lemma_u32_at_concat(s6, h.header_crc, b.subrange(48, 64));
    }
    assert(u32_at(b, 48) == h.hnsw_m) by {
        assert(b =~= s7 + le32(h.hnsw_m) + b.subrange(52, 64));
        lemma_u32_at_concat(s7, h.hnsw_m, b.subrange(52, 64));
    }
    assert(u32_at(b, 52) == h.hnsw_m0) by {
        assert(b =~= s8 + le32(h.hnsw_m0) + b.subrange(56, 64));
        lemma_u32_at_concat(s8, h.hnsw_m0, b.subrange(56, 64));
    }
    assert(u32_at(b, 56) == h.data_crc) by {
        assert(b =~= s9 + le32(h.data_crc) + b.subrange(60, 64));
        lemma_u32_at_concat(s9, h.data_crc, b.subrange(60, 64));
    }
    assert(u32_at(b, 60) == h.deleted_count) by {
        assert(b =~= s10 + le32(h.deleted_count) + Seq::<u8>::empty());
        lemma_u32_at_concat(s10, h.deleted_count, Seq::<u8>::empty());
    }
    let d = decode_file_header(b);
    assert(d.magic@ =~= h.magic@);
    assert(d.magic == h.magic);
}

/// A header made by `new` (or after `update_checksum`) passes every check when
/// read back from its bytes.
pub proof fn lemma_new_file_header_decodes(h: FileHeader)
    requires
        h.magic@ == evec_magic(),
        h.version_major == VERSION_MAJOR,
        VERSION_MINOR_MIN <= h.version_minor,
        h.header_crc == file_header_checksum(h),
    ensures
        spec_check_file_header(decode_file_header(file_header_bytes(h))) == Ok::<
            FileHeader,
            HeaderError,
        >(h),
{
    lemma_file_header_roundtrip(h);
}


/// Metadata section header (16 bytes), placed after the tombstone bitmap when
/// the `HAS_METADATA` flag is set.
#[derive(Clone, Copy, Debug, PartialEq, Eq)]
pub struct MetadataSectionHeader {
    /// Magic number: "META".
    pub magic: [u8; 4],
    /// Section format version (currently 1).
    pub version: u16,
    /// Serialization format: 1 = Postcard, 2 = JSON.
    pub format: u8,
    /// Reserved for future use (must be 0).
    pub reserved: u8,
    /// Size of serialized metadata in bytes.
    pub size: u32,
    /// CRC32 of serialized metadata bytes.
    pub crc: u32,
}

/// Errors that can occur during metadata header parsing.
#[derive(Debug, PartialEq, Eq)]
pub enum MetadataHeaderError {
    /// Invalid magic number.
    InvalidMagic([u8; 4]),
    /// Unsupported version.
    UnsupportedVersion(u16),
    /// Unsupported serialization format.
    UnsupportedFormat(u8),
    /// Buffer too short.
    BufferTooShort(usize),
    /// Buffer is not 4-byte aligned.
    UnalignedBuffer,
    /// CRC mismatch.
    CrcMismatch {
        /// Expected CRC (from header).
        expected: u32,
        /// Actual calculated CRC.
        actual: u32,
    },
}

/// The 16-byte layout of a metadata section header.
pub open spec fn metadata_header_bytes(h: MetadataSectionHeader) -> Seq<u8> {
    h.magic@ + le16(h.version) + seq![h.format, h.reserved] + le32(h.size) + le32(h.crc)
}

/// The header laid out in 16 bytes.
pub open spec fn decode_metadata_header(b: Seq<u8>) -> MetadataSectionHeader {
    MetadataSectionHeader {
        magic: [b[0], b[1], b[2], b[3]],
        version: u16_at(b, 4),
        format: b[6],
        reserved: b[7],
        size: u32_at(b, 8),
        crc: u32_at(b, 12),
    }
}

/// The checks applied to a parsed metadata header: magic, version, format.
pub open spec fn spec_check_metadata_header(h: MetadataSectionHeader) -> Result<
    MetadataSectionHeader,
    MetadataHeaderError,
> {
    if h.magic@ != meta_magic() {
        Err(MetadataHeaderError::InvalidMagic(h.magic))
    } else if h.version > METADATA_VERSION {
        Err(MetadataHeaderError::UnsupportedVersion(h.version))
    } else if h.format != FORMAT_POSTCARD && h.format != FORMAT_JSON {
        Err(MetadataHeaderError::UnsupportedFormat(h.format))
    } else {
        Ok(h)
    }
}

impl MetadataSectionHeader {
    /// Creates a header for Postcard-serialized metadata.
    pub fn new_postcard(size: u32, crc: u32) -> (h: Self)
        ensures
            h.magic@ == meta_magic(),
            h.version == METADATA_VERSION,
            h.format == FORMAT_POSTCARD,
            h.reserved == 0,
            h.size == size,
            h.crc == crc,
    {
        proof {
            assert(METADATA_MAGIC@ =~= meta_magic());
        }
        MetadataSectionHeader {
            magic: METADATA_MAGIC,
            version: METADATA_VERSION,
            format: FORMAT_POSTCARD,
            reserved: 0,
            size,
            crc,
        }
    }

    /// Creates a header for JSON-serialized metadata.
    pub fn new_json(size: u32, crc: u32) -> (h: Self)
        ensures
            h.magic@ == meta_magic(),
            h.version == METADATA_VERSION,
            h.format == FORMAT_JSON,
            h.reserved == 0,
            h.size == size,
            h.crc == crc,
    {
        proof {
            assert(METADATA_MAGIC@ =~= meta_magic());
        }
        MetadataSectionHeader {
            magic: METADATA_MAGIC,
            version: METADATA_VERSION,
            format: FORMAT_JSON,
            reserved: 0,
            size,
            crc,
        }
    }

    /// The 16-byte little-endian representation of the header.
    pub fn as_bytes(&self) -> (bytes: Vec<u8>)
        ensures
            bytes@ == metadata_header_bytes(*self),
    {
        let mut v: Vec<u8> = Vec::new();
        v.push(self.magic[0]);
        v.push(self.magic[1]);
        v.push(self.magic[2]);
        v.push(self.magic[3]);
        append_u16_le(&mut v, self.version);
        v.push(self.format);
        v.push(self.reserved);
        proof {
            assert(v@ =~= self.magic@ + le16(self.version) + seq![self.format, self.reserved]);
        }
        append_u32_le(&mut v, self.size);
        append_u32_le(&mut v, self.crc);
        v
    }

    /// Parses and checks the first 16 bytes (no alignment requirement).
    pub fn decode(bytes: &[u8]) -> (r: Result<Self, MetadataHeaderError>)
        requires
            bytes@.len() >= 16,
        ensures
            r == spec_check_metadata_header(decode_metadata_header(bytes@)),
    {
        let h = MetadataSectionHeader {
            magic: [bytes[0], bytes[1], bytes[2], bytes[3]],
            version: read_u16_le(bytes, 4),
            format: bytes[6],
            reserved: bytes[7],
            size: read_u32_le(bytes, 8),
            crc: read_u32_le(bytes, 12),
        };
        h.validate_magic()?;
        h.validate_version()?;
        h.validate_format()?;
        Ok(h)
    }

    /// Parses a header from a buffer of at least 16 bytes that is 4-byte aligned.
    pub fn from_bytes(bytes: &[u8]) -> (r: Result<Self, MetadataHeaderError>)
        ensures
            bytes@.len() < 16 ==> r == Err::<MetadataSectionHeader, MetadataHeaderError>(
                MetadataHeaderError::BufferTooShort(bytes@.len() as usize),
            ),
            bytes@.len() >= 16 ==> (r == Err::<MetadataSectionHeader, MetadataHeaderError>(
                MetadataHeaderError::UnalignedBuffer,
            ) || r == spec_check_metadata_header(decode_metadata_header(bytes@))),
    {
        if bytes.len() < 16 {
            return Err(MetadataHeaderError::BufferTooShort(bytes.len()));
        }
        if !is_aligned_4(bytes) {
            return Err(MetadataHeaderError::UnalignedBuffer);
        }
        Self::decode(bytes)
    }

    /// Checks the magic bytes.
    pub fn validate_magic(&self) -> (r: Result<(), MetadataHeaderError>)
        ensures
            self.magic@ == meta_magic() ==> r == Ok::<(), MetadataHeaderError>(()),
            self.magic@ != meta_magic() ==> r == Err::<(), MetadataHeaderError>(
                MetadataHeaderError::InvalidMagic(self.magic),
            ),
    {
        proof {
            assert(METADATA_MAGIC@ =~= meta_magic());
        }
        if !same_magic(&self.magic, &METADATA_MAGIC) {
            return Err(MetadataHeaderError::InvalidMagic(self.magic));
        }
        Ok(())
    }

    /// Checks that the version is not newer than the current one.
    pub fn validate_version(&self) -> (r: Result<(), MetadataHeaderError>)
        ensures
            self.version <= METADATA_VERSION ==> r == Ok::<(), MetadataHeaderError>(()),
            self.version > METADATA_VERSION ==> r == Err::<(), MetadataHeaderError>(
                MetadataHeaderError::UnsupportedVersion(self.version),
            ),
    {
        if self.version > METADATA_VERSION {
            return Err(MetadataHeaderError::UnsupportedVersion(self.version));
        }
        Ok(())
    }

    /// Checks that the format is Postcard or JSON.
    pub fn validate_format(&self) -> (r: Result<(), MetadataHeaderError>)
        ensures
            (self.format == FORMAT_POSTCARD || self.format == FORMAT_JSON) ==> r == Ok::<
                (),
                MetadataHeaderError,
            >(()),
            !(self.format == FORMAT_POSTCARD || self.format == FORMAT_JSON) ==> r == Err::<
                (),
                MetadataHeaderError,
            >(MetadataHeaderError::UnsupportedFormat(self.format)),
    {
        if self.format != FORMAT_POSTCARD && self.format != FORMAT_JSON {
            return Err(MetadataHeaderError::UnsupportedFormat(self.format));
        }
        Ok(())
    }

    /// Whether the metadata is Postcard-serialized.
    pub fn is_postcard(&self) -> (b: bool)
        ensures
            b == (self.format == FORMAT_POSTCARD),
    {
        self.format == FORMAT_POSTCARD
    }

    /// Whether the metadata is JSON-serialized.
    pub fn is_json(&self) -> (b: bool)
        ensures
            b == (self.format == FORMAT_JSON),
    {
        self.format == FORMAT_JSON
    }
}

/// Decoding the bytes of a metadata header gives the header back.
pub proof fn lemma_metadata_header_roundtrip(h: MetadataSectionHeader)
    ensures
        metadata_header_bytes(h).len() == 16,
        decode_metadata_header(metadata_header_bytes(h)) == h,
{
    lemma_le_roundtrip();
    let b = metadata_header_bytes(h);
    let s0 = h.magic@;
    let s1 = s0 + le16(h.version);
    let s2 = s1 + seq![h.format, h.reserved];
    let s3 = s2 + le32(h.size);
    assert(b == s3 + le32(h.crc));
    assert(u16_at(b, 4) == h.version) by {
        assert(b =~= s0 + le16(h.version) + b.subrange(6, 16));
        lemma_u16_at_concat(s0, h.version, b.subrange(6, 16));
    }
    assert(u32_at(b, 8) == h.size) by {
        assert(b =~= s2 + le32(h.size) + b.subrange(12, 16));
        lemma_u32_at_concat(s2, h.size, b.subrange(12, 16));
    }
    assert(u32_at(b, 12) == h.crc) by {
        assert(b =~= s3 + le32(h.crc) + Seq::<u8>::empty());
        lemma_u32_at_concat(s3, h.crc, Seq::<u8>::empty());
    }
    let d = decode_metadata_header(b);
    assert(d.magic@ =~= h.magic@);
    assert(d.magic == h.magic);
}

/// A header made by `new_postcard` or `new_json` passes every check when read
/// back from its bytes.
pub proof fn lemma_new_metadata_header_decodes(h: MetadataSectionHeader)
    requires
        h.magic@ == meta_magic(),
        h.version <= METADATA_VERSION,
        h.format == FORMAT_POSTCARD || h.format == FORMAT_JSON,
    ensures
        spec_check_metadata_header(decode_metadata_header(metadata_header_bytes(h))) == Ok::<
            MetadataSectionHeader,
            MetadataHeaderError,
        >(h),
{
    lemma_metadata_header_roundtrip(h);
}

/// The characters of `"[b0, b1, b2, b3]"` (the `{:?}` form of a 4-byte array).
pub open spec fn byte_array_text(m: [u8; 4]) -> Seq<char> {
    "["@ + decimal(m[0] as nat) + ", "@ + decimal(m[1] as nat) + ", "@ + decimal(m[2] as nat) + ", "@
        + decimal(m[3] as nat) + "]"@
}

/// The message of a metadata header error.
pub open spec fn metadata_header_error_text(e: MetadataHeaderError) -> Seq<char> {
    match e {
        MetadataHeaderError::InvalidMagic(m) => "invalid metadata magic: expected 'META', got "@
            + byte_array_text(m),
        MetadataHeaderError::UnsupportedVersion(v) => "unsupported metadata version: "@ + decimal(
            v as nat,
        ),
        MetadataHeaderError::UnsupportedFormat(f) => "unsupported serialization format: "@
            + decimal(f as nat),
        MetadataHeaderError::BufferTooShort(n) => "buffer too short: expected 16 bytes, got "@
            + decimal(n as nat),
        MetadataHeaderError::UnalignedBuffer => "buffer is not 4-byte aligned"@,
        MetadataHeaderError::CrcMismatch { expected, actual } => "CRC mismatch: expected "@
            + alt_lower_hex(expected as nat) + ", got "@ + alt_lower_hex(actual as nat),
    }
}

pub(crate) fn push_byte_array(s: &mut String, m: &[u8; 4])
    ensures
        final(s)@ == old(s)@ + byte_array_text(*m),
{
    s.append("[");
    push_decimal(s, m[0] as u64);
    s.append(", ");
    push_decimal(s, m[1] as u64);
    s.append(", ");
    push_decimal(s, m[2] as u64);
    s.append(", ");
    push_decimal(s, m[3] as u64);
    s.append("]");
    proof {
        assert(s@ =~= old(s)@ + byte_array_text(*m));
    }
}

impl MetadataHeaderError {
    /// The error's message.
    pub fn message(&self) -> (s: String)
        ensures
            s@ == metadata_header_error_text(*self),
    {
        let mut s = String::new();
        match self {
            MetadataHeaderError::InvalidMagic(m) => {
                s.append("invalid metadata magic: expected 'META', got ");
                push_byte_array(&mut s, m);
            },
            MetadataHeaderError::UnsupportedVersion(v) => {
                s.append("unsupported metadata version: ");
                push_decimal(&mut s, *v as u64);
            },
            MetadataHeaderError::UnsupportedFormat(f) => {
                s.append("unsupported serialization format: ");
                push_decimal(&mut s, *f as u64);
            },
            MetadataHeaderError::BufferTooShort(n) => {
                s.append("buffer too short: expected 16 bytes, got ");
                push_decimal(&mut s, *n as u64);
            },
            MetadataHeaderError::UnalignedBuffer => {
                s.append("buffer is not 4-byte aligned");
            },
            MetadataHeaderError::CrcMismatch { expected, actual } => {
                s.append("CRC mismatch: expected ");
                push_alt_lower_hex(&mut s, *expected as u64);
                s.append(", got ");
                push_alt_lower_hex(&mut s, *actual as u64);
            },
        }
        proof {
            assert(s@ =~= metadata_header_error_text(*self));
        }
        s
    }
}

} // verus!
