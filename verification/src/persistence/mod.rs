//! Persistence: file headers and the write-ahead log.

use vstd::prelude::*;

#[allow(non_snake_case)]
pub mod Flags;
pub mod chunking;
pub mod header;
pub mod snapshot;
pub mod wal;

pub use chunking::{ChunkIter, MIN_CHUNK_SIZE};

pub use header::{
    FileHeader, HeaderError, MetadataHeaderError, MetadataSectionHeader, FORMAT_JSON,
    FORMAT_POSTCARD, MAGIC, METADATA_MAGIC, METADATA_VERSION, VERSION_MAJOR, VERSION_MINOR,
    VERSION_MINOR_MIN,
};

verus! {

/// `std::io::Error`, the error type of I/O operations.
#[verifier::external_type_specification]
#[verifier::external_body]
pub struct ExIoError(std::io::Error);

/// Errors that can occur during persistence operations.
#[derive(Debug)]
pub enum PersistenceError {
    /// I/O error.
    Io(std::io::Error),
    /// Buffer too small.
    BufferTooSmall {
        /// Expected size in bytes.
        expected: usize,
        /// Actual size in bytes.
        actual: usize,
    },
    /// Invalid magic number.
    InvalidMagic {
        /// Expected magic bytes.
        expected: [u8; 4],
        /// Actual magic bytes.
        actual: [u8; 4],
    },
    /// Unsupported version.
    UnsupportedVersion(u8, u8),
    /// Checksum mismatch.
    ChecksumMismatch {
        /// Expected CRC32.
        expected: u32,
        /// Actual CRC32.
        actual: u32,
    },
    /// Header error.
    Header(HeaderError),
    /// Corrupted data.
    Corrupted(String),
    /// Unsupported operation.
    Unsupported(String),
    /// Component not initialized.
    NotInitialized,
    /// Truncated data (unexpected end of snapshot).
    TruncatedData,
    /// Serialization error.
    SerializationError(String),
    /// Deserialization error.
    DeserializationError(String),
}

} // verus!
