//! Error types for sparse vector operations.

use crate::hex::{decimal, push_decimal};
use crate::persistence::header::{byte_array_text, push_byte_array};
use vstd::prelude::*;
use vstd::string::*;

verus! {

/// Errors that can occur during sparse vector operations.
#[derive(Debug, Clone, PartialEq)]
pub enum SparseError {
    /// Indices are not sorted in ascending order.
    UnsortedIndices,
    /// Duplicate index found at the specified position.
    DuplicateIndex(usize),
    /// Index exceeds the vector dimension.
    IndexOutOfBounds {
        /// The invalid index value.
        index: u32,
        /// The maximum allowed dimension.
        dim: u32,
    },
    /// Value at index is NaN or Infinity.
    InvalidValue(usize),
    /// Sparse vector must have at least one element.
    EmptyVector,
    /// Indices and values arrays have different lengths.
    LengthMismatch {
        /// Length of indices array.
        indices: usize,
        /// Length of values array.
        values: usize,
    },
    /// Sparse ID not found in storage.
    IdNotFound(u64),
    /// Cannot normalize a zero vector.
    ZeroNorm,
    /// IO error during save/load operations.
    Io(String),
    /// Invalid magic number in file header.
    InvalidMagic {
        /// Expected magic bytes.
        expected: [u8; 4],
        /// Found magic bytes.
        found: [u8; 4],
    },
    /// Unsupported format version.
    UnsupportedVersion {
        /// Expected version number.
        expected: u32,
        /// Found version number.
        found: u32,
    },
    /// Data corruption detected during load.
    CorruptedData(String),
    /// ID counter overflow (u64::MAX reached).
    IdOverflow,
}


/// The message of a sparse-vector error.
pub open spec fn sparse_error_text(e: SparseError) -> Seq<char> {
    match e {
        SparseError::UnsortedIndices => "indices must be sorted in ascending order"@,
        SparseError::DuplicateIndex(p) => "duplicate index at position "@ + decimal(p as nat),
        SparseError::IndexOutOfBounds { index, dim } => "index "@ + decimal(index as nat)
            + " exceeds dimension "@ + decimal(dim as nat),
        SparseError::InvalidValue(p) => "value at index "@ + decimal(p as nat) + " is NaN or Infinity"@,
        SparseError::EmptyVector => "sparse vector must have at least one element"@,
        SparseError::LengthMismatch { indices, values } => "indices and values length mismatch: "@
            + decimal(indices as nat) + " vs "@ + decimal(values as nat),
        SparseError::IdNotFound(id) => "sparse ID "@ + decimal(id as nat) + " not found"@,
        SparseError::ZeroNorm => "cannot normalize zero vector"@,
        SparseError::Io(m) => "IO error: "@ + m@,
        SparseError::InvalidMagic { expected, found } => "invalid magic number: expected "@
            + byte_array_text(expected) + ", found "@ + byte_array_text(found),
        SparseError::UnsupportedVersion { expected, found } => "unsupported format version: expected "@
            + decimal(expected as nat) + ", found "@ + decimal(found as nat),
        SparseError::CorruptedData(m) => "corrupted data: "@ + m@,
        SparseError::IdOverflow => "ID counter overflow: cannot assign more IDs (u64::MAX reached)"@,
    }
}

impl SparseError {
    /// The error's message.
    pub fn message(&self) -> (s: String)
        ensures
            s@ == sparse_error_text(*self),
    {
        let mut s = String::new();
        match self {
            SparseError::UnsortedIndices => {
                s.append("indices must be sorted in ascending order");
            },
            SparseError::DuplicateIndex(p) => {
                s.append("duplicate index at position ");
                push_decimal(&mut s, *p as u64);
            },
            SparseError::IndexOutOfBounds { index, dim } => {
                s.append("index ");
                push_decimal(&mut s, *index as u64);
                s.append(" exceeds dimension ");
                push_decimal(&mut s, *dim as u64);
            },
            SparseError::InvalidValue(p) => {
                s.append("value at index ");
                push_decimal(&mut s, *p as u64);
                s.append(" is NaN or Infinity");
            },
            SparseError::EmptyVector => {
                s.append("sparse vector must have at least one element");
            },
            SparseError::LengthMismatch { indices, values } => {
                s.append("indices and values length mismatch: ");
                push_decimal(&mut s, *indices as u64);
                s.append(" vs ");
                push_decimal(&mut s, *values as u64);
            },
            SparseError::IdNotFound(id) => {
                s.append("sparse ID ");
                push_decimal(&mut s, *id);
                s.append(" not found");
            },
            SparseError::ZeroNorm => {
                s.append("cannot normalize zero vector");
            },
            SparseError::Io(m) => {
                s.append("IO error: ");
                s.append(m.as_str());
            },
            SparseError::InvalidMagic { expected, found } => {
                s.append("invalid magic number: expected ");
                push_byte_array(&mut s, expected);
                s.append(", found ");
                push_byte_array(&mut s, found);
            },
            SparseError::UnsupportedVersion { expected, found } => {
                s.append("unsupported format version: expected ");
                push_decimal(&mut s, *expected as u64);
                s.append(", found ");
                push_decimal(&mut s, *found as u64);
            },
            SparseError::CorruptedData(m) => {
                s.append("corrupted data: ");
                s.append(m.as_str());
            },
            SparseError::IdOverflow => {
                s.append("ID counter overflow: cannot assign more IDs (u64::MAX reached)");
            },
        }
        proof {
            assert(s@ =~= sparse_error_text(*self));
        }
        s
    }
}

} // verus!
