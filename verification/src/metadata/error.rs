//! Errors of metadata operations.

use crate::hex::{decimal, push_decimal};
use vstd::prelude::*;
use vstd::string::*;

verus! {

/// Errors of metadata validation and storage.
#[derive(Debug, Clone, PartialEq)]
pub enum MetadataError {
    /// The key is empty.
    EmptyKey,
    /// The key is longer than the limit (in bytes).
    KeyTooLong {
        /// Key length in bytes.
        length: usize,
        /// The limit.
        max: usize,
    },
    /// The key holds a character other than ASCII letters, digits and `_`.
    InvalidKeyFormat {
        /// The key (NUL characters shown as `\0`).
        key: String,
    },
    /// A string value is longer than the limit (in bytes).
    StringValueTooLong {
        /// String length in bytes.
        length: usize,
        /// The limit.
        max: usize,
    },
    /// A string array has more elements than the limit.
    ArrayTooLong {
        /// Number of elements.
        length: usize,
        /// The limit.
        max: usize,
    },
    /// A float value is NaN or infinite.
    InvalidFloat {
        /// Why the value was refused.
        reason: &'static str,
    },
    /// A vector would have more keys than the limit.
    TooManyKeys {
        /// The vector.
        vector_id: u32,
        /// Its number of keys.
        count: usize,
        /// The limit.
        max: usize,
    },
    /// The vector has no metadata.
    VectorNotFound {
        /// The vector.
        vector_id: u32,
    },
    /// The vector has no value under the key.
    KeyNotFound {
        /// The vector.
        vector_id: u32,
        /// The key.
        key: String,
    },
    /// Encoding failed.
    Serialization(String),
    /// Decoding failed.
    Deserialization(String),
}


/// The message of a metadata error.
pub open spec fn metadata_error_text(e: MetadataError) -> Seq<char> {
    match e {
        MetadataError::EmptyKey => "metadata key cannot be empty"@,
        MetadataError::KeyTooLong { length, max } => "metadata key too long: "@ + decimal(
            length as nat,
        ) + " bytes (max "@ + decimal(max as nat) + ")"@,
        MetadataError::InvalidKeyFormat { key } => "invalid key format: '"@ + key@
            + "' (must be alphanumeric + underscore)"@,
        MetadataError::StringValueTooLong { length, max } => "string value too long: "@ + decimal(
            length as nat,
        ) + " bytes (max "@ + decimal(max as nat) + ")"@,
        MetadataError::ArrayTooLong { length, max } => "string array too long: "@ + decimal(
            length as nat,
        ) + " elements (max "@ + decimal(max as nat) + ")"@,
        MetadataError::InvalidFloat { reason } => "invalid float value: "@ + reason@,
        MetadataError::TooManyKeys { vector_id, count, max } => "too many keys for vector "@
            + decimal(vector_id as nat) + ": "@ + decimal(count as nat) + " (max "@ + decimal(
            max as nat,
        ) + ")"@,
        MetadataError::VectorNotFound { vector_id } => "vector "@ + decimal(vector_id as nat)
            + " not found"@,
        MetadataError::KeyNotFound { vector_id, key } => "key '"@ + key@ + "' not found for vector "@
            + decimal(vector_id as nat),
        MetadataError::Serialization(m) => "serialization error: "@ + m@,
        MetadataError::Deserialization(m) => "deserialization error: "@ + m@,
    }
}

impl MetadataError {
    /// The error's message.
    pub fn message(&self) -> (s: String)
        ensures
            s@ == metadata_error_text(*self),
    {
        let mut s = String::new();
        match self {
            MetadataError::EmptyKey => {
                s.append("metadata key cannot be empty");
            },
            MetadataError::KeyTooLong { length, max } => {
                s.append("metadata key too long: ");
                push_decimal(&mut s, *length as u64);
                s.append(" bytes (max ");
                push_decimal(&mut s, *max as u64);
                s.append(")");
            },
            MetadataError::InvalidKeyFormat { key } => {
                s.append("invalid key format: '");
                s.append(key.as_str());
                s.append("' (must be alphanumeric + underscore)");
            },
            MetadataError::StringValueTooLong { length, max } => {
                s.append("string value too long: ");
                push_decimal(&mut s, *length as u64);
                s.append(" bytes (max ");
                push_decimal(&mut s, *max as u64);
                s.append(")");
            },
            MetadataError::ArrayTooLong { length, max } => {
                s.append("string array too long: ");
                push_decimal(&mut s, *length as u64);
                s.append(" elements (max ");
                push_decimal(&mut s, *max as u64);
                s.append(")");
            },
            MetadataError::InvalidFloat { reason } => {
                s.append("invalid float value: ");
                s.append(reason);
            },
            MetadataError::TooManyKeys { vector_id, count, max } => {
                s.append("too many keys for vector ");
                push_decimal(&mut s, *vector_id as u64);
                s.append(": ");
                push_decimal(&mut s, *count as u64);
                s.append(" (max ");
                push_decimal(&mut s, *max as u64);
                s.append(")");
            },
            MetadataError::VectorNotFound { vector_id } => {
                s.append("vector ");
                push_decimal(&mut s, *vector_id as u64);
                s.append(" not found");
            },
            MetadataError::KeyNotFound { vector_id, key } => {
                s.append("key '");
                s.append(key.as_str());
                s.append("' not found for vector ");
                push_decimal(&mut s, *vector_id as u64);
            },
            MetadataError::Serialization(m) => {
                s.append("serialization error: ");
                s.append(m.as_str());
            },
            MetadataError::Deserialization(m) => {
                s.append("deserialization error: ");
                s.append(m.as_str());
            },
        }
        proof {
            assert(s@ =~= metadata_error_text(*self));
        }
        s
    }
}

} // verus!
