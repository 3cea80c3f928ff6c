//! Metadata attached to vectors: typed values under string keys, with
//! validation rules and a store.

pub mod entries;
pub mod error;
pub mod roundtrip;
pub mod serialize;
pub mod store;
pub mod types;
pub mod validation;

pub use error::MetadataError;
pub use types::MetadataValue;
pub use store::MetadataStore;
