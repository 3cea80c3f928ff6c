//! Sparse vectors and their storage.

pub mod error;
pub mod storage;
pub mod vector;

pub use error::SparseError;
pub use vector::SparseVector;
pub use storage::{SparseId, SparseStorage};
