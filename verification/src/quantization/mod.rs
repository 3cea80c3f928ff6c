//! Quantization support: binary (sign) quantization, product-quantization codes
//! and Hamming distance kernels.

pub mod binary;
pub mod product;
pub mod simd;

pub use binary::{BinaryQuantizer, QuantizedVector, BINARY_QUANTIZATION_DIM, QUANTIZED_VECTOR_SIZE};
pub use product::{PqCode, PqError};
