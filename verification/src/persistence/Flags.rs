//! File format flags.

use vstd::prelude::*;

verus! {

/// Data is compressed.
pub const COMPRESSED: u16 = 1;

/// Vectors are quantized.
pub const QUANTIZED: u16 = 2;

/// A metadata store is present (v0.4+).
pub const HAS_METADATA: u16 = 4;

} // verus!
