//! SIMD capability handling and backend selection.
//!
//! What the CPU offers is read at the edge of the program (see
//! [`detect::CpuFeatures`]); the decisions taken from it are made here.

use vstd::prelude::*;

pub mod detect;
pub mod neon;
pub mod popcount;

pub use detect::{CpuFeatures, SimdCapabilities, TargetArch};

verus! {

/// The SIMD backend in use.
#[derive(Debug, Clone, Copy, PartialEq, Eq, Structural, Hash)]
pub enum SimdBackend {
    /// AVX2 (256-bit).
    Avx2,
    /// AVX (256-bit).
    Avx,
    /// SSE4.1 (128-bit).
    Sse41,
    /// ARM NEON (128-bit).
    Neon,
    /// Portable scalar code.
    Portable,
}

impl SimdBackend {
    /// Display name of the backend.
    pub open spec fn spec_name(self) -> Seq<char> {
        match self {
            SimdBackend::Avx2 => "AVX2"@,
            SimdBackend::Avx => "AVX"@,
            SimdBackend::Sse41 => "SSE4.1"@,
            SimdBackend::Neon => "NEON"@,
            SimdBackend::Portable => "Portable"@,
        }
    }

    /// Returns the display name of the backend.
    pub fn name(&self) -> (s: &'static str)
        ensures
            s@ == self.spec_name(),
    {
        match self {
            SimdBackend::Avx2 => "AVX2",
            SimdBackend::Avx => "AVX",
            SimdBackend::Sse41 => "SSE4.1",
            SimdBackend::Neon => "NEON",
            SimdBackend::Portable => "Portable",
        }
    }

    /// Returns true for every backend except the portable one.
    pub fn is_simd(&self) -> (b: bool)
        ensures
            b == !(*self is Portable),
    {
        !matches!(self, SimdBackend::Portable)
    }

    /// Register width of the backend in bits (0 for portable).
    pub fn vector_width(&self) -> (w: usize)
        ensures
            w == (match *self {
                SimdBackend::Avx2 | SimdBackend::Avx => 256usize,
                SimdBackend::Sse41 | SimdBackend::Neon => 128usize,
                SimdBackend::Portable => 0usize,
            }),
    {
        match self {
            SimdBackend::Avx2 | SimdBackend::Avx => 256,
            SimdBackend::Sse41 | SimdBackend::Neon => 128,
            SimdBackend::Portable => 0,
        }
    }
}

/// Whether NEON is available: only on aarch64, and only if the CPU reports it.
pub fn detect_neon(features: &CpuFeatures) -> (b: bool)
    ensures
        b == (features.arch is Aarch64 && features.neon),
{
    matches!(features.arch, TargetArch::Aarch64) && features.neon
}

/// The backend chosen for the given CPU: on x86_64 AVX2, then AVX, then SSE4.1;
/// on aarch64 NEON; otherwise the portable one.
pub open spec fn spec_select_backend(f: CpuFeatures) -> SimdBackend {
    if f.arch is X86_64 && f.avx2 {
        SimdBackend::Avx2
    } else if f.arch is X86_64 && f.avx {
        SimdBackend::Avx
    } else if f.arch is X86_64 && f.sse41 {
        SimdBackend::Sse41
    } else if f.arch is Aarch64 && f.neon {
        SimdBackend::Neon
    } else {
        SimdBackend::Portable
    }
}

/// Selects the best SIMD backend for the given CPU.
pub fn select_backend(features: &CpuFeatures) -> (b: SimdBackend)
    ensures
        b == spec_select_backend(*features),
{
    if matches!(features.arch, TargetArch::X86_64) {
        if features.avx2 {
            return SimdBackend::Avx2;
        }
        if features.avx {
            return SimdBackend::Avx;
        }
        if features.sse41 {
            return SimdBackend::Sse41;
        }
    }
    if detect_neon(features) {
        return SimdBackend::Neon;
    }
    SimdBackend::Portable
}

} // verus!
