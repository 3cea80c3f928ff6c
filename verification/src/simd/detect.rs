//! SIMD capabilities and the decisions taken from them.
//!
//! The CPU is probed at the edge of the program, which hands the result to this
//! module as a [`CpuFeatures`] value.

use vstd::prelude::*;
use vstd::string::*;

verus! {

/// The architecture the program was compiled for.
#[derive(Debug, Clone, Copy, PartialEq, Eq, Structural)]
pub enum TargetArch {
    /// 64-bit Intel/AMD.
    X86_64,
    /// 32-bit Intel/AMD.
    X86,
    /// 64-bit ARM.
    Aarch64,
    /// WebAssembly.
    Wasm32,
    /// Any other architecture.
    Other,
}

/// What the CPU reported at run time, together with the compile target.
#[derive(Debug, Clone, Copy, PartialEq, Eq, Structural)]
pub struct CpuFeatures {
    /// The compile target.
    pub arch: TargetArch,
    /// AVX2 available.
    pub avx2: bool,
    /// AVX available.
    pub avx: bool,
    /// FMA available.
    pub fma: bool,
    /// SSE4.1 available.
    pub sse41: bool,
    /// SSE4.2 available.
    pub sse42: bool,
    /// NEON available.
    pub neon: bool,
}

/// Detected SIMD capabilities.
#[derive(Debug, Clone, Copy, Default, PartialEq, Eq, Structural)]
pub struct SimdCapabilities {
    /// AVX2 instructions (x86_64).
    pub avx2: bool,
    /// FMA instructions (x86_64).
    pub fma: bool,
    /// SSE4.2 instructions (x86_64).
    pub sse42: bool,
    /// NEON instructions (ARM64).
    pub neon: bool,
}

/// True for the two Intel/AMD targets.
pub open spec fn is_x86_family(arch: TargetArch) -> bool {
    arch is X86_64 || arch is X86
}

/// The capabilities that detection yields for the given CPU.
pub open spec fn spec_detect(f: CpuFeatures) -> SimdCapabilities {
    if is_x86_family(f.arch) {
        SimdCapabilities { avx2: f.avx2, fma: f.fma, sse42: f.sse42, neon: false }
    } else if f.arch is Aarch64 {
        SimdCapabilities { avx2: false, fma: false, sse42: false, neon: f.neon }
    } else {
        SimdCapabilities { avx2: false, fma: false, sse42: false, neon: false }
    }
}

/// The list of missing x86 features named in the warning.
pub open spec fn spec_missing(caps: SimdCapabilities) -> Seq<char> {
    if !caps.avx2 && !caps.fma {
        "AVX2, FMA"@
    } else if !caps.avx2 {
        "AVX2"@
    } else {
        "FMA"@
    }
}

/// Opening text of the performance warning.
pub open spec fn spec_warning_head() -> Seq<char> {
    "EdgeVec: Suboptimal SIMD configuration detected. Missing: "@
}

/// Closing text of the performance warning.
pub open spec fn spec_warning_tail() -> Seq<char> {
    ". Expected 60-78% performance loss. Add `rustflags = [\"-C\", \"target-cpu=native\"]` to .cargo/config.toml"@
}

impl SimdCapabilities {
    /// Capabilities of the given CPU: the x86 flags on x86 targets, the NEON flag
    /// on aarch64, none elsewhere.
    pub fn detect(features: &CpuFeatures) -> (caps: Self)
        ensures
            caps == spec_detect(*features),
    {
        match features.arch {
            TargetArch::X86_64 | TargetArch::X86 => SimdCapabilities {
                avx2: features.avx2,
                fma: features.fma,
                sse42: features.sse42,
                neon: false,
            },
            TargetArch::Aarch64 => SimdCapabilities {
                avx2: false,
                fma: false,
                sse42: false,
                neon: features.neon,
            },
            _ => SimdCapabilities { avx2: false, fma: false, sse42: false, neon: false },
        }
    }

    /// Whether the capabilities are the best for the target.
    pub open spec fn spec_is_optimal(self, arch: TargetArch) -> bool {
        if is_x86_family(arch) {
            self.avx2 && self.fma
        } else if arch is Aarch64 {
            self.neon
        } else {
            true
        }
    }

    /// On x86 both AVX2 and FMA are needed; on aarch64 NEON; elsewhere nothing
    /// is expected.
    pub fn is_optimal(&self, arch: TargetArch) -> (b: bool)
        ensures
            b == self.spec_is_optimal(arch),
    {
        match arch {
            TargetArch::X86_64 | TargetArch::X86 => self.avx2 && self.fma,
            TargetArch::Aarch64 => self.neon,
            _ => true,
        }
    }

    /// A warning naming the missing x86 features, when the configuration is
    /// suboptimal on x86; `None` otherwise.
    pub fn performance_warning(&self, arch: TargetArch) -> (w: Option<String>)
        ensures
            (self.spec_is_optimal(arch) || !is_x86_family(arch)) ==> w is None,
            (!self.spec_is_optimal(arch) && is_x86_family(arch)) ==> (w matches Some(s) && s@
                == spec_warning_head() + spec_missing(*self) + spec_warning_tail()),
    {
        if self.is_optimal(arch) {
            return None;
        }
        match arch {
            TargetArch::X86_64 | TargetArch::X86 => {
                let mut msg = String::from_str(
                    "EdgeVec: Suboptimal SIMD configuration detected. Missing: ",
                );
                if !self.avx2 && !self.fma {
                    msg.append("AVX2, FMA");
                } else if !self.avx2 {
                    msg.append("AVX2");
                } else {
                    msg.append("FMA");
                }
                msg.append(
                    ". Expected 60-78% performance loss. Add `rustflags = [\"-C\", \"target-cpu=native\"]` to .cargo/config.toml",
                );
                Some(msg)
            },
            _ => None,
        }
    }
}

} // verus!
