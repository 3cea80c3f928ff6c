use std::collections::HashSet;
use edgevec::simd::detect::{CpuFeatures, SimdCapabilities, TargetArch};
use edgevec::simd::{detect_neon, select_backend, SimdBackend};

fn x86_features(avx2: bool, avx: bool, fma: bool, sse41: bool, sse42: bool) -> CpuFeatures {
    CpuFeatures { arch: TargetArch::X86_64, avx2, avx, fma, sse41, sse42, neon: false }
}

fn typical_x86_host() -> CpuFeatures {
    x86_features(true, true, true, true, true)
}

#[test]
fn test_detect_returns_valid_capabilities() {
    let caps = SimdCapabilities::detect(&typical_x86_host());
    let _ = caps.avx2;
    let _ = caps.fma;
    let _ = caps.sse42;
    let _ = caps.neon;
    assert!(caps.avx2 && caps.fma && caps.sse42 && !caps.neon);
}

#[test]
fn test_default_all_false() {
    let caps = SimdCapabilities::default();
    assert!(!caps.avx2);
    assert!(!caps.fma);
    assert!(!caps.sse42);
    assert!(!caps.neon);
}

#[test]
fn test_is_optimal_with_full_x86_features() {
    let caps = SimdCapabilities { avx2: true, fma: true, sse42: true, neon: false };
    assert!(caps.is_optimal(TargetArch::X86_64));
}

#[test]
fn test_is_optimal_missing_avx2() {
    let caps = SimdCapabilities { avx2: false, fma: true, sse42: true, neon: false };
    assert!(!caps.is_optimal(TargetArch::X86_64));
}

#[test]
fn test_is_optimal_missing_fma() {
    let caps = SimdCapabilities { avx2: true, fma: false, sse42: true, neon: false };
    assert!(!caps.is_optimal(TargetArch::X86_64));
}

#[test]
fn test_performance_warning_none_when_optimal() {
    let caps = SimdCapabilities { avx2: true, fma: true, sse42: true, neon: false };
    assert!(caps.performance_warning(TargetArch::X86_64).is_none());
}

#[test]
fn test_performance_warning_present_when_suboptimal() {
    let caps = SimdCapabilities { avx2: false, fma: false, sse42: true, neon: false };
    let warning = caps.performance_warning(TargetArch::X86_64);
    assert!(warning.is_some());
    let msg = warning.unwrap();
    assert!(msg.contains("AVX2"));
    assert!(msg.contains("FMA"));
    assert!(msg.contains("60-78%"));
    assert!(msg.contains("target-cpu=native"));
}

#[test]
fn test_performance_warning_missing_only_avx2() {
    let caps = SimdCapabilities { avx2: false, fma: true, sse42: true, neon: false };
    let warning = caps.performance_warning(TargetArch::X86_64);
    assert!(warning.is_some());
    let msg = warning.unwrap();
    assert!(msg.contains("AVX2"));
    assert!(!msg.contains("FMA"));
}

#[test]
fn test_simd_capabilities_clone() {
    let caps = SimdCapabilities { avx2: true, fma: false, sse42: true, neon: false };
    let cloned = caps;
    assert_eq!(caps, cloned);
}

#[test]
fn test_simd_capabilities_debug() {
    let caps = SimdCapabilities::default();
    let debug_str = format!("{caps:?}");
    assert!(debug_str.contains("SimdCapabilities"));
    assert!(debug_str.contains("avx2"));
    assert!(debug_str.contains("fma"));
}

#[test]
fn test_is_optimal_on_other_arches() {
    let caps = SimdCapabilities::default();
    assert!(caps.is_optimal(TargetArch::Wasm32));
    assert!(caps.performance_warning(TargetArch::Aarch64).is_none());
}

#[test]
fn test_detect_on_aarch64_reports_neon_only() {
    let f = CpuFeatures {
        arch: TargetArch::Aarch64,
        avx2: true,
        avx: true,
        fma: true,
        sse41: true,
        sse42: true,
        neon: true,
    };
    let caps = SimdCapabilities::detect(&f);
    assert_eq!(caps, SimdCapabilities { avx2: false, fma: false, sse42: false, neon: true });
}

#[test]
fn test_detect_neon_returns_bool() {
    let _ = detect_neon(&typical_x86_host());
}

#[test]
fn test_neon_not_detected_on_x86() {
    assert!(!detect_neon(&typical_x86_host()), "NEON should not be detected on x86");
}

#[test]
fn test_select_backend_no_panic() {
    let backend = select_backend(&typical_x86_host());
    println!("Selected backend: {:?}", backend);
    assert!(matches!(
        backend,
        SimdBackend::Avx2 | SimdBackend::Avx | SimdBackend::Sse41 | SimdBackend::Neon
            | SimdBackend::Portable
    ));
}

#[test]
fn test_x86_does_not_select_neon() {
    let mut f = typical_x86_host();
    f.neon = true;
    let backend = select_backend(&f);
    assert_ne!(backend, SimdBackend::Neon, "x86 should never select NEON");
}

#[test]
fn test_select_backend_order() {
    assert_eq!(select_backend(&x86_features(true, true, true, true, true)), SimdBackend::Avx2);
    assert_eq!(select_backend(&x86_features(false, true, true, true, true)), SimdBackend::Avx);
    assert_eq!(select_backend(&x86_features(false, false, true, true, true)), SimdBackend::Sse41);
    assert_eq!(
        select_backend(&x86_features(false, false, false, false, false)),
        SimdBackend::Portable
    );
    let arm = CpuFeatures {
        arch: TargetArch::Aarch64,
        avx2: false,
        avx: false,
        fma: false,
        sse41: false,
        sse42: false,
        neon: true,
    };
    assert_eq!(select_backend(&arm), SimdBackend::Neon);
    assert!(detect_neon(&arm));
}

#[test]
fn test_simd_backend_name() {
    assert_eq!(SimdBackend::Avx2.name(), "AVX2");
    assert_eq!(SimdBackend::Avx.name(), "AVX");
    assert_eq!(SimdBackend::Sse41.name(), "SSE4.1");
    assert_eq!(SimdBackend::Neon.name(), "NEON");
    assert_eq!(SimdBackend::Portable.name(), "Portable");
}

#[test]
fn test_simd_backend_is_simd() {
    assert!(SimdBackend::Avx2.is_simd());
    assert!(SimdBackend::Avx.is_simd());
    assert!(SimdBackend::Sse41.is_simd());
    assert!(SimdBackend::Neon.is_simd());
    assert!(!SimdBackend::Portable.is_simd());
}

#[test]
fn test_simd_backend_vector_width() {
    assert_eq!(SimdBackend::Avx2.vector_width(), 256);
    assert_eq!(SimdBackend::Avx.vector_width(), 256);
    assert_eq!(SimdBackend::Sse41.vector_width(), 128);
    assert_eq!(SimdBackend::Neon.vector_width(), 128);
    assert_eq!(SimdBackend::Portable.vector_width(), 0);
}

#[test]
fn test_simd_backend_display() {
    assert_eq!(SimdBackend::Avx2.name(), "AVX2");
    assert_eq!(SimdBackend::Avx.name(), "AVX");
    assert_eq!(SimdBackend::Sse41.name(), "SSE4.1");
    assert_eq!(SimdBackend::Neon.name(), "NEON");
    assert_eq!(SimdBackend::Portable.name(), "Portable");
}

#[test]
fn test_simd_backend_clone() {
    let backend = SimdBackend::Avx2;
    let cloned = backend;
    assert_eq!(backend, cloned);
}

#[test]
fn test_simd_backend_hash() {
    let mut set = HashSet::new();
    set.insert(SimdBackend::Avx2);
    set.insert(SimdBackend::Avx);
    set.insert(SimdBackend::Sse41);
    set.insert(SimdBackend::Neon);
    set.insert(SimdBackend::Portable);
    assert_eq!(set.len(), 5);
}
