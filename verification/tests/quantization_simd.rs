use edgevec::quantization::simd::{hamming_distance, hamming_distance_portable};

#[test]
fn test_simd_dispatch_identical() {
    let a = [0xAA; 96];
    let b = [0xAA; 96];
    assert_eq!(hamming_distance(&a, &b), 0);
}

#[test]
fn test_simd_dispatch_opposite() {
    let a = [0x00; 96];
    let b = [0xFF; 96];
    assert_eq!(hamming_distance(&a, &b), 768);
}

#[test]
fn test_simd_matches_portable() {
    let a = [0xAA; 96];
    let b = [0x55; 96];

    let simd_result = hamming_distance(&a, &b);
    let portable_result = hamming_distance_portable(&a, &b);

    assert_eq!(simd_result, portable_result);
    assert_eq!(simd_result, 768); // All bits differ
}
