use edgevec::simd::popcount::{native_popcount_xor, scalar_popcount_xor, simd_popcount_xor};

#[test]
fn test_scalar_popcount_identical() {
    let a = vec![0xAA; 96];
    let b = vec![0xAA; 96];
    assert_eq!(scalar_popcount_xor(&a, &b), 0);
}

#[test]
fn test_scalar_popcount_opposite() {
    let a = vec![0x00; 96];
    let b = vec![0xFF; 96];
    assert_eq!(scalar_popcount_xor(&a, &b), 768);
}

#[test]
fn test_scalar_popcount_half() {
    let a = vec![0xF0; 96]; // 11110000
    let b = vec![0x0F; 96]; // 00001111
    assert_eq!(scalar_popcount_xor(&a, &b), 768); // All bits differ
}

#[test]
fn test_simd_matches_scalar_96_bytes() {
    let a: Vec<u8> = (0..96).map(|i| i as u8).collect();
    let b: Vec<u8> = (0..96).map(|i| (i * 2) as u8).collect();

    let simd_result = simd_popcount_xor(&a, &b);
    let scalar_result = scalar_popcount_xor(&a, &b);

    assert_eq!(simd_result, scalar_result);
}

#[test]
fn test_simd_matches_scalar_16_bytes() {
    let a = vec![0xAA; 16];
    let b = vec![0x55; 16];

    let simd_result = simd_popcount_xor(&a, &b);
    let scalar_result = scalar_popcount_xor(&a, &b);

    assert_eq!(simd_result, scalar_result);
    assert_eq!(simd_result, 128); // All bits differ
}

#[test]
fn test_simd_matches_scalar_128_bytes() {
    let a: Vec<u8> = (0..128).map(|i| (i * 3) as u8).collect();
    let b: Vec<u8> = (0..128).map(|i| (i * 7) as u8).collect();

    let simd_result = simd_popcount_xor(&a, &b);
    let scalar_result = scalar_popcount_xor(&a, &b);

    assert_eq!(simd_result, scalar_result);
}

#[test]
fn test_simd_matches_scalar_192_bytes() {
    // 1536D vectors = 192 bytes
    let a: Vec<u8> = (0..192).map(|i| (i * 5) as u8).collect();
    let b: Vec<u8> = (0..192).map(|i| (i * 11) as u8).collect();

    let simd_result = simd_popcount_xor(&a, &b);
    let scalar_result = scalar_popcount_xor(&a, &b);

    assert_eq!(simd_result, scalar_result);
}

#[test]
fn test_simd_odd_length() {
    // Test with non-power-of-2 length (7 bytes)
    let a = vec![0xFF; 7];
    let b = vec![0x00; 7];

    let simd_result = simd_popcount_xor(&a, &b);
    let scalar_result = scalar_popcount_xor(&a, &b);

    assert_eq!(simd_result, scalar_result);
    assert_eq!(simd_result, 56); // 7 * 8 = 56 bits
}

#[test]
fn test_simd_empty_slices() {
    let a: Vec<u8> = vec![];
    let b: Vec<u8> = vec![];
    assert_eq!(simd_popcount_xor(&a, &b), 0);
}

#[test]
fn test_simd_single_byte() {
    let a = vec![0b1010_1010];
    let b = vec![0b0101_0101];
    assert_eq!(simd_popcount_xor(&a, &b), 8);
}

#[test]
fn test_simd_large_vectors() {
    // Test with 4096 bytes (very large)
    let a: Vec<u8> = (0..4096).map(|i| (i % 256) as u8).collect();
    let b: Vec<u8> = (0..4096).map(|i| ((i + 128) % 256) as u8).collect();

    let simd_result = simd_popcount_xor(&a, &b);
    let scalar_result = scalar_popcount_xor(&a, &b);

    assert_eq!(simd_result, scalar_result);
}

