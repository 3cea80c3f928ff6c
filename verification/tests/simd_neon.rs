use edgevec::simd::neon::{hamming_distance, hamming_distance_portable_ref, hamming_distance_slice};

#[test]
fn test_hamming_identical() {
    let a = [0xAA; 96];
    let b = [0xAA; 96];
    assert_eq!(hamming_distance(&a, &b), 0);
}

#[test]
fn test_hamming_opposite() {
    let a = [0x00; 96];
    let b = [0xFF; 96];
    assert_eq!(hamming_distance(&a, &b), 768);
}

#[test]
fn test_hamming_alternating() {
    let a = [0xAA; 96]; // 10101010...
    let b = [0x55; 96]; // 01010101...
    assert_eq!(hamming_distance(&a, &b), 768);
}

#[test]
fn test_hamming_single_bit() {
    let mut a = [0x00; 96];
    let b = [0x00; 96];
    a[0] = 0x01;
    assert_eq!(hamming_distance(&a, &b), 1);
}

#[test]
fn test_slice_empty() {
    let a: Vec<u8> = vec![];
    let b: Vec<u8> = vec![];
    assert_eq!(hamming_distance_slice(&a, &b), 0);
}

#[test]
fn test_slice_single_byte() {
    let a = vec![0xFF];
    let b = vec![0x00];
    assert_eq!(hamming_distance_slice(&a, &b), 8);
}

#[test]
fn test_slice_15_bytes_tail_only() {
    // 15 bytes = 0 NEON chunks + 15 tail bytes
    let a = vec![0xFF; 15];
    let b = vec![0x00; 15];
    assert_eq!(hamming_distance_slice(&a, &b), 120); // 15 * 8
}

#[test]
fn test_slice_16_bytes_exact_chunk() {
    // 16 bytes = 1 NEON chunk + 0 tail bytes
    let a = vec![0xFF; 16];
    let b = vec![0x00; 16];
    assert_eq!(hamming_distance_slice(&a, &b), 128); // 16 * 8
}

#[test]
fn test_slice_17_bytes_with_tail() {
    // 17 bytes = 1 NEON chunk + 1 tail byte
    let a = vec![0xFF; 17];
    let b = vec![0x00; 17];
    assert_eq!(hamming_distance_slice(&a, &b), 136); // 17 * 8
}

#[test]
fn test_slice_32_bytes_two_chunks() {
    // 32 bytes = 2 NEON chunks + 0 tail bytes
    let a = vec![0xFF; 32];
    let b = vec![0x00; 32];
    assert_eq!(hamming_distance_slice(&a, &b), 256); // 32 * 8
}

#[test]
fn test_slice_100_bytes() {
    // 100 bytes = 6 NEON chunks + 4 tail bytes
    let a = vec![0xAA; 100];
    let b = vec![0x55; 100];
    assert_eq!(hamming_distance_slice(&a, &b), 800); // 100 * 8
}

#[test]
fn test_slice_identical() {
    let a = vec![42u8; 1000];
    let b = a.clone();
    assert_eq!(hamming_distance_slice(&a, &b), 0);
}

#[test]
fn test_slice_matches_portable() {
    // Verify NEON matches portable for various sizes
    for size in [0, 1, 15, 16, 17, 31, 32, 33, 64, 96, 100, 128, 1000] {
        let a: Vec<u8> = (0..size).map(|i| i as u8).collect();
        let b: Vec<u8> = (0..size).map(|i| (i + 1) as u8).collect();

        let neon_result = hamming_distance_slice(&a, &b);
        let portable_result = hamming_distance_portable_ref(&a, &b);

        assert_eq!(
            neon_result, portable_result,
            "NEON != Portable for size={}: {} != {}",
            size, neon_result, portable_result
        );
    }
}

#[test]
fn test_slice_matches_fixed_96() {
    // Verify slice and fixed-size functions produce same result
    let a = [0xAA; 96];
    let b = [0x55; 96];
    assert_eq!(hamming_distance(&a, &b), hamming_distance_slice(&a, &b));
}

