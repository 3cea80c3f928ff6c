use edgevec::quantization::simd::portable::hamming_distance_portable;

#[test]
fn test_portable_identical() {
    let a = [0xAA; 96];
    let b = [0xAA; 96];
    assert_eq!(hamming_distance_portable(&a, &b), 0);
}

#[test]
fn test_portable_opposite() {
    let a = [0x00; 96];
    let b = [0xFF; 96];
    assert_eq!(hamming_distance_portable(&a, &b), 768);
}

#[test]
fn test_portable_alternating() {
    let a = [0xAA; 96]; // 10101010...
    let b = [0x55; 96]; // 01010101...
    assert_eq!(hamming_distance_portable(&a, &b), 768);
}

#[test]
fn test_portable_half_bits() {
    let a = [0xF0; 96]; // 11110000...
    let b = [0x0F; 96]; // 00001111...
    assert_eq!(hamming_distance_portable(&a, &b), 768);
}

#[test]
fn test_portable_single_bit() {
    let mut a = [0x00; 96];
    let b = [0x00; 96];
    a[0] = 0x01; // Only bit 0 differs

    assert_eq!(hamming_distance_portable(&a, &b), 1);
}

#[test]
fn test_portable_bounds() {
    let a = [0xFF; 96];
    let b = [0x00; 96];
    let distance = hamming_distance_portable(&a, &b);

    assert!(distance <= 768);
    assert_eq!(distance, 768);
}
