use edgevec::quantization::binary::{
    BinaryQuantizer, QuantizedVector, BINARY_QUANTIZATION_DIM, QUANTIZED_VECTOR_SIZE,
};

fn quantize(q: &BinaryQuantizer, v: &[f32]) -> QuantizedVector {
    let bits: Vec<u32> = v.iter().map(|x| x.to_bits()).collect();
    q.quantize_bits(&bits)
}

fn quantize_flexible(q: &BinaryQuantizer, v: &[f32]) -> QuantizedVector {
    let bits: Vec<u32> = v.iter().map(|x| x.to_bits()).collect();
    q.quantize_flexible_bits(&bits)
}

#[test]
fn test_quantize_zero_vector() {
    let quantizer = BinaryQuantizer::new();
    let zero = vec![0.0f32; BINARY_QUANTIZATION_DIM];
    let quantized = quantize(&quantizer, &zero);

    // All bits should be 0 (0.0 <= 0.0)
    assert_eq!(*quantized.data(), [0u8; QUANTIZED_VECTOR_SIZE]);
}

#[test]
fn test_quantize_positive_vector() {
    let quantizer = BinaryQuantizer::new();
    let positive = vec![1.0f32; BINARY_QUANTIZATION_DIM];
    let quantized = quantize(&quantizer, &positive);

    // All bits should be 1 (1.0 > 0.0)
    assert_eq!(*quantized.data(), [0xFFu8; QUANTIZED_VECTOR_SIZE]);
}

#[test]
fn test_quantize_negative_vector() {
    let quantizer = BinaryQuantizer::new();
    let negative = vec![-1.0f32; BINARY_QUANTIZATION_DIM];
    let quantized = quantize(&quantizer, &negative);

    // All bits should be 0 (-1.0 <= 0.0)
    assert_eq!(*quantized.data(), [0u8; QUANTIZED_VECTOR_SIZE]);
}

#[test]
fn test_quantize_mixed_vector() {
    let quantizer = BinaryQuantizer::new();
    let mut mixed = vec![-1.0f32; BINARY_QUANTIZATION_DIM];
    mixed[0] = 1.0; // First bit should be 1
    mixed[8] = 1.0; // Ninth bit should be 1 (second byte, bit 0)

    let quantized = quantize(&quantizer, &mixed);

    assert_eq!(quantized.data()[0], 0b0000_0001); // Bit 0 set
    assert_eq!(quantized.data()[1], 0b0000_0001); // Bit 8 set
                                                // Rest should be 0
    for i in 2..QUANTIZED_VECTOR_SIZE {
        assert_eq!(quantized.data()[i], 0);
    }
}

#[test]
fn test_quantize_alternating() {
    let quantizer = BinaryQuantizer::new();
    let alternating: Vec<f32> = (0..BINARY_QUANTIZATION_DIM)
        .map(|i| if i % 2 == 0 { 1.0 } else { -1.0 })
        .collect();

    let quantized = quantize(&quantizer, &alternating);

    // Even indices are positive -> bits 0, 2, 4, 6 set in each byte
    // Binary: 01010101 = 0x55
    for byte in quantized.data() {
        assert_eq!(*byte, 0x55);
    }
}

#[test]
fn test_hamming_distance_identical() {
    let quantizer = BinaryQuantizer::new();
    let vec = vec![0.5f32; BINARY_QUANTIZATION_DIM];
    let q1 = quantize(&quantizer, &vec);
    let q2 = quantize(&quantizer, &vec);

    assert_eq!(q1.hamming_distance(&q2), 0);
}

#[test]
fn test_hamming_distance_opposite() {
    let q1 = QuantizedVector::from_bytes([0x00u8; QUANTIZED_VECTOR_SIZE]);
    let q2 = QuantizedVector::from_bytes([0xFFu8; QUANTIZED_VECTOR_SIZE]);

    assert_eq!(q1.hamming_distance(&q2), BINARY_QUANTIZATION_DIM as u32);
}

#[test]
fn test_hamming_distance_symmetric() {
    let q1 = QuantizedVector::from_bytes([0xAAu8; QUANTIZED_VECTOR_SIZE]); // 10101010...
    let q2 = QuantizedVector::from_bytes([0x55u8; QUANTIZED_VECTOR_SIZE]); // 01010101...

    assert_eq!(q1.hamming_distance(&q2), q2.hamming_distance(&q1));
    // Each byte has all 8 bits different
    assert_eq!(q1.hamming_distance(&q2), BINARY_QUANTIZATION_DIM as u32);
}

#[test]
fn test_hamming_distance_partial() {
    let q1 = QuantizedVector::from_bytes([0xF0u8; QUANTIZED_VECTOR_SIZE]); // 11110000
    let q2 = QuantizedVector::from_bytes([0x0Fu8; QUANTIZED_VECTOR_SIZE]); // 00001111

    // Each byte differs in all 8 bits
    assert_eq!(q1.hamming_distance(&q2), BINARY_QUANTIZATION_DIM as u32);
}

#[test]
fn test_quantize_deterministic() {
    let quantizer = BinaryQuantizer::new();
    let vec = vec![0.123f32; BINARY_QUANTIZATION_DIM];

    let q1 = quantize(&quantizer, &vec);
    let q2 = quantize(&quantizer, &vec);

    assert_eq!(q1, q2); // Must be deterministic
}

#[test]
fn test_quantize_flexible_short() {
    let quantizer = BinaryQuantizer::new();
    let short = vec![1.0f32; 16]; // Only 16 elements

    let quantized = quantize_flexible(&quantizer, &short);

    // First 2 bytes should be 0xFF (16 bits set)
    assert_eq!(quantized.data()[0], 0xFF);
    assert_eq!(quantized.data()[1], 0xFF);
    // Rest should be 0
    for i in 2..QUANTIZED_VECTOR_SIZE {
        assert_eq!(quantized.data()[i], 0);
    }
}

#[test]
fn test_edge_case_nan() {
    let quantizer = BinaryQuantizer::new();
    let mut vec = vec![1.0f32; BINARY_QUANTIZATION_DIM];
    vec[0] = f32::NAN; // NaN is not > 0.0, so bit should be 0

    let quantized = quantize(&quantizer, &vec);

    // First bit should be 0 (NaN is not positive)
    assert_eq!(quantized.data()[0] & 1, 0);
}

#[test]
fn test_edge_case_infinity() {
    let quantizer = BinaryQuantizer::new();
    let mut vec = vec![1.0f32; BINARY_QUANTIZATION_DIM];
    vec[0] = f32::INFINITY; // +Inf > 0.0, so bit should be 1
    vec[1] = f32::NEG_INFINITY; // -Inf < 0.0, so bit should be 0

    let quantized = quantize(&quantizer, &vec);

    // Bit 0 should be 1 (positive infinity)
    assert_eq!(quantized.data()[0] & 0b01, 0b01);
    // Bit 1 should be 0 (negative infinity)
    assert_eq!(quantized.data()[0] & 0b10, 0b00);
}

#[test]
fn test_edge_case_negative_zero() {
    let quantizer = BinaryQuantizer::new();
    let mut vec = vec![1.0f32; BINARY_QUANTIZATION_DIM];
    vec[0] = -0.0f32; // -0.0 is not > 0.0, so bit should be 0

    let quantized = quantize(&quantizer, &vec);

    // First bit should be 0 (-0.0 is not positive)
    assert_eq!(quantized.data()[0] & 1, 0);
}

#[test]
fn test_hamming_bounds() {
    let q1 = QuantizedVector::default();
    let q2 = QuantizedVector::from_bytes([0xFFu8; QUANTIZED_VECTOR_SIZE]);

    let distance = q1.hamming_distance(&q2);

    // Distance must be in valid range [0, 768]
    assert!(distance <= BINARY_QUANTIZATION_DIM as u32);
}

/// Deterministic sample vectors standing in for random ones.
fn sample_vectors() -> Vec<Vec<f32>> {
    let mut state: u32 = 0x1234_5678;
    let mut out = Vec::new();
    for _ in 0..6 {
        let mut v = Vec::with_capacity(BINARY_QUANTIZATION_DIM);
        for _ in 0..BINARY_QUANTIZATION_DIM {
            state = state.wrapping_mul(1_664_525).wrapping_add(1_013_904_223);
            let x = ((state >> 8) as f32 / (1u32 << 24) as f32) * 2.0 - 1.0;
            v.push(x);
        }
        out.push(v);
    }
    out
}

#[test]
fn prop_quantize_deterministic() {
    let quantizer = BinaryQuantizer::new();
    for v in sample_vectors() {
        let q1 = quantize(&quantizer, &v);
        let q2 = quantize(&quantizer, &v);
        assert_eq!(q1, q2);
    }
}

#[test]
fn prop_self_distance_zero() {
    let quantizer = BinaryQuantizer::new();
    for v in sample_vectors() {
        let q = quantize(&quantizer, &v);
        assert_eq!(q.hamming_distance(&q), 0);
    }
}

#[test]
fn prop_hamming_symmetric() {
    let quantizer = BinaryQuantizer::new();
    let vs = sample_vectors();
    for v1 in &vs {
        for v2 in &vs {
            let q1 = quantize(&quantizer, v1);
            let q2 = quantize(&quantizer, v2);
            assert_eq!(q1.hamming_distance(&q2), q2.hamming_distance(&q1));
        }
    }
}

#[test]
fn prop_hamming_bounded() {
    let quantizer = BinaryQuantizer::new();
    let vs = sample_vectors();
    for v1 in &vs {
        for v2 in &vs {
            let q1 = quantize(&quantizer, v1);
            let q2 = quantize(&quantizer, v2);
            assert!(q1.hamming_distance(&q2) <= BINARY_QUANTIZATION_DIM as u32);
        }
    }
}

#[test]
fn prop_triangle_inequality() {
    let quantizer = BinaryQuantizer::new();
    let qs: Vec<QuantizedVector> = sample_vectors().iter().map(|v| quantize(&quantizer, v)).collect();
    for q1 in &qs {
        for q2 in &qs {
            for q3 in &qs {
                let d12 = q1.hamming_distance(q2);
                let d23 = q2.hamming_distance(q3);
                let d13 = q1.hamming_distance(q3);
                assert!(d13 <= d12 + d23, "Triangle inequality violated: {} > {} + {}", d13, d12, d23);
            }
        }
    }
}

#[test]
fn prop_output_size_constant() {
    let quantizer = BinaryQuantizer::new();
    for v in sample_vectors() {
        let q = quantize(&quantizer, &v);
        assert_eq!(q.data().len(), QUANTIZED_VECTOR_SIZE);
    }
}

#[test]
fn prop_all_positive_all_ones() {
    for scale in [0.001f32, 0.5, 1.0, 9.99] {
        let v: Vec<f32> = (0..BINARY_QUANTIZATION_DIM).map(|_| scale).collect();
        let quantizer = BinaryQuantizer::new();
        let q = quantize(&quantizer, &v);
        for byte in q.data() {
            assert_eq!(*byte, 0xFF);
        }
    }
}

#[test]
fn prop_all_negative_all_zeros() {
    for scale in [0.001f32, 0.5, 1.0, 9.99] {
        let v: Vec<f32> = (0..BINARY_QUANTIZATION_DIM).map(|_| -scale).collect();
        let quantizer = BinaryQuantizer::new();
        let q = quantize(&quantizer, &v);
        for byte in q.data() {
            assert_eq!(*byte, 0x00);
        }
    }
}

#[test]
fn test_quantize_flexible_long_truncates() {
    let quantizer = BinaryQuantizer::new();
    let long = vec![1.0f32; 1000];
    let q = quantize_flexible(&quantizer, &long);
    assert_eq!(q.data().len(), 96);
    assert_eq!(*q.data(), [0xFFu8; 96]);
}

#[test]
fn test_subnormal_is_positive() {
    let quantizer = BinaryQuantizer::new();
    let mut v = vec![-1.0f32; BINARY_QUANTIZATION_DIM];
    v[3] = f32::from_bits(1);
    let q = quantize(&quantizer, &v);
    assert_eq!(q.data()[0], 0b0000_1000);
}

#[test]
fn test_hamming_triangle_example() {
    let a = QuantizedVector::from_bytes([0x0Fu8; 96]);
    let b = QuantizedVector::from_bytes([0x3Cu8; 96]);
    let c = QuantizedVector::from_bytes([0xF0u8; 96]);
    assert!(a.hamming_distance(&c) <= a.hamming_distance(&b) + b.hamming_distance(&c));
    assert_eq!(a.hamming_distance(&b), 4 * 96);
    assert_eq!(a.hamming_distance(&a), 0);
}
