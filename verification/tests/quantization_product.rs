use edgevec::quantization::product::{check_training_set, PqCode, PqError};

fn bits(v: &[f32]) -> Vec<u32> {
    v.iter().map(|x| x.to_bits()).collect()
}

#[test]
fn test_pq_code_structure() {
    let code = PqCode::new(vec![0, 1, 2, 3, 4, 5, 6, 7]);
    assert_eq!(code.num_subquantizers(), 8);
    assert_eq!(code.codes(), &[0, 1, 2, 3, 4, 5, 6, 7]);
}

#[test]
fn test_training_set_invalid_m() {
    let vs = vec![bits(&[1.0, 2.0]); 4];
    assert_eq!(check_training_set(&vs, 0, 2), Err(PqError::InvalidM));
}

#[test]
fn test_training_set_invalid_ksub() {
    let vs = vec![bits(&[1.0, 2.0]); 4];
    assert_eq!(check_training_set(&vs, 1, 1), Err(PqError::InvalidKsub { ksub: 1 }));
    assert_eq!(check_training_set(&vs, 1, 257), Err(PqError::InvalidKsub { ksub: 257 }));
}

#[test]
fn test_training_set_insufficient_data() {
    let vs = vec![bits(&[1.0, 2.0]); 3];
    assert_eq!(
        check_training_set(&vs, 1, 4),
        Err(PqError::InsufficientTrainingData { provided: 3, required: 4 })
    );
}

#[test]
fn test_training_set_dimension_not_divisible() {
    let vs = vec![bits(&[1.0, 2.0, 3.0]); 4];
    assert_eq!(
        check_training_set(&vs, 2, 2),
        Err(PqError::DimensionNotDivisible { dimensions: 3, num_subquantizers: 2 })
    );
}

#[test]
fn test_training_set_inconsistent_dimensions() {
    let mut vs = vec![bits(&[1.0, 2.0]); 4];
    vs[2] = bits(&[1.0, 2.0, 3.0, 4.0]);
    assert_eq!(
        check_training_set(&vs, 1, 2),
        Err(PqError::InconsistentDimensions { expected: 2, actual: 4, vector_index: 2 })
    );
}

#[test]
fn test_training_set_non_finite() {
    let mut vs = vec![bits(&[1.0, 2.0]); 4];
    vs[1] = bits(&[1.0, f32::NAN]);
    vs[3] = bits(&[f32::INFINITY, 0.0]);
    assert_eq!(
        check_training_set(&vs, 2, 2),
        Err(PqError::NonFiniteValue { vector_index: 1, dimension: 1 })
    );
}

#[test]
fn test_training_set_ok() {
    let vs = vec![bits(&[1.0, -2.0, 0.5, 3.0]); 8];
    assert_eq!(check_training_set(&vs, 2, 8), Ok(()));
}
