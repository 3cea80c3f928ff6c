use edgevec::hnsw::{HnswConfig, VectorId};
use edgevec::persistence::wal::{WalAppender, WalIterator};
use edgevec::storage::{QuantizerConfig, StorageError, StorageType, VectorStorage};

fn bits(v: &[f32]) -> Vec<u32> {
    v.iter().map(|x| x.to_bits()).collect()
}

fn floats(v: &[u32]) -> Vec<f32> {
    v.iter().map(|x| f32::from_bits(*x)).collect()
}

/// Inserts a full-precision vector, writing its log record to `log`.
fn insert(storage: &mut VectorStorage, v: &[f32], log: &mut Vec<u8>) -> Result<VectorId, StorageError> {
    let b = bits(v);
    if let Some(record) = storage.prepare_insert(&b)? {
        log.extend_from_slice(&record);
    }
    Ok(storage.apply_insert(&b, &[]))
}

#[test]
fn test_storage_insert_and_retrieve() {
    let config = HnswConfig::new(2);
    let mut storage = VectorStorage::new(&config, None);
    let mut log = Vec::new();
    let vec1 = vec![1.0, 2.0];
    let id1 = insert(&mut storage, &vec1, &mut log).unwrap();
    assert_eq!(id1.0, 1);
    let retrieved = floats(storage.get_vector(id1));
    assert_eq!(&retrieved[..], &[1.0, 2.0]);
    assert!(log.is_empty());
}

#[test]
fn test_dimension_mismatch() {
    let config = HnswConfig::new(2);
    let mut storage = VectorStorage::new(&config, None);
    let mut log = Vec::new();
    let vec = vec![1.0, 2.0, 3.0];
    let res = insert(&mut storage, &vec, &mut log);
    assert!(matches!(res, Err(StorageError::DimensionMismatch { expected: 2, actual: 3 })));
    assert_eq!(storage.len(), 0);
}

#[test]
fn test_quantized_storage() {
    let config = HnswConfig::new(2);
    let mut storage = VectorStorage::new(&config, None);
    let q_config = QuantizerConfig { min: 0.0f32.to_bits(), max: 10.0f32.to_bits() };
    storage.set_storage_type(StorageType::QuantizedU8(q_config));
    let vec = bits(&[0.0, 10.0]);
    assert!(storage.prepare_insert(&vec).unwrap().is_none());
    let id = storage.apply_insert(&vec, &[0, 255]);
    let q_vec = storage.get_quantized_vector(id);
    assert_eq!(q_vec, &[0, 255]);
}

#[test]
fn test_insert_quantized() {
    let config = HnswConfig::new(2);
    let mut storage = VectorStorage::new(&config, None);
    let q_config = QuantizerConfig { min: 0.0f32.to_bits(), max: 1.0f32.to_bits() };
    storage.set_storage_type(StorageType::QuantizedU8(q_config));
    let q_vec = vec![0, 255];
    assert!(storage.prepare_insert_quantized(&q_vec).unwrap().is_none());
    let id = storage.apply_insert_quantized(&q_vec);
    assert_eq!(storage.get_quantized_vector(id), &[0, 255]);
}

#[test]
fn test_insert_quantized_into_float_storage_fails() {
    let config = HnswConfig::new(2);
    let mut storage = VectorStorage::new(&config, None);
    match storage.prepare_insert_quantized(&[1, 2]) {
        Err(StorageError::Corrupted(msg)) => {
            assert_eq!(msg, "Cannot insert quantized data into Float32 storage")
        }
        _ => panic!("expected Corrupted"),
    }
}

#[test]
fn test_mark_deleted_and_is_deleted() {
    let config = HnswConfig::new(1);
    let mut storage = VectorStorage::new(&config, None);
    let mut log = Vec::new();
    let id = insert(&mut storage, &[3.0], &mut log).unwrap();
    assert!(!storage.is_deleted(id));
    assert!(storage.mark_deleted(id));
    assert!(storage.is_deleted(id));
    assert!(!storage.mark_deleted(id));
    assert!(!storage.mark_deleted(VectorId(99)));
    assert!(!storage.is_deleted(VectorId(0)));
    assert!(!storage.is_deleted(VectorId(99)));
    storage.compact();
    assert_eq!(storage.len(), 1);
}

#[test]
fn test_recover_replays_wal() {
    let config = HnswConfig::new(3);
    let mut storage = VectorStorage::new(&config, Some(WalAppender::new(0)));
    let mut log = Vec::new();
    let id1 = insert(&mut storage, &[1.0, 2.0, 3.0], &mut log).unwrap();
    let id2 = insert(&mut storage, &[4.0, 5.0, 6.0], &mut log).unwrap();
    assert_eq!((id1.0, id2.0), (1, 2));
    let recovered = VectorStorage::recover(log.clone(), &config).unwrap();
    assert_eq!(recovered.len(), 2);
    assert_eq!(floats(recovered.get_vector(VectorId(2))), vec![4.0, 5.0, 6.0]);
    assert_eq!(floats(recovered.raw_data()), vec![1.0, 2.0, 3.0, 4.0, 5.0, 6.0]);
    let mut it = WalIterator::new(log);
    let (entry, payload) = it.next().unwrap().unwrap();
    assert_eq!(entry.sequence, 0);
    assert_eq!(&payload[0..8], &1u64.to_le_bytes());
}

#[test]
fn test_recover_stops_at_truncation() {
    let config = HnswConfig::new(1);
    let mut storage = VectorStorage::new(&config, Some(WalAppender::new(0)));
    let mut log = Vec::new();
    insert(&mut storage, &[1.0], &mut log).unwrap();
    insert(&mut storage, &[2.0], &mut log).unwrap();
    log.truncate(log.len() - 3);
    let recovered = VectorStorage::recover(log, &config).unwrap();
    assert_eq!(recovered.len(), 1);
    assert_eq!(floats(recovered.raw_data()), vec![1.0]);
}

#[test]
fn test_recover_empty_and_mismatched() {
    let config = HnswConfig::new(2);
    let recovered = VectorStorage::recover(Vec::new(), &config).unwrap();
    assert!(recovered.is_empty());
    let mut storage = VectorStorage::new(&HnswConfig::new(3), Some(WalAppender::new(0)));
    let mut log = Vec::new();
    insert(&mut storage, &[1.0, 2.0, 3.0], &mut log).unwrap();
    assert!(matches!(
        VectorStorage::recover(log, &config),
        Err(StorageError::DimensionMismatch { expected: 2, actual: 3 })
    ));
}

#[test]
fn test_recover_short_payload_is_corrupt() {
    let mut appender = WalAppender::new(0);
    let log = appender.append(0, &[1, 2, 3]).unwrap();
    match VectorStorage::recover(log, &HnswConfig::new(1)) {
        Err(StorageError::Corrupted(msg)) => assert_eq!(msg, "Insert payload too short"),
        _ => panic!("expected Corrupted"),
    }
}

#[test]
fn storage_refuses_a_record_over_the_payload_limit() {
    // 8 bytes of ID plus 4 per value exceed the 16 MiB payload limit.
    let dims: u32 = 4_194_303;
    let mut storage = VectorStorage::new(&HnswConfig::new(dims), Some(WalAppender::new(0)));
    let v = vec![0u32; dims as usize];
    let result = storage.prepare_insert(&v);
    match result {
        Err(StorageError::Wal(edgevec::persistence::wal::WalError::PayloadTooLarge { size, max })) => {
            assert_eq!(size, 8 + 4 * dims as usize);
            assert_eq!(max, 16_777_216);
        }
        _ => panic!("expected PayloadTooLarge"),
    }
    assert_eq!(storage.len(), 0);
    assert_eq!(storage.wal_next_sequence(), Some(0));
}
