use edgevec::persistence::wal::{
    WalAppender, WalEntry, WalError, WalIterator, CRC_SIZE, MAX_PAYLOAD_SIZE, WAL_HEADER_SIZE,
};
use std::mem::{align_of, size_of};

#[test]
fn test_wal_constants() {
    assert_eq!(WAL_HEADER_SIZE, 16);
    assert_eq!(CRC_SIZE, 4);
}

#[test]
fn test_wal_entry_layout() {
    assert_eq!(size_of::<WalEntry>(), WAL_HEADER_SIZE);
    assert_eq!(align_of::<WalEntry>(), 8);
}

#[test]
fn test_wal_replay_integrity() {
    let mut log: Vec<u8> = Vec::new();
    let mut appender = WalAppender::new(0);
    for i in 0..100_i32 {
        let payload = (i as u32).to_le_bytes();
        let bytes = appender.append(0, &payload).expect("append failed");
        log.extend_from_slice(&bytes);
    }
    let mut iterator = WalIterator::new(log);
    let mut count = 0;
    let mut i = 0u64;
    while let Some(result) = iterator.next() {
        let (entry, payload) = result.expect("replay failed");
        assert_eq!(entry.sequence, i);
        assert_eq!(entry.entry_type, 0);
        let expected_payload = (i as u32).to_le_bytes();
        assert_eq!(payload, expected_payload);
        count += 1;
        i += 1;
    }
    assert_eq!(count, 100);
}

#[test]
fn test_wal_empty_log_ends_cleanly() {
    let mut it = WalIterator::new(Vec::new());
    assert!(it.next().is_none());
}

#[test]
fn test_wal_truncated_header() {
    let mut it = WalIterator::new(vec![1, 2, 3]);
    match it.next() {
        Some(Err(WalError::Truncated { expected, actual })) => {
            assert_eq!(expected, 16);
            assert_eq!(actual, 3);
        }
        other => panic!("unexpected: {:?}", other),
    }
    assert!(it.next().is_none());
}

#[test]
fn test_wal_truncated_payload_and_crc() {
    let mut appender = WalAppender::new(5);
    let bytes = appender.append(2, &[9, 8, 7, 6]).unwrap();
    assert_eq!(bytes.len(), 16 + 4 + 4);
    let mut it = WalIterator::new(bytes[..18].to_vec());
    assert!(matches!(
        it.next(),
        Some(Err(WalError::Truncated { expected: 4, actual: 2 }))
    ));
    let mut it = WalIterator::new(bytes[..22].to_vec());
    assert!(matches!(
        it.next(),
        Some(Err(WalError::Truncated { expected: 4, actual: 2 }))
    ));
}

#[test]
fn test_wal_checksum_mismatch() {
    let mut appender = WalAppender::new(0);
    let mut bytes = appender.append(0, &[1, 2, 3]).unwrap();
    bytes[17] ^= 0xFF;
    let mut it = WalIterator::new(bytes);
    assert!(matches!(it.next(), Some(Err(WalError::ChecksumMismatch { .. }))));
}

#[test]
fn test_wal_payload_too_large() {
    let mut appender = WalAppender::new(0);
    let big = vec![0u8; MAX_PAYLOAD_SIZE + 1];
    match appender.append(0, &big) {
        Err(WalError::PayloadTooLarge { size, max }) => {
            assert_eq!(size, MAX_PAYLOAD_SIZE + 1);
            assert_eq!(max, MAX_PAYLOAD_SIZE);
        }
        _ => panic!("expected PayloadTooLarge"),
    }
    assert_eq!(appender.peek_sequence(), 0);
    let mut header = vec![0u8; 16];
    header[12..16].copy_from_slice(&((MAX_PAYLOAD_SIZE as u32) + 1).to_le_bytes());
    let mut it = WalIterator::new(header);
    assert!(matches!(it.next(), Some(Err(WalError::PayloadTooLarge { .. }))));
}

#[test]
fn test_wal_sequence_and_sync() {
    let mut appender = WalAppender::new(41);
    assert_eq!(appender.peek_sequence(), 41);
    let bytes = appender.append(1, &[]).unwrap();
    assert_eq!(appender.peek_sequence(), 42);
    assert!(appender.sync().is_ok());
    let mut it = WalIterator::new(bytes);
    let (entry, payload) = it.next().unwrap().unwrap();
    assert_eq!(entry, WalEntry::new(41, 1, 0));
    assert!(payload.is_empty());
    assert!(it.next().is_none());
}
