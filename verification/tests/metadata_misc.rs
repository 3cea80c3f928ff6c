use edgevec::metadata::serialize::SerializationError;
use edgevec::metadata::validation::{validate_key, validate_value};
use edgevec::metadata::{MetadataError, MetadataStore, MetadataValue};
use edgevec::version;

/// The Postcard encoding of a store's entry list, written out by hand:
/// the entry count, then per entry the vector ID, the key and the value
/// (variant index then payload), every integer as a varint.
fn postcard_of_string_entries(entries: &[(u32, &str, &str)]) -> Vec<u8> {
    fn varint(out: &mut Vec<u8>, mut x: u64) {
        loop {
            let byte = (x & 0x7F) as u8;
            x >>= 7;
            if x == 0 {
                out.push(byte);
                break;
            }
            out.push(byte | 0x80);
        }
    }
    let mut out = Vec::new();
    varint(&mut out, entries.len() as u64);
    for (id, key, value) in entries {
        varint(&mut out, *id as u64);
        varint(&mut out, key.len() as u64);
        out.extend_from_slice(key.as_bytes());
        varint(&mut out, 0);
        varint(&mut out, value.len() as u64);
        out.extend_from_slice(value.as_bytes());
    }
    out
}

#[test]
fn test_version_not_empty() {
    assert!(!version().is_empty());
}

#[test]
fn test_validation_integration() {
    // Valid key
    assert!(validate_key("my_field").is_ok());

    // Valid values
    assert!(validate_value(&MetadataValue::String("test".into())).is_ok());
    assert!(validate_value(&MetadataValue::Integer(123)).is_ok());
    assert!(validate_value(&MetadataValue::Float(1.5f64.to_bits())).is_ok());
    assert!(validate_value(&MetadataValue::Boolean(false)).is_ok());
    assert!(validate_value(&MetadataValue::StringArray(vec![])).is_ok());

    // Invalid float
    assert!(validate_value(&MetadataValue::Float(f64::NAN.to_bits())).is_err());
}

#[test]
fn test_store_creation() {
    let store = MetadataStore::new();
    assert!(store.is_empty());
}

#[test]
fn test_error_debug() {
    let error = MetadataError::EmptyKey;
    let debug_str = format!("{:?}", error);
    assert!(debug_str.contains("EmptyKey"));
}

#[test]
fn test_from_str() {
    let value: MetadataValue = "test".into();
    assert_eq!(value, MetadataValue::String("test".into()));
}

#[test]
fn test_crc_calculates_correctly() {
    let bytes = postcard_of_string_entries(&[]);
    let crc = MetadataStore::calculate_crc(&bytes);

    // Empty store still serializes to some bytes
    assert!(!bytes.is_empty());

    // Same input should produce same CRC (deterministic)
    let crc2 = MetadataStore::calculate_crc(&bytes);
    assert_eq!(crc, crc2);
}

#[test]
fn test_crc_validates_correctly() {
    let bytes = postcard_of_string_entries(&[]);
    let crc = MetadataStore::calculate_crc(&bytes);

    // Valid CRC should pass
    assert!(MetadataStore::verify_crc(&bytes, crc).is_ok());
}

#[test]
fn test_crc_rejects_mismatch() {
    let bytes = postcard_of_string_entries(&[]);
    let crc = MetadataStore::calculate_crc(&bytes);

    // Invalid CRC should fail
    let result = MetadataStore::verify_crc(&bytes, crc + 1);
    assert!(result.is_err());
    match result {
        Err(SerializationError::CrcMismatch { expected, actual }) => {
            assert_eq!(expected, crc + 1);
            assert_eq!(actual, crc);
        }
        _ => panic!("Expected CrcMismatch error"),
    }
}

#[test]
fn test_crc_detects_corruption() {
    let mut bytes = postcard_of_string_entries(&[(0, "key", "value")]);
    let original_crc = MetadataStore::calculate_crc(&bytes);

    // Corrupt a byte
    if !bytes.is_empty() {
        bytes[0] ^= 0xFF;
    }

    // CRC should now be different
    let corrupted_crc = MetadataStore::calculate_crc(&bytes);
    assert_ne!(original_crc, corrupted_crc);

    // Verification should fail
    assert!(MetadataStore::verify_crc(&bytes, original_crc).is_err());
}

#[test]
fn crc_matches_crc32_of_the_bytes() {
    let bytes = postcard_of_string_entries(&[(7, "k", "v")]);
    assert_eq!(MetadataStore::calculate_crc(&bytes), crc32fast::hash(&bytes));
    assert_eq!(MetadataStore::calculate_crc(b"123456789"), 0xCBF4_3926);
}
