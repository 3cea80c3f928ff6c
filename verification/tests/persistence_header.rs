use edgevec::persistence::header::{
    FileHeader, HeaderError, MetadataHeaderError, MetadataSectionHeader, FORMAT_JSON,
    FORMAT_POSTCARD, MAGIC,
};
use edgevec::persistence::Flags;
use std::mem::{align_of, size_of};

#[test]
fn test_header_layout() {
    assert_eq!(size_of::<FileHeader>(), 64);
    assert_eq!(core::mem::align_of::<FileHeader>(), 8);
}

#[test]
fn test_new_header_validity() {
    let header = FileHeader::new(128);
    assert_eq!(header.magic, MAGIC);
    assert_eq!(header.dimensions, 128);
    assert_ne!(header.header_crc, 0);
    let bytes = header.as_bytes();
    let decoded = FileHeader::from_bytes(&bytes).unwrap();
    assert_eq!(decoded.dimensions, 128);
}

#[test]
fn test_invalid_magic() {
    let mut header = FileHeader::new(128);
    header.magic = [0x00, 0x00, 0x00, 0x00];
    header.update_checksum();
    let bytes = header.as_bytes();
    let result = FileHeader::from_bytes(&bytes);
    assert!(matches!(result, Err(HeaderError::InvalidMagic(_))));
}

#[test]
fn test_checksum_mismatch() {
    let mut header = FileHeader::new(128);
    header.dimensions = 256;
    let bytes = header.as_bytes();
    let result = FileHeader::from_bytes(&bytes);
    assert!(matches!(result, Err(HeaderError::ChecksumMismatch { .. })));
}

#[test]
fn test_unaligned_buffer_rejected() {
    let header = FileHeader::new(64);
    let mut buf: Vec<u8> = Vec::with_capacity(65);
    buf.push(0);
    buf.extend_from_slice(&header.as_bytes());
    let slice = &buf[1..65];
    let result = FileHeader::from_bytes(slice);
    assert!(matches!(result, Err(HeaderError::UnalignedBuffer)));
}

#[test]
fn test_decode_ignores_alignment() {
    let header = FileHeader::new(64);
    let mut buf: Vec<u8> = Vec::with_capacity(65);
    buf.push(0);
    buf.extend_from_slice(&header.as_bytes());
    let decoded = FileHeader::decode(&buf[1..65]).unwrap();
    assert_eq!(decoded, header);
}

#[test]
fn test_header_too_short() {
    let result = FileHeader::from_bytes(&[0u8; 10]);
    assert!(matches!(result, Err(HeaderError::BufferTooShort(10))));
}

#[test]
fn test_header_version_checks() {
    let mut header = FileHeader::new(8);
    assert!(!header.needs_migration());
    assert!(header.supports_soft_delete());
    header.version_minor = 2;
    assert!(header.needs_migration());
    assert!(!header.supports_soft_delete());
    header.version_major = 1;
    header.update_checksum();
    let result = FileHeader::decode(&header.as_bytes());
    assert!(matches!(result, Err(HeaderError::UnsupportedVersion(1, 2))));
}

#[test]
fn test_metadata_header_layout() {
    assert_eq!(size_of::<MetadataSectionHeader>(), 16);
    assert_eq!(align_of::<MetadataSectionHeader>(), 4);
}

#[test]
fn test_metadata_header_new_postcard() {
    let header = MetadataSectionHeader::new_postcard(1024, 0xDEADBEEF);
    assert_eq!(header.magic, *b"META");
    assert_eq!(header.version, 1);
    assert_eq!(header.format, FORMAT_POSTCARD);
    assert_eq!(header.reserved, 0);
    assert_eq!(header.size, 1024);
    assert_eq!(header.crc, 0xDEADBEEF);
    assert!(header.is_postcard());
    assert!(!header.is_json());
}

#[test]
fn test_metadata_header_new_json() {
    let header = MetadataSectionHeader::new_json(2048, 0xCAFEBABE);
    assert_eq!(header.magic, *b"META");
    assert_eq!(header.version, 1);
    assert_eq!(header.format, FORMAT_JSON);
    assert_eq!(header.reserved, 0);
    assert_eq!(header.size, 2048);
    assert_eq!(header.crc, 0xCAFEBABE);
    assert!(!header.is_postcard());
    assert!(header.is_json());
}

#[test]
fn test_metadata_header_roundtrip() {
    let header = MetadataSectionHeader::new_postcard(512, 0x12345678);
    let bytes = header.as_bytes();
    assert_eq!(bytes.len(), 16);
    let decoded = MetadataSectionHeader::from_bytes(&bytes).unwrap();
    assert_eq!(decoded.magic, header.magic);
    assert_eq!(decoded.version, header.version);
    assert_eq!(decoded.format, header.format);
    assert_eq!(decoded.size, header.size);
    assert_eq!(decoded.crc, header.crc);
}

#[test]
fn test_metadata_header_invalid_magic() {
    let mut header = MetadataSectionHeader::new_postcard(0, 0);
    header.magic = [0x00, 0x00, 0x00, 0x00];
    let bytes = header.as_bytes();
    let result = MetadataSectionHeader::from_bytes(&bytes);
    assert!(matches!(result, Err(MetadataHeaderError::InvalidMagic(_))));
}

#[test]
fn test_metadata_header_unsupported_version() {
    let mut header = MetadataSectionHeader::new_postcard(0, 0);
    header.version = 99;
    let bytes = header.as_bytes();
    let result = MetadataSectionHeader::from_bytes(&bytes);
    assert!(matches!(result, Err(MetadataHeaderError::UnsupportedVersion(99))));
}

#[test]
fn test_metadata_header_unsupported_format() {
    let mut header = MetadataSectionHeader::new_postcard(0, 0);
    header.format = 99;
    let bytes = header.as_bytes();
    let result = MetadataSectionHeader::from_bytes(&bytes);
    assert!(matches!(result, Err(MetadataHeaderError::UnsupportedFormat(99))));
}

#[test]
fn test_metadata_header_buffer_too_short() {
    let bytes = [0u8; 8];
    let result = MetadataSectionHeader::from_bytes(&bytes);
    assert!(matches!(result, Err(MetadataHeaderError::BufferTooShort(8))));
}

#[test]
fn test_metadata_header_validators() {
    let header = MetadataSectionHeader::new_json(0, 0);
    assert!(header.validate_magic().is_ok());
    assert!(header.validate_version().is_ok());
    assert!(header.validate_format().is_ok());
}

#[test]
fn test_metadata_header_error_messages() {
    assert_eq!(
        MetadataHeaderError::InvalidMagic([1, 2, 3, 4]).message(),
        "invalid metadata magic: expected 'META', got [1, 2, 3, 4]"
    );
    assert_eq!(MetadataHeaderError::UnsupportedVersion(7).message(), "unsupported metadata version: 7");
    assert_eq!(
        MetadataHeaderError::CrcMismatch { expected: 0xab, actual: 0 }.message(),
        "CRC mismatch: expected 0xab, got 0x0"
    );
    assert_eq!(
        MetadataHeaderError::BufferTooShort(3).message(),
        "buffer too short: expected 16 bytes, got 3"
    );
}

#[test]
fn test_flags_constants() {
    assert_eq!(Flags::COMPRESSED, 0b0001);
    assert_eq!(Flags::QUANTIZED, 0b0010);
    assert_eq!(Flags::HAS_METADATA, 0b0100);
    let combined = Flags::COMPRESSED | Flags::HAS_METADATA;
    assert_eq!(combined, 0b0101);
}

#[test]
fn new_header_bytes_decode_to_the_header() {
    let header = FileHeader::new(128);
    let bytes = header.as_bytes();
    assert_eq!(bytes.len(), 64);
    assert_eq!(FileHeader::decode(&bytes).unwrap(), header);
}
