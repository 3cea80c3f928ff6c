use edgevec::persistence::chunking::{ChunkIter, MIN_CHUNK_SIZE};
use edgevec::persistence::header::FileHeader;
use edgevec::persistence::header::HeaderError;
use edgevec::persistence::snapshot::{
    metadata_section, parse_snapshot, read_snapshot, MetadataPayload, SnapshotParts,
};
use edgevec::persistence::PersistenceError;

/// The parts of a database of `count` vectors of dimension `dim`, without
/// graph nodes (as with a freshly created index).
fn parts(dim: u32, vectors: &[Vec<f32>]) -> SnapshotParts {
    let data: Vec<u32> = vectors.iter().flatten().map(|x| x.to_bits()).collect();
    SnapshotParts {
        dimensions: dim,
        vectors: data,
        nodes: Vec::new(),
        neighbors: Vec::new(),
        deleted: vec![false; vectors.len()],
        deleted_count: 0,
        hnsw_m: 12,
        hnsw_m0: 24,
        metadata_section: Vec::new(),
    }
}

fn collect(mut it: ChunkIter) -> Vec<Vec<u8>> {
    let mut out = Vec::new();
    while let Some(c) = it.next() {
        out.push(c);
    }
    out
}

#[test]
fn test_chunked_export_empty() {
    let mut iter = parts(128, &[]).export_chunked(1024);
    let chunk1 = iter.next();
    assert!(chunk1.is_some());
    let data = chunk1.unwrap();
    assert!(data.len() >= 64);
    let header = FileHeader::from_bytes(&data[0..64]).unwrap();
    assert_eq!(header.vector_count, 0);
}

#[test]
fn test_chunked_export_data() {
    let vectors: Vec<Vec<f32>> = (0..10).map(|i| vec![i as f32; 4]).collect();
    let chunk_size = 70;
    let iter = parts(4, &vectors).export_chunked(chunk_size);
    let mut total_bytes = 0;
    for chunk in collect(iter) {
        assert!(chunk.len() <= chunk_size);
        total_bytes += chunk.len();
    }
    let expected = 64 + 160 + 2;
    assert_eq!(total_bytes, expected);
}

#[test]
fn test_chunk_size_zero_edge_case() {
    let iter = parts(4, &[vec![1.0, 2.0, 3.0, 4.0]]).export_chunked(0);
    let chunks = collect(iter);
    assert!(!chunks.is_empty(), "Should produce at least one chunk");
    for chunk in &chunks {
        assert!(chunk.len() <= MIN_CHUNK_SIZE);
    }
    let header = FileHeader::from_bytes(&chunks[0][0..64]).unwrap();
    assert_eq!(header.vector_count, 1);
}

#[test]
fn test_chunk_size_one_edge_case() {
    let chunks = collect(parts(4, &[]).export_chunked(1));
    assert!(!chunks.is_empty());
    assert_eq!(chunks[0].len(), MIN_CHUNK_SIZE);
}

#[test]
fn test_chunk_size_just_below_minimum() {
    let chunks = collect(parts(4, &[]).export_chunked(63));
    assert!(!chunks.is_empty());
    assert_eq!(chunks[0].len(), MIN_CHUNK_SIZE);
}

#[test]
fn test_chunk_size_exactly_minimum() {
    let vectors: Vec<Vec<f32>> = (0..5).map(|i| vec![i as f32; 4]).collect();
    let chunks = collect(parts(4, &vectors).export_chunked(MIN_CHUNK_SIZE));
    let mut total_bytes = 0;
    for chunk in &chunks {
        assert!(chunk.len() <= MIN_CHUNK_SIZE);
        total_bytes += chunk.len();
    }
    assert!(chunks.len() > 1, "Expected multiple chunks, got {}", chunks.len());
    let expected = 64 + 80 + 1;
    assert_eq!(total_bytes, expected);
}

#[test]
fn test_chunk_size_edge_case_data_integrity() {
    let test_vectors = vec![
        vec![1.0_f32, 2.0, 3.0, 4.0],
        vec![5.0, 6.0, 7.0, 8.0],
        vec![9.0, 10.0, 11.0, 12.0],
    ];
    let mut combined = Vec::new();
    for chunk in collect(parts(4, &test_vectors).export_chunked(0)) {
        combined.extend_from_slice(&chunk);
    }
    let header = FileHeader::from_bytes(&combined[0..64]).unwrap();
    assert_eq!(header.vector_count, 3);
    assert_eq!(header.dimensions, 4);
    let vector_bytes = &combined[64..64 + 48];
    let vectors: Vec<f32> = vector_bytes
        .chunks_exact(4)
        .map(|c| f32::from_le_bytes(c.try_into().unwrap()))
        .collect();
    assert_eq!(vectors[0..4], test_vectors[0][..]);
    assert_eq!(vectors[4..8], test_vectors[1][..]);
    assert_eq!(vectors[8..12], test_vectors[2][..]);
}

#[test]
fn test_chunks_never_split_values_or_nodes() {
    let mut p = parts(3, &[vec![1.0, 2.0, 3.0], vec![4.0, 5.0, 6.0]]);
    p.nodes = vec![7u8; 32];
    p.neighbors = vec![1, 2, 3];
    p.deleted = vec![true, false];
    let chunks = collect(p.export_chunked(66));
    assert_eq!(chunks.len(), 2);
    assert_eq!(chunks[0].len(), 64);
    assert_eq!(chunks[1].len(), 60);
    let total: usize = chunks.iter().map(|c| c.len()).sum();
    assert_eq!(total, 64 + 24 + 32 + 3 + 1);
    let last = chunks.last().unwrap();
    assert_eq!(*last.last().unwrap(), 0b01);
}

#[test]
fn test_snapshot_bytes_roundtrip() {
    let mut p = parts(2, &[vec![1.5, -2.0], vec![0.25, 8.0]]);
    p.deleted = vec![false, true];
    p.nodes = (0u8..32).collect();
    p.neighbors = vec![9, 8, 7];
    p.metadata_section = metadata_section(b"meta-data");
    let bytes = p.write_snapshot_bytes().unwrap();
    let header = FileHeader::decode(&bytes).unwrap();
    assert_eq!(header.data_crc, crc32fast::hash(&bytes[64..]));
    assert_eq!(header.vector_count, 2);
    assert_eq!(header.flags, 4);
    let contents = parse_snapshot(&header, &bytes[64..]);
    match contents {
        Ok(c) => {
            let vs: Vec<f32> = c.vectors.iter().map(|x| f32::from_bits(*x)).collect();
            assert_eq!(vs, vec![1.5, -2.0, 0.25, 8.0]);
            assert_eq!(c.deleted, vec![false, true]);
            assert_eq!(c.next_id, 3);
            assert_eq!(c.nodes, (0u8..32).collect::<Vec<u8>>());
            assert_eq!(c.neighbors, vec![9, 8, 7]);
            match c.metadata {
                MetadataPayload::Postcard(data) => assert_eq!(data, b"meta-data".to_vec()),
                _ => panic!("expected postcard metadata"),
            }
        }
        Err(e) => {
            // The metadata header is read only when it sits at a 4-byte aligned address.
            assert!(format!("{:?}", e).contains("4-byte aligned"));
        }
    }
}

#[test]
fn test_parse_snapshot_rejects_flags() {
    let p = parts(2, &[vec![1.0, 2.0]]);
    let bytes = p.write_snapshot_bytes().unwrap();
    let mut header = FileHeader::decode(&bytes).unwrap();
    header.flags = 3;
    match parse_snapshot(&header, &bytes[64..]) {
        Err(e) => assert!(format!("{:?}", e)
            .contains("Unsupported flags: 0x3. Supported: 0x4 (HAS_METADATA).")),
        Ok(_) => panic!("expected an error"),
    }
}

#[test]
fn test_parse_snapshot_vector_length_mismatch() {
    let p = parts(2, &[vec![1.0, 2.0]]);
    let bytes = p.write_snapshot_bytes().unwrap();
    let mut header = FileHeader::decode(&bytes).unwrap();
    header.vector_count = 2;
    match parse_snapshot(&header, &bytes[64..]) {
        Err(e) => assert!(format!("{:?}", e)
            .contains("Vector data length mismatch: expected 16, got 8")),
        Ok(_) => panic!("expected an error"),
    }
}

#[test]
fn parse_snapshot_reports_missing_vector_data() {
    let p = parts(2, &[vec![1.0, 2.0], vec![3.0, 4.0]]);
    let bytes = p.write_snapshot_bytes().unwrap();
    let header = FileHeader::decode(&bytes).unwrap();
    // Only 6 of the 16 bytes of vector data are present.
    match parse_snapshot(&header, &bytes[64..70]) {
        Err(edgevec::persistence::PersistenceError::Header(
            edgevec::persistence::header::HeaderError::BufferTooShort(n),
        )) => assert_eq!(n, 16),
        other => panic!("expected a short-buffer error, got {:?}", other.map(|_| ())),
    }
}

#[test]
fn parse_snapshot_reports_vector_length_mismatch() {
    let p = parts(2, &[vec![1.0, 2.0], vec![3.0, 4.0]]);
    let bytes = p.write_snapshot_bytes().unwrap();
    let mut header = FileHeader::decode(&bytes).unwrap();
    header.dimensions = 3;
    match parse_snapshot(&header, &bytes[64..]) {
        Err(edgevec::persistence::PersistenceError::Corrupted(msg)) => {
            assert_eq!(msg, "Vector data length mismatch: expected 24, got 16")
        }
        other => panic!("expected a length mismatch, got {:?}", other.map(|_| ())),
    }
}

/// Replaces the header of snapshot `bytes` by `h`, with its checksum updated.
fn with_header(bytes: &[u8], mut h: FileHeader) -> Vec<u8> {
    h.update_checksum();
    let mut out = h.as_bytes();
    out.extend_from_slice(&bytes[64..]);
    out
}

#[test]
fn read_snapshot_gives_back_what_was_written() {
    let mut p = parts(4, &[vec![1.0, 2.0, 3.0, 4.0], vec![5.0, 6.0, 7.0, 8.0]]);
    p.deleted = vec![true, false];
    p.nodes = vec![0u8; 32];
    let bytes = p.write_snapshot_bytes().unwrap();
    let (header, c) = read_snapshot(&bytes).unwrap();
    assert_eq!(header.vector_count, 2);
    assert_eq!(header.dimensions, 4);
    let vs: Vec<f32> = c.vectors.iter().map(|x| f32::from_bits(*x)).collect();
    assert_eq!(vs, vec![1.0, 2.0, 3.0, 4.0, 5.0, 6.0, 7.0, 8.0]);
    assert_eq!(c.deleted, vec![true, false]);
    assert_eq!(c.next_id, 3);
    assert_eq!(c.nodes, vec![0u8; 32]);
    assert!(c.neighbors.is_empty());
    assert!(matches!(c.metadata, MetadataPayload::Absent));
}

#[test]
fn read_snapshot_short_buffer() {
    match read_snapshot(&[0u8; 10]) {
        Err(PersistenceError::Header(HeaderError::BufferTooShort(n))) => assert_eq!(n, 10),
        other => panic!("expected a short-buffer error, got {:?}", other.map(|_| ())),
    }
}

#[test]
fn read_snapshot_bad_header() {
    let p = parts(2, &[vec![1.0, 2.0]]);
    let mut bytes = p.write_snapshot_bytes().unwrap();
    bytes[0] = b'X';
    match read_snapshot(&bytes) {
        Err(PersistenceError::Header(HeaderError::InvalidMagic(m))) => assert_eq!(m, *b"XVEC"),
        other => panic!("expected a magic error, got {:?}", other.map(|_| ())),
    }
}

#[test]
fn read_snapshot_checksum_mismatch() {
    let p = parts(2, &[vec![1.0, 2.0]]);
    let mut bytes = p.write_snapshot_bytes().unwrap();
    let expected = FileHeader::decode(&bytes).unwrap().data_crc;
    bytes[64] ^= 0xFF;
    match read_snapshot(&bytes) {
        Err(PersistenceError::ChecksumMismatch { expected: e, actual }) => {
            assert_eq!(e, expected);
            assert_eq!(actual, crc32fast::hash(&bytes[64..]));
            assert_ne!(actual, expected);
        }
        other => panic!("expected a checksum mismatch, got {:?}", other.map(|_| ())),
    }
}

#[test]
fn read_snapshot_metadata_offset_before_index_offset() {
    let p = parts(1, &[vec![1.5]]);
    let bytes = p.write_snapshot_bytes().unwrap();
    let mut h = FileHeader::decode(&bytes).unwrap();
    assert_eq!(h.index_offset, 68);
    h.metadata_offset = 66;
    let bytes = with_header(&bytes, h);
    match read_snapshot(&bytes) {
        Err(PersistenceError::Corrupted(msg)) => {
            assert_eq!(msg, "Metadata offset precedes index offset")
        }
        other => panic!("expected corruption, got {:?}", other.map(|_| ())),
    }
}

#[test]
fn parse_snapshot_huge_vector_count_is_corruption() {
    let p = parts(0, &[]);
    let bytes = p.write_snapshot_bytes().unwrap();
    let mut h = FileHeader::decode(&bytes).unwrap();
    h.vector_count = u64::MAX;
    match parse_snapshot(&h, &bytes[64..]) {
        Err(PersistenceError::Corrupted(msg)) => assert_eq!(msg, "Index data too short for nodes"),
        other => panic!("expected corruption, got {:?}", other.map(|_| ())),
    }
    h.dimensions = u32::MAX;
    match parse_snapshot(&h, &bytes[64..]) {
        Err(PersistenceError::Corrupted(msg)) => assert_eq!(
            msg,
            format!(
                "Vector data length mismatch: expected {}, got 0",
                u64::MAX as u128 * u32::MAX as u128 * 4
            )
        ),
        other => panic!("expected corruption, got {:?}", other.map(|_| ())),
    }
}

#[test]
fn chunks_are_filled_with_every_piece_that_fits() {
    let vectors: Vec<Vec<f32>> = (0..10).map(|i| vec![i as f32; 4]).collect();
    let chunks = collect(parts(4, &vectors).export_chunked(70));
    let lens: Vec<usize> = chunks.iter().map(|c| c.len()).collect();
    assert_eq!(lens, vec![68, 68, 68, 22]);
}

#[test]
fn chunked_exports_put_together_do_not_depend_on_chunk_size() {
    let mut p = parts(3, &[vec![1.0, 2.0, 3.0], vec![4.0, 5.0, 6.0]]);
    p.nodes = vec![7u8; 32];
    p.neighbors = vec![1, 2, 3];
    p.deleted = vec![true, false];
    p.metadata_section = metadata_section(b"abc");
    let mut outputs = Vec::new();
    for size in [0usize, 64, 65, 70, 100, 1000] {
        let mut q = parts(3, &[vec![1.0, 2.0, 3.0], vec![4.0, 5.0, 6.0]]);
        q.nodes = p.nodes.clone();
        q.neighbors = p.neighbors.clone();
        q.deleted = p.deleted.clone();
        q.metadata_section = p.metadata_section.clone();
        let mut it = q.export_chunked(size);
        let mut all = Vec::new();
        while let Some(c) = it.next() {
            assert!(!c.is_empty() && c.len() <= size.max(64));
            all.extend_from_slice(&c);
        }
        assert!(it.next().is_none());
        outputs.push(all);
    }
    for o in &outputs {
        assert_eq!(o, &outputs[0]);
    }
    assert_eq!(outputs[0].len(), 64 + 24 + 32 + 3 + 1 + 16 + 3);
}
