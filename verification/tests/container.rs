use lri_rs::block::{parse_blocks, Block, BlockType, Header};
use lri_rs::error::LriError;

fn header_bytes(block_length: u64, message_offset: u64, message_length: u32, kind: u8) -> Vec<u8> {
    let mut v = Vec::new();
    v.extend_from_slice(b"LELR");
    v.extend_from_slice(&block_length.to_le_bytes());
    v.extend_from_slice(&message_offset.to_le_bytes());
    v.extend_from_slice(&message_length.to_le_bytes());
    v.push(kind);
    v.extend_from_slice(&[0u8; 7]);
    assert_eq!(v.len(), 32);
    v
}

#[test]
fn empty_buffer_is_zero_blocks() {
    let blocks = parse_blocks(&[]).unwrap();
    assert_eq!(blocks.len(), 0);
}

#[test]
fn ingest_reads_fields() {
    let bytes = header_bytes(0x0102030405060708, 32, 7, 1);
    let h = Header::ingest(&bytes).unwrap();
    assert_eq!(h.block_length, 0x0102030405060708);
    assert_eq!(h.message_offset, 32);
    assert_eq!(h.message_length, 7);
    assert_eq!(h.kind, BlockType::ViewPreferences);
}

#[test]
fn ingest_kinds() {
    for (tag, kind) in [
        (0u8, BlockType::LightHeader),
        (1, BlockType::ViewPreferences),
        (2, BlockType::GPSData),
    ] {
        let bytes = header_bytes(32, 0, 0, tag);
        assert_eq!(Header::ingest(&bytes).unwrap().kind, kind);
    }
}

#[test]
fn ingest_rejects_bad_magic() {
    let mut bytes = header_bytes(32, 0, 0, 0);
    bytes[0] = b'X';
    assert_eq!(
        Header::ingest(&bytes),
        Err(LriError::MalformedContainer { offset: 0 })
    );
}

#[test]
fn ingest_rejects_unknown_kind() {
    let bytes = header_bytes(32, 0, 0, 3);
    assert_eq!(
        Header::ingest(&bytes),
        Err(LriError::UnknownBlockKind { offset: 24, kind: 3 })
    );
}

#[test]
fn ingest_rejects_short_buffer() {
    let bytes = header_bytes(32, 0, 0, 0);
    assert_eq!(
        Header::ingest(&bytes[..16]),
        Err(LriError::TruncatedBlock { offset: 0 })
    );
}

#[test]
fn blocks_tile_the_buffer() {
    // Coverage: two blocks, 40 + 32 bytes, tile the 72-byte input with no
    // gaps or overlaps; the block lengths sum to the input length.
    let mut data = header_bytes(40, 32, 8, 0);
    data.extend_from_slice(&[0xAB; 8]);
    data.extend_from_slice(&header_bytes(32, 0, 0, 2));
    assert_eq!(data.len(), 72);

    let blocks = parse_blocks(&data).unwrap();
    assert_eq!(blocks.len(), 2);
    assert_eq!(blocks[0].data.len(), 40);
    assert_eq!(blocks[1].data.len(), 32);
    assert_eq!(blocks[0].header.block_length, 40);
    assert_eq!(blocks[1].header.block_length, 32);
    let total: u64 = blocks.iter().map(|b| b.header.block_length).sum();
    assert_eq!(total, data.len() as u64);
    // No gaps, no overlaps: concatenating the ranges gives back the input.
    let mut rebuilt = Vec::new();
    for b in &blocks {
        rebuilt.extend_from_slice(&b.data);
    }
    assert_eq!(rebuilt, data);
    assert_eq!(blocks[0].header.kind, BlockType::LightHeader);
    assert_eq!(blocks[1].header.kind, BlockType::GPSData);
}

#[test]
fn second_block_bad_magic_reports_its_offset() {
    let mut data = header_bytes(32, 0, 0, 0);
    let mut second = header_bytes(32, 0, 0, 0);
    second[0] = b'Q';
    data.extend_from_slice(&second);
    assert_eq!(
        parse_blocks(&data).unwrap_err(),
        LriError::MalformedContainer { offset: 32 }
    );
}

#[test]
fn overlong_block_is_truncated() {
    let data = header_bytes(100, 0, 0, 0);
    assert_eq!(
        parse_blocks(&data).unwrap_err(),
        LriError::TruncatedBlock { offset: 0 }
    );
}

#[test]
fn block_shorter_than_header_is_truncated() {
    let mut data = header_bytes(8, 0, 0, 0);
    data.extend_from_slice(&[0u8; 8]);
    assert_eq!(
        parse_blocks(&data).unwrap_err(),
        LriError::TruncatedBlock { offset: 0 }
    );
}

#[test]
fn trailing_garbage_is_truncated() {
    let mut data = header_bytes(32, 0, 0, 0);
    data.extend_from_slice(&[1, 2, 3]);
    assert_eq!(
        parse_blocks(&data).unwrap_err(),
        LriError::TruncatedBlock { offset: 32 }
    );
}

#[test]
fn body_and_message_data() {
    let mut data = header_bytes(40, 34, 4, 0);
    data.extend_from_slice(&[9, 8, 7, 6, 5, 4, 3, 2]);
    let blocks = parse_blocks(&data).unwrap();
    let block: &Block = &blocks[0];
    assert_eq!(block.body(), &[9, 8, 7, 6, 5, 4, 3, 2]);
    assert_eq!(block.message_data(), &[7, 6, 5, 4]);
}

#[test]
fn error_names() {
    assert_eq!(
        LriError::MalformedContainer { offset: 0 }.name(),
        "malformed container"
    );
    assert_eq!(
        LriError::InvalidBayerOffset { x: 9, y: 9 }.name(),
        "invalid bayer offset"
    );
}
