use anvil_trim::anvil::{AnvilData, ChunkHeader};
use anvil_trim::error::Error;

#[test]
fn new_container_is_empty_header() {
    let container = AnvilData::new();
    assert_eq!(container.data_buffer.len(), 8192);
    assert!(container.data_buffer.iter().all(|b| *b == 0));
    assert!(container.check_slots_readable());
}

#[test]
fn from_blob_rejects_short_buffers() {
    let r = AnvilData::from_blob(vec![0u8; 8191]);
    assert!(matches!(r, Err(Error::ContainerTooSmall)));
}

#[test]
fn from_blob_keeps_bytes() {
    let mut blob = vec![0u8; 8192];
    blob[8191] = 7;
    let container = AnvilData::from_blob(blob.clone()).unwrap();
    assert_eq!(container.data_buffer, blob);
}

#[test]
fn read_empty_slot_reports_absent() {
    let container = AnvilData::new();
    let r = container.read_chunk(0, 0);
    assert!(matches!(r, Err(Error::ChunkAbsent)));
}

#[test]
fn write_then_read_roundtrip() {
    let mut container = AnvilData::new();
    let payload: Vec<u8> = vec![1, 2, 3, 4, 5, 250, 251, 252];
    container
        .write_chunk(4, 7, &payload, payload.len() as u32)
        .unwrap();
    let back = container.read_chunk(4, 7).unwrap();
    assert_eq!(back, payload);
}

#[test]
fn coordinates_wrap_into_grid() {
    let mut container = AnvilData::new();
    let payload: Vec<u8> = vec![9, 9, 9];
    container.write_chunk(5, 7, &payload, 3).unwrap();
    // (5 + 32, 7 + 64) addresses the same slot as (5, 7)
    let back = container.read_chunk(5 + 32, 7 + 64).unwrap();
    assert_eq!(back, payload);
    let back2 = container.read_chunk(5 + 32 * 3, 7 + 32 * 5).unwrap();
    assert_eq!(back2, payload);
}

#[test]
fn header_roundtrip() {
    let mut container = AnvilData::new();
    let header = ChunkHeader {
        data_offset: 1234,
        sector_count: 9,
    };
    container.write_header(77, &header);
    let back = container.read_header(77);
    assert_eq!(back.data_offset, 1234);
    assert_eq!(back.sector_count, 9);
}

#[test]
fn sector_limit_is_enforced() {
    let mut container = AnvilData::new();
    let payload: Vec<u8> = vec![1, 2, 3];
    // 257 sectors of decompressed size are over the limit
    let r = container.write_chunk(0, 0, &payload, 4096 * 257);
    assert!(matches!(r, Err(Error::SectorLimitExceeded)));
    // exactly 256 sectors are still accepted
    container.write_chunk(0, 0, &payload, 4096 * 256).unwrap();
}

#[test]
fn overrunning_payload_is_clamped_by_one_byte() {
    // a container of three sectors whose slot 0 claims a payload that
    // ends exactly at the buffer end: reading clamps off the last byte
    let mut blob = vec![0u8; 12288];
    // slot 0 entry: sector index 2, sector count 1
    blob[2] = 2;
    blob[3] = 1;
    // sub-header at 8192: payload length 4091 (runs to the buffer end)
    let len: u32 = 4091;
    blob[8192..8196].copy_from_slice(&len.to_be_bytes());
    blob[8196] = 2;
    for i in 0..4091 {
        blob[8197 + i] = (i % 251) as u8;
    }
    let container = AnvilData::from_blob(blob.clone()).unwrap();
    assert!(container.check_slots_readable());
    let back = container.read_chunk(0, 0).unwrap();
    assert_eq!(back.len(), 4090);
    assert_eq!(&back[..], &blob[8197..12287]);
}

#[test]
fn unreadable_slot_is_detected() {
    let mut blob = vec![0u8; 8192];
    // slot 0 points at sector 100 of a container with no data sectors
    blob[2] = 100;
    blob[3] = 1;
    let container = AnvilData::from_blob(blob).unwrap();
    assert!(!container.check_slots_readable());
}
