use std::io::Write;

use anvil_trim::anvil::AnvilData;
use anvil_trim::error::Error;
use anvil_trim::extract::{chunk_time_from_document, get_inhabited_time};
use anvil_trim::codec::read_tag;
use anvil_trim::cursor::ByteCursor;
use anvil_trim::node::Node;
use anvil_trim::trim::{trim_region_data, TrimOptions, TrimOutcome};
use anvil_trim::zlib::zlib_decompress;

/// A flat-layout chunk document: a root compound with three children,
/// one of them the time-active field.
fn flat_document(time: i64) -> Vec<u8> {
    let mut bytes: Vec<u8> = Vec::new();
    bytes.push(10);
    bytes.extend_from_slice(&[0, 0]);
    bytes.push(1); // filler byte child
    bytes.extend_from_slice(&[0, 1, b'x', 3]);
    bytes.push(4);
    bytes.extend_from_slice(&[0, 13]);
    bytes.extend_from_slice(b"InhabitedTime");
    bytes.extend_from_slice(&time.to_be_bytes());
    bytes.push(1); // second filler byte child
    bytes.extend_from_slice(&[0, 1, b'y', 4]);
    bytes.push(0);
    bytes
}

/// A legacy-layout chunk document: the field nested under a wrapper
/// compound named Level.
fn legacy_document(time: i64) -> Vec<u8> {
    let mut bytes: Vec<u8> = Vec::new();
    bytes.push(10);
    bytes.extend_from_slice(&[0, 0]);
    bytes.push(10); // nested compound child
    bytes.extend_from_slice(&[0, 5]);
    bytes.extend_from_slice(b"Level");
    bytes.push(4);
    bytes.extend_from_slice(&[0, 13]);
    bytes.extend_from_slice(b"InhabitedTime");
    bytes.extend_from_slice(&time.to_be_bytes());
    bytes.push(0); // end of nested compound
    bytes.push(0); // end of root
    bytes
}

fn compress(bytes: &[u8]) -> Vec<u8> {
    let mut encoder =
        flate2::write::ZlibEncoder::new(Vec::new(), flate2::Compression::default());
    encoder.write_all(bytes).unwrap();
    encoder.finish().unwrap()
}

fn container_with_chunks(chunks: &[(u32, u32, Vec<u8>)]) -> AnvilData {
    let mut container = AnvilData::new();
    for (x, z, doc) in chunks {
        let compressed = compress(doc);
        container
            .write_chunk(*x, *z, &compressed, doc.len() as u32)
            .unwrap();
    }
    container
}

#[test]
fn zlib_roundtrip_and_failure_modes() {
    let data = b"some chunk bytes".to_vec();
    let compressed = compress(&data);
    assert_eq!(zlib_decompress(&compressed).unwrap(), data);
    // a corrupt stream fails
    assert!(matches!(
        zlib_decompress(&[1, 2, 3, 4]),
        Err(Error::TransformFailed)
    ));
    // a stream that decodes to nothing fails too
    let empty = compress(&[]);
    assert!(matches!(
        zlib_decompress(&empty),
        Err(Error::TransformFailed)
    ));
}

#[test]
fn extraction_handles_both_layouts() {
    for doc in [flat_document(99), legacy_document(99)] {
        let mut cursor = ByteCursor::new(&doc);
        let root = read_tag(&mut cursor).unwrap();
        assert_eq!(get_inhabited_time(&root).unwrap(), 99);
        assert_eq!(chunk_time_from_document(&doc).unwrap(), 99);
    }
}

#[test]
fn extraction_uses_second_child_without_level_name() {
    // two children, no Level: the child at index 1 is searched
    let mut bytes: Vec<u8> = Vec::new();
    bytes.push(10);
    bytes.extend_from_slice(&[0, 0]);
    bytes.push(1);
    bytes.extend_from_slice(&[0, 1, b'x', 3]);
    bytes.push(10); // unnamed-wrapper compound at index 1
    bytes.extend_from_slice(&[0, 1, b'w']);
    bytes.push(4);
    bytes.extend_from_slice(&[0, 13]);
    bytes.extend_from_slice(b"InhabitedTime");
    bytes.extend_from_slice(&123i64.to_be_bytes());
    bytes.push(0);
    bytes.push(0);
    assert_eq!(chunk_time_from_document(&bytes).unwrap(), 123);
}

#[test]
fn extraction_fails_when_field_is_missing() {
    let mut bytes: Vec<u8> = Vec::new();
    bytes.push(10);
    bytes.extend_from_slice(&[0, 0]);
    bytes.push(1);
    bytes.extend_from_slice(&[0, 1, b'x', 3]);
    bytes.push(0);
    match chunk_time_from_document(&bytes) {
        Err(Error::FieldNotFound) => {}
        other => panic!("expected a missing field, got {:?}", other),
    }
    // a non-compound root has no field either
    let bytes: Vec<u8> = vec![1, 0, 0, 7];
    assert!(matches!(
        chunk_time_from_document(&bytes),
        Err(Error::FieldNotFound)
    ));
}

#[test]
fn chunk_at_threshold_is_dropped() {
    let threshold = 500i64;
    let container = container_with_chunks(&[(3, 9, flat_document(threshold))]);
    let outcome = trim_region_data(&container, TrimOptions::new(threshold, 1)).unwrap();
    assert!(matches!(outcome, TrimOutcome::Delete));
}

#[test]
fn chunk_above_threshold_is_kept() {
    let threshold = 500i64;
    let doc = flat_document(threshold + 1);
    let compressed = compress(&doc);
    let container = container_with_chunks(&[(3, 9, doc)]);
    let outcome = trim_region_data(&container, TrimOptions::new(threshold, 1)).unwrap();
    match outcome {
        TrimOutcome::Rebuilt(rebuilt) => {
            assert!(rebuilt.check_slots_readable());
            let back = rebuilt.read_chunk(3, 9).unwrap();
            assert_eq!(back, compressed);
            let decompressed = zlib_decompress(&back).unwrap();
            assert_eq!(
                chunk_time_from_document(&decompressed).unwrap(),
                threshold + 1
            );
        }
        TrimOutcome::Delete => panic!("the kept chunk was dropped"),
    }
}

#[test]
fn rebuilt_container_exposes_only_kept_chunks() {
    let threshold = 100i64;
    let kept_doc = legacy_document(150);
    let kept_compressed = compress(&kept_doc);
    let container = container_with_chunks(&[
        (0, 0, flat_document(50)),
        (1, 2, kept_doc),
        (31, 31, flat_document(100)),
    ]);
    let outcome = trim_region_data(&container, TrimOptions::new(threshold, 4)).unwrap();
    match outcome {
        TrimOutcome::Rebuilt(rebuilt) => {
            assert!(matches!(rebuilt.read_chunk(0, 0), Err(Error::ChunkAbsent)));
            assert!(matches!(
                rebuilt.read_chunk(31, 31),
                Err(Error::ChunkAbsent)
            ));
            assert_eq!(rebuilt.read_chunk(1, 2).unwrap(), kept_compressed);
        }
        TrimOutcome::Delete => panic!("a chunk should have been kept"),
    }
}

#[test]
fn container_with_every_chunk_dropped_is_deleted() {
    let container = container_with_chunks(&[
        (0, 0, flat_document(1)),
        (5, 5, flat_document(2)),
        (30, 1, legacy_document(3)),
    ]);
    let outcome = trim_region_data(&container, TrimOptions::new(10, 2)).unwrap();
    assert!(matches!(outcome, TrimOutcome::Delete));
}

#[test]
fn corrupt_chunk_payload_is_fatal_for_the_file() {
    let mut container = AnvilData::new();
    let garbage: Vec<u8> = vec![1, 2, 3, 4, 5];
    container.write_chunk(2, 2, &garbage, 5).unwrap();
    let r = trim_region_data(&container, TrimOptions::new(0, 1));
    assert!(matches!(r, Err(Error::TransformFailed)));
}

#[test]
fn malformed_document_is_fatal_for_the_file() {
    let mut container = AnvilData::new();
    let doc = flat_document(7);
    let truncated = compress(&doc[..doc.len() - 3]);
    container
        .write_chunk(0, 1, &truncated, (doc.len() - 3) as u32)
        .unwrap();
    let r = trim_region_data(&container, TrimOptions::new(0, 1));
    assert!(matches!(r, Err(Error::TruncatedDocument)));
}

#[test]
fn missing_field_is_fatal_for_the_file() {
    let mut container = AnvilData::new();
    let doc: Vec<u8> = vec![10, 0, 0, 1, 0, 1, b'x', 3, 0];
    let compressed = compress(&doc);
    container
        .write_chunk(0, 1, &compressed, doc.len() as u32)
        .unwrap();
    let r = trim_region_data(&container, TrimOptions::new(0, 1));
    assert!(matches!(r, Err(Error::FieldNotFound)));
}

#[test]
fn node_accessors_report_type_and_name() {
    let doc = flat_document(1);
    let mut cursor = ByteCursor::new(&doc);
    let root = read_tag(&mut cursor).unwrap();
    assert_eq!(root.tag_type(), 10);
    assert_eq!(root.name(), "");
    if let Node::Compound { children, .. } = &root {
        assert_eq!(children[1].tag_type(), 4);
        assert_eq!(children[1].name(), "InhabitedTime");
    } else {
        panic!("root is not a compound");
    }
}

#[test]
fn container_with_no_chunks_is_deleted() {
    let container = AnvilData::new();
    let outcome = trim_region_data(&container, TrimOptions::new(0, 1)).unwrap();
    assert!(matches!(outcome, TrimOutcome::Delete));
}

#[test]
fn duplicate_child_names_are_tolerated_first_wins() {
    // a flat root with two fields of the same name: the first is taken
    let mut bytes: Vec<u8> = Vec::new();
    bytes.push(10);
    bytes.extend_from_slice(&[0, 0]);
    for time in [111i64, 222i64] {
        bytes.push(4);
        bytes.extend_from_slice(&[0, 13]);
        bytes.extend_from_slice(b"InhabitedTime");
        bytes.extend_from_slice(&time.to_be_bytes());
    }
    bytes.push(1); // a third child selects the flat layout
    bytes.extend_from_slice(&[0, 1, b'x', 3]);
    bytes.push(0);
    assert_eq!(chunk_time_from_document(&bytes).unwrap(), 111);
}
