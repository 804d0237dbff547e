use anvil_trim::binutil::{buf_write_u24, buf_write_u32, buf_write_u8, parse_u24, parse_u32};
use anvil_trim::cursor::ByteCursor;
use anvil_trim::error::Error;

#[test]
fn parse_big_endian_integers() {
    assert_eq!(parse_u24(&[0x01, 0x02, 0x03]), 0x010203);
    assert_eq!(parse_u24(&[0xFF, 0xFF, 0xFF]), 0xFFFFFF);
    assert_eq!(parse_u32(&[0x01, 0x02, 0x03, 0x04]), 0x01020304);
    assert_eq!(parse_u32(&[0xFF, 0, 0, 1]), 0xFF000001);
}

#[test]
fn write_big_endian_integers() {
    let mut buffer = vec![0u8; 8];
    buf_write_u24(&mut buffer, 1, 0x010203);
    assert_eq!(buffer, vec![0, 1, 2, 3, 0, 0, 0, 0]);
    buf_write_u32(&mut buffer, 4, 0xAABBCCDD);
    assert_eq!(buffer, vec![0, 1, 2, 3, 0xAA, 0xBB, 0xCC, 0xDD]);
    buf_write_u8(&mut buffer, 0, 9);
    assert_eq!(buffer[0], 9);
    // only the low 24 bits fit a 3-byte field
    buf_write_u24(&mut buffer, 0, 0xFF010203);
    assert_eq!(&buffer[0..3], &[1, 2, 3]);
}

#[test]
fn cursor_reads_advance_in_order() {
    let data: Vec<u8> = vec![1, 0, 2, 0, 0, 0, 3, 0, 0, 0, 0, 0, 0, 0, 4, 9, 8];
    let mut cursor = ByteCursor::new(&data);
    assert_eq!(cursor.read_u8().unwrap(), 1);
    assert_eq!(cursor.read_u16().unwrap(), 2);
    assert_eq!(cursor.read_u32().unwrap(), 3);
    assert_eq!(cursor.read_u64().unwrap(), 4);
    assert_eq!(cursor.read_bytes(1).unwrap(), vec![9]);
    assert_eq!(cursor.read_u8().unwrap(), 8);
    assert!(matches!(cursor.read_u8(), Err(Error::TruncatedDocument)));
}

#[test]
fn cursor_fails_without_moving() {
    let data: Vec<u8> = vec![1, 2, 3];
    let mut cursor = ByteCursor::new(&data);
    assert!(matches!(cursor.read_u32(), Err(Error::TruncatedDocument)));
    assert_eq!(cursor.pos, 0);
    assert!(matches!(
        cursor.read_bytes(4),
        Err(Error::TruncatedDocument)
    ));
    assert_eq!(cursor.read_bytes(3).unwrap(), data);
}
