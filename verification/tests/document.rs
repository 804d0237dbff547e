use anvil_trim::codec::read_tag;
use anvil_trim::cursor::ByteCursor;
use anvil_trim::error::Error;
use anvil_trim::node::Node;

/// The encoding of a root Compound with an empty name holding one Long
/// named `InhabitedTime` with value 42, terminated by an end marker.
fn fixture_bytes() -> Vec<u8> {
    let mut bytes: Vec<u8> = Vec::new();
    bytes.push(10); // compound
    bytes.extend_from_slice(&[0, 0]); // empty name
    bytes.push(4); // long
    bytes.extend_from_slice(&[0, 13]);
    bytes.extend_from_slice(b"InhabitedTime");
    bytes.extend_from_slice(&42i64.to_be_bytes());
    bytes.push(0); // end marker
    bytes
}

#[test]
fn decode_fixture() {
    let bytes = fixture_bytes();
    let mut cursor = ByteCursor::new(&bytes);
    let root = read_tag(&mut cursor).unwrap();
    assert_eq!(root.tag_type(), 10);
    assert_eq!(root.name(), "");
    match &root {
        Node::Compound { name, children } => {
            assert_eq!(name.as_str(), "");
            assert_eq!(children.len(), 1);
            match &children[0] {
                Node::Long { name, value } => {
                    assert_eq!(name.as_str(), "InhabitedTime");
                    assert_eq!(*value, 42);
                }
                _ => panic!("child is not a long"),
            }
        }
        _ => panic!("root is not a compound"),
    }
    assert_eq!(cursor.pos, bytes.len());
}

#[test]
fn every_truncation_fails_as_truncated() {
    let bytes = fixture_bytes();
    for cut in 0..bytes.len() {
        let prefix = bytes[..cut].to_vec();
        let mut cursor = ByteCursor::new(&prefix);
        let r = read_tag(&mut cursor);
        assert!(
            matches!(r, Err(Error::TruncatedDocument)),
            "prefix of length {} did not fail as truncated",
            cut
        );
    }
}

#[test]
fn unknown_type_id_fails() {
    // type id 13 with an empty name: the name is read, the id refused
    let bytes: Vec<u8> = vec![13, 0, 0];
    let mut cursor = ByteCursor::new(&bytes);
    assert!(matches!(read_tag(&mut cursor), Err(Error::UnknownTagType)));
    // the name read comes first, so a bare unknown id is truncation
    let bytes: Vec<u8> = vec![13];
    let mut cursor = ByteCursor::new(&bytes);
    assert!(matches!(
        read_tag(&mut cursor),
        Err(Error::TruncatedDocument)
    ));
}

#[test]
fn scalars_are_signed_big_endian() {
    let bytes: Vec<u8> = vec![2, 0, 1, b'a', 0x80, 0x00];
    let mut cursor = ByteCursor::new(&bytes);
    match read_tag(&mut cursor).unwrap() {
        Node::Short { name, value } => {
            assert_eq!(name.as_str(), "a");
            assert_eq!(value, -32768);
        }
        _ => panic!("not a short"),
    }
    let mut bytes: Vec<u8> = vec![3, 0, 0];
    bytes.extend_from_slice(&(-7i32).to_be_bytes());
    let mut cursor = ByteCursor::new(&bytes);
    match read_tag(&mut cursor).unwrap() {
        Node::Int { value, .. } => assert_eq!(value, -7),
        _ => panic!("not an int"),
    }
    let bytes: Vec<u8> = vec![1, 0, 0, 0xFF];
    let mut cursor = ByteCursor::new(&bytes);
    match read_tag(&mut cursor).unwrap() {
        Node::Byte { value, .. } => assert_eq!(value, -1),
        _ => panic!("not a byte"),
    }
}

#[test]
fn floating_kinds_carry_bit_patterns() {
    let mut bytes: Vec<u8> = vec![5, 0, 0];
    bytes.extend_from_slice(&1.0f32.to_bits().to_be_bytes());
    let mut cursor = ByteCursor::new(&bytes);
    match read_tag(&mut cursor).unwrap() {
        Node::Float { bits, .. } => {
            assert_eq!(bits, 0x3F800000);
            assert_eq!(f32::from_bits(bits), 1.0f32);
        }
        _ => panic!("not a float"),
    }
    let mut bytes: Vec<u8> = vec![6, 0, 0];
    bytes.extend_from_slice(&(-2.5f64).to_bits().to_be_bytes());
    let mut cursor = ByteCursor::new(&bytes);
    match read_tag(&mut cursor).unwrap() {
        Node::Double { bits, .. } => {
            assert_eq!(f64::from_bits(bits), -2.5f64);
        }
        _ => panic!("not a double"),
    }
}

#[test]
fn arrays_decode_elementwise() {
    let bytes: Vec<u8> = vec![7, 0, 0, 0, 0, 0, 2, 0xFF, 0x01];
    let mut cursor = ByteCursor::new(&bytes);
    match read_tag(&mut cursor).unwrap() {
        Node::ByteArray { values, .. } => assert_eq!(values, vec![-1i8, 1i8]),
        _ => panic!("not a byte array"),
    }
    let mut bytes: Vec<u8> = vec![11, 0, 0, 0, 0, 0, 1];
    bytes.extend_from_slice(&(-100000i32).to_be_bytes());
    let mut cursor = ByteCursor::new(&bytes);
    match read_tag(&mut cursor).unwrap() {
        Node::IntArray { values, .. } => assert_eq!(values, vec![-100000i32]),
        _ => panic!("not an int array"),
    }
    let mut bytes: Vec<u8> = vec![12, 0, 0, 0, 0, 0, 1];
    bytes.extend_from_slice(&i64::MIN.to_be_bytes());
    let mut cursor = ByteCursor::new(&bytes);
    match read_tag(&mut cursor).unwrap() {
        Node::LongArray { values, .. } => assert_eq!(values, vec![i64::MIN]),
        _ => panic!("not a long array"),
    }
}

#[test]
fn lists_share_one_element_type() {
    let bytes: Vec<u8> = vec![9, 0, 0, 1, 0, 0, 0, 2, 5, 250];
    let mut cursor = ByteCursor::new(&bytes);
    match read_tag(&mut cursor).unwrap() {
        Node::List {
            elem_type,
            children,
            ..
        } => {
            assert_eq!(elem_type, 1);
            assert_eq!(children.len(), 2);
            assert!(matches!(children[0], Node::Byte { value: 5, .. }));
            assert!(matches!(children[1], Node::Byte { value: -6, .. }));
        }
        _ => panic!("not a list"),
    }
}

#[test]
fn text_decodes_as_utf8() {
    let bytes: Vec<u8> = vec![8, 0, 1, b's', 0, 2, b'h', b'i'];
    let mut cursor = ByteCursor::new(&bytes);
    match read_tag(&mut cursor).unwrap() {
        Node::Text { name, value } => {
            assert_eq!(name.as_str(), "s");
            assert_eq!(value.as_str(), "hi");
        }
        _ => panic!("not a text node"),
    }
}

#[test]
fn invalid_utf8_is_replaced_not_rejected() {
    let bytes: Vec<u8> = vec![8, 0, 0, 0, 2, 0xFF, b'a'];
    let mut cursor = ByteCursor::new(&bytes);
    match read_tag(&mut cursor).unwrap() {
        Node::Text { value, .. } => {
            assert_eq!(value, String::from_utf8_lossy(&[0xFF, b'a']).into_owned());
        }
        _ => panic!("not a text node"),
    }
}
