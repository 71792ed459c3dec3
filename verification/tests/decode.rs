use tree_buf::branch::array_branch::{decode_next_array, ArrayIntegerEncoding, DynArrayBranch};
use tree_buf::branch::root_branch::{decode_next_root, read_root, DynRootBranch, RootFloat, RootInteger};
use tree_buf::branch::{decode_ident, read_ident, write_ident};
use tree_buf::error::DecodeError;
use tree_buf::stats::size_breakdown;

#[test]
fn empty_document_is_void() {
    assert!(matches!(read_root(&[]), Ok(DynRootBranch::Void)));
}

#[test]
fn root_scalars() {
    assert!(matches!(read_root(&[4]), Ok(DynRootBranch::Boolean(true))));
    assert!(matches!(read_root(&[5]), Ok(DynRootBranch::Boolean(false))));
    assert!(matches!(read_root(&[22]), Ok(DynRootBranch::Integer(RootInteger::U(0)))));
    assert!(matches!(read_root(&[24]), Ok(DynRootBranch::Integer(RootInteger::S(-1)))));
    assert!(matches!(read_root(&[13, 200]), Ok(DynRootBranch::Integer(RootInteger::U(200)))));
    assert!(matches!(read_root(&[21, 0xFF]), Ok(DynRootBranch::Integer(RootInteger::S(-1)))));
    assert!(matches!(read_root(&[20, 0xFE, 0xFF]), Ok(DynRootBranch::Integer(RootInteger::S(-2)))));
    // Three byte signed integers are read as the unsigned value of their bytes.
    assert!(matches!(read_root(&[19, 0xFF, 0xFF, 0xFF]), Ok(DynRootBranch::Integer(RootInteger::S(16777215)))));
    assert!(matches!(read_root(&[12, 0x34, 0x12]), Ok(DynRootBranch::Integer(RootInteger::U(0x1234)))));
    assert!(matches!(read_root(&[27]), Ok(DynRootBranch::Float(RootFloat::NaN))));
    let one = 1.0f64.to_bits().to_le_bytes();
    let mut doc = vec![26u8];
    doc.extend_from_slice(&one);
    match read_root(&doc) {
        Ok(DynRootBranch::Float(RootFloat::F64(bits))) => assert_eq!(f64::from_bits(bits), 1.0),
        _ => panic!("expected a float"),
    }
    match read_root(&[29, b'x']) {
        Ok(DynRootBranch::String(s)) => assert_eq!(s, "x"),
        _ => panic!("expected a string"),
    }
    match read_root(&[32, 0x07, b'a', b'b', b'c']) {
        Ok(DynRootBranch::String(s)) => assert_eq!(s, "abc"),
        _ => panic!("expected a string"),
    }
}

#[test]
fn root_errors() {
    // Unknown type id.
    assert_eq!(read_root(&[99]).err(), Some(DecodeError::InvalidFormat));
    // Too few bytes for the integer.
    assert_eq!(read_root(&[12, 1]).err(), Some(DecodeError::InvalidFormat));
    // Text that is not UTF-8.
    assert_eq!(read_root(&[29, 0xFF]).err(), Some(DecodeError::InvalidFormat));
}

#[test]
fn root_object_and_tuple() {
    // Obj2 { "a": 200u8, "a": true }: the later field of the same name wins.
    let doc = [110u8, 0x03, b'a', 13, 200, 0x03, b'a', 4];
    match read_root(&doc) {
        Ok(DynRootBranch::Object { fields }) => {
            assert_eq!(fields.len(), 1);
            assert_eq!(fields[0].0, "a");
            assert!(matches!(fields[0].1, DynRootBranch::Boolean(true)));
        }
        _ => panic!("expected an object"),
    }
    // Tuple2 (true, 0)
    match read_root(&[100, 4, 22]) {
        Ok(DynRootBranch::Tuple { fields }) => {
            assert_eq!(fields.len(), 2);
            assert!(matches!(fields[0], DynRootBranch::Boolean(true)));
            assert!(matches!(fields[1], DynRootBranch::Integer(RootInteger::U(0))));
        }
        _ => panic!("expected a tuple"),
    }
}

#[test]
fn root_array_of_bytes() {
    // ArrayN of 3, a U8 column of 3 bytes whose length is the last byte.
    let doc = [3u8, 0x07, 13, 1, 2, 3, 0x07];
    match read_root(&doc) {
        Ok(DynRootBranch::Array { len, values: DynArrayBranch::Integer(ints) }) => {
            assert_eq!(len, 3);
            assert_eq!(ints.encoding, ArrayIntegerEncoding::U8);
            assert_eq!(ints.bytes.as_slice(), &[1, 2, 3]);
        }
        _ => panic!("expected an array"),
    }
}

#[test]
fn array_branch_reads_lengths_backwards() {
    // A Nullable column: packed booleans, then a UTF-8 column.
    let doc = [1u8, 3, 0b101, 8, b'h', b'i', 0x05, 0x03];
    let mut offset = 0;
    let mut lens = doc.len() - 1;
    match decode_next_array(&doc, &mut offset, &mut lens) {
        Ok(DynArrayBranch::Nullable { .. }) => {}
        _ => panic!("expected a nullable column"),
    }
    assert_eq!(offset, 6);
    assert_eq!(lens, 5);
}

#[test]
fn decode_next_root_moves_past_what_it_read() {
    let doc = [4u8, 5];
    let mut offset = 0;
    let mut lens = 1;
    assert!(matches!(decode_next_root(&doc, &mut offset, &mut lens), Ok(DynRootBranch::Boolean(true))));
    assert_eq!(offset, 1);
    assert!(matches!(decode_next_root(&doc, &mut offset, &mut lens), Ok(DynRootBranch::Boolean(false))));
    assert_eq!(offset, 2);
    assert!(decode_next_root(&doc, &mut offset, &mut lens).is_err());
}

#[test]
fn ident_round_trip() {
    let mut bytes = vec![9u8];
    write_ident("name", &mut bytes);
    assert_eq!(bytes, vec![9, 0x09, b'n', b'a', b'm', b'e']);
    let mut offset = 1;
    assert_eq!(read_ident(&bytes, &mut offset), Ok("name"));
    assert_eq!(offset, 6);
    let mut offset = 1;
    assert_eq!(decode_ident(&bytes[..4], &mut offset), Err(DecodeError::InvalidFormat));
}

#[test]
fn size_breakdown_of_a_column() {
    let doc = [3u8, 0x07, 13, 1, 2, 3, 0x07];
    let text = size_breakdown(&doc).unwrap();
    assert_eq!(
        text,
        "Largest by path:\n\t3\n\t   [3]\n\t   Array.U8 Fixed\n\nLargest by type:\n\t 1x 3 @ U8 Fixed\n\nOther: 4\nTotal: 7\n"
    );
    assert!(size_breakdown(&[99]).is_err());
}

#[test]
fn size_breakdown_of_an_object() {
    // Obj2 { "x": ArrayN of 2 U8, "y": ArrayN of 1 U8 }
    let doc = [
        110u8, 0x03, b'x', 3, 0x05, 13, 7, 8, 0x03, b'y', 3, 0x03, 13, 9, 0x03, 0x05,
    ];
    let text = size_breakdown(&doc).unwrap();
    assert_eq!(
        text,
        "Largest by path:\n\t2\n\t   x.[2]\n\t   Object.Array.U8 Fixed\n\t1\n\t   y.[1]\n\t   Object.Array.U8 Fixed\n\nLargest by type:\n\t 2x 3 @ U8 Fixed\n\nOther: 13\nTotal: 16\n"
    );
}
