use tree_buf::error::DecodeError;
use tree_buf::type_id::{ArrayTypeId, RootTypeId, TypeId};

#[test]
fn all_root_type_ids() {
    for i in 0..=255u8 {
        if let Ok(v) = RootTypeId::from_u8(i) {
            assert_eq!(i, u8::from(v));
        }
    }
}

#[test]
fn all_array_type_ids() {
    for i in 0..=255u8 {
        if let Ok(v) = ArrayTypeId::from_u8(i) {
            assert_eq!(i, u8::from(v));
        }
    }
}

#[test]
fn known_and_unknown_type_ids() {
    assert_eq!(RootTypeId::from_u8(0), Ok(RootTypeId::Void));
    assert_eq!(RootTypeId::from_u8(34), Ok(RootTypeId::Mapping));
    assert_eq!(RootTypeId::from_u8(99), Err(DecodeError::InvalidFormat));
    assert_eq!(ArrayTypeId::from_u8(4), Ok(ArrayTypeId::IntSimple16));
    assert_eq!(ArrayTypeId::from_u8(250), Err(DecodeError::InvalidFormat));
    assert_eq!(<RootTypeId as TypeId>::void(), RootTypeId::Void);
    assert_eq!(RootTypeId::ObjN.id_byte(), 117);
    assert!(ArrayTypeId::Void.is_void());
    assert!(!ArrayTypeId::U8.is_void());

    let bytes = [13u8, 200];
    let mut offset = 0;
    assert_eq!(RootTypeId::decode_next(&bytes, &mut offset), Ok(RootTypeId::IntU8));
    assert_eq!(offset, 1);
    assert_eq!(RootTypeId::decode_next(&bytes, &mut offset), Err(DecodeError::InvalidFormat));
    assert_eq!(offset, 1);
}
