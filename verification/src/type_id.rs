//! The one-byte ids that tell what kind of value follows in a document.
use vstd::prelude::*;
use crate::error::{DecodeError, DecodeResult};

verus! {

/// A kind of value, as stored in one byte. Every kind has a `Void` id for a
/// value with no content.
pub trait TypeId: Sized + Copy {
    /// The id of a value with no content.
    spec fn void_id() -> Self;

    /// The byte that stands for an id.
    spec fn byte_of(self) -> u8;

    /// The id of a value with no content.
    fn void() -> (id: Self)
        ensures
            id == Self::void_id(),
    ;

    /// The byte that stands for this id.
    fn id_byte(self) -> (byte: u8)
        ensures
            byte == self.byte_of(),
    ;
}

/// The kind of a value at the root of a document, or outside any array.
#[derive(PartialEq, Eq, Structural, Debug, Copy, Clone)]
pub enum RootTypeId {
    Void,
    Tuple2,
    Tuple3,
    Tuple4,
    Tuple5,
    Tuple6,
    Tuple7,
    Tuple8,
    TupleN,
    Obj0,
    Obj1,
    Obj2,
    Obj3,
    Obj4,
    Obj5,
    Obj6,
    Obj7,
    Obj8,
    ObjN,
    Array0,
    Array1,
    ArrayN,
    True,
    False,
    IntU64,
    IntU56,
    IntU48,
    IntU40,
    IntU32,
    IntU24,
    IntU16,
    IntU8,
    IntS64,
    IntS56,
    IntS48,
    IntS40,
    IntS32,
    IntS24,
    IntS16,
    IntS8,
    Zero,
    One,
    NegOne,
    F32,
    F64,
    NaN,
    Str0,
    Str1,
    Str2,
    Str3,
    Str,
    Enum,
    Mapping,
}

/// The byte that stands for each `RootTypeId` in a document.
pub open spec fn root_type_id_byte(id: RootTypeId) -> u8 {
    match id {
        RootTypeId::Void => 0,
        RootTypeId::Tuple2 => 100,
        RootTypeId::Tuple3 => 101,
        RootTypeId::Tuple4 => 102,
        RootTypeId::Tuple5 => 103,
        RootTypeId::Tuple6 => 104,
        RootTypeId::Tuple7 => 105,
        RootTypeId::Tuple8 => 106,
        RootTypeId::TupleN => 107,
        RootTypeId::Obj0 => 108,
        RootTypeId::Obj1 => 109,
        RootTypeId::Obj2 => 110,
        RootTypeId::Obj3 => 111,
        RootTypeId::Obj4 => 112,
        RootTypeId::Obj5 => 113,
        RootTypeId::Obj6 => 114,
        RootTypeId::Obj7 => 115,
        RootTypeId::Obj8 => 116,
        RootTypeId::ObjN => 117,
        RootTypeId::Array0 => 1,
        RootTypeId::Array1 => 2,
        RootTypeId::ArrayN => 3,
        RootTypeId::True => 4,
        RootTypeId::False => 5,
        RootTypeId::IntU64 => 6,
        RootTypeId::IntU56 => 7,
        RootTypeId::IntU48 => 8,
        RootTypeId::IntU40 => 9,
        RootTypeId::IntU32 => 10,
        RootTypeId::IntU24 => 11,
        RootTypeId::IntU16 => 12,
        RootTypeId::IntU8 => 13,
        RootTypeId::IntS64 => 14,
        RootTypeId::IntS56 => 15,
        RootTypeId::IntS48 => 16,
        RootTypeId::IntS40 => 17,
        RootTypeId::IntS32 => 18,
        RootTypeId::IntS24 => 19,
        RootTypeId::IntS16 => 20,
        RootTypeId::IntS8 => 21,
        RootTypeId::Zero => 22,
        RootTypeId::One => 23,
        RootTypeId::NegOne => 24,
        RootTypeId::F32 => 25,
        RootTypeId::F64 => 26,
        RootTypeId::NaN => 27,
        RootTypeId::Str0 => 28,
        RootTypeId::Str1 => 29,
        RootTypeId::Str2 => 30,
        RootTypeId::Str3 => 31,
        RootTypeId::Str => 32,
        RootTypeId::Enum => 33,
        RootTypeId::Mapping => 34,
    }
}

/// The `RootTypeId` that a byte stands for, if any.
pub open spec fn root_type_id_of(byte: u8) -> Option<RootTypeId> {
    match byte {
        0 => Some(RootTypeId::Void),
        1 => Some(RootTypeId::Array0),
        2 => Some(RootTypeId::Array1),
        3 => Some(RootTypeId::ArrayN),
        4 => Some(RootTypeId::True),
        5 => Some(RootTypeId::False),
        6 => Some(RootTypeId::IntU64),
        7 => Some(RootTypeId::IntU56),
        8 => Some(RootTypeId::IntU48),
        9 => Some(RootTypeId::IntU40),
        10 => Some(RootTypeId::IntU32),
        11 => Some(RootTypeId::IntU24),
        12 => Some(RootTypeId::IntU16),
        13 => Some(RootTypeId::IntU8),
        14 => Some(RootTypeId::IntS64),
        15 => Some(RootTypeId::IntS56),
        16 => Some(RootTypeId::IntS48),
        17 => Some(RootTypeId::IntS40),
        18 => Some(RootTypeId::IntS32),
        19 => Some(RootTypeId::IntS24),
        20 => Some(RootTypeId::IntS16),
        21 => Some(RootTypeId::IntS8),
        22 => Some(RootTypeId::Zero),
        23 => Some(RootTypeId::One),
        24 => Some(RootTypeId::NegOne),
        25 => Some(RootTypeId::F32),
        26 => Some(RootTypeId::F64),
        27 => Some(RootTypeId::NaN),
        28 => Some(RootTypeId::Str0),
        29 => Some(RootTypeId::Str1),
        30 => Some(RootTypeId::Str2),
        31 => Some(RootTypeId::Str3),
        32 => Some(RootTypeId::Str),
        33 => Some(RootTypeId::Enum),
        34 => Some(RootTypeId::Mapping),
        100 => Some(RootTypeId::Tuple2),
        101 => Some(RootTypeId::Tuple3),
        102 => Some(RootTypeId::Tuple4),
        103 => Some(RootTypeId::Tuple5),
        104 => Some(RootTypeId::Tuple6),
        105 => Some(RootTypeId::Tuple7),
        106 => Some(RootTypeId::Tuple8),
        107 => Some(RootTypeId::TupleN),
        108 => Some(RootTypeId::Obj0),
        109 => Some(RootTypeId::Obj1),
        110 => Some(RootTypeId::Obj2),
        111 => Some(RootTypeId::Obj3),
        112 => Some(RootTypeId::Obj4),
        113 => Some(RootTypeId::Obj5),
        114 => Some(RootTypeId::Obj6),
        115 => Some(RootTypeId::Obj7),
        116 => Some(RootTypeId::Obj8),
        117 => Some(RootTypeId::ObjN),
        _ => None,
    }
}

impl RootTypeId {
    /// The byte that stands for this id.
    pub fn to_u8(self) -> (byte: u8)
        ensures
            byte == root_type_id_byte(self),
    {
        match self {
            RootTypeId::Void => 0,
            RootTypeId::Tuple2 => 100,
            RootTypeId::Tuple3 => 101,
            RootTypeId::Tuple4 => 102,
            RootTypeId::Tuple5 => 103,
            RootTypeId::Tuple6 => 104,
            RootTypeId::Tuple7 => 105,
            RootTypeId::Tuple8 => 106,
            RootTypeId::TupleN => 107,
            RootTypeId::Obj0 => 108,
            RootTypeId::Obj1 => 109,
            RootTypeId::Obj2 => 110,
            RootTypeId::Obj3 => 111,
            RootTypeId::Obj4 => 112,
            RootTypeId::Obj5 => 113,
            RootTypeId::Obj6 => 114,
            RootTypeId::Obj7 => 115,
            RootTypeId::Obj8 => 116,
            RootTypeId::ObjN => 117,
            RootTypeId::Array0 => 1,
            RootTypeId::Array1 => 2,
            RootTypeId::ArrayN => 3,
            RootTypeId::True => 4,
            RootTypeId::False => 5,
            RootTypeId::IntU64 => 6,
            RootTypeId::IntU56 => 7,
            RootTypeId::IntU48 => 8,
            RootTypeId::IntU40 => 9,
            RootTypeId::IntU32 => 10,
            RootTypeId::IntU24 => 11,
            RootTypeId::IntU16 => 12,
            RootTypeId::IntU8 => 13,
            RootTypeId::IntS64 => 14,
            RootTypeId::IntS56 => 15,
            RootTypeId::IntS48 => 16,
            RootTypeId::IntS40 => 17,
            RootTypeId::IntS32 => 18,
            RootTypeId::IntS24 => 19,
            RootTypeId::IntS16 => 20,
            RootTypeId::IntS8 => 21,
            RootTypeId::Zero => 22,
            RootTypeId::One => 23,
            RootTypeId::NegOne => 24,
            RootTypeId::F32 => 25,
            RootTypeId::F64 => 26,
            RootTypeId::NaN => 27,
            RootTypeId::Str0 => 28,
            RootTypeId::Str1 => 29,
            RootTypeId::Str2 => 30,
            RootTypeId::Str3 => 31,
            RootTypeId::Str => 32,
            RootTypeId::Enum => 33,
            RootTypeId::Mapping => 34,
        }
    }

    /// The id that `byte` stands for; an unknown byte is an invalid document.
    pub fn from_u8(byte: u8) -> (result: DecodeResult<RootTypeId>)
        ensures
            result == (match root_type_id_of(byte) {
                Some(id) => Ok::<RootTypeId, DecodeError>(id),
                None => Err(DecodeError::InvalidFormat),
            }),
    {
        match byte {
            0 => Ok(RootTypeId::Void),
            1 => Ok(RootTypeId::Array0),
            2 => Ok(RootTypeId::Array1),
            3 => Ok(RootTypeId::ArrayN),
            4 => Ok(RootTypeId::True),
            5 => Ok(RootTypeId::False),
            6 => Ok(RootTypeId::IntU64),
            7 => Ok(RootTypeId::IntU56),
            8 => Ok(RootTypeId::IntU48),
            9 => Ok(RootTypeId::IntU40),
            10 => Ok(RootTypeId::IntU32),
            11 => Ok(RootTypeId::IntU24),
            12 => Ok(RootTypeId::IntU16),
            13 => Ok(RootTypeId::IntU8),
            14 => Ok(RootTypeId::IntS64),
            15 => Ok(RootTypeId::IntS56),
            16 => Ok(RootTypeId::IntS48),
            17 => Ok(RootTypeId::IntS40),
            18 => Ok(RootTypeId::IntS32),
            19 => Ok(RootTypeId::IntS24),
            20 => Ok(RootTypeId::IntS16),
            21 => Ok(RootTypeId::IntS8),
            22 => Ok(RootTypeId::Zero),
            23 => Ok(RootTypeId::One),
            24 => Ok(RootTypeId::NegOne),
            25 => Ok(RootTypeId::F32),
            26 => Ok(RootTypeId::F64),
            27 => Ok(RootTypeId::NaN),
            28 => Ok(RootTypeId::Str0),
            29 => Ok(RootTypeId::Str1),
            30 => Ok(RootTypeId::Str2),
            31 => Ok(RootTypeId::Str3),
            32 => Ok(RootTypeId::Str),
            33 => Ok(RootTypeId::Enum),
            34 => Ok(RootTypeId::Mapping),
            100 => Ok(RootTypeId::Tuple2),
            101 => Ok(RootTypeId::Tuple3),
            102 => Ok(RootTypeId::Tuple4),
            103 => Ok(RootTypeId::Tuple5),
            104 => Ok(RootTypeId::Tuple6),
            105 => Ok(RootTypeId::Tuple7),
            106 => Ok(RootTypeId::Tuple8),
            107 => Ok(RootTypeId::TupleN),
            108 => Ok(RootTypeId::Obj0),
            109 => Ok(RootTypeId::Obj1),
            110 => Ok(RootTypeId::Obj2),
            111 => Ok(RootTypeId::Obj3),
            112 => Ok(RootTypeId::Obj4),
            113 => Ok(RootTypeId::Obj5),
            114 => Ok(RootTypeId::Obj6),
            115 => Ok(RootTypeId::Obj7),
            116 => Ok(RootTypeId::Obj8),
            117 => Ok(RootTypeId::ObjN),
            _ => Err(DecodeError::InvalidFormat),
        }
    }

    /// Reads the id at `*offset` and moves past it. Fails, leaving `*offset`
    /// as it was, at the end of the bytes or on an unknown byte.
    pub fn decode_next(bytes: &[u8], offset: &mut usize) -> (result: DecodeResult<RootTypeId>)
        ensures
            *old(offset) < bytes@.len() && root_type_id_of(bytes@[*old(offset) as int]) is Some ==> result == Ok::<RootTypeId, DecodeError>(root_type_id_of(bytes@[*old(offset) as int])->0) && *final(offset) == *old(offset) + 1,
            !(*old(offset) < bytes@.len() && root_type_id_of(bytes@[*old(offset) as int]) is Some) ==> result == Err::<RootTypeId, DecodeError>(DecodeError::InvalidFormat) && *final(offset) == *old(offset),
    {
        if *offset >= bytes.len() {
            return Err(DecodeError::InvalidFormat);
        }
        let next = bytes[*offset];
        let id = RootTypeId::from_u8(next)?;
        *offset = *offset + 1;
        Ok(id)
    }

    /// Whether this is the id of an empty value.
    pub fn is_void(self) -> (result: bool)
        ensures
            result == (self == RootTypeId::Void),
    {
        match self {
            RootTypeId::Void => true,
            _ => false,
        }
    }
}

impl TypeId for RootTypeId {
    open spec fn void_id() -> Self {
        RootTypeId::Void
    }

    open spec fn byte_of(self) -> u8 {
        root_type_id_byte(self)
    }

    fn void() -> (id: Self) {
        RootTypeId::Void
    }

    fn id_byte(self) -> (byte: u8) {
        self.to_u8()
    }
}

impl From<RootTypeId> for u8 {
    fn from(id: RootTypeId) -> (byte: u8) {
        id.to_u8()
    }
}

impl vstd::std_specs::convert::FromSpecImpl<RootTypeId> for u8 {
    open spec fn obeys_from_spec() -> bool {
        true
    }

    open spec fn from_spec(id: RootTypeId) -> u8 {
        root_type_id_byte(id)
    }
}

/// Every byte that stands for an id stands for the id whose byte it is, and
/// every id reads back from its byte.
pub proof fn lemma_root_type_id_byte_round_trip(byte: u8, id: RootTypeId)
    ensures
        root_type_id_of(byte) matches Some(found) ==> root_type_id_byte(found) == byte,
        root_type_id_of(root_type_id_byte(id)) == Some(id),
{
}

/// The kind and encoding of a column of values inside an array.
#[derive(PartialEq, Eq, Structural, Debug, Copy, Clone)]
pub enum ArrayTypeId {
    Void,
    Tuple2,
    Tuple3,
    Tuple4,
    Tuple5,
    Tuple6,
    Tuple7,
    Tuple8,
    TupleN,
    Obj0,
    Obj1,
    Obj2,
    Obj3,
    Obj4,
    Obj5,
    Obj6,
    Obj7,
    Obj8,
    ObjN,
    Nullable,
    ArrayVar,
    PackedBool,
    IntSimple16,
    IntPrefixVar,
    F32,
    F64,
    Utf8,
    DoubleGorilla,
    Mapping,
    Enum,
    ArrayFixed,
    U8,
    RLE,
    Zfp32,
    Zfp64,
    Dictionary,
    RLEBoolTrue,
    RLEBoolFalse,
}

/// The byte that stands for each `ArrayTypeId` in a document.
pub open spec fn array_type_id_byte(id: ArrayTypeId) -> u8 {
    match id {
        ArrayTypeId::Void => 0,
        ArrayTypeId::Tuple2 => 100,
        ArrayTypeId::Tuple3 => 101,
        ArrayTypeId::Tuple4 => 102,
        ArrayTypeId::Tuple5 => 103,
        ArrayTypeId::Tuple6 => 104,
        ArrayTypeId::Tuple7 => 105,
        ArrayTypeId::Tuple8 => 106,
        ArrayTypeId::TupleN => 107,
        ArrayTypeId::Obj0 => 108,
        ArrayTypeId::Obj1 => 109,
        ArrayTypeId::Obj2 => 110,
        ArrayTypeId::Obj3 => 111,
        ArrayTypeId::Obj4 => 112,
        ArrayTypeId::Obj5 => 113,
        ArrayTypeId::Obj6 => 114,
        ArrayTypeId::Obj7 => 115,
        ArrayTypeId::Obj8 => 116,
        ArrayTypeId::ObjN => 117,
        ArrayTypeId::Nullable => 1,
        ArrayTypeId::ArrayVar => 2,
        ArrayTypeId::PackedBool => 3,
        ArrayTypeId::IntSimple16 => 4,
        ArrayTypeId::IntPrefixVar => 5,
        ArrayTypeId::F32 => 6,
        ArrayTypeId::F64 => 7,
        ArrayTypeId::Utf8 => 8,
        ArrayTypeId::DoubleGorilla => 9,
        ArrayTypeId::Mapping => 10,
        ArrayTypeId::Enum => 11,
        ArrayTypeId::ArrayFixed => 12,
        ArrayTypeId::U8 => 13,
        ArrayTypeId::RLE => 14,
        ArrayTypeId::Zfp32 => 15,
        ArrayTypeId::Zfp64 => 16,
        ArrayTypeId::Dictionary => 17,
        ArrayTypeId::RLEBoolTrue => 18,
        ArrayTypeId::RLEBoolFalse => 19,
    }
}

/// The `ArrayTypeId` that a byte stands for, if any.
pub open spec fn array_type_id_of(byte: u8) -> Option<ArrayTypeId> {
    match byte {
        0 => Some(ArrayTypeId::Void),
        1 => Some(ArrayTypeId::Nullable),
        2 => Some(ArrayTypeId::ArrayVar),
        3 => Some(ArrayTypeId::PackedBool),
        4 => Some(ArrayTypeId::IntSimple16),
        5 => Some(ArrayTypeId::IntPrefixVar),
        6 => Some(ArrayTypeId::F32),
        7 => Some(ArrayTypeId::F64),
        8 => Some(ArrayTypeId::Utf8),
        9 => Some(ArrayTypeId::DoubleGorilla),
        10 => Some(ArrayTypeId::Mapping),
        11 => Some(ArrayTypeId::Enum),
        12 => Some(ArrayTypeId::ArrayFixed),
        13 => Some(ArrayTypeId::U8),
        14 => Some(ArrayTypeId::RLE),
        15 => Some(ArrayTypeId::Zfp32),
        16 => Some(ArrayTypeId::Zfp64),
        17 => Some(ArrayTypeId::Dictionary),
        18 => Some(ArrayTypeId::RLEBoolTrue),
        19 => Some(ArrayTypeId::RLEBoolFalse),
        100 => Some(ArrayTypeId::Tuple2),
        101 => Some(ArrayTypeId::Tuple3),
        102 => Some(ArrayTypeId::Tuple4),
        103 => Some(ArrayTypeId::Tuple5),
        104 => Some(ArrayTypeId::Tuple6),
        105 => Some(ArrayTypeId::Tuple7),
        106 => Some(ArrayTypeId::Tuple8),
        107 => Some(ArrayTypeId::TupleN),
        108 => Some(ArrayTypeId::Obj0),
        109 => Some(ArrayTypeId::Obj1),
        110 => Some(ArrayTypeId::Obj2),
        111 => Some(ArrayTypeId::Obj3),
        112 => Some(ArrayTypeId::Obj4),
        113 => Some(ArrayTypeId::Obj5),
        114 => Some(ArrayTypeId::Obj6),
        115 => Some(ArrayTypeId::Obj7),
        116 => Some(ArrayTypeId::Obj8),
        117 => Some(ArrayTypeId::ObjN),
        _ => None,
    }
}

impl ArrayTypeId {
    /// The byte that stands for this id.
    pub fn to_u8(self) -> (byte: u8)
        ensures
            byte == array_type_id_byte(self),
    {
        match self {
            ArrayTypeId::Void => 0,
            ArrayTypeId::Tuple2 => 100,
            ArrayTypeId::Tuple3 => 101,
            ArrayTypeId::Tuple4 => 102,
            ArrayTypeId::Tuple5 => 103,
            ArrayTypeId::Tuple6 => 104,
            ArrayTypeId::Tuple7 => 105,
            ArrayTypeId::Tuple8 => 106,
            ArrayTypeId::TupleN => 107,
            ArrayTypeId::Obj0 => 108,
            ArrayTypeId::Obj1 => 109,
            ArrayTypeId::Obj2 => 110,
            ArrayTypeId::Obj3 => 111,
            ArrayTypeId::Obj4 => 112,
            ArrayTypeId::Obj5 => 113,
            ArrayTypeId::Obj6 => 114,
            ArrayTypeId::Obj7 => 115,
            ArrayTypeId::Obj8 => 116,
            ArrayTypeId::ObjN => 117,
            ArrayTypeId::Nullable => 1,
            ArrayTypeId::ArrayVar => 2,
            ArrayTypeId::PackedBool => 3,
            ArrayTypeId::IntSimple16 => 4,
            ArrayTypeId::IntPrefixVar => 5,
            ArrayTypeId::F32 => 6,
            ArrayTypeId::F64 => 7,
            ArrayTypeId::Utf8 => 8,
            ArrayTypeId::DoubleGorilla => 9,
            ArrayTypeId::Mapping => 10,
            ArrayTypeId::Enum => 11,
            ArrayTypeId::ArrayFixed => 12,
            ArrayTypeId::U8 => 13,
            ArrayTypeId::RLE => 14,
            ArrayTypeId::Zfp32 => 15,
            ArrayTypeId::Zfp64 => 16,
            ArrayTypeId::Dictionary => 17,
            ArrayTypeId::RLEBoolTrue => 18,
            ArrayTypeId::RLEBoolFalse => 19,
        }
    }

    /// The id that `byte` stands for; an unknown byte is an invalid document.
    pub fn from_u8(byte: u8) -> (result: DecodeResult<ArrayTypeId>)
        ensures
            result == (match array_type_id_of(byte) {
                Some(id) => Ok::<ArrayTypeId, DecodeError>(id),
                None => Err(DecodeError::InvalidFormat),
            }),
    {
        match byte {
            0 => Ok(ArrayTypeId::Void),
            1 => Ok(ArrayTypeId::Nullable),
            2 => Ok(ArrayTypeId::ArrayVar),
            3 => Ok(ArrayTypeId::PackedBool),
            4 => Ok(ArrayTypeId::IntSimple16),
            5 => Ok(ArrayTypeId::IntPrefixVar),
            6 => Ok(ArrayTypeId::F32),
            7 => Ok(ArrayTypeId::F64),
            8 => Ok(ArrayTypeId::Utf8),
            9 => Ok(ArrayTypeId::DoubleGorilla),
            10 => Ok(ArrayTypeId::Mapping),
            11 => Ok(ArrayTypeId::Enum),
            12 => Ok(ArrayTypeId::ArrayFixed),
            13 => Ok(ArrayTypeId::U8),
            14 => Ok(ArrayTypeId::RLE),
            15 => Ok(ArrayTypeId::Zfp32),
            16 => Ok(ArrayTypeId::Zfp64),
            17 => Ok(ArrayTypeId::Dictionary),
            18 => Ok(ArrayTypeId::RLEBoolTrue),
            19 => Ok(ArrayTypeId::RLEBoolFalse),
            100 => Ok(ArrayTypeId::Tuple2),
            101 => Ok(ArrayTypeId::Tuple3),
            102 => Ok(ArrayTypeId::Tuple4),
            103 => Ok(ArrayTypeId::Tuple5),
            104 => Ok(ArrayTypeId::Tuple6),
            105 => Ok(ArrayTypeId::Tuple7),
            106 => Ok(ArrayTypeId::Tuple8),
            107 => Ok(ArrayTypeId::TupleN),
            108 => Ok(ArrayTypeId::Obj0),
            109 => Ok(ArrayTypeId::Obj1),
            110 => Ok(ArrayTypeId::Obj2),
            111 => Ok(ArrayTypeId::Obj3),
            112 => Ok(ArrayTypeId::Obj4),
            113 => Ok(ArrayTypeId::Obj5),
            114 => Ok(ArrayTypeId::Obj6),
            115 => Ok(ArrayTypeId::Obj7),
            116 => Ok(ArrayTypeId::Obj8),
            117 => Ok(ArrayTypeId::ObjN),
            _ => Err(DecodeError::InvalidFormat),
        }
    }

    /// Reads the id at `*offset` and moves past it. Fails, leaving `*offset`
    /// as it was, at the end of the bytes or on an unknown byte.
    pub fn decode_next(bytes: &[u8], offset: &mut usize) -> (result: DecodeResult<ArrayTypeId>)
        ensures
            *old(offset) < bytes@.len() && array_type_id_of(bytes@[*old(offset) as int]) is Some ==> result == Ok::<ArrayTypeId, DecodeError>(array_type_id_of(bytes@[*old(offset) as int])->0) && *final(offset) == *old(offset) + 1,
            !(*old(offset) < bytes@.len() && array_type_id_of(bytes@[*old(offset) as int]) is Some) ==> result == Err::<ArrayTypeId, DecodeError>(DecodeError::InvalidFormat) && *final(offset) == *old(offset),
    {
        if *offset >= bytes.len() {
            return Err(DecodeError::InvalidFormat);
        }
        let next = bytes[*offset];
        let id = ArrayTypeId::from_u8(next)?;
        *offset = *offset + 1;
        Ok(id)
    }

    /// Whether this is the id of an empty value.
    pub fn is_void(self) -> (result: bool)
        ensures
            result == (self == ArrayTypeId::Void),
    {
        match self {
            ArrayTypeId::Void => true,
            _ => false,
        }
    }
}

impl TypeId for ArrayTypeId {
    open spec fn void_id() -> Self {
        ArrayTypeId::Void
    }

    open spec fn byte_of(self) -> u8 {
        array_type_id_byte(self)
    }

    fn void() -> (id: Self) {
        ArrayTypeId::Void
    }

    fn id_byte(self) -> (byte: u8) {
        self.to_u8()
    }
}

impl From<ArrayTypeId> for u8 {
    fn from(id: ArrayTypeId) -> (byte: u8) {
        id.to_u8()
    }
}

impl vstd::std_specs::convert::FromSpecImpl<ArrayTypeId> for u8 {
    open spec fn obeys_from_spec() -> bool {
        true
    }

    open spec fn from_spec(id: ArrayTypeId) -> u8 {
        array_type_id_byte(id)
    }
}

/// Every byte that stands for an id stands for the id whose byte it is, and
/// every id reads back from its byte.
pub proof fn lemma_array_type_id_byte_round_trip(byte: u8, id: ArrayTypeId)
    ensures
        array_type_id_of(byte) matches Some(found) ==> array_type_id_byte(found) == byte,
        array_type_id_of(array_type_id_byte(id)) == Some(id),
{
}

} // verus!
