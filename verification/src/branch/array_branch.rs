//! The branches of a document inside an array: each holds a whole column
//! of values, with its data bytes kept in place.
use vstd::prelude::*;
use vstd::string::StringSliceAdditionalSpecFns;
use crate::branch::{
    cursor, decode_bytes, decode_bytes_spec, decode_ident, decode_ident_spec, decode_usize,
    distinct_names, insert_field, same_ident, Ident,
};
use crate::encodings::varint::{decode_prefix_spec, decode_suffix_spec, decode_suffix_varint};
use crate::error::{DecodeError, DecodeResult};
use crate::type_id::{array_type_id_of, ArrayTypeId};

verus! {

/// A run of bytes of the document.
pub struct Bytes<'a>(pub &'a [u8]);

impl<'a> View for Bytes<'a> {
    type V = Seq<u8>;

    open spec fn view(&self) -> Seq<u8> {
        self.0@
    }
}

impl<'a> From<&'a [u8]> for Bytes<'a> {
    fn from(bytes: &'a [u8]) -> (wrapped: Bytes<'a>) {
        Bytes(bytes)
    }
}

impl<'a> vstd::std_specs::convert::FromSpecImpl<&'a [u8]> for Bytes<'a> {
    open spec fn obeys_from_spec() -> bool {
        true
    }

    open spec fn from_spec(bytes: &'a [u8]) -> Bytes<'a> {
        Bytes(bytes)
    }
}

impl<'a> Bytes<'a> {
    /// The bytes held.
    pub fn as_slice(&self) -> (bytes: &'a [u8])
        ensures
            bytes@ == self@,
    {
        self.0
    }

    /// The number of bytes held.
    pub fn len(&self) -> (len: usize)
        ensures
            len == self@.len(),
    {
        self.0.len()
    }
}

/// How the floats of a column are stored.
#[derive(PartialEq, Eq, Structural, Debug, Copy, Clone)]
pub enum FloatEncoding {
    F64,
    F32,
    DoubleGorilla,
    Zfp32,
    Zfp64,
}

/// A column of floats: its bytes, in one of the float encodings.
pub enum ArrayFloat<'a> {
    F64(Bytes<'a>),
    F32(Bytes<'a>),
    DoubleGorilla(Bytes<'a>),
    Zfp32(Bytes<'a>),
    Zfp64(Bytes<'a>),
}

/// A column of booleans: packed eight to a byte, or as runs that start with
/// the given value.
pub enum ArrayBool<'a> {
    Packed(Bytes<'a>),
    RLE(bool, Box<DynArrayBranch<'a>>),
}

/// One variant of an enum column: its name and the column of its data.
pub struct ArrayEnumVariant<'a> {
    pub ident: Ident<'a>,
    pub data: DynArrayBranch<'a>,
}

/// How the integers of a column are stored.
#[derive(PartialEq, Eq, Structural, Debug, Copy, Clone)]
pub enum ArrayIntegerEncoding {
    PrefixVarInt,
    Simple16,
    U8,
}

/// A column of integers: its bytes and their encoding.
pub struct ArrayInteger<'a> {
    pub bytes: Bytes<'a>,
    pub encoding: ArrayIntegerEncoding,
}

/// A branch inside an array context. Objects list their fields, each name
/// once, in the order the names first occur.
pub enum DynArrayBranch<'a> {
    Object { fields: Vec<(Ident<'a>, DynArrayBranch<'a>)> },
    Tuple { fields: Vec<DynArrayBranch<'a>> },
    Array0,
    Array { len: Box<DynArrayBranch<'a>>, values: Box<DynArrayBranch<'a>> },
    ArrayFixed { len: usize, values: Box<DynArrayBranch<'a>> },
    Map0,
    Mapping {
        len: Box<DynArrayBranch<'a>>,
        keys: Box<DynArrayBranch<'a>>,
        values: Box<DynArrayBranch<'a>>,
    },
    Integer(ArrayInteger<'a>),
    Nullable { opt: Box<DynArrayBranch<'a>>, values: Box<DynArrayBranch<'a>> },
    Boolean(ArrayBool<'a>),
    Float(ArrayFloat<'a>),
    Void,
    String(Bytes<'a>),
    Enum { discriminants: Box<DynArrayBranch<'a>>, variants: Vec<ArrayEnumVariant<'a>> },
    RLE { runs: Box<DynArrayBranch<'a>>, values: Box<DynArrayBranch<'a>> },
    Dictionary { indices: Box<DynArrayBranch<'a>>, values: Box<DynArrayBranch<'a>> },
}

/// The content of a `DynArrayBranch`, with bytes and names as byte
/// sequences.
pub enum ArrayNode {
    Object(Seq<(Seq<u8>, ArrayNode)>),
    Tuple(Seq<ArrayNode>),
    Array0,
    Array(Box<ArrayNode>, Box<ArrayNode>),
    ArrayFixed(usize, Box<ArrayNode>),
    Map0,
    Mapping(Box<ArrayNode>, Box<ArrayNode>, Box<ArrayNode>),
    Integer(Seq<u8>, ArrayIntegerEncoding),
    Nullable(Box<ArrayNode>, Box<ArrayNode>),
    PackedBool(Seq<u8>),
    RLEBool(bool, Box<ArrayNode>),
    Float(FloatEncoding, Seq<u8>),
    Void,
    String(Seq<u8>),
    Enum(Box<ArrayNode>, Seq<(Seq<u8>, ArrayNode)>),
    RLE(Box<ArrayNode>, Box<ArrayNode>),
    Dictionary(Box<ArrayNode>, Box<ArrayNode>),
}

impl<'a> DynArrayBranch<'a> {
    /// The content of this branch.
    pub open spec fn node(self) -> ArrayNode
        decreases self,
    {
        match self {
            DynArrayBranch::Object { fields } => ArrayNode::Object(
                Seq::new(
                    fields@.len(),
                    |i: int|
                        if 0 <= i < fields@.len() {
                            (fields@[i].0.spec_bytes(), fields@[i].1.node())
                        } else {
                            (Seq::empty(), ArrayNode::Void)
                        },
                ),
            ),
            DynArrayBranch::Tuple { fields } => ArrayNode::Tuple(
                Seq::new(
                    fields@.len(),
                    |i: int|
                        if 0 <= i < fields@.len() {
                            fields@[i].node()
                        } else {
                            ArrayNode::Void
                        },
                ),
            ),
            DynArrayBranch::Array0 => ArrayNode::Array0,
            DynArrayBranch::Array { len, values } => ArrayNode::Array(
                Box::new((*len).node()),
                Box::new((*values).node()),
            ),
            DynArrayBranch::ArrayFixed { len, values } => ArrayNode::ArrayFixed(
                len,
                Box::new((*values).node()),
            ),
            DynArrayBranch::Map0 => ArrayNode::Map0,
            DynArrayBranch::Mapping { len, keys, values } => ArrayNode::Mapping(
                Box::new((*len).node()),
                Box::new((*keys).node()),
                Box::new((*values).node()),
            ),
            DynArrayBranch::Integer(ints) => ArrayNode::Integer(ints.bytes@, ints.encoding),
            DynArrayBranch::Nullable { opt, values } => ArrayNode::Nullable(
                Box::new((*opt).node()),
                Box::new((*values).node()),
            ),
            DynArrayBranch::Boolean(ArrayBool::Packed(bytes)) => ArrayNode::PackedBool(bytes@),
            DynArrayBranch::Boolean(ArrayBool::RLE(first, runs)) => ArrayNode::RLEBool(
                first,
                Box::new((*runs).node()),
            ),
            DynArrayBranch::Float(ArrayFloat::F64(bytes)) => ArrayNode::Float(FloatEncoding::F64, bytes@),
            DynArrayBranch::Float(ArrayFloat::F32(bytes)) => ArrayNode::Float(FloatEncoding::F32, bytes@),
            DynArrayBranch::Float(ArrayFloat::DoubleGorilla(bytes)) => ArrayNode::Float(
                FloatEncoding::DoubleGorilla,
                bytes@,
            ),
            DynArrayBranch::Float(ArrayFloat::Zfp32(bytes)) => ArrayNode::Float(
                FloatEncoding::Zfp32,
                bytes@,
            ),
            DynArrayBranch::Float(ArrayFloat::Zfp64(bytes)) => ArrayNode::Float(
                FloatEncoding::Zfp64,
                bytes@,
            ),
            DynArrayBranch::Void => ArrayNode::Void,
            DynArrayBranch::String(bytes) => ArrayNode::String(bytes@),
            DynArrayBranch::Enum { discriminants, variants } => ArrayNode::Enum(
                Box::new((*discriminants).node()),
                Seq::new(
                    variants@.len(),
                    |i: int|
                        if 0 <= i < variants@.len() {
                            (variants@[i].ident.spec_bytes(), variants@[i].data.node())
                        } else {
                            (Seq::empty(), ArrayNode::Void)
                        },
                ),
            ),
            DynArrayBranch::RLE { runs, values } => ArrayNode::RLE(
                Box::new((*runs).node()),
                Box::new((*values).node()),
            ),
            DynArrayBranch::Dictionary { indices, values } => ArrayNode::Dictionary(
                Box::new((*indices).node()),
                Box::new((*values).node()),
            ),
        }
    }

    /// An empty branch.
    pub fn default() -> (branch: Self)
        ensures
            branch.node() == ArrayNode::Void,
    {
        DynArrayBranch::Void
    }
}

/// The contents of a list of branches.
pub open spec fn array_nodes<'a>(branches: Seq<DynArrayBranch<'a>>) -> Seq<ArrayNode> {
    Seq::new(branches.len(), |i: int| branches[i].node())
}

/// The contents of a list of named branches.
pub open spec fn named_array_nodes<'a>(fields: Seq<(Ident<'a>, DynArrayBranch<'a>)>) -> Seq<(Seq<u8>, ArrayNode)> {
    Seq::new(fields.len(), |i: int| (fields[i].0.spec_bytes(), fields[i].1.node()))
}

/// The contents of a list of enum variants.
pub open spec fn variant_nodes<'a>(variants: Seq<ArrayEnumVariant<'a>>) -> Seq<(Seq<u8>, ArrayNode)> {
    Seq::new(variants.len(), |i: int| (variants[i].ident.spec_bytes(), variants[i].data.node()))
}

// ---------------------------------------------------------------------------
// The grammar of array branches
// ---------------------------------------------------------------------------

/// A read that ended at `to` after starting at `from` moved forward and
/// stayed within the bytes.
pub open spec fn progress(bytes: Seq<u8>, from: int, to: int) -> bool {
    from < to <= bytes.len()
}

/// The number of children of the tuple and object ids with a fixed count.
pub open spec fn array_fixed_arity(id: ArrayTypeId) -> Option<nat> {
    match id {
        ArrayTypeId::Tuple2 => Some(2),
        ArrayTypeId::Tuple3 => Some(3),
        ArrayTypeId::Tuple4 => Some(4),
        ArrayTypeId::Tuple5 => Some(5),
        ArrayTypeId::Tuple6 => Some(6),
        ArrayTypeId::Tuple7 => Some(7),
        ArrayTypeId::Tuple8 => Some(8),
        ArrayTypeId::Obj0 => Some(0),
        ArrayTypeId::Obj1 => Some(1),
        ArrayTypeId::Obj2 => Some(2),
        ArrayTypeId::Obj3 => Some(3),
        ArrayTypeId::Obj4 => Some(4),
        ArrayTypeId::Obj5 => Some(5),
        ArrayTypeId::Obj6 => Some(6),
        ArrayTypeId::Obj7 => Some(7),
        ArrayTypeId::Obj8 => Some(8),
        _ => None,
    }
}

/// Whether an id is one of the tuple ids.
pub open spec fn is_tuple_id(id: ArrayTypeId) -> bool {
    id == ArrayTypeId::Tuple2 || id == ArrayTypeId::Tuple3 || id == ArrayTypeId::Tuple4 || id
        == ArrayTypeId::Tuple5 || id == ArrayTypeId::Tuple6 || id == ArrayTypeId::Tuple7 || id
        == ArrayTypeId::Tuple8 || id == ArrayTypeId::TupleN
}

/// A count stored as a prefix varint, plus 9: how `TupleN` and `ObjN` give
/// their number of children. Fails where the sum does not fit a `usize`.
pub open spec fn decode_count_spec(bytes: Seq<u8>, offset: int) -> Option<(usize, int)> {
    match decode_prefix_spec(bytes, offset) {
        Some((v, end)) => if (v as usize) as int + 9 <= usize::MAX {
            Some((((v as usize) as int + 9) as usize, end))
        } else {
            None
        },
        None => None,
    }
}

/// The bytes of a column: their length comes from the lengths cursor
/// (read backwards as a suffix varint), the bytes from `offset` on.
pub open spec fn decode_bytes_from_len_spec(bytes: Seq<u8>, offset: int, lens: int) -> Option<
    (Seq<u8>, int, int),
> {
    match decode_suffix_spec(bytes, lens) {
        Some((len, lens2)) => match decode_bytes_spec(bytes, offset, (len as usize) as int) {
            Some((data, end)) => Some((data, end, lens2)),
            None => None,
        },
        None => None,
    }
}

/// Reading the array branch whose type id is at `offset`, with the lengths
/// cursor at `lens`: the branch, the offset after it, and where the cursor
/// ends.
pub open spec fn decode_array_spec(bytes: Seq<u8>, offset: int, lens: int) -> Option<
    (ArrayNode, int, int),
>
    decreases bytes.len() - offset, 0int, 0int,
{
    if offset < 0 || offset >= bytes.len() {
        None
    } else {
        match array_type_id_of(bytes[offset]) {
            None => None,
            Some(id) => {
                let o = offset + 1;
                match id {
                    ArrayTypeId::Void => Some((ArrayNode::Void, o, lens)),
                    ArrayTypeId::Nullable => match decode_array_list_spec(bytes, o, lens, 2, Seq::empty()) {
                        Some((kids, end, l)) => Some(
                            (ArrayNode::Nullable(Box::new(kids[0]), Box::new(kids[1])), end, l),
                        ),
                        None => None,
                    },
                    ArrayTypeId::RLE => match decode_array_list_spec(bytes, o, lens, 2, Seq::empty()) {
                        Some((kids, end, l)) => Some(
                            (ArrayNode::RLE(Box::new(kids[1]), Box::new(kids[0])), end, l),
                        ),
                        None => None,
                    },
                    ArrayTypeId::Dictionary => match decode_array_list_spec(
                        bytes,
                        o,
                        lens,
                        2,
                        Seq::empty(),
                    ) {
                        Some((kids, end, l)) => Some(
                            (ArrayNode::Dictionary(Box::new(kids[1]), Box::new(kids[0])), end, l),
                        ),
                        None => None,
                    },
                    ArrayTypeId::ArrayVar => match decode_array_spec(bytes, o, lens) {
                        Some((len, o1, l1)) => if len == ArrayNode::Void {
                            Some((ArrayNode::Array0, o1, l1))
                        } else if !progress(bytes, offset, o1) {
                            None
                        } else {
                            match decode_array_spec(bytes, o1, l1) {
                                Some((values, end, l)) => Some(
                                    (ArrayNode::Array(Box::new(len), Box::new(values)), end, l),
                                ),
                                None => None,
                            }
                        },
                        None => None,
                    },
                    ArrayTypeId::Mapping => match decode_array_spec(bytes, o, lens) {
                        Some((len, o1, l1)) => if len == ArrayNode::Void {
                            Some((ArrayNode::Map0, o1, l1))
                        } else if !progress(bytes, offset, o1) {
                            None
                        } else {
                            match decode_array_list_spec(bytes, o1, l1, 2, Seq::empty()) {
                                Some((kids, end, l)) => Some(
                                    (
                                        ArrayNode::Mapping(
                                            Box::new(len),
                                            Box::new(kids[0]),
                                            Box::new(kids[1]),
                                        ),
                                        end,
                                        l,
                                    ),
                                ),
                                None => None,
                            }
                        },
                        None => None,
                    },
                    ArrayTypeId::ArrayFixed => match decode_prefix_spec(bytes, o) {
                        Some((len, o1)) => if !progress(bytes, offset, o1) {
                            None
                        } else {
                            match decode_array_spec(bytes, o1, lens) {
                                Some((values, end, l)) => Some(
                                    (ArrayNode::ArrayFixed(len as usize, Box::new(values)), end, l),
                                ),
                                None => None,
                            }
                        },
                        None => None,
                    },
                    ArrayTypeId::TupleN => match decode_count_spec(bytes, o) {
                        Some((count, o1)) => if !progress(bytes, offset, o1) {
                            None
                        } else {
                            match decode_array_list_spec(bytes, o1, lens, count as nat, Seq::empty()) {
                                Some((kids, end, l)) => Some((ArrayNode::Tuple(kids), end, l)),
                                None => None,
                            }
                        },
                        None => None,
                    },
                    ArrayTypeId::ObjN => match decode_count_spec(bytes, o) {
                        Some((count, o1)) => if !progress(bytes, offset, o1) {
                            None
                        } else {
                            match decode_array_fields_spec(bytes, o1, lens, count as nat, Seq::empty()) {
                                Some((fields, end, l)) => Some((ArrayNode::Object(fields), end, l)),
                                None => None,
                            }
                        },
                        None => None,
                    },
                    ArrayTypeId::Enum => match decode_prefix_spec(bytes, o) {
                        Some((count, o1)) => if !progress(bytes, offset, o1) {
                            None
                        } else {
                            match decode_array_spec(bytes, o1, lens) {
                                Some((discriminants, o2, l2)) => if !progress(bytes, offset, o2) {
                                    None
                                } else {
                                    match decode_array_variants_spec(
                                        bytes,
                                        o2,
                                        l2,
                                        (count as usize) as nat,
                                        Seq::empty(),
                                    ) {
                                        Some((variants, end, l)) => Some(
                                            (
                                                ArrayNode::Enum(Box::new(discriminants), variants),
                                                end,
                                                l,
                                            ),
                                        ),
                                        None => None,
                                    }
                                },
                                None => None,
                            }
                        },
                        None => None,
                    },
                    ArrayTypeId::RLEBoolTrue => match decode_array_spec(bytes, o, lens) {
                        Some((runs, end, l)) => Some((ArrayNode::RLEBool(true, Box::new(runs)), end, l)),
                        None => None,
                    },
                    ArrayTypeId::RLEBoolFalse => match decode_array_spec(bytes, o, lens) {
                        Some((runs, end, l)) => Some(
                            (ArrayNode::RLEBool(false, Box::new(runs)), end, l),
                        ),
                        None => None,
                    },
                    _ => match array_fixed_arity(id) {
                        Some(n) => if is_tuple_id(id) {
                            match decode_array_list_spec(bytes, o, lens, n, Seq::empty()) {
                                Some((kids, end, l)) => Some((ArrayNode::Tuple(kids), end, l)),
                                None => None,
                            }
                        } else {
                            match decode_array_fields_spec(bytes, o, lens, n, Seq::empty()) {
                                Some((fields, end, l)) => Some((ArrayNode::Object(fields), end, l)),
                                None => None,
                            }
                        },
                        None => match decode_bytes_from_len_spec(bytes, o, lens) {
                            Some((data, end, l)) => Some((leaf_node(id, data), end, l)),
                            None => None,
                        },
                    },
                }
            },
        }
    }
}

/// The columns of two parts are read part after part: the first part is
/// the branch right after the type id, the second the branch after that.
/// In a column that may lack values, the first part tells which items are
/// present and the second holds the values; in a run-length or dictionary
/// column, the first part holds the values and the second the runs or the
/// indices.
pub proof fn lemma_two_part_columns(bytes: Seq<u8>, offset: int, lens: int)
    requires
        0 <= offset < bytes.len(),
        array_type_id_of(bytes[offset]) == Some(ArrayTypeId::Nullable) || array_type_id_of(
            bytes[offset],
        ) == Some(ArrayTypeId::RLE) || array_type_id_of(bytes[offset]) == Some(
            ArrayTypeId::Dictionary,
        ),
    ensures
        match decode_array_spec(bytes, offset, lens) {
            None => true,
            Some((node, end, l)) => match decode_array_spec(bytes, offset + 1, lens) {
                None => false,
                Some((first, o1, l1)) => match decode_array_spec(bytes, o1, l1) {
                    None => false,
                    Some((second, o2, l2)) => {
                        &&& end == o2
                        &&& l == l2
                        &&& array_type_id_of(bytes[offset]) == Some(ArrayTypeId::Nullable) ==> node
                            == ArrayNode::Nullable(Box::new(first), Box::new(second))
                        &&& array_type_id_of(bytes[offset]) == Some(ArrayTypeId::RLE) ==> node
                            == ArrayNode::RLE(Box::new(second), Box::new(first))
                        &&& array_type_id_of(bytes[offset]) == Some(ArrayTypeId::Dictionary) ==> node
                            == ArrayNode::Dictionary(Box::new(second), Box::new(first))
                    },
                },
            },
        },
{
    reveal_with_fuel(decode_array_list_spec, 3);
    let o = offset + 1;
    if let Some((node, end, l)) = decode_array_spec(bytes, offset, lens) {
        let first = decode_array_list_spec(bytes, o, lens, 2, Seq::empty());
        assert(first is Some);
        if let Some((n0, o1, l1)) = decode_array_spec(bytes, o, lens) {
            assert(decode_array_list_spec(bytes, o, lens, 2, Seq::empty()) == decode_array_list_spec(
                bytes,
                o1,
                l1,
                1,
                seq![n0],
            ));
            if let Some((n1, o2, l2)) = decode_array_spec(bytes, o1, l1) {
                assert(decode_array_list_spec(bytes, o1, l1, 1, seq![n0]) == decode_array_list_spec(
                    bytes,
                    o2,
                    l2,
                    0,
                    seq![n0].push(n1),
                ));
                assert(seq![n0].push(n1)[0] == n0);
                assert(seq![n0].push(n1)[1] == n1);
            }
        }
    }
}

/// The first two branches after the type id at `offset`, where both are
/// there.
pub open spec fn first_two_parts(bytes: Seq<u8>, offset: int, lens: int) -> Option<(ArrayNode, ArrayNode)> {
    match decode_array_spec(bytes, offset + 1, lens) {
        Some((first, o1, l1)) => match decode_array_spec(bytes, o1, l1) {
            Some((second, _, _)) => Some((first, second)),
            None => None,
        },
        None => None,
    }
}

/// The branch that the ids holding only bytes stand for.
pub open spec fn leaf_node(id: ArrayTypeId, data: Seq<u8>) -> ArrayNode {
    match id {
        ArrayTypeId::PackedBool => ArrayNode::PackedBool(data),
        ArrayTypeId::IntSimple16 => ArrayNode::Integer(data, ArrayIntegerEncoding::Simple16),
        ArrayTypeId::IntPrefixVar => ArrayNode::Integer(data, ArrayIntegerEncoding::PrefixVarInt),
        ArrayTypeId::U8 => ArrayNode::Integer(data, ArrayIntegerEncoding::U8),
        ArrayTypeId::F32 => ArrayNode::Float(FloatEncoding::F32, data),
        ArrayTypeId::F64 => ArrayNode::Float(FloatEncoding::F64, data),
        ArrayTypeId::Zfp32 => ArrayNode::Float(FloatEncoding::Zfp32, data),
        ArrayTypeId::Zfp64 => ArrayNode::Float(FloatEncoding::Zfp64, data),
        ArrayTypeId::DoubleGorilla => ArrayNode::Float(FloatEncoding::DoubleGorilla, data),
        _ => ArrayNode::String(data),
    }
}

/// Reading `n` array branches one after another, appended to `acc`.
pub open spec fn decode_array_list_spec(
    bytes: Seq<u8>,
    offset: int,
    lens: int,
    n: nat,
    acc: Seq<ArrayNode>,
) -> Option<(Seq<ArrayNode>, int, int)>
    decreases bytes.len() - offset, 1int, n,
{
    if offset < 0 || offset > bytes.len() {
        None
    } else if n == 0 {
        Some((acc, offset, lens))
    } else {
        match decode_array_spec(bytes, offset, lens) {
            Some((node, end, l)) => if !progress(bytes, offset, end) {
                None
            } else {
                decode_array_list_spec(bytes, end, l, (n - 1) as nat, acc.push(node))
            },
            None => None,
        }
    }
}

/// Reading `n` named array branches one after another into the field list
/// `acc`, a later field of the same name replacing the earlier.
pub open spec fn decode_array_fields_spec(
    bytes: Seq<u8>,
    offset: int,
    lens: int,
    n: nat,
    acc: Seq<(Seq<u8>, ArrayNode)>,
) -> Option<(Seq<(Seq<u8>, ArrayNode)>, int, int)>
    decreases bytes.len() - offset, 1int, n,
{
    if offset < 0 || offset > bytes.len() {
        None
    } else if n == 0 {
        Some((acc, offset, lens))
    } else {
        match decode_ident_spec(bytes, offset) {
            Some((name, o1)) => if !(offset <= o1 <= bytes.len()) {
                None
            } else {
                match decode_array_spec(bytes, o1, lens) {
                    Some((node, end, l)) => if !progress(bytes, offset, end) {
                        None
                    } else {
                        decode_array_fields_spec(
                            bytes,
                            end,
                            l,
                            (n - 1) as nat,
                            insert_field(acc, name, node),
                        )
                    },
                    None => None,
                }
            },
            None => None,
        }
    }
}

/// Reading `n` enum variants (a name, then an array branch) one after
/// another, appended to `acc`.
pub open spec fn decode_array_variants_spec(
    bytes: Seq<u8>,
    offset: int,
    lens: int,
    n: nat,
    acc: Seq<(Seq<u8>, ArrayNode)>,
) -> Option<(Seq<(Seq<u8>, ArrayNode)>, int, int)>
    decreases bytes.len() - offset, 1int, n,
{
    if offset < 0 || offset > bytes.len() {
        None
    } else if n == 0 {
        Some((acc, offset, lens))
    } else {
        match decode_ident_spec(bytes, offset) {
            Some((name, o1)) => if !(offset <= o1 <= bytes.len()) {
                None
            } else {
                match decode_array_spec(bytes, o1, lens) {
                    Some((node, end, l)) => if !progress(bytes, offset, end) {
                        None
                    } else {
                        decode_array_variants_spec(bytes, end, l, (n - 1) as nat, acc.push((name, node)))
                    },
                    None => None,
                }
            },
            None => None,
        }
    }
}

/// A list read adds exactly `n` branches.
proof fn lemma_array_list_len(bytes: Seq<u8>, offset: int, lens: int, n: nat, acc: Seq<ArrayNode>)
    ensures
        decode_array_list_spec(bytes, offset, lens, n, acc) matches Some((kids, _, _)) ==> kids.len()
            == acc.len() + n,
    decreases n,
{
    if n > 0 && 0 <= offset <= bytes.len() {
        if let Some((node, end, l)) = decode_array_spec(bytes, offset, lens) {
            if progress(bytes, offset, end) {
                lemma_array_list_len(bytes, end, l, (n - 1) as nat, acc.push(node));
            }
        }
    }
}

/// The content of the branches with lists of children, through the list
/// helpers.
proof fn lemma_list_nodes<'a>(branch: DynArrayBranch<'a>)
    ensures
        branch matches DynArrayBranch::Tuple { fields } ==> branch.node() == ArrayNode::Tuple(
            array_nodes(fields@),
        ),
        branch matches DynArrayBranch::Object { fields } ==> branch.node() == ArrayNode::Object(
            named_array_nodes(fields@),
        ),
        branch matches DynArrayBranch::Enum { discriminants, variants } ==> branch.node()
            == ArrayNode::Enum(Box::new((*discriminants).node()), variant_nodes(variants@)),
{
    match branch {
        DynArrayBranch::Tuple { fields } => {
            assert(array_nodes(fields@) =~= branch.node()->Tuple_0);
        },
        DynArrayBranch::Object { fields } => {
            assert(named_array_nodes(fields@) =~= branch.node()->Object_0);
        },
        DynArrayBranch::Enum { discriminants, variants } => {
            assert(variant_nodes(variants@) =~= branch.node()->Enum_1);
        },
        _ => {},
    }
}

// ---------------------------------------------------------------------------
// Reading array branches
// ---------------------------------------------------------------------------

/// Sets the field `name` of a field list to `value`: replaced where the
/// name is there already, added at the end where it is not.
fn insert_array_field<'a>(
    fields: &mut Vec<(Ident<'a>, DynArrayBranch<'a>)>,
    name: Ident<'a>,
    value: DynArrayBranch<'a>,
)
    requires
        distinct_names(named_array_nodes(old(fields)@)),
    ensures
        named_array_nodes(final(fields)@) == insert_field(
            named_array_nodes(old(fields)@),
            name.spec_bytes(),
            value.node(),
        ),
        distinct_names(named_array_nodes(final(fields)@)),
{
    let ghost before = named_array_nodes(fields@);
    let ghost node = value.node();
    let mut i: usize = 0;
    while i < fields.len()
        invariant
            i <= fields@.len(),
            fields@ == old(fields)@,
            before == named_array_nodes(fields@),
            node == value.node(),
            distinct_names(before),
            forall|j: int| 0 <= j < i ==> #[trigger] before[j].0 != name.spec_bytes(),
        decreases fields@.len() - i,
    {
        if same_ident(fields[i].0, name) {
            proof {
                assert(before[i as int].0 == name.spec_bytes());
                let c = choose|c: int| 0 <= c < before.len() && #[trigger] before[c].0 == name.spec_bytes();
                assert(distinct_names(before));
                if c < i {
                    assert(before[c].0 != before[i as int].0);
                } else if c > i {
                    assert(before[i as int].0 != before[c].0);
                }
                assert(c == i);
            }
            let ghost prior = fields@;
            fields.set(i, (name, value));
            proof {
                assert(fields@ == prior.update(i as int, (name, value)));
                assert(named_array_nodes(fields@) =~= before.update(i as int, (name.spec_bytes(), node)));
            }
            return;
        }
        i += 1;
    }
    fields.push((name, value));
    proof {
        assert(named_array_nodes(fields@) =~= before.push((name.spec_bytes(), node)));
    }
}

/// Reads the bytes of a column: their length from the lengths cursor, the
/// bytes themselves from `*offset` on.
fn decode_bytes_from_len<'a>(bytes: &'a [u8], offset: &mut usize, lens: &mut usize) -> (result:
    DecodeResult<Bytes<'a>>)
    ensures
        match decode_bytes_from_len_spec(bytes@, *old(offset) as int, cursor(*old(lens))) {
            Some((data, end, l)) => result is Ok && result->Ok_0@ == data && *final(offset) as int
                == end && cursor(*final(lens)) == l,
            None => result matches Err(e) && e == DecodeError::InvalidFormat,
        },
{
    let ghost lens0 = *lens;
    let blen = bytes.len();
    let len = decode_suffix_varint(bytes, lens)?;
    proof {
        let (v, l) = decode_suffix_spec(bytes@, lens0 as int)->0;
        assert(decode_suffix_spec(bytes@, cursor(lens0)) == decode_suffix_spec(bytes@, lens0 as int));
        assert(cursor(*lens) == l);
    }
    let data = decode_bytes(len as usize, bytes, offset)?;
    Ok(Bytes(data))
}

/// Reads `n` array branches one after another.
fn decode_array_list<'a>(bytes: &'a [u8], offset: &mut usize, lens: &mut usize, n: usize) -> (result:
    DecodeResult<Vec<DynArrayBranch<'a>>>)
    requires
        *old(offset) <= bytes@.len(),
    ensures
        match decode_array_list_spec(
            bytes@,
            *old(offset) as int,
            cursor(*old(lens)),
            n as nat,
            Seq::empty(),
        ) {
            Some((kids, end, l)) => result is Ok && array_nodes(result->Ok_0@) == kids
                && *final(offset) as int == end && cursor(*final(lens)) == l,
            None => result matches Err(e) && e == DecodeError::InvalidFormat,
        },
        result is Ok ==> *old(offset) <= *final(offset) <= bytes@.len(),
    decreases bytes@.len() - *old(offset), 1int, n,
{
    let ghost start = *offset;
    let ghost lens0 = *lens;
    let mut kids: Vec<DynArrayBranch<'a>> = Vec::new();
    let mut k: usize = 0;
    proof {
        assert(array_nodes(kids@) =~= Seq::<ArrayNode>::empty());
    }
    while k < n
        invariant
            start <= *offset <= bytes@.len(),
            k <= n,
            start == *old(offset),
            lens0 == *old(lens),
            decode_array_list_spec(bytes@, start as int, cursor(lens0), n as nat, Seq::empty())
                == decode_array_list_spec(
                bytes@,
                *offset as int,
                cursor(*lens),
                (n - k) as nat,
                array_nodes(kids@),
            ),
        decreases n - k,
    {
        let ghost before = array_nodes(kids@);
        let child = decode_next_array(bytes, offset, lens)?;
        let ghost node = child.node();
        kids.push(child);
        proof {
            assert(array_nodes(kids@) =~= before.push(node));
        }
        k += 1;
    }
    Ok(kids)
}

/// Reads `n` named array branches one after another into a field list.
fn decode_array_fields<'a>(bytes: &'a [u8], offset: &mut usize, lens: &mut usize, n: usize) -> (result:
    DecodeResult<Vec<(Ident<'a>, DynArrayBranch<'a>)>>)
    requires
        *old(offset) <= bytes@.len(),
    ensures
        match decode_array_fields_spec(
            bytes@,
            *old(offset) as int,
            cursor(*old(lens)),
            n as nat,
            Seq::empty(),
        ) {
            Some((fields, end, l)) => result is Ok && named_array_nodes(result->Ok_0@) == fields
                && *final(offset) as int == end && cursor(*final(lens)) == l,
            None => result matches Err(e) && e == DecodeError::InvalidFormat,
        },
        result is Ok ==> *old(offset) <= *final(offset) <= bytes@.len(),
        result is Ok ==> distinct_names(named_array_nodes(result->Ok_0@)),
    decreases bytes@.len() - *old(offset), 1int, n,
{
    let ghost start = *offset;
    let ghost lens0 = *lens;
    let mut fields: Vec<(Ident<'a>, DynArrayBranch<'a>)> = Vec::new();
    let mut k: usize = 0;
    proof {
        assert(named_array_nodes(fields@) =~= Seq::<(Seq<u8>, ArrayNode)>::empty());
    }
    while k < n
        invariant
            start <= *offset <= bytes@.len(),
            k <= n,
            start == *old(offset),
            lens0 == *old(lens),
            distinct_names(named_array_nodes(fields@)),
            decode_array_fields_spec(bytes@, start as int, cursor(lens0), n as nat, Seq::empty())
                == decode_array_fields_spec(
                bytes@,
                *offset as int,
                cursor(*lens),
                (n - k) as nat,
                named_array_nodes(fields@),
            ),
        decreases n - k,
    {
        let ghost at = *offset;
        let name = decode_ident(bytes, offset)?;
        let child = decode_next_array(bytes, offset, lens)?;
        proof {
            assert(at <= *offset);
        }
        insert_array_field(&mut fields, name, child);
        k += 1;
    }
    Ok(fields)
}

/// Reads `n` enum variants (a name, then an array branch) one after another.
fn decode_array_variants<'a>(bytes: &'a [u8], offset: &mut usize, lens: &mut usize, n: usize) -> (result:
    DecodeResult<Vec<ArrayEnumVariant<'a>>>)
    requires
        *old(offset) <= bytes@.len(),
    ensures
        match decode_array_variants_spec(
            bytes@,
            *old(offset) as int,
            cursor(*old(lens)),
            n as nat,
            Seq::empty(),
        ) {
            Some((variants, end, l)) => result is Ok && variant_nodes(result->Ok_0@) == variants
                && *final(offset) as int == end && cursor(*final(lens)) == l,
            None => result matches Err(e) && e == DecodeError::InvalidFormat,
        },
        result is Ok ==> *old(offset) <= *final(offset) <= bytes@.len(),
    decreases bytes@.len() - *old(offset), 1int, n,
{
    let ghost start = *offset;
    let ghost lens0 = *lens;
    let mut variants: Vec<ArrayEnumVariant<'a>> = Vec::new();
    let mut k: usize = 0;
    proof {
        assert(variant_nodes(variants@) =~= Seq::<(Seq<u8>, ArrayNode)>::empty());
    }
    while k < n
        invariant
            start <= *offset <= bytes@.len(),
            k <= n,
            start == *old(offset),
            lens0 == *old(lens),
            decode_array_variants_spec(bytes@, start as int, cursor(lens0), n as nat, Seq::empty())
                == decode_array_variants_spec(
                bytes@,
                *offset as int,
                cursor(*lens),
                (n - k) as nat,
                variant_nodes(variants@),
            ),
        decreases n - k,
    {
        let ghost before = variant_nodes(variants@);
        let ghost at = *offset;
        let ident = decode_ident(bytes, offset)?;
        let data = decode_next_array(bytes, offset, lens)?;
        let ghost entry = (ident.spec_bytes(), data.node());
        variants.push(ArrayEnumVariant { ident, data });
        proof {
            assert(variant_nodes(variants@) =~= before.push(entry));
        }
        k += 1;
    }
    Ok(variants)
}

/// Reads a count stored as a prefix varint, plus 9.
pub(crate) fn decode_count(bytes: &[u8], offset: &mut usize) -> (result: DecodeResult<usize>)
    ensures
        match decode_count_spec(bytes@, *old(offset) as int) {
            Some((count, end)) => result == Ok::<usize, DecodeError>(count) && *final(offset) as int
                == end,
            None => result matches Err(e) && e == DecodeError::InvalidFormat,
        },
{
    let v = decode_usize(bytes, offset)?;
    if v > usize::MAX - 9 {
        return Err(DecodeError::InvalidFormat);
    }
    Ok(v + 9)
}

/// What every step of reading an array branch whose type id `id` is at
/// `start` promises.
pub open spec fn array_step_done<'a>(
    bytes: Seq<u8>,
    start: int,
    lens0: usize,
    result: DecodeResult<DynArrayBranch<'a>>,
    offset: usize,
    lens: usize,
) -> bool {
    &&& match decode_array_spec(bytes, start, cursor(lens0)) {
        Some((node, end, l)) => result is Ok && result->Ok_0.node() == node && offset as int == end
            && cursor(lens) == l,
        None => result matches Err(e) && e == DecodeError::InvalidFormat,
    }
    &&& result is Ok ==> start < offset <= bytes.len()
}

/// Reads the branches whose ids hold two child branches, or a length
/// branch and then more: nullable, run-length, dictionary, array and map.
fn decode_array_pair<'a>(
    id: ArrayTypeId,
    bytes: &'a [u8],
    offset: &mut usize,
    lens: &mut usize,
    Ghost(start): Ghost<usize>,
) -> (result: DecodeResult<DynArrayBranch<'a>>)
    requires
        start < bytes@.len(),
        *old(offset) == start + 1,
        array_type_id_of(bytes@[start as int]) == Some(id),
        id == ArrayTypeId::Nullable || id == ArrayTypeId::RLE || id == ArrayTypeId::Dictionary || id
            == ArrayTypeId::ArrayVar || id == ArrayTypeId::Mapping,
    ensures
        array_step_done(bytes@, start as int, *old(lens), result, *final(offset), *final(lens)),
    decreases bytes@.len() - start, 0int, 0int,
{
    let ghost (o0, l0) = (*offset, *lens);
    if id == ArrayTypeId::ArrayVar || id == ArrayTypeId::Mapping {
        let len = decode_next_array(bytes, offset, lens)?;
        match len {
            DynArrayBranch::Void => {
                if id == ArrayTypeId::ArrayVar {
                    Ok(DynArrayBranch::Array0)
                } else {
                    Ok(DynArrayBranch::Map0)
                }
            },
            _ => {
                if id == ArrayTypeId::ArrayVar {
                    let values = decode_next_array(bytes, offset, lens)?;
                    Ok(DynArrayBranch::Array { len: Box::new(len), values: Box::new(values) })
                } else {
                    let ghost (o1, l1) = (*offset, *lens);
                    let mut kids = decode_array_list(bytes, offset, lens, 2)?;
                    proof {
                        lemma_array_list_len(bytes@, o1 as int, cursor(l1), 2, Seq::empty());
                    }
                    let values = kids.pop().unwrap();
                    let keys = kids.pop().unwrap();
                    Ok(
                        DynArrayBranch::Mapping {
                            len: Box::new(len),
                            keys: Box::new(keys),
                            values: Box::new(values),
                        },
                    )
                }
            },
        }
    } else {
        let mut kids = decode_array_list(bytes, offset, lens, 2)?;
        proof {
            lemma_array_list_len(bytes@, o0 as int, cursor(l0), 2, Seq::empty());
        }
        let second = kids.pop().unwrap();
        let first = kids.pop().unwrap();
        if id == ArrayTypeId::Nullable {
            Ok(DynArrayBranch::Nullable { opt: Box::new(first), values: Box::new(second) })
        } else if id == ArrayTypeId::RLE {
            Ok(DynArrayBranch::RLE { runs: Box::new(second), values: Box::new(first) })
        } else {
            Ok(DynArrayBranch::Dictionary { indices: Box::new(second), values: Box::new(first) })
        }
    }
}

/// Reads the branches of the other ids with child branches: fixed size
/// arrays, enums and boolean runs.
fn decode_array_nested<'a>(
    id: ArrayTypeId,
    bytes: &'a [u8],
    offset: &mut usize,
    lens: &mut usize,
    Ghost(start): Ghost<usize>,
) -> (result: DecodeResult<DynArrayBranch<'a>>)
    requires
        start < bytes@.len(),
        *old(offset) == start + 1,
        array_type_id_of(bytes@[start as int]) == Some(id),
        id == ArrayTypeId::ArrayFixed || id == ArrayTypeId::Enum || id == ArrayTypeId::RLEBoolTrue
            || id == ArrayTypeId::RLEBoolFalse,
    ensures
        array_step_done(bytes@, start as int, *old(lens), result, *final(offset), *final(lens)),
    decreases bytes@.len() - start, 0int, 0int,
{
    match id {
        ArrayTypeId::ArrayFixed => {
            let len = decode_usize(bytes, offset)?;
            let values = decode_next_array(bytes, offset, lens)?;
            Ok(DynArrayBranch::ArrayFixed { len, values: Box::new(values) })
        },
        ArrayTypeId::Enum => {
            let count = decode_usize(bytes, offset)?;
            let discriminants = decode_next_array(bytes, offset, lens)?;
            let variants = decode_array_variants(bytes, offset, lens, count)?;
            let branch = DynArrayBranch::Enum { discriminants: Box::new(discriminants), variants };
            proof {
                lemma_list_nodes(branch);
            }
            Ok(branch)
        },
        ArrayTypeId::RLEBoolTrue => {
            let runs = decode_next_array(bytes, offset, lens)?;
            Ok(DynArrayBranch::Boolean(ArrayBool::RLE(true, Box::new(runs))))
        },
        _ => {
            let runs = decode_next_array(bytes, offset, lens)?;
            Ok(DynArrayBranch::Boolean(ArrayBool::RLE(false, Box::new(runs))))
        },
    }
}

/// Reads the branches of the tuple and object ids.
fn decode_array_group<'a>(
    id: ArrayTypeId,
    bytes: &'a [u8],
    offset: &mut usize,
    lens: &mut usize,
    Ghost(start): Ghost<usize>,
) -> (result: DecodeResult<DynArrayBranch<'a>>)
    requires
        start < bytes@.len(),
        *old(offset) == start + 1,
        array_type_id_of(bytes@[start as int]) == Some(id),
        array_fixed_arity(id) is Some || id == ArrayTypeId::TupleN || id == ArrayTypeId::ObjN,
    ensures
        array_step_done(bytes@, start as int, *old(lens), result, *final(offset), *final(lens)),
    decreases bytes@.len() - start, 0int, 0int,
{
    let count: usize = match id {
        ArrayTypeId::TupleN => decode_count(bytes, offset)?,
        ArrayTypeId::ObjN => decode_count(bytes, offset)?,
        ArrayTypeId::Tuple2 => 2,
        ArrayTypeId::Tuple3 => 3,
        ArrayTypeId::Tuple4 => 4,
        ArrayTypeId::Tuple5 => 5,
        ArrayTypeId::Tuple6 => 6,
        ArrayTypeId::Tuple7 => 7,
        ArrayTypeId::Tuple8 => 8,
        ArrayTypeId::Obj0 => 0,
        ArrayTypeId::Obj1 => 1,
        ArrayTypeId::Obj2 => 2,
        ArrayTypeId::Obj3 => 3,
        ArrayTypeId::Obj4 => 4,
        ArrayTypeId::Obj5 => 5,
        ArrayTypeId::Obj6 => 6,
        ArrayTypeId::Obj7 => 7,
        _ => 8,
    };
    let is_tuple = match id {
        ArrayTypeId::Tuple2 | ArrayTypeId::Tuple3 | ArrayTypeId::Tuple4 | ArrayTypeId::Tuple5
        | ArrayTypeId::Tuple6 | ArrayTypeId::Tuple7 | ArrayTypeId::Tuple8 | ArrayTypeId::TupleN => true,
        _ => false,
    };
    if is_tuple {
        let fields = decode_array_list(bytes, offset, lens, count)?;
        let branch = DynArrayBranch::Tuple { fields };
        proof {
            lemma_list_nodes(branch);
        }
        Ok(branch)
    } else {
        let fields = decode_array_fields(bytes, offset, lens, count)?;
        let branch = DynArrayBranch::Object { fields };
        proof {
            lemma_list_nodes(branch);
        }
        Ok(branch)
    }
}

/// Reads the branches whose ids hold only data bytes.
fn decode_array_leaf<'a>(
    id: ArrayTypeId,
    bytes: &'a [u8],
    offset: &mut usize,
    lens: &mut usize,
    Ghost(start): Ghost<usize>,
) -> (result: DecodeResult<DynArrayBranch<'a>>)
    requires
        start < bytes@.len(),
        *old(offset) == start + 1,
        array_type_id_of(bytes@[start as int]) == Some(id),
        id == ArrayTypeId::PackedBool || id == ArrayTypeId::IntSimple16 || id == ArrayTypeId::IntPrefixVar
            || id == ArrayTypeId::U8 || id == ArrayTypeId::F32 || id == ArrayTypeId::F64 || id
            == ArrayTypeId::Zfp32 || id == ArrayTypeId::Zfp64 || id == ArrayTypeId::DoubleGorilla || id
            == ArrayTypeId::Utf8,
    ensures
        array_step_done(bytes@, start as int, *old(lens), result, *final(offset), *final(lens)),
{
    let data = decode_bytes_from_len(bytes, offset, lens)?;
    let branch = match id {
        ArrayTypeId::PackedBool => DynArrayBranch::Boolean(ArrayBool::Packed(data)),
        ArrayTypeId::IntSimple16 => DynArrayBranch::Integer(
            ArrayInteger { bytes: data, encoding: ArrayIntegerEncoding::Simple16 },
        ),
        ArrayTypeId::IntPrefixVar => DynArrayBranch::Integer(
            ArrayInteger { bytes: data, encoding: ArrayIntegerEncoding::PrefixVarInt },
        ),
        ArrayTypeId::U8 => DynArrayBranch::Integer(
            ArrayInteger { bytes: data, encoding: ArrayIntegerEncoding::U8 },
        ),
        ArrayTypeId::F32 => DynArrayBranch::Float(ArrayFloat::F32(data)),
        ArrayTypeId::F64 => DynArrayBranch::Float(ArrayFloat::F64(data)),
        ArrayTypeId::Zfp32 => DynArrayBranch::Float(ArrayFloat::Zfp32(data)),
        ArrayTypeId::Zfp64 => DynArrayBranch::Float(ArrayFloat::Zfp64(data)),
        ArrayTypeId::DoubleGorilla => DynArrayBranch::Float(ArrayFloat::DoubleGorilla(data)),
        _ => DynArrayBranch::String(data),
    };
    Ok(branch)
}

/// Reads the array branch whose type id is at `*offset`, taking the lengths
/// of data bytes from the lengths cursor `*lens`, and moves both past what
/// was read.
pub fn decode_next_array<'a>(bytes: &'a [u8], offset: &mut usize, lens: &mut usize) -> (result:
    DecodeResult<DynArrayBranch<'a>>)
    ensures
        match decode_array_spec(bytes@, *old(offset) as int, cursor(*old(lens))) {
            Some((node, end, l)) => result is Ok && result->Ok_0.node() == node && *final(offset)
                as int == end && cursor(*final(lens)) == l,
            None => result matches Err(e) && e == DecodeError::InvalidFormat,
        },
        result is Ok ==> *old(offset) < *final(offset) <= bytes@.len(),
        result matches Ok(DynArrayBranch::Nullable { opt, values }) ==> first_two_parts(
            bytes@,
            *old(offset) as int,
            cursor(*old(lens)),
        ) == Some(((*opt).node(), (*values).node())),
        result matches Ok(DynArrayBranch::RLE { runs, values }) ==> first_two_parts(
            bytes@,
            *old(offset) as int,
            cursor(*old(lens)),
        ) == Some(((*values).node(), (*runs).node())),
        result matches Ok(DynArrayBranch::Dictionary { indices, values }) ==> first_two_parts(
            bytes@,
            *old(offset) as int,
            cursor(*old(lens)),
        ) == Some(((*values).node(), (*indices).node())),
    decreases bytes@.len() - *old(offset), 0int, 1int,
{
    let ghost start = *offset;
    let ghost start_lens = *lens;
    let id = ArrayTypeId::decode_next(bytes, offset)?;
    if id == ArrayTypeId::Nullable || id == ArrayTypeId::RLE || id == ArrayTypeId::Dictionary {
        let result = decode_array_pair(id, bytes, offset, lens, Ghost(start));
        proof {
            lemma_two_part_columns(bytes@, start as int, cursor(start_lens));
        }
        return result;
    }
    match id {
        ArrayTypeId::Void => Ok(DynArrayBranch::Void),
        ArrayTypeId::Nullable | ArrayTypeId::RLE | ArrayTypeId::Dictionary | ArrayTypeId::ArrayVar
        | ArrayTypeId::Mapping => decode_array_pair(id, bytes, offset, lens, Ghost(start)),
        ArrayTypeId::ArrayFixed | ArrayTypeId::Enum | ArrayTypeId::RLEBoolTrue
        | ArrayTypeId::RLEBoolFalse => decode_array_nested(id, bytes, offset, lens, Ghost(start)),
        ArrayTypeId::PackedBool | ArrayTypeId::IntSimple16 | ArrayTypeId::IntPrefixVar
        | ArrayTypeId::U8 | ArrayTypeId::F32 | ArrayTypeId::F64 | ArrayTypeId::Zfp32
        | ArrayTypeId::Zfp64 | ArrayTypeId::DoubleGorilla | ArrayTypeId::Utf8 => decode_array_leaf(
            id,
            bytes,
            offset,
            lens,
            Ghost(start),
        ),
        _ => decode_array_group(id, bytes, offset, lens, Ghost(start)),
    }
}

} // verus!
