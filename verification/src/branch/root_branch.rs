//! The branches at the root of a document: single values, written in
//! place, with arrays switching to the column layout of `array_branch`.
use vstd::prelude::*;
use vstd::string::StringSliceAdditionalSpecFns;
use crate::branch::{
    cursor, decode_bytes, decode_bytes_spec, decode_ident, decode_ident_spec, decode_str,
    decode_str_spec, decode_usize, distinct_names, insert_field, same_ident, Ident,
};
use crate::branch::array_branch::{
    decode_array_spec, decode_count, decode_count_spec, decode_next_array, progress, ArrayNode,
    DynArrayBranch,
};
use crate::encodings::varint::{
    decode_prefix_spec, exp256, le_bytes_value, le_value, lemma_exp256_monotone, lemma_le_value_bound,
};
use crate::error::{DecodeError, DecodeResult};
use crate::type_id::{root_type_id_of, RootTypeId};

verus! {

/// An integer at the root: signed or unsigned, by its type id.
#[derive(PartialEq, Eq, Structural, Debug, Copy, Clone)]
pub enum RootInteger {
    S(i64),
    U(u64),
}

/// A float at the root, as the bits of its IEEE 754 form; `NaN` stands for
/// a NaN of either width.
#[derive(PartialEq, Eq, Structural, Debug, Copy, Clone)]
pub enum RootFloat {
    F64(u64),
    F32(u32),
    NaN,
}

/// A branch at the root of a document. Objects list their fields, each name
/// once, in the order the names first occur.
pub enum DynRootBranch<'a> {
    Object { fields: Vec<(Ident<'a>, DynRootBranch<'a>)> },
    Tuple { fields: Vec<DynRootBranch<'a>> },
    Enum { discriminant: Ident<'a>, value: Box<DynRootBranch<'a>> },
    Array0,
    Array1(Box<DynRootBranch<'a>>),
    Array { len: usize, values: DynArrayBranch<'a> },
    Integer(RootInteger),
    Boolean(bool),
    Float(RootFloat),
    Void,
    String(&'a str),
    Map0,
    Map1 { key: Box<DynRootBranch<'a>>, value: Box<DynRootBranch<'a>> },
    Mapping { len: usize, keys: DynArrayBranch<'a>, values: DynArrayBranch<'a> },
}

/// The content of a `DynRootBranch`, with names and text as byte
/// sequences.
pub enum RootNode {
    Object(Seq<(Seq<u8>, RootNode)>),
    Tuple(Seq<RootNode>),
    Enum(Seq<u8>, Box<RootNode>),
    Array0,
    Array1(Box<RootNode>),
    Array(usize, ArrayNode),
    Integer(RootInteger),
    Boolean(bool),
    Float(RootFloat),
    Void,
    String(Seq<u8>),
    Map0,
    Map1(Box<RootNode>, Box<RootNode>),
    Mapping(usize, ArrayNode, ArrayNode),
}

impl<'a> DynRootBranch<'a> {
    /// The content of this branch.
    pub open spec fn node(self) -> RootNode
        decreases self,
    {
        match self {
            DynRootBranch::Object { fields } => RootNode::Object(
                Seq::new(
                    fields@.len(),
                    |i: int|
                        if 0 <= i < fields@.len() {
                            (fields@[i].0.spec_bytes(), fields@[i].1.node())
                        } else {
                            (Seq::empty(), RootNode::Void)
                        },
                ),
            ),
            DynRootBranch::Tuple { fields } => RootNode::Tuple(
                Seq::new(
                    fields@.len(),
                    |i: int|
                        if 0 <= i < fields@.len() {
                            fields@[i].node()
                        } else {
                            RootNode::Void
                        },
                ),
            ),
            DynRootBranch::Enum { discriminant, value } => RootNode::Enum(
                discriminant.spec_bytes(),
                Box::new((*value).node()),
            ),
            DynRootBranch::Array0 => RootNode::Array0,
            DynRootBranch::Array1(value) => RootNode::Array1(Box::new((*value).node())),
            DynRootBranch::Array { len, values } => RootNode::Array(len, values.node()),
            DynRootBranch::Integer(value) => RootNode::Integer(value),
            DynRootBranch::Boolean(value) => RootNode::Boolean(value),
            DynRootBranch::Float(value) => RootNode::Float(value),
            DynRootBranch::Void => RootNode::Void,
            DynRootBranch::String(text) => RootNode::String(text.spec_bytes()),
            DynRootBranch::Map0 => RootNode::Map0,
            DynRootBranch::Map1 { key, value } => RootNode::Map1(
                Box::new((*key).node()),
                Box::new((*value).node()),
            ),
            DynRootBranch::Mapping { len, keys, values } => RootNode::Mapping(len, keys.node(), values.node()),
        }
    }
}

impl<'a> Default for DynRootBranch<'a> {
    /// An empty branch.
    fn default() -> (branch: Self)
        ensures
            branch.node() == RootNode::Void,
    {
        DynRootBranch::Void
    }
}

/// The contents of a list of branches.
pub open spec fn root_nodes<'a>(branches: Seq<DynRootBranch<'a>>) -> Seq<RootNode> {
    Seq::new(branches.len(), |i: int| branches[i].node())
}

/// The contents of a list of named branches.
pub open spec fn named_root_nodes<'a>(fields: Seq<(Ident<'a>, DynRootBranch<'a>)>) -> Seq<(Seq<u8>, RootNode)> {
    Seq::new(fields.len(), |i: int| (fields[i].0.spec_bytes(), fields[i].1.node()))
}

// ---------------------------------------------------------------------------
// The grammar of root branches
// ---------------------------------------------------------------------------

/// The integer that `data` (little endian) holds at the root. Unsigned
/// integers are the plain value. Signed integers of 1, 2, 4 and 8 bytes are
/// two's complement; those of 3, 5, 6 and 7 bytes are read as the unsigned
/// value of their bytes.
pub open spec fn root_integer_spec(data: Seq<u8>, signed: bool) -> RootInteger {
    let v = le_value(data, 0, data.len());
    if !signed {
        RootInteger::U(v as u64)
    } else if (data.len() == 1 || data.len() == 2 || data.len() == 4 || data.len() == 8) && v
        >= exp256(data.len()) / 2 {
        RootInteger::S((v - exp256(data.len())) as i64)
    } else {
        RootInteger::S(v as i64)
    }
}

/// A root integer is the number its little endian bytes stand for.
/// Unsigned, it is their plain value. Signed and of 1, 2, 4 or 8 bytes, it
/// is their two's complement value: the one number in the signed range of
/// that width that agrees with the plain value modulo the width's range.
/// Signed and of 3, 5, 6 or 7 bytes, the bytes are read into a wider integer
/// whose top byte is zero, so it is their plain value, never negative.
pub proof fn lemma_root_integer_value(data: Seq<u8>, signed: bool)
    requires
        1 <= data.len() <= 8,
    ensures
        ({
            let v = le_value(data, 0, data.len());
            let range = exp256(data.len());
            match root_integer_spec(data, signed) {
                RootInteger::U(u) => !signed && u == v,
                RootInteger::S(n) => signed && if data.len() == 1 || data.len() == 2 || data.len() == 4
                    || data.len() == 8 {
                    -(range / 2) <= n < range / 2 && (n - v) % (range as int) == 0
                } else {
                    n == v
                },
            }
        }),
{
    let v = le_value(data, 0, data.len());
    lemma_le_value_bound(data, 0, data.len());
    reveal_with_fuel(exp256, 9);
    let range = exp256(data.len());
    if data.len() == 1 {
        assert(range == 0x100);
    } else if data.len() == 2 {
        assert(range == 0x1_0000);
    } else if data.len() == 3 {
        assert(range == 0x100_0000);
    } else if data.len() == 4 {
        assert(range == 0x1_0000_0000);
    } else if data.len() == 5 {
        assert(range == 0x100_0000_0000);
    } else if data.len() == 6 {
        assert(range == 0x1_0000_0000_0000);
    } else if data.len() == 7 {
        assert(range == 0x100_0000_0000_0000);
    } else {
        assert(range == 0x1_0000_0000_0000_0000);
    }
    if signed && (data.len() == 1 || data.len() == 2 || data.len() == 4 || data.len() == 8) {
        if v >= range / 2 {
            assert((v - range - v) % (range as int) == 0) by {
                assert(v - range - v == -(range as int));
            }
        } else {
            assert((v - v) % (range as int) == 0);
        }
    }
}

/// The width in bytes of the integer ids, and whether they are signed.
pub open spec fn root_int_width(id: RootTypeId) -> Option<(nat, bool)> {
    match id {
        RootTypeId::IntU64 => Some((8, false)),
        RootTypeId::IntU56 => Some((7, false)),
        RootTypeId::IntU48 => Some((6, false)),
        RootTypeId::IntU40 => Some((5, false)),
        RootTypeId::IntU32 => Some((4, false)),
        RootTypeId::IntU24 => Some((3, false)),
        RootTypeId::IntU16 => Some((2, false)),
        RootTypeId::IntU8 => Some((1, false)),
        RootTypeId::IntS64 => Some((8, true)),
        RootTypeId::IntS56 => Some((7, true)),
        RootTypeId::IntS48 => Some((6, true)),
        RootTypeId::IntS40 => Some((5, true)),
        RootTypeId::IntS32 => Some((4, true)),
        RootTypeId::IntS24 => Some((3, true)),
        RootTypeId::IntS16 => Some((2, true)),
        RootTypeId::IntS8 => Some((1, true)),
        _ => None,
    }
}

/// The number of children of the tuple and object ids with a fixed count,
/// and whether the id is a tuple.
pub open spec fn root_fixed_arity(id: RootTypeId) -> Option<(nat, bool)> {
    match id {
        RootTypeId::Tuple2 => Some((2, true)),
        RootTypeId::Tuple3 => Some((3, true)),
        RootTypeId::Tuple4 => Some((4, true)),
        RootTypeId::Tuple5 => Some((5, true)),
        RootTypeId::Tuple6 => Some((6, true)),
        RootTypeId::Tuple7 => Some((7, true)),
        RootTypeId::Tuple8 => Some((8, true)),
        RootTypeId::Obj0 => Some((0, false)),
        RootTypeId::Obj1 => Some((1, false)),
        RootTypeId::Obj2 => Some((2, false)),
        RootTypeId::Obj3 => Some((3, false)),
        RootTypeId::Obj4 => Some((4, false)),
        RootTypeId::Obj5 => Some((5, false)),
        RootTypeId::Obj6 => Some((6, false)),
        RootTypeId::Obj7 => Some((7, false)),
        RootTypeId::Obj8 => Some((8, false)),
        _ => None,
    }
}

/// The length of the text of the string ids with a fixed length.
pub open spec fn root_str_len(id: RootTypeId) -> Option<nat> {
    match id {
        RootTypeId::Str0 => Some(0),
        RootTypeId::Str1 => Some(1),
        RootTypeId::Str2 => Some(2),
        RootTypeId::Str3 => Some(3),
        _ => None,
    }
}

/// The branches whose type id alone says all there is.
pub open spec fn root_constant(id: RootTypeId) -> Option<RootNode> {
    match id {
        RootTypeId::Void => Some(RootNode::Void),
        RootTypeId::Array0 => Some(RootNode::Array0),
        RootTypeId::True => Some(RootNode::Boolean(true)),
        RootTypeId::False => Some(RootNode::Boolean(false)),
        RootTypeId::Zero => Some(RootNode::Integer(RootInteger::U(0))),
        RootTypeId::One => Some(RootNode::Integer(RootInteger::U(1))),
        RootTypeId::NegOne => Some(RootNode::Integer(RootInteger::S(-1i64))),
        RootTypeId::NaN => Some(RootNode::Float(RootFloat::NaN)),
        _ => None,
    }
}

/// Reading the branches of the ids that hold a value in their own bytes:
/// integers, floats and text, from `o` on.
pub open spec fn decode_root_scalar_spec(id: RootTypeId, bytes: Seq<u8>, o: int) -> Option<
    (RootNode, int),
> {
    match root_int_width(id) {
        Some((w, signed)) => match decode_bytes_spec(bytes, o, w as int) {
            Some((data, end)) => Some((RootNode::Integer(root_integer_spec(data, signed)), end)),
            None => None,
        },
        None => match root_str_len(id) {
            Some(n) => match decode_str_spec(bytes, o, n as int) {
                Some((text, end)) => Some((RootNode::String(text), end)),
                None => None,
            },
            None => match id {
                RootTypeId::F32 => match decode_bytes_spec(bytes, o, 4) {
                    Some((data, end)) => Some(
                        (RootNode::Float(RootFloat::F32(le_value(data, 0, 4) as u32)), end),
                    ),
                    None => None,
                },
                RootTypeId::F64 => match decode_bytes_spec(bytes, o, 8) {
                    Some((data, end)) => Some(
                        (RootNode::Float(RootFloat::F64(le_value(data, 0, 8) as u64)), end),
                    ),
                    None => None,
                },
                RootTypeId::Str => match decode_prefix_spec(bytes, o) {
                    Some((len, o1)) => match decode_str_spec(bytes, o1, (len as usize) as int) {
                        Some((text, end)) => Some((RootNode::String(text), end)),
                        None => None,
                    },
                    None => None,
                },
                _ => None,
            },
        },
    }
}

/// Whether a type id stands for a scalar branch.
pub open spec fn is_root_scalar(id: RootTypeId) -> bool {
    root_int_width(id) is Some || root_str_len(id) is Some || id == RootTypeId::F32 || id
        == RootTypeId::F64 || id == RootTypeId::Str
}

/// Reading the root branch whose type id is at `offset`, with the lengths
/// cursor at `lens`: the branch, the offset after it, and where the cursor
/// ends.
pub open spec fn decode_root_spec(bytes: Seq<u8>, offset: int, lens: int) -> Option<
    (RootNode, int, int),
>
    decreases bytes.len() - offset, 0int, 0int,
{
    if offset < 0 || offset >= bytes.len() {
        None
    } else {
        match root_type_id_of(bytes[offset]) {
            None => None,
            Some(id) => {
                let o = offset + 1;
                if root_constant(id) is Some {
                    Some((root_constant(id)->0, o, lens))
                } else if is_root_scalar(id) {
                    match decode_root_scalar_spec(id, bytes, o) {
                        Some((node, end)) => Some((node, end, lens)),
                        None => None,
                    }
                } else {
                    match id {
                        RootTypeId::Array1 => match decode_root_spec(bytes, o, lens) {
                            Some((value, end, l)) => Some((RootNode::Array1(Box::new(value)), end, l)),
                            None => None,
                        },
                        RootTypeId::ArrayN => match decode_prefix_spec(bytes, o) {
                            Some((len, o1)) => match decode_array_spec(bytes, o1, lens) {
                                Some((values, end, l)) => Some(
                                    (RootNode::Array(len as usize, values), end, l),
                                ),
                                None => None,
                            },
                            None => None,
                        },
                        RootTypeId::Mapping => match decode_prefix_spec(bytes, o) {
                            Some((len, o1)) => if len as usize == 0 {
                                Some((RootNode::Map0, o1, lens))
                            } else if !progress(bytes, offset, o1) {
                                None
                            } else if len as usize == 1 {
                                match decode_root_spec(bytes, o1, lens) {
                                    Some((key, o2, l2)) => if !progress(bytes, offset, o2) {
                                        None
                                    } else {
                                        match decode_root_spec(bytes, o2, l2) {
                                            Some((value, end, l)) => Some(
                                                (
                                                    RootNode::Map1(Box::new(key), Box::new(value)),
                                                    end,
                                                    l,
                                                ),
                                            ),
                                            None => None,
                                        }
                                    },
                                    None => None,
                                }
                            } else {
                                match decode_array_spec(bytes, o1, lens) {
                                    Some((keys, o2, l2)) => match decode_array_spec(bytes, o2, l2) {
                                        Some((values, end, l)) => Some(
                                            (RootNode::Mapping(len as usize, keys, values), end, l),
                                        ),
                                        None => None,
                                    },
                                    None => None,
                                }
                            },
                            None => None,
                        },
                        RootTypeId::Enum => match decode_ident_spec(bytes, o) {
                            Some((name, o1)) => if !progress(bytes, offset, o1) {
                                None
                            } else {
                                match decode_root_spec(bytes, o1, lens) {
                                    Some((value, end, l)) => Some(
                                        (RootNode::Enum(name, Box::new(value)), end, l),
                                    ),
                                    None => None,
                                }
                            },
                            None => None,
                        },
                        RootTypeId::TupleN => match decode_count_spec(bytes, o) {
                            Some((count, o1)) => if !progress(bytes, offset, o1) {
                                None
                            } else {
                                match decode_root_list_spec(bytes, o1, lens, count as nat, Seq::empty()) {
                                    Some((kids, end, l)) => Some((RootNode::Tuple(kids), end, l)),
                                    None => None,
                                }
                            },
                            None => None,
                        },
                        RootTypeId::ObjN => match decode_count_spec(bytes, o) {
                            Some((count, o1)) => if !progress(bytes, offset, o1) {
                                None
                            } else {
                                match decode_root_fields_spec(bytes, o1, lens, count as nat, Seq::empty()) {
                                    Some((fields, end, l)) => Some((RootNode::Object(fields), end, l)),
                                    None => None,
                                }
                            },
                            None => None,
                        },
                        _ => match root_fixed_arity(id) {
                            Some((n, true)) => match decode_root_list_spec(bytes, o, lens, n, Seq::empty()) {
                                Some((kids, end, l)) => Some((RootNode::Tuple(kids), end, l)),
                                None => None,
                            },
                            Some((n, false)) => match decode_root_fields_spec(bytes, o, lens, n, Seq::empty()) {
                                Some((fields, end, l)) => Some((RootNode::Object(fields), end, l)),
                                None => None,
                            },
                            None => None,
                        },
                    }
                }
            },
        }
    }
}

/// Reading `n` root branches one after another, appended to `acc`.
pub open spec fn decode_root_list_spec(
    bytes: Seq<u8>,
    offset: int,
    lens: int,
    n: nat,
    acc: Seq<RootNode>,
) -> Option<(Seq<RootNode>, int, int)>
    decreases bytes.len() - offset, 1int, n,
{
    if offset < 0 || offset > bytes.len() {
        None
    } else if n == 0 {
        Some((acc, offset, lens))
    } else {
        match decode_root_spec(bytes, offset, lens) {
            Some((node, end, l)) => if !progress(bytes, offset, end) {
                None
            } else {
                decode_root_list_spec(bytes, end, l, (n - 1) as nat, acc.push(node))
            },
            None => None,
        }
    }
}

/// Reading `n` named root branches one after another into the field list
/// `acc`, a later field of the same name replacing the earlier.
pub open spec fn decode_root_fields_spec(
    bytes: Seq<u8>,
    offset: int,
    lens: int,
    n: nat,
    acc: Seq<(Seq<u8>, RootNode)>,
) -> Option<(Seq<(Seq<u8>, RootNode)>, int, int)>
    decreases bytes.len() - offset, 1int, n,
{
    if offset < 0 || offset > bytes.len() {
        None
    } else if n == 0 {
        Some((acc, offset, lens))
    } else {
        match decode_ident_spec(bytes, offset) {
            Some((name, o1)) => if !(offset <= o1 <= bytes.len()) {
                None
            } else {
                match decode_root_spec(bytes, o1, lens) {
                    Some((node, end, l)) => if !progress(bytes, offset, end) {
                        None
                    } else {
                        decode_root_fields_spec(
                            bytes,
                            end,
                            l,
                            (n - 1) as nat,
                            insert_field(acc, name, node),
                        )
                    },
                    None => None,
                }
            },
            None => None,
        }
    }
}

/// Reading a whole document: an empty one is `Void`; otherwise the root
/// branch starts at the first byte and the lengths cursor at the last.
pub open spec fn read_root_spec(bytes: Seq<u8>) -> Option<RootNode> {
    if bytes.len() == 0 {
        Some(RootNode::Void)
    } else {
        match decode_root_spec(bytes, 0, bytes.len() - 1) {
            Some((node, _, _)) => Some(node),
            None => None,
        }
    }
}

// ---------------------------------------------------------------------------
// Integers
// ---------------------------------------------------------------------------

impl RootInteger {
    /// Reads an integer of `len` bytes at `*offset`, signed or not, and
    /// moves past it; fails, leaving `*offset` as it was, where there are
    /// fewer bytes.
    pub fn new(bytes: &[u8], offset: &mut usize, len: usize, signed: bool) -> (result: DecodeResult<
        Self,
    >)
        requires
            1 <= len <= 8,
        ensures
            match decode_bytes_spec(bytes@, *old(offset) as int, len as int) {
                Some((data, end)) => result == Ok::<RootInteger, DecodeError>(
                    root_integer_spec(data, signed),
                ) && *final(offset) as int == end,
                None => result == Err::<RootInteger, DecodeError>(DecodeError::InvalidFormat)
                    && *final(offset) == *old(offset),
            },
    {
        let data = decode_bytes(len, bytes, offset)?;
        let v = le_bytes_value(data);
        proof {
            reveal_with_fuel(exp256, 9);
        }
        if !signed {
            return Ok(RootInteger::U(v));
        }
        let wrapped = len == 1 || len == 2 || len == 4 || len == 8;
        let full: u128 = if len == 1 {
            0x100
        } else if len == 2 {
            0x1_0000
        } else if len == 4 {
            0x1_0000_0000
        } else {
            0x1_0000_0000_0000_0000
        };
        if wrapped && (v as u128) >= full / 2 {
            let s: i128 = (v as i128) - (full as i128);
            Ok(RootInteger::S(s as i64))
        } else {
            proof {
                lemma_le_value_bound(data@, 0, len as nat);
                if !wrapped {
                    assert(exp256(len as nat) <= exp256(7)) by {
                        lemma_exp256_monotone(len as nat, 7);
                    }
                }
            }
            Ok(RootInteger::S(v as i64))
        }
    }
}

// ---------------------------------------------------------------------------
// Reading root branches
// ---------------------------------------------------------------------------

/// Sets the field `name` of a field list to `value`, as a map insert would.
fn insert_root_field<'a>(
    fields: &mut Vec<(Ident<'a>, DynRootBranch<'a>)>,
    name: Ident<'a>,
    value: DynRootBranch<'a>,
)
    requires
        distinct_names(named_root_nodes(old(fields)@)),
    ensures
        named_root_nodes(final(fields)@) == insert_field(
            named_root_nodes(old(fields)@),
            name.spec_bytes(),
            value.node(),
        ),
        distinct_names(named_root_nodes(final(fields)@)),
{
    let ghost before = named_root_nodes(fields@);
    let ghost node = value.node();
    let mut i: usize = 0;
    while i < fields.len()
        invariant
            i <= fields@.len(),
            fields@ == old(fields)@,
            before == named_root_nodes(fields@),
            node == value.node(),
            distinct_names(before),
            forall|j: int| 0 <= j < i ==> #[trigger] before[j].0 != name.spec_bytes(),
        decreases fields@.len() - i,
    {
        if same_ident(fields[i].0, name) {
            proof {
                let c = choose|c: int| 0 <= c < before.len() && #[trigger] before[c].0 == name.spec_bytes();
                if c < i {
                    assert(before[c].0 != before[i as int].0);
                } else if c > i {
                    assert(before[i as int].0 != before[c].0);
                }
            }
            let ghost prior = fields@;
            fields.set(i, (name, value));
            proof {
                assert(fields@ == prior.update(i as int, (name, value)));
                assert(named_root_nodes(fields@) =~= before.update(i as int, (name.spec_bytes(), node)));
            }
            return;
        }
        i += 1;
    }
    fields.push((name, value));
    proof {
        assert(named_root_nodes(fields@) =~= before.push((name.spec_bytes(), node)));
    }
}

/// A list read adds exactly `n` branches.
proof fn lemma_root_list_len(bytes: Seq<u8>, offset: int, lens: int, n: nat, acc: Seq<RootNode>)
    ensures
        decode_root_list_spec(bytes, offset, lens, n, acc) matches Some((kids, _, _)) ==> kids.len()
            == acc.len() + n,
    decreases n,
{
    if n > 0 && 0 <= offset <= bytes.len() {
        if let Some((node, end, l)) = decode_root_spec(bytes, offset, lens) {
            if progress(bytes, offset, end) {
                lemma_root_list_len(bytes, end, l, (n - 1) as nat, acc.push(node));
            }
        }
    }
}

/// The content of the branches with lists of children, through the list
/// helpers.
proof fn lemma_root_list_nodes<'a>(branch: DynRootBranch<'a>)
    ensures
        branch matches DynRootBranch::Tuple { fields } ==> branch.node() == RootNode::Tuple(
            root_nodes(fields@),
        ),
        branch matches DynRootBranch::Object { fields } ==> branch.node() == RootNode::Object(
            named_root_nodes(fields@),
        ),
{
    match branch {
        DynRootBranch::Tuple { fields } => {
            assert(root_nodes(fields@) =~= branch.node()->Tuple_0);
        },
        DynRootBranch::Object { fields } => {
            assert(named_root_nodes(fields@) =~= branch.node()->Object_0);
        },
        _ => {},
    }
}

/// Reads `n` root branches one after another.
fn decode_root_list<'a>(bytes: &'a [u8], offset: &mut usize, lens: &mut usize, n: usize) -> (result:
    DecodeResult<Vec<DynRootBranch<'a>>>)
    requires
        *old(offset) <= bytes@.len(),
    ensures
        match decode_root_list_spec(
            bytes@,
            *old(offset) as int,
            cursor(*old(lens)),
            n as nat,
            Seq::empty(),
        ) {
            Some((kids, end, l)) => result is Ok && root_nodes(result->Ok_0@) == kids
                && *final(offset) as int == end && cursor(*final(lens)) == l,
            None => result matches Err(e) && e == DecodeError::InvalidFormat,
        },
        result is Ok ==> *old(offset) <= *final(offset) <= bytes@.len(),
    decreases bytes@.len() - *old(offset), 1int, n,
{
    let ghost start = *offset;
    let ghost lens0 = *lens;
    let mut kids: Vec<DynRootBranch<'a>> = Vec::new();
    let mut k: usize = 0;
    proof {
        assert(root_nodes(kids@) =~= Seq::<RootNode>::empty());
    }
    while k < n
        invariant
            start <= *offset <= bytes@.len(),
            k <= n,
            start == *old(offset),
            lens0 == *old(lens),
            decode_root_list_spec(bytes@, start as int, cursor(lens0), n as nat, Seq::empty())
                == decode_root_list_spec(
                bytes@,
                *offset as int,
                cursor(*lens),
                (n - k) as nat,
                root_nodes(kids@),
            ),
        decreases n - k,
    {
        let ghost before = root_nodes(kids@);
        let child = decode_next_root(bytes, offset, lens)?;
        let ghost node = child.node();
        kids.push(child);
        proof {
            assert(root_nodes(kids@) =~= before.push(node));
        }
        k += 1;
    }
    Ok(kids)
}

/// Reads `n` named root branches one after another into a field list.
fn decode_root_fields<'a>(bytes: &'a [u8], offset: &mut usize, lens: &mut usize, n: usize) -> (result:
    DecodeResult<Vec<(Ident<'a>, DynRootBranch<'a>)>>)
    requires
        *old(offset) <= bytes@.len(),
    ensures
        match decode_root_fields_spec(
            bytes@,
            *old(offset) as int,
            cursor(*old(lens)),
            n as nat,
            Seq::empty(),
        ) {
            Some((fields, end, l)) => result is Ok && named_root_nodes(result->Ok_0@) == fields
                && *final(offset) as int == end && cursor(*final(lens)) == l,
            None => result matches Err(e) && e == DecodeError::InvalidFormat,
        },
        result is Ok ==> *old(offset) <= *final(offset) <= bytes@.len(),
        result is Ok ==> distinct_names(named_root_nodes(result->Ok_0@)),
    decreases bytes@.len() - *old(offset), 1int, n,
{
    let ghost start = *offset;
    let ghost lens0 = *lens;
    let mut fields: Vec<(Ident<'a>, DynRootBranch<'a>)> = Vec::new();
    let mut k: usize = 0;
    proof {
        assert(named_root_nodes(fields@) =~= Seq::<(Seq<u8>, RootNode)>::empty());
    }
    while k < n
        invariant
            start <= *offset <= bytes@.len(),
            k <= n,
            start == *old(offset),
            lens0 == *old(lens),
            distinct_names(named_root_nodes(fields@)),
            decode_root_fields_spec(bytes@, start as int, cursor(lens0), n as nat, Seq::empty())
                == decode_root_fields_spec(
                bytes@,
                *offset as int,
                cursor(*lens),
                (n - k) as nat,
                named_root_nodes(fields@),
            ),
        decreases n - k,
    {
        let name = decode_ident(bytes, offset)?;
        let child = decode_next_root(bytes, offset, lens)?;
        insert_root_field(&mut fields, name, child);
        k += 1;
    }
    Ok(fields)
}

/// What every step of reading a root branch whose type id is at `start`
/// promises.
pub open spec fn root_step_done<'a>(
    bytes: Seq<u8>,
    start: int,
    lens0: usize,
    result: DecodeResult<DynRootBranch<'a>>,
    offset: usize,
    lens: usize,
) -> bool {
    &&& match decode_root_spec(bytes, start, cursor(lens0)) {
        Some((node, end, l)) => result is Ok && result->Ok_0.node() == node && offset as int == end
            && cursor(lens) == l,
        None => result matches Err(e) && e == DecodeError::InvalidFormat,
    }
    &&& result is Ok ==> start < offset <= bytes.len()
}

/// Reads the branches of the ids that hold a value in their own bytes:
/// integers, floats and text.
fn decode_root_scalar<'a>(
    id: RootTypeId,
    bytes: &'a [u8],
    offset: &mut usize,
    lens: &mut usize,
    Ghost(start): Ghost<usize>,
) -> (result: DecodeResult<DynRootBranch<'a>>)
    requires
        start < bytes@.len(),
        *old(offset) == start + 1,
        root_type_id_of(bytes@[start as int]) == Some(id),
        is_root_scalar(id),
    ensures
        root_step_done(bytes@, start as int, *old(lens), result, *final(offset), *final(lens)),
{
    let branch = match id {
        RootTypeId::IntU64 => DynRootBranch::Integer(RootInteger::new(bytes, offset, 8, false)?),
        RootTypeId::IntU56 => DynRootBranch::Integer(RootInteger::new(bytes, offset, 7, false)?),
        RootTypeId::IntU48 => DynRootBranch::Integer(RootInteger::new(bytes, offset, 6, false)?),
        RootTypeId::IntU40 => DynRootBranch::Integer(RootInteger::new(bytes, offset, 5, false)?),
        RootTypeId::IntU32 => DynRootBranch::Integer(RootInteger::new(bytes, offset, 4, false)?),
        RootTypeId::IntU24 => DynRootBranch::Integer(RootInteger::new(bytes, offset, 3, false)?),
        RootTypeId::IntU16 => DynRootBranch::Integer(RootInteger::new(bytes, offset, 2, false)?),
        RootTypeId::IntU8 => DynRootBranch::Integer(RootInteger::new(bytes, offset, 1, false)?),
        RootTypeId::IntS64 => DynRootBranch::Integer(RootInteger::new(bytes, offset, 8, true)?),
        RootTypeId::IntS56 => DynRootBranch::Integer(RootInteger::new(bytes, offset, 7, true)?),
        RootTypeId::IntS48 => DynRootBranch::Integer(RootInteger::new(bytes, offset, 6, true)?),
        RootTypeId::IntS40 => DynRootBranch::Integer(RootInteger::new(bytes, offset, 5, true)?),
        RootTypeId::IntS32 => DynRootBranch::Integer(RootInteger::new(bytes, offset, 4, true)?),
        RootTypeId::IntS24 => DynRootBranch::Integer(RootInteger::new(bytes, offset, 3, true)?),
        RootTypeId::IntS16 => DynRootBranch::Integer(RootInteger::new(bytes, offset, 2, true)?),
        RootTypeId::IntS8 => DynRootBranch::Integer(RootInteger::new(bytes, offset, 1, true)?),
        RootTypeId::F32 => {
            let data = decode_bytes(4, bytes, offset)?;
            DynRootBranch::Float(RootFloat::F32(le_bytes_value(data) as u32))
        },
        RootTypeId::F64 => {
            let data = decode_bytes(8, bytes, offset)?;
            DynRootBranch::Float(RootFloat::F64(le_bytes_value(data)))
        },
        RootTypeId::Str0 => DynRootBranch::String(decode_str(0, bytes, offset)?),
        RootTypeId::Str1 => DynRootBranch::String(decode_str(1, bytes, offset)?),
        RootTypeId::Str2 => DynRootBranch::String(decode_str(2, bytes, offset)?),
        RootTypeId::Str3 => DynRootBranch::String(decode_str(3, bytes, offset)?),
        _ => {
            let len = decode_usize(bytes, offset)?;
            DynRootBranch::String(decode_str(len, bytes, offset)?)
        },
    };
    Ok(branch)
}

/// Reads the branches with one or two children: arrays, maps and enums.
fn decode_root_nested<'a>(
    id: RootTypeId,
    bytes: &'a [u8],
    offset: &mut usize,
    lens: &mut usize,
    Ghost(start): Ghost<usize>,
) -> (result: DecodeResult<DynRootBranch<'a>>)
    requires
        start < bytes@.len(),
        *old(offset) == start + 1,
        root_type_id_of(bytes@[start as int]) == Some(id),
        id == RootTypeId::Array1 || id == RootTypeId::ArrayN || id == RootTypeId::Mapping || id
            == RootTypeId::Enum,
    ensures
        root_step_done(bytes@, start as int, *old(lens), result, *final(offset), *final(lens)),
    decreases bytes@.len() - start, 0int, 0int,
{
    match id {
        RootTypeId::Array1 => {
            let value = decode_next_root(bytes, offset, lens)?;
            Ok(DynRootBranch::Array1(Box::new(value)))
        },
        RootTypeId::ArrayN => {
            let len = decode_usize(bytes, offset)?;
            let values = decode_next_array(bytes, offset, lens)?;
            Ok(DynRootBranch::Array { len, values })
        },
        RootTypeId::Mapping => {
            let len = decode_usize(bytes, offset)?;
            if len == 0 {
                Ok(DynRootBranch::Map0)
            } else if len == 1 {
                let key = decode_next_root(bytes, offset, lens)?;
                let value = decode_next_root(bytes, offset, lens)?;
                Ok(DynRootBranch::Map1 { key: Box::new(key), value: Box::new(value) })
            } else {
                let keys = decode_next_array(bytes, offset, lens)?;
                let values = decode_next_array(bytes, offset, lens)?;
                Ok(DynRootBranch::Mapping { len, keys, values })
            }
        },
        _ => {
            let discriminant = decode_ident(bytes, offset)?;
            let value = decode_next_root(bytes, offset, lens)?;
            Ok(DynRootBranch::Enum { discriminant, value: Box::new(value) })
        },
    }
}

/// Reads the branches of the tuple and object ids.
fn decode_root_group<'a>(
    id: RootTypeId,
    bytes: &'a [u8],
    offset: &mut usize,
    lens: &mut usize,
    Ghost(start): Ghost<usize>,
) -> (result: DecodeResult<DynRootBranch<'a>>)
    requires
        start < bytes@.len(),
        *old(offset) == start + 1,
        root_type_id_of(bytes@[start as int]) == Some(id),
        root_fixed_arity(id) is Some || id == RootTypeId::TupleN || id == RootTypeId::ObjN,
    ensures
        root_step_done(bytes@, start as int, *old(lens), result, *final(offset), *final(lens)),
    decreases bytes@.len() - start, 0int, 0int,
{
    let count: usize = match id {
        RootTypeId::TupleN => decode_count(bytes, offset)?,
        RootTypeId::ObjN => decode_count(bytes, offset)?,
        RootTypeId::Tuple2 => 2,
        RootTypeId::Tuple3 => 3,
        RootTypeId::Tuple4 => 4,
        RootTypeId::Tuple5 => 5,
        RootTypeId::Tuple6 => 6,
        RootTypeId::Tuple7 => 7,
        RootTypeId::Tuple8 => 8,
        RootTypeId::Obj0 => 0,
        RootTypeId::Obj1 => 1,
        RootTypeId::Obj2 => 2,
        RootTypeId::Obj3 => 3,
        RootTypeId::Obj4 => 4,
        RootTypeId::Obj5 => 5,
        RootTypeId::Obj6 => 6,
        RootTypeId::Obj7 => 7,
        _ => 8,
    };
    let is_tuple = match id {
        RootTypeId::Tuple2 | RootTypeId::Tuple3 | RootTypeId::Tuple4 | RootTypeId::Tuple5
        | RootTypeId::Tuple6 | RootTypeId::Tuple7 | RootTypeId::Tuple8 | RootTypeId::TupleN => true,
        _ => false,
    };
    if is_tuple {
        let fields = decode_root_list(bytes, offset, lens, count)?;
        let branch = DynRootBranch::Tuple { fields };
        proof {
            lemma_root_list_nodes(branch);
        }
        Ok(branch)
    } else {
        let fields = decode_root_fields(bytes, offset, lens, count)?;
        let branch = DynRootBranch::Object { fields };
        proof {
            lemma_root_list_nodes(branch);
        }
        Ok(branch)
    }
}

/// Reads the root branch whose type id is at `*offset`, taking the lengths
/// of data bytes of array branches from the lengths cursor `*lens`, and
/// moves both past what was read.
pub fn decode_next_root<'a>(bytes: &'a [u8], offset: &mut usize, lens: &mut usize) -> (result:
    DecodeResult<DynRootBranch<'a>>)
    ensures
        match decode_root_spec(bytes@, *old(offset) as int, cursor(*old(lens))) {
            Some((node, end, l)) => result is Ok && result->Ok_0.node() == node && *final(offset)
                as int == end && cursor(*final(lens)) == l,
            None => result matches Err(e) && e == DecodeError::InvalidFormat,
        },
        result is Ok ==> *old(offset) < *final(offset) <= bytes@.len(),
    decreases bytes@.len() - *old(offset), 0int, 1int,
{
    let ghost start = *offset;
    let id = RootTypeId::decode_next(bytes, offset)?;
    match id {
        RootTypeId::Void => Ok(DynRootBranch::Void),
        RootTypeId::Array0 => Ok(DynRootBranch::Array0),
        RootTypeId::True => Ok(DynRootBranch::Boolean(true)),
        RootTypeId::False => Ok(DynRootBranch::Boolean(false)),
        RootTypeId::Zero => Ok(DynRootBranch::Integer(RootInteger::U(0))),
        RootTypeId::One => Ok(DynRootBranch::Integer(RootInteger::U(1))),
        RootTypeId::NegOne => Ok(DynRootBranch::Integer(RootInteger::S(-1))),
        RootTypeId::NaN => Ok(DynRootBranch::Float(RootFloat::NaN)),
        RootTypeId::Array1 | RootTypeId::ArrayN | RootTypeId::Mapping | RootTypeId::Enum => {
            decode_root_nested(id, bytes, offset, lens, Ghost(start))
        },
        RootTypeId::Tuple2 | RootTypeId::Tuple3 | RootTypeId::Tuple4 | RootTypeId::Tuple5
        | RootTypeId::Tuple6 | RootTypeId::Tuple7 | RootTypeId::Tuple8 | RootTypeId::TupleN
        | RootTypeId::Obj0 | RootTypeId::Obj1 | RootTypeId::Obj2 | RootTypeId::Obj3
        | RootTypeId::Obj4 | RootTypeId::Obj5 | RootTypeId::Obj6 | RootTypeId::Obj7
        | RootTypeId::Obj8 | RootTypeId::ObjN => decode_root_group(
            id,
            bytes,
            offset,
            lens,
            Ghost(start),
        ),
        _ => decode_root_scalar(id, bytes, offset, lens, Ghost(start)),
    }
}

/// Reads a whole document: `Void` where it is empty, else the root branch
/// at its first byte, with the lengths cursor starting at its last byte.
pub fn read_root<'a>(bytes: &'a [u8]) -> (result: DecodeResult<DynRootBranch<'a>>)
    ensures
        match read_root_spec(bytes@) {
            Some(node) => result is Ok && result->Ok_0.node() == node,
            None => result matches Err(e) && e == DecodeError::InvalidFormat,
        },
{
    if bytes.len() == 0 {
        return Ok(DynRootBranch::Void);
    }
    let mut lens = bytes.len() - 1;
    let mut offset: usize = 0;
    decode_next_root(bytes, &mut offset, &mut lens)
}

} // verus!
