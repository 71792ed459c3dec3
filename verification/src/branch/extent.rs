//! How much of a document a branch takes: every piece of column data, with
//! the type id in front of it, lies inside the stretch of bytes the branch
//! was read from.
use vstd::prelude::*;
use crate::branch::{distinct_names, insert_field};
use crate::branch::array_branch::{
    array_fixed_arity, decode_array_fields_spec, decode_array_list_spec, decode_array_spec,
    decode_array_variants_spec, decode_bytes_from_len_spec, is_tuple_id, leaf_node, progress,
    ArrayNode,
};
use crate::branch::root_branch::{
    read_root_spec, decode_root_fields_spec, decode_root_list_spec, decode_root_spec, is_root_scalar, root_constant,
    root_fixed_arity, RootNode,
};
use crate::type_id::{array_type_id_of, root_type_id_of, ArrayTypeId, RootTypeId};

verus! {

/// The weight of an array branch: for each piece of column data in it, its
/// number of bytes plus one for its type id.
pub open spec fn array_weight(node: ArrayNode) -> nat
    decreases node, 0nat,
{
    match node {
        ArrayNode::Object(fields) => named_weight(fields, 0),
        ArrayNode::Tuple(kids) => kids_weight(kids, 0),
        ArrayNode::Array0 => 0,
        ArrayNode::Array(len, values) => array_weight(*len) + array_weight(*values),
        ArrayNode::ArrayFixed(_, values) => array_weight(*values),
        ArrayNode::Map0 => 0,
        ArrayNode::Mapping(len, keys, values) => array_weight(*len) + array_weight(*keys) + array_weight(
            *values,
        ),
        ArrayNode::Integer(bytes, _) => bytes.len() + 1,
        ArrayNode::Nullable(opt, values) => array_weight(*opt) + array_weight(*values),
        ArrayNode::PackedBool(bytes) => bytes.len() + 1,
        ArrayNode::RLEBool(_, runs) => array_weight(*runs),
        ArrayNode::Float(_, bytes) => bytes.len() + 1,
        ArrayNode::Void => 0,
        ArrayNode::String(bytes) => bytes.len() + 1,
        ArrayNode::Enum(discriminants, variants) => array_weight(*discriminants) + named_weight(variants, 0),
        ArrayNode::RLE(runs, values) => array_weight(*runs) + array_weight(*values),
        ArrayNode::Dictionary(indices, values) => array_weight(*indices) + array_weight(*values),
    }
}

/// The weight of the named children `i` and on.
pub open spec fn named_weight(fields: Seq<(Seq<u8>, ArrayNode)>, i: int) -> nat
    decreases fields, fields.len() - i,
{
    if 0 <= i < fields.len() {
        array_weight(fields[i].1) + named_weight(fields, i + 1)
    } else {
        0
    }
}

/// The weight of the children `i` and on.
pub open spec fn kids_weight(kids: Seq<ArrayNode>, i: int) -> nat
    decreases kids, kids.len() - i,
{
    if 0 <= i < kids.len() {
        array_weight(kids[i]) + kids_weight(kids, i + 1)
    } else {
        0
    }
}

/// Adding a child at the end adds its weight.
proof fn lemma_kids_weight_push(kids: Seq<ArrayNode>, x: ArrayNode, i: int)
    requires
        0 <= i <= kids.len(),
    ensures
        kids_weight(kids.push(x), i) == kids_weight(kids, i) + array_weight(x),
    decreases kids.len() - i,
{
    if i < kids.len() {
        lemma_kids_weight_push(kids, x, i + 1);
    } else {
        assert(kids_weight(kids.push(x), i + 1) == 0);
    }
}

/// Adding a named child at the end adds its weight.
proof fn lemma_named_weight_push(fields: Seq<(Seq<u8>, ArrayNode)>, x: (Seq<u8>, ArrayNode), i: int)
    requires
        0 <= i <= fields.len(),
    ensures
        named_weight(fields.push(x), i) == named_weight(fields, i) + array_weight(x.1),
    decreases fields.len() - i,
{
    if i < fields.len() {
        lemma_named_weight_push(fields, x, i + 1);
    } else {
        assert(named_weight(fields.push(x), i + 1) == 0);
    }
}

/// Replacing a named child trades its weight for the new one's.
proof fn lemma_named_weight_update(fields: Seq<(Seq<u8>, ArrayNode)>, k: int, x: (Seq<u8>, ArrayNode), i: int)
    requires
        0 <= i <= k < fields.len(),
    ensures
        named_weight(fields.update(k, x), i) + array_weight(fields[k].1) == named_weight(fields, i)
            + array_weight(x.1),
    decreases fields.len() - i,
{
    if i < k {
        lemma_named_weight_update(fields, k, x, i + 1);
    } else {
        lemma_named_weight_tail(fields, k, x, i + 1);
    }
}

/// Past the replaced child, the weights agree.
proof fn lemma_named_weight_tail(fields: Seq<(Seq<u8>, ArrayNode)>, k: int, x: (Seq<u8>, ArrayNode), i: int)
    requires
        0 <= k < i <= fields.len(),
    ensures
        named_weight(fields.update(k, x), i) == named_weight(fields, i),
    decreases fields.len() - i,
{
    if i < fields.len() {
        lemma_named_weight_tail(fields, k, x, i + 1);
    }
}

/// Setting a field adds at most the new child's weight.
proof fn lemma_insert_field_weight(fields: Seq<(Seq<u8>, ArrayNode)>, name: Seq<u8>, node: ArrayNode)
    requires
        distinct_names(fields),
    ensures
        named_weight(insert_field(fields, name, node), 0) <= named_weight(fields, 0) + array_weight(node),
{
    if exists|i: int| 0 <= i < fields.len() && #[trigger] fields[i].0 == name {
        let i = choose|i: int| 0 <= i < fields.len() && #[trigger] fields[i].0 == name;
        crate::branch::lemma_insert_field_at(fields, name, node, i);
        lemma_named_weight_update(fields, i, (name, node), 0);
    } else {
        lemma_named_weight_push(fields, (name, node), 0);
    }
}

/// A decoded array branch weighs no more than the bytes it was read from.
pub proof fn lemma_array_extent(bytes: Seq<u8>, offset: int, lens: int)
    ensures
        decode_array_spec(bytes, offset, lens) matches Some((node, end, _)) ==> array_weight(node) <= end
            - offset && end <= bytes.len(),
    decreases bytes.len() - offset, 0int, 1int,
{
    if 0 <= offset < bytes.len() {
        if let Some(id) = array_type_id_of(bytes[offset]) {
            lemma_array_extent_step(bytes, offset, lens, id);
        }
    }
}

/// The step of `lemma_array_extent` for the id at `offset`.
proof fn lemma_array_extent_step(bytes: Seq<u8>, offset: int, lens: int, id: ArrayTypeId)
    requires
        0 <= offset < bytes.len(),
        array_type_id_of(bytes[offset]) == Some(id),
    ensures
        decode_array_spec(bytes, offset, lens) matches Some((node, end, _)) ==> array_weight(node) <= end
            - offset && end <= bytes.len(),
    decreases bytes.len() - offset, 0int, 0int,
{
    let o = offset + 1;
    match decode_array_spec(bytes, offset, lens) {
        None => {},
        Some((node, end, l)) => {
            match id {
                ArrayTypeId::Void => {},
                ArrayTypeId::Nullable | ArrayTypeId::RLE | ArrayTypeId::Dictionary => {
                    lemma_array_list_extent(bytes, o, lens, 2, Seq::empty());
                    let (kids, _, _) = decode_array_list_spec(bytes, o, lens, 2, Seq::empty())->0;
                    assert(kids_weight(Seq::empty(), 0) == 0);
                    lemma_two_kids(kids);
                },
                ArrayTypeId::ArrayVar => {
                    lemma_array_extent(bytes, o, lens);
                    let (len, o1, l1) = decode_array_spec(bytes, o, lens)->0;
                    if len != ArrayNode::Void {
                        lemma_array_extent(bytes, o1, l1);
                    }
                },
                ArrayTypeId::Mapping => {
                    lemma_array_extent(bytes, o, lens);
                    let (len, o1, l1) = decode_array_spec(bytes, o, lens)->0;
                    if len != ArrayNode::Void {
                        lemma_array_list_extent(bytes, o1, l1, 2, Seq::empty());
                        let (kids, _, _) = decode_array_list_spec(bytes, o1, l1, 2, Seq::empty())->0;
                        assert(kids_weight(Seq::empty(), 0) == 0);
                        lemma_two_kids(kids);
                    }
                },
                ArrayTypeId::ArrayFixed => {
                    let (_, o1) = crate::encodings::varint::decode_prefix_spec(bytes, o)->0;
                    lemma_array_extent(bytes, o1, lens);
                },
                ArrayTypeId::TupleN => {
                    let (count, o1) = crate::branch::array_branch::decode_count_spec(bytes, o)->0;
                    lemma_array_list_extent(bytes, o1, lens, count as nat, Seq::empty());
                    assert(kids_weight(Seq::empty(), 0) == 0);
                },
                ArrayTypeId::ObjN => {
                    let (count, o1) = crate::branch::array_branch::decode_count_spec(bytes, o)->0;
                    lemma_array_fields_extent(bytes, o1, lens, count as nat, Seq::empty());
                    assert(named_weight(Seq::empty(), 0) == 0);
                },
                ArrayTypeId::Enum => {
                    let (count, o1) = crate::encodings::varint::decode_prefix_spec(bytes, o)->0;
                    lemma_array_extent(bytes, o1, lens);
                    let (_, o2, l2) = decode_array_spec(bytes, o1, lens)->0;
                    lemma_array_variants_extent(bytes, o2, l2, (count as usize) as nat, Seq::empty());
                    assert(named_weight(Seq::empty(), 0) == 0);
                },
                ArrayTypeId::RLEBoolTrue | ArrayTypeId::RLEBoolFalse => {
                    lemma_array_extent(bytes, o, lens);
                },
                _ => {
                    match array_fixed_arity(id) {
                        Some(n) => {
                            if is_tuple_id(id) {
                                lemma_array_list_extent(bytes, o, lens, n, Seq::empty());
                                assert(kids_weight(Seq::empty(), 0) == 0);
                            } else {
                                lemma_array_fields_extent(bytes, o, lens, n, Seq::empty());
                                assert(named_weight(Seq::empty(), 0) == 0);
                            }
                        },
                        None => {
                            let (data, e, _) = decode_bytes_from_len_spec(bytes, o, lens)->0;
                            assert(array_weight(leaf_node(id, data)) == data.len() + 1);
                        },
                    }
                },
            }
        },
    }
}

/// Two children weigh what each does.
proof fn lemma_two_kids(kids: Seq<ArrayNode>)
    requires
        kids.len() == 2,
    ensures
        kids_weight(kids, 0) == array_weight(kids[0]) + array_weight(kids[1]),
{
    assert(kids_weight(kids, 2) == 0);
    assert(kids_weight(kids, 1) == array_weight(kids[1]));
}

/// Reading `n` array branches adds no more weight than bytes read.
proof fn lemma_array_list_extent(bytes: Seq<u8>, offset: int, lens: int, n: nat, acc: Seq<ArrayNode>)
    ensures
        decode_array_list_spec(bytes, offset, lens, n, acc) matches Some((kids, end, _)) ==> kids.len()
            == acc.len() + n && kids_weight(kids, 0) <= kids_weight(acc, 0) + (end - offset) && end
            <= bytes.len(),
    decreases bytes.len() - offset, 1int, n,
{
    if 0 <= offset <= bytes.len() && n > 0 {
        lemma_array_extent(bytes, offset, lens);
        if let Some((node, end, l)) = decode_array_spec(bytes, offset, lens) {
            if progress(bytes, offset, end) {
                lemma_kids_weight_push(acc, node, 0);
                lemma_array_list_extent(bytes, end, l, (n - 1) as nat, acc.push(node));
            }
        }
    }
}

/// Reading `n` named array branches into a field list adds no more weight
/// than bytes read.
proof fn lemma_array_fields_extent(
    bytes: Seq<u8>,
    offset: int,
    lens: int,
    n: nat,
    acc: Seq<(Seq<u8>, ArrayNode)>,
)
    requires
        distinct_names(acc),
    ensures
        decode_array_fields_spec(bytes, offset, lens, n, acc) matches Some((fields, end, _))
            ==> named_weight(fields, 0) <= named_weight(acc, 0) + (end - offset) && end <= bytes.len(),
    decreases bytes.len() - offset, 1int, n,
{
    if 0 <= offset <= bytes.len() && n > 0 {
        if let Some((name, o1)) = crate::branch::decode_ident_spec(bytes, offset) {
            if offset <= o1 <= bytes.len() {
                lemma_array_extent(bytes, o1, lens);
                if let Some((node, end, l)) = decode_array_spec(bytes, o1, lens) {
                    if progress(bytes, offset, end) {
                        lemma_insert_field_weight(acc, name, node);
                        crate::branch::lemma_insert_field_distinct(acc, name, node);
                        lemma_array_fields_extent(
                            bytes,
                            end,
                            l,
                            (n - 1) as nat,
                            insert_field(acc, name, node),
                        );
                    }
                }
            }
        }
    }
}

/// Reading `n` enum variants adds no more weight than bytes read.
proof fn lemma_array_variants_extent(
    bytes: Seq<u8>,
    offset: int,
    lens: int,
    n: nat,
    acc: Seq<(Seq<u8>, ArrayNode)>,
)
    ensures
        decode_array_variants_spec(bytes, offset, lens, n, acc) matches Some((variants, end, _))
            ==> named_weight(variants, 0) <= named_weight(acc, 0) + (end - offset) && end <= bytes.len(),
    decreases bytes.len() - offset, 1int, n,
{
    if 0 <= offset <= bytes.len() && n > 0 {
        if let Some((name, o1)) = crate::branch::decode_ident_spec(bytes, offset) {
            if offset <= o1 <= bytes.len() {
                lemma_array_extent(bytes, o1, lens);
                if let Some((node, end, l)) = decode_array_spec(bytes, o1, lens) {
                    if progress(bytes, offset, end) {
                        lemma_named_weight_push(acc, (name, node), 0);
                        lemma_array_variants_extent(bytes, end, l, (n - 1) as nat, acc.push((name, node)));
                    }
                }
            }
        }
    }
}

/// The weight of a root branch: that of the array branches inside it.
pub open spec fn root_weight(node: RootNode) -> nat
    decreases node, 0nat,
{
    match node {
        RootNode::Object(fields) => root_named_weight(fields, 0),
        RootNode::Tuple(kids) => root_kids_weight(kids, 0),
        RootNode::Enum(_, value) => root_weight(*value),
        RootNode::Array1(value) => root_weight(*value),
        RootNode::Array(_, values) => array_weight(values),
        RootNode::Map1(key, value) => root_weight(*key) + root_weight(*value),
        RootNode::Mapping(_, keys, values) => array_weight(keys) + array_weight(values),
        _ => 0,
    }
}

/// The weight of the named root children `i` and on.
pub open spec fn root_named_weight(fields: Seq<(Seq<u8>, RootNode)>, i: int) -> nat
    decreases fields, fields.len() - i,
{
    if 0 <= i < fields.len() {
        root_weight(fields[i].1) + root_named_weight(fields, i + 1)
    } else {
        0
    }
}

/// The weight of the root children `i` and on.
pub open spec fn root_kids_weight(kids: Seq<RootNode>, i: int) -> nat
    decreases kids, kids.len() - i,
{
    if 0 <= i < kids.len() {
        root_weight(kids[i]) + root_kids_weight(kids, i + 1)
    } else {
        0
    }
}

/// Adding a root child at the end adds its weight.
proof fn lemma_root_kids_weight_push(kids: Seq<RootNode>, x: RootNode, i: int)
    requires
        0 <= i <= kids.len(),
    ensures
        root_kids_weight(kids.push(x), i) == root_kids_weight(kids, i) + root_weight(x),
    decreases kids.len() - i,
{
    if i < kids.len() {
        lemma_root_kids_weight_push(kids, x, i + 1);
    } else {
        assert(root_kids_weight(kids.push(x), i + 1) == 0);
    }
}

/// Adding a named root child at the end adds its weight.
proof fn lemma_root_named_weight_push(fields: Seq<(Seq<u8>, RootNode)>, x: (Seq<u8>, RootNode), i: int)
    requires
        0 <= i <= fields.len(),
    ensures
        root_named_weight(fields.push(x), i) == root_named_weight(fields, i) + root_weight(x.1),
    decreases fields.len() - i,
{
    if i < fields.len() {
        lemma_root_named_weight_push(fields, x, i + 1);
    } else {
        assert(root_named_weight(fields.push(x), i + 1) == 0);
    }
}

/// Replacing a named root child trades its weight for the new one's.
proof fn lemma_root_named_weight_update(
    fields: Seq<(Seq<u8>, RootNode)>,
    k: int,
    x: (Seq<u8>, RootNode),
    i: int,
)
    requires
        0 <= i <= k < fields.len(),
    ensures
        root_named_weight(fields.update(k, x), i) + root_weight(fields[k].1) == root_named_weight(
            fields,
            i,
        ) + root_weight(x.1),
    decreases fields.len() - i,
{
    if i < k {
        lemma_root_named_weight_update(fields, k, x, i + 1);
    } else {
        lemma_root_named_weight_tail(fields, k, x, i + 1);
    }
}

/// Past the replaced root child, the weights agree.
proof fn lemma_root_named_weight_tail(fields: Seq<(Seq<u8>, RootNode)>, k: int, x: (Seq<u8>, RootNode), i: int)
    requires
        0 <= k < i <= fields.len(),
    ensures
        root_named_weight(fields.update(k, x), i) == root_named_weight(fields, i),
    decreases fields.len() - i,
{
    if i < fields.len() {
        lemma_root_named_weight_tail(fields, k, x, i + 1);
    }
}

/// A decoded root branch weighs no more than the bytes it was read from.
pub proof fn lemma_root_extent(bytes: Seq<u8>, offset: int, lens: int)
    ensures
        decode_root_spec(bytes, offset, lens) matches Some((node, end, _)) ==> root_weight(node) <= end
            - offset && end <= bytes.len(),
    decreases bytes.len() - offset, 0int, 1int,
{
    if 0 <= offset < bytes.len() {
        if let Some(id) = root_type_id_of(bytes[offset]) {
            lemma_root_extent_step(bytes, offset, lens, id);
        }
    }
}

/// The step of `lemma_root_extent` for the id at `offset`.
proof fn lemma_root_extent_step(bytes: Seq<u8>, offset: int, lens: int, id: RootTypeId)
    requires
        0 <= offset < bytes.len(),
        root_type_id_of(bytes[offset]) == Some(id),
    ensures
        decode_root_spec(bytes, offset, lens) matches Some((node, end, _)) ==> root_weight(node) <= end
            - offset && end <= bytes.len(),
    decreases bytes.len() - offset, 0int, 0int,
{
    let o = offset + 1;
    match decode_root_spec(bytes, offset, lens) {
        None => {},
        Some((node, end, l)) => {
            if root_constant(id) is Some {
            } else if is_root_scalar(id) {
            } else {
                match id {
                    RootTypeId::Array1 => {
                        lemma_root_extent(bytes, o, lens);
                    },
                    RootTypeId::ArrayN => {
                        let (_, o1) = crate::encodings::varint::decode_prefix_spec(bytes, o)->0;
                        lemma_array_extent(bytes, o1, lens);
                    },
                    RootTypeId::Mapping => {
                        let (len, o1) = crate::encodings::varint::decode_prefix_spec(bytes, o)->0;
                        if len as usize == 0 {
                        } else if len as usize == 1 {
                            lemma_root_extent(bytes, o1, lens);
                            let (_, o2, l2) = decode_root_spec(bytes, o1, lens)->0;
                            lemma_root_extent(bytes, o2, l2);
                        } else {
                            lemma_array_extent(bytes, o1, lens);
                            let (_, o2, l2) = decode_array_spec(bytes, o1, lens)->0;
                            lemma_array_extent(bytes, o2, l2);
                        }
                    },
                    RootTypeId::Enum => {
                        let (_, o1) = crate::branch::decode_ident_spec(bytes, o)->0;
                        lemma_root_extent(bytes, o1, lens);
                    },
                    RootTypeId::TupleN => {
                        let (count, o1) = crate::branch::array_branch::decode_count_spec(bytes, o)->0;
                        lemma_root_list_extent(bytes, o1, lens, count as nat, Seq::empty());
                        assert(root_kids_weight(Seq::empty(), 0) == 0);
                    },
                    RootTypeId::ObjN => {
                        let (count, o1) = crate::branch::array_branch::decode_count_spec(bytes, o)->0;
                        lemma_root_fields_extent(bytes, o1, lens, count as nat, Seq::empty());
                        assert(root_named_weight(Seq::empty(), 0) == 0);
                    },
                    _ => {
                        match root_fixed_arity(id) {
                            Some((n, true)) => {
                                lemma_root_list_extent(bytes, o, lens, n, Seq::empty());
                                assert(root_kids_weight(Seq::empty(), 0) == 0);
                            },
                            Some((n, false)) => {
                                lemma_root_fields_extent(bytes, o, lens, n, Seq::empty());
                                assert(root_named_weight(Seq::empty(), 0) == 0);
                            },
                            None => {},
                        }
                    },
                }
            }
        },
    }
}

/// Reading `n` root branches adds no more weight than bytes read.
proof fn lemma_root_list_extent(bytes: Seq<u8>, offset: int, lens: int, n: nat, acc: Seq<RootNode>)
    ensures
        decode_root_list_spec(bytes, offset, lens, n, acc) matches Some((kids, end, _))
            ==> root_kids_weight(kids, 0) <= root_kids_weight(acc, 0) + (end - offset) && end
            <= bytes.len(),
    decreases bytes.len() - offset, 1int, n,
{
    if 0 <= offset <= bytes.len() && n > 0 {
        lemma_root_extent(bytes, offset, lens);
        if let Some((node, end, l)) = decode_root_spec(bytes, offset, lens) {
            if progress(bytes, offset, end) {
                lemma_root_kids_weight_push(acc, node, 0);
                lemma_root_list_extent(bytes, end, l, (n - 1) as nat, acc.push(node));
            }
        }
    }
}

/// Reading `n` named root branches into a field list adds no more weight
/// than bytes read.
proof fn lemma_root_fields_extent(
    bytes: Seq<u8>,
    offset: int,
    lens: int,
    n: nat,
    acc: Seq<(Seq<u8>, RootNode)>,
)
    requires
        distinct_names(acc),
    ensures
        decode_root_fields_spec(bytes, offset, lens, n, acc) matches Some((fields, end, _))
            ==> root_named_weight(fields, 0) <= root_named_weight(acc, 0) + (end - offset) && end
            <= bytes.len(),
    decreases bytes.len() - offset, 1int, n,
{
    if 0 <= offset <= bytes.len() && n > 0 {
        if let Some((name, o1)) = crate::branch::decode_ident_spec(bytes, offset) {
            if offset <= o1 <= bytes.len() {
                lemma_root_extent(bytes, o1, lens);
                if let Some((node, end, l)) = decode_root_spec(bytes, o1, lens) {
                    if progress(bytes, offset, end) {
                        if exists|i: int| 0 <= i < acc.len() && #[trigger] acc[i].0 == name {
                            let i = choose|i: int| 0 <= i < acc.len() && #[trigger] acc[i].0 == name;
                            crate::branch::lemma_insert_field_at(acc, name, node, i);
                            lemma_root_named_weight_update(acc, i, (name, node), 0);
                        } else {
                            lemma_root_named_weight_push(acc, (name, node), 0);
                        }
                        crate::branch::lemma_insert_field_distinct(acc, name, node);
                        lemma_root_fields_extent(bytes, end, l, (n - 1) as nat, insert_field(acc, name, node));
                    }
                }
            }
        }
    }
}

/// The column data of a document lies inside it: the pieces of data of a
/// decoded document, with a byte each for their type ids, take no more
/// bytes than the document has.
pub proof fn lemma_document_extent(bytes: Seq<u8>)
    ensures
        read_root_spec(bytes) matches Some(node) ==> root_weight(node) <= bytes.len(),
{
    if bytes.len() > 0 {
        lemma_root_extent(bytes, 0, bytes.len() - 1);
    }
}

} // verus!
