//! Sticks: the stored form of a branch, found by the name of the branch and
//! the offset of its parent.
use vstd::prelude::*;
use vstd::string::StringSliceAdditionalSpecFns;
use crate::branch::{decode_bytes_spec, decode_str, decode_str_spec, same_ident};
use crate::error::{DecodeError, DecodeResult};
use crate::encodings::varint::{
    decode_prefix_spec, decode_prefix_varint, encode_prefix_varint, le_bytes_value, le_value,
    lemma_prefix_varint_round_trip, prefix_varint,
};

verus! {

/// The kind of data a stick holds.
#[derive(PartialEq, Eq, Structural, Debug, Copy, Clone, Hash)]
pub enum PrimitiveId {
    Struct,
    Array,
    Opt,
    U32,
    Bool,
    Usize,
    Str,
}

/// The number that stands for each `PrimitiveId`.
pub open spec fn primitive_id_number(id: PrimitiveId) -> u32 {
    match id {
        PrimitiveId::Struct => 1,
        PrimitiveId::Array => 2,
        PrimitiveId::Opt => 3,
        PrimitiveId::U32 => 4,
        PrimitiveId::Bool => 5,
        PrimitiveId::Usize => 6,
        PrimitiveId::Str => 7,
    }
}

/// The `PrimitiveId` a number stands for, if any.
pub open spec fn primitive_id_of(value: u32) -> Option<PrimitiveId> {
    if value == 1 {
        Some(PrimitiveId::Struct)
    } else if value == 2 {
        Some(PrimitiveId::Array)
    } else if value == 3 {
        Some(PrimitiveId::Opt)
    } else if value == 4 {
        Some(PrimitiveId::U32)
    } else if value == 5 {
        Some(PrimitiveId::Bool)
    } else if value == 6 {
        Some(PrimitiveId::Usize)
    } else if value == 7 {
        Some(PrimitiveId::Str)
    } else {
        None
    }
}

impl PrimitiveId {
    /// The number that stands for this id.
    pub fn to_u32(self) -> (value: u32)
        ensures
            value == primitive_id_number(self),
    {
        match self {
            PrimitiveId::Struct => 1,
            PrimitiveId::Array => 2,
            PrimitiveId::Opt => 3,
            PrimitiveId::U32 => 4,
            PrimitiveId::Bool => 5,
            PrimitiveId::Usize => 6,
            PrimitiveId::Str => 7,
        }
    }

    /// The id that `value` stands for, if any.
    pub fn from_u32(value: u32) -> (id: Option<PrimitiveId>)
        ensures
            id == primitive_id_of(value),
    {
        match value {
            1 => Some(PrimitiveId::Struct),
            2 => Some(PrimitiveId::Array),
            3 => Some(PrimitiveId::Opt),
            4 => Some(PrimitiveId::U32),
            5 => Some(PrimitiveId::Bool),
            6 => Some(PrimitiveId::Usize),
            7 => Some(PrimitiveId::Str),
            _ => None,
        }
    }
}

/// Numbers and ids stand for each other one for one.
pub proof fn lemma_primitive_id_round_trip(id: PrimitiveId)
    ensures
        primitive_id_of(primitive_id_number(id)) == Some(id),
{
}

/// Where a branch is stored: its name and the offset at which its parent's
/// stick starts. Every stick holds at least its kind, so no two sticks
/// start at the same offset.
#[derive(Debug)]
pub struct BranchId<'a> {
    pub name: &'a str,
    pub parent: usize,
}

/// The stored form of a branch id: the parent, the length of the name (both
/// prefix varints), then the name's bytes.
pub open spec fn branch_id_bytes(name: Seq<u8>, parent: usize) -> Seq<u8> {
    prefix_varint(parent as u64) + prefix_varint(name.len() as u64) + name
}

/// Reading a branch id at `offset`: its name's bytes, its parent and the
/// offset after it.
pub open spec fn decode_branch_id_spec(bytes: Seq<u8>, offset: int) -> Option<(Seq<u8>, usize, int)> {
    match decode_prefix_spec(bytes, offset) {
        Some((parent, o1)) => match decode_prefix_spec(bytes, o1) {
            Some((len, o2)) => match decode_str_spec(bytes, o2, (len as usize) as int) {
                Some((name, end)) => Some((name, parent as usize, end)),
                None => None,
            },
            None => None,
        },
        None => None,
    }
}

impl<'a> BranchId<'a> {
    /// Appends the stored form of this id to `bytes`.
    pub fn flush(&self, bytes: &mut Vec<u8>)
        ensures
            final(bytes)@ == old(bytes)@ + branch_id_bytes(self.name.spec_bytes(), self.parent),
    {
        encode_prefix_varint(self.parent as u64, bytes);
        let name = self.name.as_bytes();
        encode_prefix_varint(name.len() as u64, bytes);
        let ghost mid = bytes@;
        bytes.extend_from_slice(name);
        proof {
            assert(bytes@ =~= mid + name@);
        }
    }

    /// Reads the id stored at `*offset` and moves past it. The id must be
    /// there, whole, with a UTF-8 name.
    pub fn read(bytes: &'a [u8], offset: &mut usize) -> (id: Self)
        requires
            decode_branch_id_spec(bytes@, *old(offset) as int) is Some,
        ensures
            decode_branch_id_spec(bytes@, *old(offset) as int) == Some(
                (id.name.spec_bytes(), id.parent, *final(offset) as int),
            ),
    {
        let parent = decode_prefix_varint(bytes, offset).unwrap() as usize;
        let str_len = decode_prefix_varint(bytes, offset).unwrap() as usize;
        let name = decode_str(str_len, bytes, offset).unwrap();
        BranchId { name, parent }
    }

    /// Reads the id stored at `*offset` and moves past it; fails where no
    /// whole id with a UTF-8 name is there.
    pub fn try_read(bytes: &'a [u8], offset: &mut usize) -> (result: DecodeResult<Self>)
        ensures
            match decode_branch_id_spec(bytes@, *old(offset) as int) {
                Some((name, parent, end)) => result matches Ok(id) && id.name.spec_bytes() == name
                    && id.parent == parent && *final(offset) as int == end,
                None => result matches Err(e) && e == DecodeError::InvalidFormat,
            },
    {
        let parent = decode_prefix_varint(bytes, offset)? as usize;
        let str_len = decode_prefix_varint(bytes, offset)? as usize;
        let name = decode_str(str_len, bytes, offset)?;
        Ok(BranchId { name, parent })
    }

    /// The first stick stored for this id: same name, same parent.
    pub fn find_stick<'s>(&self, sticks: &'s Vec<Stick<'s>>) -> (found: Option<&'s Stick<'s>>)
        ensures
            match found {
                Some(stick) => exists|i: int|
                    0 <= i < sticks@.len() && sticks@[i] == *stick && #[trigger] stick_matches(
                        *self,
                        sticks@[i],
                    ) && forall|j: int| 0 <= j < i ==> !stick_matches(*self, #[trigger] sticks@[j]),
                None => forall|i: int| 0 <= i < sticks@.len() ==> !stick_matches(*self, #[trigger] sticks@[i]),
            },
    {
        let mut i: usize = 0;
        while i < sticks.len()
            invariant
                i <= sticks@.len(),
                forall|j: int| 0 <= j < i ==> !stick_matches(*self, #[trigger] sticks@[j]),
            decreases sticks@.len() - i,
        {
            let stick = &sticks[i];
            if same_ident(stick.name, self.name) && stick.parent == self.parent {
                assert(stick_matches(*self, sticks@[i as int]));
                return Some(stick);
            }
            i += 1;
        }
        None
    }
}

/// Whether a stick is the one stored for a branch id.
pub open spec fn stick_matches<'a, 'b>(id: BranchId<'a>, stick: Stick<'b>) -> bool {
    stick.name.spec_bytes() == id.name.spec_bytes() && stick.parent == id.parent
}

/// Reading a branch id gives back the one that was flushed.
pub proof fn lemma_branch_id_round_trip<'a>(before: Seq<u8>, id: BranchId<'a>, after: Seq<u8>)
    requires
        id.name.spec_bytes().len() <= usize::MAX,
    ensures
        decode_branch_id_spec(
            before + branch_id_bytes(id.name.spec_bytes(), id.parent) + after,
            before.len() as int,
        ) == Some(
            (
                id.name.spec_bytes(),
                id.parent,
                (before.len() + branch_id_bytes(id.name.spec_bytes(), id.parent).len()) as int,
            ),
        ),
{
    let text = id.name.spec_bytes();
    let p = prefix_varint(id.parent as u64);
    let l = prefix_varint(text.len() as u64);
    let s = before + branch_id_bytes(text, id.parent) + after;
    assert(s =~= before + p + (l + text + after));
    lemma_prefix_varint_round_trip(before, id.parent as u64, l + text + after);
    assert(s =~= (before + p) + l + (text + after));
    lemma_prefix_varint_round_trip(before + p, text.len() as u64, text + after);
    let o2 = (before.len() + p.len() + l.len()) as int;
    assert(s.subrange(o2, o2 + text.len()) =~= text);
    vstd::utf8::encode_utf8_valid_utf8(id.name@);
    assert(decode_prefix_spec(s, before.len() as int) == Some((id.parent as u64, (before.len() + p.len()) as int)));
    assert(decode_prefix_spec(s, (before.len() + p.len()) as int) == Some((text.len() as u64, o2)));
    assert(((text.len() as u64) as usize) as int == text.len());
    assert(decode_str_spec(s, o2, text.len() as int) == Some((text, o2 + text.len())));
}

/// A branch as stored: its id, the kind of its data, the data bytes, and
/// the offset its stored form starts at.
#[derive(Debug)]
pub struct Stick<'a> {
    pub name: &'a str,
    pub parent: usize,
    pub bytes: &'a [u8],
    pub primitive: PrimitiveId,
    pub start: usize,
}

/// Reading a stick at `start`: the offset where it ends (eight little
/// endian bytes), its branch id, one byte for its kind, then its data up to
/// the end offset. Gives the name, parent, kind, data and end.
pub open spec fn decode_stick_spec(bytes: Seq<u8>, start: int) -> Option<
    (Seq<u8>, usize, PrimitiveId, Seq<u8>, int),
> {
    match decode_bytes_spec(bytes, start, 8) {
        Some((end_bytes, o1)) => {
            let end = le_value(end_bytes, 0, 8) as usize as int;
            match decode_branch_id_spec(bytes, o1) {
                Some((name, parent, o2)) => if o2 < bytes.len() && primitive_id_of(
                    bytes[o2] as u32,
                ) is Some && o2 + 1 <= end <= bytes.len() {
                    Some(
                        (
                            name,
                            parent,
                            primitive_id_of(bytes[o2] as u32)->0,
                            bytes.subrange(o2 + 1, end),
                            end,
                        ),
                    )
                } else {
                    None
                },
                None => None,
            }
        },
        None => None,
    }
}

impl<'a> Stick<'a> {
    /// Reads the stick stored at `*offset` and moves to its end; fails where
    /// no whole stick is there.
    pub fn try_read(bytes: &'a [u8], offset: &mut usize) -> (result: DecodeResult<Self>)
        ensures
            match decode_stick_spec(bytes@, *old(offset) as int) {
                Some((name, parent, primitive, data, end)) => result matches Ok(stick)
                    && stick.name.spec_bytes() == name && stick.parent == parent && stick.primitive
                    == primitive && stick.bytes@ == data && stick.start == *old(offset)
                    && *final(offset) as int == end,
                None => result matches Err(e) && e == DecodeError::InvalidFormat,
            },
    {
        let start = *offset;
        let mut at = *offset;
        let end_bytes = crate::branch::decode_bytes(8, bytes, &mut at)?;
        let end = le_bytes_value(end_bytes) as usize;
        let branch = BranchId::try_read(bytes, &mut at)?;
        if at >= bytes.len() {
            return Err(DecodeError::InvalidFormat);
        }
        let primitive = match PrimitiveId::from_u32(bytes[at] as u32) {
            Some(primitive) => primitive,
            None => return Err(DecodeError::InvalidFormat),
        };
        if end < at + 1 || end > bytes.len() {
            return Err(DecodeError::InvalidFormat);
        }
        let data = vstd::slice::slice_subrange(bytes, at + 1, end);
        *offset = end;
        Ok(Stick { name: branch.name, parent: branch.parent, bytes: data, primitive, start })
    }

    /// Reads the stick stored at `*offset` and moves to its end. The stick
    /// must be there, whole.
    pub fn read(bytes: &'a [u8], offset: &mut usize) -> (stick: Self)
        requires
            decode_stick_spec(bytes@, *old(offset) as int) is Some,
        ensures
            decode_stick_spec(bytes@, *old(offset) as int) == Some(
                (
                    stick.name.spec_bytes(),
                    stick.parent,
                    stick.primitive,
                    stick.bytes@,
                    *final(offset) as int,
                ),
            ),
            stick.start == *old(offset),
    {
        let start = *offset;
        let end_bytes = crate::branch::decode_bytes(8, bytes, offset).unwrap();
        let end = le_bytes_value(end_bytes);
        let end = end as usize;
        let branch = BranchId::read(bytes, offset);
        let primitive = PrimitiveId::from_u32(bytes[*offset] as u32).unwrap();
        *offset = *offset + 1;
        let data = vstd::slice::slice_subrange(bytes, *offset, end);
        *offset = end;
        Stick { name: branch.name, parent: branch.parent, bytes: data, primitive, start }
    }
}

} // verus!
