//! Reading the structure of a document: the tree of branches that the type
//! ids describe, with the data of each branch left as bytes.
use vstd::prelude::*;
use vstd::string::StringSliceAdditionalSpecFns;
use crate::encodings::varint::{
    decode_prefix_spec, decode_prefix_varint, encode_prefix_varint, lemma_prefix_varint_round_trip,
    prefix_varint,
};
use crate::error::{DecodeError, DecodeResult};

pub mod array_branch;
pub mod extent;
pub mod path;
pub mod root_branch;
pub mod stick;

verus! {

/// A name of a field or an enum variant, as stored in the document.
pub type Ident<'a> = &'a str;

/// The position of the lengths cursor, which reads suffix varints
/// backwards from the end of the document: -1 once it has passed the
/// first byte, which it marks with `usize::MAX`.
pub open spec fn cursor(lens: usize) -> int {
    if lens == usize::MAX {
        -1
    } else {
        lens as int
    }
}

/// Taking `len` bytes from `offset` on: the bytes and the offset past them.
pub open spec fn decode_bytes_spec(bytes: Seq<u8>, offset: int, len: int) -> Option<(Seq<u8>, int)> {
    if 0 <= offset && 0 <= len && offset + len <= bytes.len() {
        Some((bytes.subrange(offset, offset + len), offset + len))
    } else {
        None
    }
}

/// Taking `len` bytes from `offset` on that must be UTF-8 text.
pub open spec fn decode_str_spec(bytes: Seq<u8>, offset: int, len: int) -> Option<(Seq<u8>, int)> {
    match decode_bytes_spec(bytes, offset, len) {
        Some((text, end)) => if vstd::utf8::valid_utf8(text) {
            Some((text, end))
        } else {
            None
        },
        None => None,
    }
}

/// Reading a name: its length as a prefix varint, then its UTF-8 bytes.
pub open spec fn decode_ident_spec(bytes: Seq<u8>, offset: int) -> Option<(Seq<u8>, int)> {
    match decode_prefix_spec(bytes, offset) {
        Some((len, after)) => decode_str_spec(bytes, after, (len as usize) as int),
        None => None,
    }
}

/// Takes the `len` bytes at `*offset` and moves past them; fails, leaving
/// `*offset` as it was, where there are fewer.
pub fn decode_bytes<'a>(len: usize, bytes: &'a [u8], offset: &mut usize) -> (result: DecodeResult<
    &'a [u8],
>)
    ensures
        match decode_bytes_spec(bytes@, *old(offset) as int, len as int) {
            Some((taken, end)) => result matches Ok(s) && s@ == taken && *final(offset) as int == end,
            None => result == Err::<&[u8], DecodeError>(DecodeError::InvalidFormat) && *final(offset)
                == *old(offset),
        },
{
    let start = *offset;
    if start > bytes.len() || len > bytes.len() - start {
        return Err(DecodeError::InvalidFormat);
    }
    let end = start + len;
    let taken = vstd::slice::slice_subrange(bytes, start, end);
    *offset = end;
    Ok(taken)
}

/// `std::str::from_utf8`: the text the bytes hold, where they are valid
/// UTF-8. Its documentation says it fails exactly on bytes that are not
/// valid UTF-8, and that on success the text is those very bytes; this is
/// what the contract states, with validity as vstd defines it.
#[verifier::external_body]
fn str_from_utf8<'a>(bytes: &'a [u8]) -> (result: Option<&'a str>)
    ensures
        result is Some <==> vstd::utf8::valid_utf8(bytes@),
        result matches Some(text) ==> text.spec_bytes() == bytes@,
{
    match std::str::from_utf8(bytes) {
        Ok(text) => Some(text),
        Err(_) => None,
    }
}

/// Takes the `len` bytes at `*offset` as UTF-8 text and moves past them;
/// fails, leaving `*offset` as it was, where there are fewer bytes or they
/// are not UTF-8.
pub fn decode_str<'a>(len: usize, bytes: &'a [u8], offset: &mut usize) -> (result: DecodeResult<
    &'a str,
>)
    ensures
        match decode_str_spec(bytes@, *old(offset) as int, len as int) {
            Some((text, end)) => result matches Ok(s) && s.spec_bytes() == text && *final(offset) as int
                == end,
            None => result == Err::<&str, DecodeError>(DecodeError::InvalidFormat) && *final(offset)
                == *old(offset),
        },
{
    let start = *offset;
    let taken = decode_bytes(len, bytes, offset)?;
    match str_from_utf8(taken) {
        Some(text) => Ok(text),
        None => {
            *offset = start;
            Err(DecodeError::InvalidFormat)
        },
    }
}

/// Reads a name at `*offset`: its length as a prefix varint, then its UTF-8
/// bytes. Fails where the bytes run out or are not UTF-8.
pub fn decode_ident<'a>(bytes: &'a [u8], offset: &mut usize) -> (result: DecodeResult<Ident<'a>>)
    ensures
        match decode_ident_spec(bytes@, *old(offset) as int) {
            Some((text, end)) => result matches Ok(s) && s.spec_bytes() == text && *final(offset) as int
                == end,
            None => result matches Err(e) && e == DecodeError::InvalidFormat,
        },
{
    let len = decode_prefix_varint(bytes, offset)?;
    decode_str(len as usize, bytes, offset)
}

/// Reads a name at `*offset`, as `decode_ident` does.
pub fn read_ident<'a>(bytes: &'a [u8], offset: &mut usize) -> (result: DecodeResult<Ident<'a>>)
    ensures
        match decode_ident_spec(bytes@, *old(offset) as int) {
            Some((text, end)) => result matches Ok(s) && s.spec_bytes() == text && *final(offset) as int
                == end,
            None => result matches Err(e) && e == DecodeError::InvalidFormat,
        },
{
    decode_ident(bytes, offset)
}

/// The stored form of a name: the length of its UTF-8 bytes as a prefix
/// varint, then the bytes.
pub open spec fn ident_bytes(text: Seq<u8>) -> Seq<u8> {
    prefix_varint(text.len() as u64) + text
}

/// Appends the stored form of the name `value` to `bytes`.
pub fn write_ident(value: &str, bytes: &mut Vec<u8>)
    ensures
        final(bytes)@ == old(bytes)@ + ident_bytes(value.spec_bytes()),
{
    let text = value.as_bytes();
    encode_prefix_varint(text.len() as u64, bytes);
    let ghost mid = bytes@;
    bytes.extend_from_slice(text);
    proof {
        assert(bytes@ =~= mid + text@);
    }
}

/// Reading a name gives back the name that was written.
pub proof fn lemma_ident_round_trip(before: Seq<u8>, name: &str, after: Seq<u8>)
    requires
        name.spec_bytes().len() <= usize::MAX,
    ensures
        decode_ident_spec(before + ident_bytes(name.spec_bytes()) + after, before.len() as int) == Some(
            (name.spec_bytes(), (before.len() + ident_bytes(name.spec_bytes()).len()) as int),
        ),
{
    let text = name.spec_bytes();
    let s = before + ident_bytes(text) + after;
    let l = prefix_varint(text.len() as u64);
    assert(s =~= before + l + (text + after));
    lemma_prefix_varint_round_trip(before, text.len() as u64, text + after);
    let o = (before.len() + l.len()) as int;
    assert(s.subrange(o, o + text.len()) =~= text);
    vstd::utf8::encode_utf8_valid_utf8(name@);
    assert(decode_str_spec(s, o, text.len() as int) == Some((text, o + text.len())));
}

/// Reads a `usize` stored as a prefix varint.
pub fn decode_usize(bytes: &[u8], offset: &mut usize) -> (result: DecodeResult<usize>)
    ensures
        match decode_prefix_spec(bytes@, *old(offset) as int) {
            Some((value, end)) => result == Ok::<usize, DecodeError>(value as usize) && *final(offset)
                as int == end,
            None => result == Err::<usize, DecodeError>(DecodeError::InvalidFormat) && *final(offset)
                == *old(offset),
        },
{
    let value = decode_prefix_varint(bytes, offset)?;
    Ok(value as usize)
}

/// Reads a `usize` stored as a prefix varint, as `decode_usize` does.
pub fn read_usize(bytes: &[u8], offset: &mut usize) -> (result: DecodeResult<usize>)
    ensures
        match decode_prefix_spec(bytes@, *old(offset) as int) {
            Some((value, end)) => result == Ok::<usize, DecodeError>(value as usize) && *final(offset)
                as int == end,
            None => result == Err::<usize, DecodeError>(DecodeError::InvalidFormat) && *final(offset)
                == *old(offset),
        },
{
    decode_usize(bytes, offset)
}

/// Whether two names are the same text.
pub fn same_ident(a: &str, b: &str) -> (same: bool)
    ensures
        same == (a.spec_bytes() == b.spec_bytes()),
{
    let x = a.as_bytes();
    let y = b.as_bytes();
    if x.len() != y.len() {
        return false;
    }
    let mut i: usize = 0;
    while i < x.len()
        invariant
            i <= x@.len(),
            x@.len() == y@.len(),
            x@ == a.spec_bytes(),
            y@ == b.spec_bytes(),
            forall|j: int| 0 <= j < i ==> x@[j] == y@[j],
        decreases x@.len() - i,
    {
        if x[i] != y[i] {
            return false;
        }
        i += 1;
    }
    assert(x@ =~= y@);
    true
}

/// A field list with `name` set to `value`: replaced where the name is
/// there already, added at the end where it is not, as a map would do.
pub open spec fn insert_field<V>(fields: Seq<(Seq<u8>, V)>, name: Seq<u8>, value: V) -> Seq<(Seq<u8>, V)> {
    if exists|i: int| 0 <= i < fields.len() && #[trigger] fields[i].0 == name {
        let i = choose|i: int| 0 <= i < fields.len() && #[trigger] fields[i].0 == name;
        fields.update(i, (name, value))
    } else {
        fields.push((name, value))
    }
}

/// In a list whose names are distinct, setting a field of a name that is
/// there replaces that field.
pub proof fn lemma_insert_field_at<V>(fields: Seq<(Seq<u8>, V)>, name: Seq<u8>, value: V, i: int)
    requires
        distinct_names(fields),
        0 <= i < fields.len(),
        fields[i].0 == name,
    ensures
        insert_field(fields, name, value) == fields.update(i, (name, value)),
{
    let c = choose|c: int| 0 <= c < fields.len() && #[trigger] fields[c].0 == name;
    assert(0 <= c < fields.len() && fields[c].0 == name);
    if c < i {
        assert(fields[c].0 != fields[i].0);
    } else if c > i {
        assert(fields[i].0 != fields[c].0);
    }
}

/// Setting a field keeps the names of a list distinct.
pub proof fn lemma_insert_field_distinct<V>(fields: Seq<(Seq<u8>, V)>, name: Seq<u8>, value: V)
    requires
        distinct_names(fields),
    ensures
        distinct_names(insert_field(fields, name, value)),
{
    if exists|i: int| 0 <= i < fields.len() && #[trigger] fields[i].0 == name {
        let i = choose|i: int| 0 <= i < fields.len() && #[trigger] fields[i].0 == name;
        lemma_insert_field_at(fields, name, value, i);
        let r = fields.update(i, (name, value));
        assert forall|a: int, b: int| 0 <= a < b < r.len() implies #[trigger] r[a].0 != #[trigger] r[b].0 by {
            assert(r[a].0 == fields[a].0);
            assert(r[b].0 == fields[b].0);
        }
    } else {
        let r = fields.push((name, value));
        assert forall|a: int, b: int| 0 <= a < b < r.len() implies #[trigger] r[a].0 != #[trigger] r[b].0 by {
            if b == fields.len() {
                assert(fields[a].0 != name);
            }
        }
    }
}

/// The names of a field list are distinct.
pub open spec fn distinct_names<V>(fields: Seq<(Seq<u8>, V)>) -> bool {
    forall|i: int, j: int| 0 <= i < j < fields.len() ==> #[trigger] fields[i].0 != #[trigger] fields[j].0
}

} // verus!
