//! The header of a zfp float column: the number of values, and the
//! tolerance of its lossy compression, zigzag encoded.
use vstd::prelude::*;
use crate::encodings::varint::{
    decode_prefix_spec, decode_prefix_varint, encode_prefix_varint, lemma_prefix_varint_round_trip,
    prefix_varint, varint_len,
};
use crate::error::{DecodeError, DecodeResult};

verus! {

/// The signed value a zigzag code stands for: even codes are the
/// non-negative values, odd codes the negative ones.
pub open spec fn zigzag_decode_spec(code: u64) -> i64 {
    if code % 2 == 0 {
        (code / 2) as i64
    } else {
        (-((code / 2) as int) - 1) as i64
    }
}

/// The zigzag code of a signed value.
pub open spec fn zigzag_encode_spec(value: i32) -> u32 {
    if value >= 0 {
        (2 * value) as u32
    } else {
        (-2 * value - 1) as u32
    }
}

/// `<i64 as zigzag::ZigZag>::decode`: the crate's source computes
/// `(code >> 1) ^ -(code & 1)`, which is the value stated.
#[verifier::external_body]
fn zigzag_decode_i64(code: u64) -> (value: i64)
    ensures
        value == zigzag_decode_spec(code),
{
    <i64 as zigzag::ZigZag>::decode(code)
}

/// `<i32 as zigzag::ZigZag>::encode`: the crate's source computes
/// `(value << 1) ^ (value >> 31)`, which is the code stated.
#[verifier::external_body]
fn zigzag_encode_i32(value: i32) -> (code: u32)
    ensures
        code == zigzag_encode_spec(value),
{
    <i32 as zigzag::ZigZag>::encode(value)
}

/// The tolerance a header's code stands for: none for 0, else the value
/// whose zigzag code is one less.
pub open spec fn zfp_tolerance_of(code: u64) -> Option<i32> {
    if code == 0 {
        None
    } else {
        Some(zigzag_decode_spec((code - 1) as u64) as i32)
    }
}

/// The code a header stores for a tolerance.
pub open spec fn zfp_tolerance_code(tolerance: Option<i32>) -> u64 {
    match tolerance {
        None => 0,
        Some(t) => (zigzag_encode_spec(t) + 1) as u64,
    }
}

/// Reads the header of a zfp column: the number of values, the tolerance,
/// and the offset at which the compressed stream starts.
pub fn decode_zfp_header(bytes: &[u8]) -> (result: DecodeResult<(u64, Option<i32>, usize)>)
    ensures
        match decode_prefix_spec(bytes@, 0) {
            Some((len, o1)) => match decode_prefix_spec(bytes@, o1) {
                Some((code, o2)) => result == Ok::<(u64, Option<i32>, usize), DecodeError>(
                    (len, zfp_tolerance_of(code), o2 as usize),
                ),
                None => result == Err::<(u64, Option<i32>, usize), DecodeError>(DecodeError::InvalidFormat),
            },
            None => result == Err::<(u64, Option<i32>, usize), DecodeError>(DecodeError::InvalidFormat),
        },
{
    let mut offset: usize = 0;
    let len = decode_prefix_varint(bytes, &mut offset)?;
    let code = decode_prefix_varint(bytes, &mut offset)?;
    let tolerance = if code == 0 {
        None
    } else {
        Some(zigzag_decode_i64(code - 1) as i32)
    };
    Ok((len, tolerance, offset))
}

/// Writes the header of a zfp column.
pub fn encode_zfp_header(len: u64, tolerance: Option<i32>, bytes: &mut Vec<u8>)
    requires
        tolerance != Some(i32::MIN),
    ensures
        final(bytes)@ == old(bytes)@ + prefix_varint(len) + prefix_varint(zfp_tolerance_code(tolerance)),
{
    encode_prefix_varint(len, bytes);
    let code: u32 = match tolerance {
        Some(t) => zigzag_encode_i32(t) + 1,
        None => 0,
    };
    encode_prefix_varint(code as u64, bytes);
}

/// Every tolerance but the least `i32` reads back from its code.
pub proof fn lemma_zfp_tolerance_round_trip(tolerance: Option<i32>)
    requires
        tolerance != Some(i32::MIN),
    ensures
        zfp_tolerance_of(zfp_tolerance_code(tolerance)) == tolerance,
{
}

/// A header reads back as written: the number of values, the tolerance,
/// and the offset just past the header.
pub proof fn lemma_zfp_header_round_trip(len: u64, tolerance: Option<i32>, stream: Seq<u8>)
    requires
        tolerance != Some(i32::MIN),
    ensures
        ({
            let header = prefix_varint(len) + prefix_varint(zfp_tolerance_code(tolerance));
            let bytes = header + stream;
            &&& decode_prefix_spec(bytes, 0) == Some((len, varint_len(len) as int))
            &&& decode_prefix_spec(bytes, varint_len(len) as int) == Some(
                (zfp_tolerance_code(tolerance), header.len() as int),
            )
            &&& zfp_tolerance_of(zfp_tolerance_code(tolerance)) == tolerance
        }),
{
    let code = zfp_tolerance_code(tolerance);
    let header = prefix_varint(len) + prefix_varint(code);
    let bytes = header + stream;
    assert(bytes =~= Seq::<u8>::empty() + prefix_varint(len) + (prefix_varint(code) + stream));
    lemma_prefix_varint_round_trip(Seq::empty(), len, prefix_varint(code) + stream);
    assert(bytes =~= prefix_varint(len) + prefix_varint(code) + stream);
    lemma_prefix_varint_round_trip(prefix_varint(len), code, stream);
    lemma_zfp_tolerance_round_trip(tolerance);
}

} // verus!
