//! Prefix and suffix variable-length integer encodings.
//!
//! A value takes between 1 and 9 bytes. In the prefix form the first byte
//! carries a unary tag in its low bits (the position of its lowest set bit
//! tells how many bytes follow), so the value can be read forwards. The
//! suffix form puts that tag byte last, so a sequence of values can be read
//! backwards from the end of a buffer.
use vstd::prelude::*;
use crate::error::{DecodeError, DecodeResult};

verus! {

// ---------------------------------------------------------------------------
// Mathematical model
// ---------------------------------------------------------------------------

/// 2 to the power `k`.
pub open spec fn exp2(k: nat) -> nat
    decreases k,
{
    if k == 0 {
        1
    } else {
        2 * exp2((k - 1) as nat)
    }
}

/// 256 to the power `k`.
pub open spec fn exp256(k: nat) -> nat
    decreases k,
{
    if k == 0 {
        1
    } else {
        256 * exp256((k - 1) as nat)
    }
}

/// Number of bytes the varint encodings use for `value`: one byte for every
/// 7 bits of payload, up to 8 bytes for 56 bits, and 9 bytes above that.
pub open spec fn varint_len(value: u64) -> nat {
    if value < 0x80 {
        1
    } else if value < 0x4000 {
        2
    } else if value < 0x20_0000 {
        3
    } else if value < 0x1000_0000 {
        4
    } else if value < 0x8_0000_0000 {
        5
    } else if value < 0x400_0000_0000 {
        6
    } else if value < 0x2_0000_0000_0000 {
        7
    } else if value < 0x100_0000_0000_0000 {
        8
    } else {
        9
    }
}

/// The little-endian number held by the `n` bytes of `bytes` from `start` on.
pub open spec fn le_value(bytes: Seq<u8>, start: int, n: nat) -> nat
    decreases n,
{
    if n == 0 {
        0
    } else {
        bytes[start] as nat + 256 * le_value(bytes, start + 1, (n - 1) as nat)
    }
}

/// How many of the low bits of a value the tag byte holds, as a divisor:
/// `2^(8 - n)` for an encoding of `n <= 8` bytes, and 1 for the 9 byte form.
pub open spec fn tag_divisor(n: nat) -> nat {
    if n == 9 {
        1
    } else {
        exp2((8 - n) as nat)
    }
}

/// The tag byte of the encoding of `value`. For an encoding of `n <= 8`
/// bytes its `n - 1` lowest bits are zero, bit `n - 1` is set, and the bits
/// above hold the `8 - n` lowest bits of `value`. The 9 byte form has tag 0.
pub open spec fn varint_tag(value: u64) -> u8 {
    let n = varint_len(value);
    if n == 9 {
        0
    } else {
        ((value as nat % tag_divisor(n)) * exp2(n) + exp2((n - 1) as nat)) as u8
    }
}

/// The bytes of the encoding of `value` other than its tag: the bits of
/// `value` that the tag does not hold, little-endian. Byte `i` holds the
/// base-256 digit `i` of `value / tag_divisor(n)`.
pub open spec fn varint_payload(value: u64) -> Seq<u8> {
    let n = varint_len(value);
    Seq::new(
        (n - 1) as nat,
        |i: int| ((value as nat / (tag_divisor(n) * exp256(i as nat))) % 256) as u8,
    )
}

/// The prefix varint encoding of `value`: the tag byte, then the payload.
pub open spec fn prefix_varint(value: u64) -> Seq<u8> {
    seq![varint_tag(value)] + varint_payload(value)
}

/// The suffix varint encoding of `value`: the payload, then the tag byte.
pub open spec fn suffix_varint(value: u64) -> Seq<u8> {
    varint_payload(value).push(varint_tag(value))
}

/// The length of an encoding, read off its tag byte: one more than the
/// number of trailing zero bits of the tag.
pub open spec fn tag_len(tag: u8) -> nat {
    if tag % 2 == 1 {
        1
    } else if tag % 4 == 2 {
        2
    } else if tag % 8 == 4 {
        3
    } else if tag % 16 == 8 {
        4
    } else if tag % 32 == 16 {
        5
    } else if tag % 64 == 32 {
        6
    } else if tag % 128 == 64 {
        7
    } else if tag == 128 {
        8
    } else {
        9
    }
}

/// The value of an encoding of `n` bytes with the given tag byte and the
/// given little-endian payload number.
pub open spec fn varint_value(tag: u8, n: nat, payload: nat) -> nat {
    tag as nat / exp2(n) + tag_divisor(n) * payload
}

/// Reading a prefix varint whose tag byte is at `offset`: the value and the
/// offset just past the encoding, or `None` where the bytes run out.
pub open spec fn decode_prefix_spec(bytes: Seq<u8>, offset: int) -> Option<(u64, int)> {
    if offset < 0 || offset >= bytes.len() {
        None
    } else {
        let n = tag_len(bytes[offset]);
        if offset + n > bytes.len() {
            None
        } else {
            Some(
                (
                    varint_value(bytes[offset], n, le_value(bytes, offset + 1, (n - 1) as nat)) as u64,
                    offset + n,
                ),
            )
        }
    }
}

/// Reading a suffix varint backwards, its tag byte being at `offset`: the
/// value and the offset of the byte just before the encoding (which is -1
/// where the encoding starts the buffer), or `None` where the bytes run out.
pub open spec fn decode_suffix_spec(bytes: Seq<u8>, offset: int) -> Option<(u64, int)> {
    if offset < 0 || offset >= bytes.len() {
        None
    } else {
        let n = tag_len(bytes[offset]);
        if offset < n - 1 {
            None
        } else {
            Some(
                (
                    varint_value(
                        bytes[offset],
                        n,
                        le_value(bytes, offset - (n - 1), (n - 1) as nat),
                    ) as u64,
                    offset - n,
                ),
            )
        }
    }
}

/// An offset of the byte before a suffix varint, as `usize`: a read that
/// ends at the start of the buffer leaves `usize::MAX`.
pub open spec fn wrapped_offset(offset: int) -> usize {
    if offset < 0 {
        usize::MAX
    } else {
        offset as usize
    }
}

// ---------------------------------------------------------------------------
// Bit-level facts
// ---------------------------------------------------------------------------

proof fn lemma_exp_values()
    ensures
        exp2(0) == 1,
        exp2(1) == 2,
        exp2(2) == 4,
        exp2(3) == 8,
        exp2(4) == 16,
        exp2(5) == 32,
        exp2(6) == 64,
        exp2(7) == 128,
        exp2(8) == 256,
        exp256(0) == 1,
        exp256(1) == 0x100,
        exp256(2) == 0x1_0000,
        exp256(3) == 0x100_0000,
        exp256(4) == 0x1_0000_0000,
        exp256(5) == 0x100_0000_0000,
        exp256(6) == 0x1_0000_0000_0000,
        exp256(7) == 0x100_0000_0000_0000,
        exp256(8) == 0x1_0000_0000_0000_0000,
{
    reveal_with_fuel(exp2, 9);
    reveal_with_fuel(exp256, 9);
}

/// The bytes that the encoders write, as arithmetic on `v`.
proof fn lemma_encode_bytes(v: u64)
    by (bit_vector)
    ensures
        ((v << 1u64) as u8 | 1u8) == (((v % 128) * 2 + 1) as u8),
        ((v << 2u64) as u8 | 2u8) == (((v % 64) * 4 + 2) as u8),
        ((v << 3u64) as u8 | 4u8) == (((v % 32) * 8 + 4) as u8),
        ((v << 4u64) as u8 | 8u8) == (((v % 16) * 16 + 8) as u8),
        ((v << 5u64) as u8 | 16u8) == (((v % 8) * 32 + 16) as u8),
        ((v << 6u64) as u8 | 32u8) == (((v % 4) * 64 + 32) as u8),
        ((v << 7u64) as u8 | 64u8) == (((v % 2) * 128 + 64) as u8),
        v as u8 == (v & 0xff) as u8,
        v & 0xff == v % 256,
        ((v >> 1u64) as u8) == (((v / 0x2) % 256) as u8),
        ((v >> 2u64) as u8) == (((v / 0x4) % 256) as u8),
        ((v >> 3u64) as u8) == (((v / 0x8) % 256) as u8),
        ((v >> 4u64) as u8) == (((v / 0x10) % 256) as u8),
        ((v >> 5u64) as u8) == (((v / 0x20) % 256) as u8),
        ((v >> 6u64) as u8) == (((v / 0x40) % 256) as u8),
        ((v >> 8u64) as u8) == (((v / 0x100) % 256) as u8),
        ((v >> 9u64) as u8) == (((v / 0x200) % 256) as u8),
        ((v >> 10u64) as u8) == (((v / 0x400) % 256) as u8),
        ((v >> 11u64) as u8) == (((v / 0x800) % 256) as u8),
        ((v >> 12u64) as u8) == (((v / 0x1000) % 256) as u8),
        ((v >> 13u64) as u8) == (((v / 0x2000) % 256) as u8),
        ((v >> 16u64) as u8) == (((v / 0x10000) % 256) as u8),
        ((v >> 17u64) as u8) == (((v / 0x20000) % 256) as u8),
        ((v >> 18u64) as u8) == (((v / 0x40000) % 256) as u8),
        ((v >> 19u64) as u8) == (((v / 0x80000) % 256) as u8),
        ((v >> 20u64) as u8) == (((v / 0x100000) % 256) as u8),
        ((v >> 24u64) as u8) == (((v / 0x1000000) % 256) as u8),
        ((v >> 25u64) as u8) == (((v / 0x2000000) % 256) as u8),
        ((v >> 26u64) as u8) == (((v / 0x4000000) % 256) as u8),
        ((v >> 27u64) as u8) == (((v / 0x8000000) % 256) as u8),
        ((v >> 32u64) as u8) == (((v / 0x100000000) % 256) as u8),
        ((v >> 33u64) as u8) == (((v / 0x200000000) % 256) as u8),
        ((v >> 34u64) as u8) == (((v / 0x400000000) % 256) as u8),
        ((v >> 40u64) as u8) == (((v / 0x10000000000) % 256) as u8),
        ((v >> 41u64) as u8) == (((v / 0x20000000000) % 256) as u8),
        ((v >> 48u64) as u8) == (((v / 0x1000000000000) % 256) as u8),
        ((v >> 56u64) as u8) == (((v / 0x100000000000000) % 256) as u8),
{
}

/// The values that the decoders compute, as arithmetic on the bytes read.
proof fn lemma_decode_bytes(t: u8, b1: u8, b2: u8, b3: u8, b4: u8, b5: u8, b6: u8, b7: u8, b8: u8)
    by (bit_vector)
    ensures
        ((t >> 1u8) as u64) == t / 2,
        ((t >> 2u8) as u64) | ((b1 as u64) << 6u64) == t / 4 + 64 * (b1),
        ((t >> 3u8) as u64) | ((b1 as u64) << 5u64) | ((b2 as u64) << 13u64) == t / 8 + 32 * (b1 + 256 * (b2)),
        ((t >> 4u8) as u64) | ((b1 as u64) << 4u64) | ((b2 as u64) << 12u64) | ((b3 as u64) << 20u64) == t / 16 + 16 * (b1 + 256 * (b2 + 256 * (b3))),
        ((t >> 5u8) as u64) | ((b1 as u64) << 3u64) | ((b2 as u64) << 11u64) | ((b3 as u64) << 19u64) | ((b4 as u64) << 27u64) == t / 32 + 8 * (b1 + 256 * (b2 + 256 * (b3 + 256 * (b4)))),
        ((t >> 6u8) as u64) | ((b1 as u64) << 2u64) | ((b2 as u64) << 10u64) | ((b3 as u64) << 18u64) | ((b4 as u64) << 26u64) | ((b5 as u64) << 34u64) == t / 64 + 4 * (b1 + 256 * (b2 + 256 * (b3 + 256 * (b4 + 256 * (b5))))),
        ((t >> 7u8) as u64) | ((b1 as u64) << 1u64) | ((b2 as u64) << 9u64) | ((b3 as u64) << 17u64) | ((b4 as u64) << 25u64) | ((b5 as u64) << 33u64) | ((b6 as u64) << 41u64) == t / 128 + 2 * (b1 + 256 * (b2 + 256 * (b3 + 256 * (b4 + 256 * (b5 + 256 * (b6)))))),
        (b1 as u64) | ((b2 as u64) << 8u64) | ((b3 as u64) << 16u64) | ((b4 as u64) << 24u64) | ((b5 as u64) << 32u64) | ((b6 as u64) << 40u64) | ((b7 as u64) << 48u64) == b1 + 256 * (b2 + 256 * (b3 + 256 * (b4 + 256 * (b5 + 256 * (b6 + 256 * (b7)))))),
        (b1 as u64) | ((b2 as u64) << 8u64) | ((b3 as u64) << 16u64) | ((b4 as u64) << 24u64) | ((b5 as u64) << 32u64) | ((b6 as u64) << 40u64) | ((b7 as u64) << 48u64) | ((b8 as u64) << 56u64) == b1 + 256 * (b2 + 256 * (b3 + 256 * (b4 + 256 * (b5 + 256 * (b6 + 256 * (b7 + 256 * (b8))))))),
{
}

/// Number of bytes that encoding `value` as a prefix or suffix varint takes.
pub fn size_for_varint(value: u64) -> (size: usize)
    ensures
        size == varint_len(value),
{
    if value < 0x80 {
        1
    } else if value < 0x4000 {
        2
    } else if value < 0x20_0000 {
        3
    } else if value < 0x1000_0000 {
        4
    } else if value < 0x8_0000_0000 {
        5
    } else if value < 0x400_0000_0000 {
        6
    } else if value < 0x2_0000_0000_0000 {
        7
    } else if value < 0x100_0000_0000_0000 {
        8
    } else {
        9
    }
}

/// Where the lowest set bit of `t` is, in terms of remainders.
proof fn lemma_tag_bits(t: u8)
    by (bit_vector)
    ensures
        (t >> 0u8) & 1u8 == 1u8 ==> t % 2 == 1,
        (t >> 0u8) & 1u8 == 0u8 && (t >> 1u8) & 1u8 == 1u8 ==> t % 2 == 0 && t % 4 == 2,
        (t >> 0u8) & 1u8 == 0u8 && (t >> 1u8) & 1u8 == 0u8 && (t >> 2u8) & 1u8 == 1u8 ==> t % 2 == 0 && t % 4 == 0 && t % 8 == 4,
        (t >> 0u8) & 1u8 == 0u8 && (t >> 1u8) & 1u8 == 0u8 && (t >> 2u8) & 1u8 == 0u8 && (t >> 3u8) & 1u8 == 1u8 ==> t % 2 == 0 && t % 4 == 0 && t % 8 == 0 && t % 16 == 8,
        (t >> 0u8) & 1u8 == 0u8 && (t >> 1u8) & 1u8 == 0u8 && (t >> 2u8) & 1u8 == 0u8 && (t >> 3u8) & 1u8 == 0u8 && (t >> 4u8) & 1u8 == 1u8 ==> t % 2 == 0 && t % 4 == 0 && t % 8 == 0 && t % 16 == 0 && t % 32 == 16,
        (t >> 0u8) & 1u8 == 0u8 && (t >> 1u8) & 1u8 == 0u8 && (t >> 2u8) & 1u8 == 0u8 && (t >> 3u8) & 1u8 == 0u8 && (t >> 4u8) & 1u8 == 0u8 && (t >> 5u8) & 1u8 == 1u8 ==> t % 2 == 0 && t % 4 == 0 && t % 8 == 0 && t % 16 == 0 && t % 32 == 0 && t % 64 == 32,
        (t >> 0u8) & 1u8 == 0u8 && (t >> 1u8) & 1u8 == 0u8 && (t >> 2u8) & 1u8 == 0u8 && (t >> 3u8) & 1u8 == 0u8 && (t >> 4u8) & 1u8 == 0u8 && (t >> 5u8) & 1u8 == 0u8 && (t >> 6u8) & 1u8 == 1u8 ==> t % 2 == 0 && t % 4 == 0 && t % 8 == 0 && t % 16 == 0 && t % 32 == 0 && t % 64 == 0 && t % 128 == 64,
        (t >> 0u8) & 1u8 == 0u8 && (t >> 1u8) & 1u8 == 0u8 && (t >> 2u8) & 1u8 == 0u8 && (t >> 3u8) & 1u8 == 0u8 && (t >> 4u8) & 1u8 == 0u8 && (t >> 5u8) & 1u8 == 0u8 && (t >> 6u8) & 1u8 == 0u8 && (t >> 7u8) & 1u8 == 1u8 ==> t % 2 == 0 && t % 4 == 0 && t % 8 == 0 && t % 16 == 0 && t % 32 == 0 && t % 64 == 0 && t % 128 == 0 && t == 128,
{
}

/// The number of trailing zero bits of a tag byte is one less than the
/// length of the encoding it starts.
proof fn lemma_trailing_zeros_tag_len(t: u8)
    ensures
        vstd::std_specs::bits::u8_trailing_zeros(t) + 1 == tag_len(t),
{
    vstd::std_specs::bits::axiom_u8_trailing_zeros(t);
    lemma_tag_bits(t);
    let z = vstd::std_specs::bits::u8_trailing_zeros(t);
    assert((t >> 0u8) & 1u8 == 0u8 ==> 0 < z);
    if z >= 1 { assert((t >> 0u8) & 1u8 == 0u8); }
    if z >= 2 { assert((t >> 1u8) & 1u8 == 0u8); }
    if z >= 3 { assert((t >> 2u8) & 1u8 == 0u8); }
    if z >= 4 { assert((t >> 3u8) & 1u8 == 0u8); }
    if z >= 5 { assert((t >> 4u8) & 1u8 == 0u8); }
    if z >= 6 { assert((t >> 5u8) & 1u8 == 0u8); }
    if z >= 7 { assert((t >> 6u8) & 1u8 == 0u8); }
    if z >= 8 { assert((t >> 7u8) & 1u8 == 0u8); }
    if z < 8 {
        assert((t >> (z as u8)) & 1u8 == 1u8);
    }
}

// ---------------------------------------------------------------------------
// Encoding
// ---------------------------------------------------------------------------

/// Appends the prefix varint encoding of `value` to `into`.
pub fn encode_prefix_varint(value: u64, into: &mut Vec<u8>)
    ensures
        final(into)@ == old(into)@ + prefix_varint(value),
{
    proof {
        lemma_exp_values();
        lemma_encode_bytes(value);
    }
    if value < 0x80 {
        into.push((value << 1) as u8 | 1);
        assert(into@ =~= old(into)@ + prefix_varint(value));
    } else if value < 0x4000 {
        into.push((value << 2) as u8 | 2);
        into.push((value >> 6) as u8);
        assert(into@ =~= old(into)@ + prefix_varint(value));
    } else if value < 0x20_0000 {
        into.push((value << 3) as u8 | 4);
        into.push((value >> 5) as u8);
        into.push((value >> 13) as u8);
        assert(into@ =~= old(into)@ + prefix_varint(value));
    } else if value < 0x1000_0000 {
        into.push((value << 4) as u8 | 8);
        into.push((value >> 4) as u8);
        into.push((value >> 12) as u8);
        into.push((value >> 20) as u8);
        assert(into@ =~= old(into)@ + prefix_varint(value));
    } else if value < 0x8_0000_0000 {
        into.push((value << 5) as u8 | 16);
        into.push((value >> 3) as u8);
        into.push((value >> 11) as u8);
        into.push((value >> 19) as u8);
        into.push((value >> 27) as u8);
        assert(into@ =~= old(into)@ + prefix_varint(value));
    } else if value < 0x400_0000_0000 {
        into.push((value << 6) as u8 | 32);
        into.push((value >> 2) as u8);
        into.push((value >> 10) as u8);
        into.push((value >> 18) as u8);
        into.push((value >> 26) as u8);
        into.push((value >> 34) as u8);
        assert(into@ =~= old(into)@ + prefix_varint(value));
    } else if value < 0x2_0000_0000_0000 {
        into.push((value << 7) as u8 | 64);
        into.push((value >> 1) as u8);
        into.push((value >> 9) as u8);
        into.push((value >> 17) as u8);
        into.push((value >> 25) as u8);
        into.push((value >> 33) as u8);
        into.push((value >> 41) as u8);
        assert(into@ =~= old(into)@ + prefix_varint(value));
    } else if value < 0x100_0000_0000_0000 {
        into.push(0x80);
        into.push(value as u8);
        into.push((value >> 8) as u8);
        into.push((value >> 16) as u8);
        into.push((value >> 24) as u8);
        into.push((value >> 32) as u8);
        into.push((value >> 40) as u8);
        into.push((value >> 48) as u8);
        assert(into@ =~= old(into)@ + prefix_varint(value));
    } else {
        into.push(0);
        into.push(value as u8);
        into.push((value >> 8) as u8);
        into.push((value >> 16) as u8);
        into.push((value >> 24) as u8);
        into.push((value >> 32) as u8);
        into.push((value >> 40) as u8);
        into.push((value >> 48) as u8);
        into.push((value >> 56) as u8);
        assert(into@ =~= old(into)@ + prefix_varint(value));
    }
}

/// Appends the suffix varint encoding of `value` to `into`: like the prefix
/// form, with the tag byte last, for reading backwards.
pub fn encode_suffix_varint(value: u64, into: &mut Vec<u8>)
    ensures
        final(into)@ == old(into)@ + suffix_varint(value),
{
    proof {
        lemma_exp_values();
        lemma_encode_bytes(value);
    }
    if value < 0x80 {
        into.push((value << 1) as u8 | 1);
        assert(into@ =~= old(into)@ + suffix_varint(value));
    } else if value < 0x4000 {
        into.push((value >> 6) as u8);
        into.push((value << 2) as u8 | 2);
        assert(into@ =~= old(into)@ + suffix_varint(value));
    } else if value < 0x20_0000 {
        into.push((value >> 5) as u8);
        into.push((value >> 13) as u8);
        into.push((value << 3) as u8 | 4);
        assert(into@ =~= old(into)@ + suffix_varint(value));
    } else if value < 0x1000_0000 {
        into.push((value >> 4) as u8);
        into.push((value >> 12) as u8);
        into.push((value >> 20) as u8);
        into.push((value << 4) as u8 | 8);
        assert(into@ =~= old(into)@ + suffix_varint(value));
    } else if value < 0x8_0000_0000 {
        into.push((value >> 3) as u8);
        into.push((value >> 11) as u8);
        into.push((value >> 19) as u8);
        into.push((value >> 27) as u8);
        into.push((value << 5) as u8 | 16);
        assert(into@ =~= old(into)@ + suffix_varint(value));
    } else if value < 0x400_0000_0000 {
        into.push((value >> 2) as u8);
        into.push((value >> 10) as u8);
        into.push((value >> 18) as u8);
        into.push((value >> 26) as u8);
        into.push((value >> 34) as u8);
        into.push((value << 6) as u8 | 32);
        assert(into@ =~= old(into)@ + suffix_varint(value));
    } else if value < 0x2_0000_0000_0000 {
        into.push((value >> 1) as u8);
        into.push((value >> 9) as u8);
        into.push((value >> 17) as u8);
        into.push((value >> 25) as u8);
        into.push((value >> 33) as u8);
        into.push((value >> 41) as u8);
        into.push((value << 7) as u8 | 64);
        assert(into@ =~= old(into)@ + suffix_varint(value));
    } else if value < 0x100_0000_0000_0000 {
        into.push(value as u8);
        into.push((value >> 8) as u8);
        into.push((value >> 16) as u8);
        into.push((value >> 24) as u8);
        into.push((value >> 32) as u8);
        into.push((value >> 40) as u8);
        into.push((value >> 48) as u8);
        into.push(0x80);
        assert(into@ =~= old(into)@ + suffix_varint(value));
    } else {
        into.push(value as u8);
        into.push((value >> 8) as u8);
        into.push((value >> 16) as u8);
        into.push((value >> 24) as u8);
        into.push((value >> 32) as u8);
        into.push((value >> 40) as u8);
        into.push((value >> 48) as u8);
        into.push((value >> 56) as u8);
        into.push(0);
        assert(into@ =~= old(into)@ + suffix_varint(value));
    }
}

// ---------------------------------------------------------------------------
// Decoding
// ---------------------------------------------------------------------------

/// `varint_value` for each encoding length.
proof fn lemma_varint_value(t: u8, p: nat)
    ensures
        varint_value(t, 1, p) == t as nat / 2 + 128 * p,
        varint_value(t, 2, p) == t as nat / 4 + 64 * p,
        varint_value(t, 3, p) == t as nat / 8 + 32 * p,
        varint_value(t, 4, p) == t as nat / 16 + 16 * p,
        varint_value(t, 5, p) == t as nat / 32 + 8 * p,
        varint_value(t, 6, p) == t as nat / 64 + 4 * p,
        varint_value(t, 7, p) == t as nat / 128 + 2 * p,
        varint_value(t, 8, p) == p,
        varint_value(t, 9, p) == p,
{
    lemma_exp_values();
    assert(exp2(9) == 512) by {
        reveal_with_fuel(exp2, 10);
    }
    assert(t as nat / 256 == 0 && t as nat / 512 == 0);
    assert(tag_divisor(8) == 1 && tag_divisor(9) == 1);
}

proof fn lemma_payload_value_1(bytes: Seq<u8>, start: int, first: u8)
    requires
        0 <= start,
        start + 0 <= bytes.len(),
    ensures
        ((first >> 1) as u64) as nat == varint_value(first, 1, le_value(bytes, start, 0)),
{
    lemma_decode_bytes(first, 0u8, 0u8, 0u8, 0u8, 0u8, 0u8, 0u8, 0u8);
    reveal_with_fuel(le_value, 9);
    lemma_varint_value(first, le_value(bytes, start as int, 0));
}

proof fn lemma_payload_value_2(bytes: Seq<u8>, start: int, first: u8)
    requires
        0 <= start,
        start + 1 <= bytes.len(),
    ensures
        ((first >> 2) as u64 | ((bytes[start + 0] as u64) << 6)) as nat == varint_value(first, 2, le_value(bytes, start, 1)),
{
    lemma_decode_bytes(first, bytes[start + 0], 0u8, 0u8, 0u8, 0u8, 0u8, 0u8, 0u8);
    reveal_with_fuel(le_value, 9);
    lemma_varint_value(first, le_value(bytes, start as int, 1));
}

proof fn lemma_payload_value_3(bytes: Seq<u8>, start: int, first: u8)
    requires
        0 <= start,
        start + 2 <= bytes.len(),
    ensures
        ((first >> 3) as u64 | ((bytes[start + 0] as u64) << 5) | ((bytes[start + 1] as u64) << 13)) as nat == varint_value(first, 3, le_value(bytes, start, 2)),
{
    lemma_decode_bytes(first, bytes[start + 0], bytes[start + 1], 0u8, 0u8, 0u8, 0u8, 0u8, 0u8);
    reveal_with_fuel(le_value, 9);
    lemma_varint_value(first, le_value(bytes, start as int, 2));
}

proof fn lemma_payload_value_4(bytes: Seq<u8>, start: int, first: u8)
    requires
        0 <= start,
        start + 3 <= bytes.len(),
    ensures
        ((first >> 4) as u64 | ((bytes[start + 0] as u64) << 4) | ((bytes[start + 1] as u64) << 12) | ((bytes[start + 2] as u64) << 20)) as nat == varint_value(first, 4, le_value(bytes, start, 3)),
{
    lemma_decode_bytes(first, bytes[start + 0], bytes[start + 1], bytes[start + 2], 0u8, 0u8, 0u8, 0u8, 0u8);
    reveal_with_fuel(le_value, 9);
    lemma_varint_value(first, le_value(bytes, start as int, 3));
}

proof fn lemma_payload_value_5(bytes: Seq<u8>, start: int, first: u8)
    requires
        0 <= start,
        start + 4 <= bytes.len(),
    ensures
        ((first >> 5) as u64 | ((bytes[start + 0] as u64) << 3) | ((bytes[start + 1] as u64) << 11) | ((bytes[start + 2] as u64) << 19) | ((bytes[start + 3] as u64) << 27)) as nat == varint_value(first, 5, le_value(bytes, start, 4)),
{
    lemma_decode_bytes(first, bytes[start + 0], bytes[start + 1], bytes[start + 2], bytes[start + 3], 0u8, 0u8, 0u8, 0u8);
    reveal_with_fuel(le_value, 9);
    lemma_varint_value(first, le_value(bytes, start as int, 4));
}

proof fn lemma_payload_value_6(bytes: Seq<u8>, start: int, first: u8)
    requires
        0 <= start,
        start + 5 <= bytes.len(),
    ensures
        ((first >> 6) as u64 | ((bytes[start + 0] as u64) << 2) | ((bytes[start + 1] as u64) << 10) | ((bytes[start + 2] as u64) << 18) | ((bytes[start + 3] as u64) << 26) | ((bytes[start + 4] as u64) << 34)) as nat == varint_value(first, 6, le_value(bytes, start, 5)),
{
    lemma_decode_bytes(first, bytes[start + 0], bytes[start + 1], bytes[start + 2], bytes[start + 3], bytes[start + 4], 0u8, 0u8, 0u8);
    reveal_with_fuel(le_value, 9);
    lemma_varint_value(first, le_value(bytes, start as int, 5));
}

proof fn lemma_payload_value_7(bytes: Seq<u8>, start: int, first: u8)
    requires
        0 <= start,
        start + 6 <= bytes.len(),
    ensures
        ((first >> 7) as u64 | ((bytes[start + 0] as u64) << 1) | ((bytes[start + 1] as u64) << 9) | ((bytes[start + 2] as u64) << 17) | ((bytes[start + 3] as u64) << 25) | ((bytes[start + 4] as u64) << 33) | ((bytes[start + 5] as u64) << 41)) as nat == varint_value(first, 7, le_value(bytes, start, 6)),
{
    lemma_decode_bytes(first, bytes[start + 0], bytes[start + 1], bytes[start + 2], bytes[start + 3], bytes[start + 4], bytes[start + 5], 0u8, 0u8);
    reveal_with_fuel(le_value, 9);
    lemma_varint_value(first, le_value(bytes, start as int, 6));
}

proof fn lemma_payload_value_8(bytes: Seq<u8>, start: int, first: u8)
    requires
        0 <= start,
        start + 7 <= bytes.len(),
        first == 128,
    ensures
        (bytes[start + 0] as u64 | ((bytes[start + 1] as u64) << 8) | ((bytes[start + 2] as u64) << 16) | ((bytes[start + 3] as u64) << 24) | ((bytes[start + 4] as u64) << 32) | ((bytes[start + 5] as u64) << 40) | ((bytes[start + 6] as u64) << 48)) as nat == varint_value(first, 8, le_value(bytes, start, 7)),
{
    lemma_decode_bytes(first, bytes[start + 0], bytes[start + 1], bytes[start + 2], bytes[start + 3], bytes[start + 4], bytes[start + 5], bytes[start + 6], 0u8);
    reveal_with_fuel(le_value, 9);
    lemma_varint_value(first, le_value(bytes, start as int, 7));
}

proof fn lemma_payload_value_9(bytes: Seq<u8>, start: int, first: u8)
    requires
        0 <= start,
        start + 8 <= bytes.len(),
    ensures
        (bytes[start + 0] as u64 | ((bytes[start + 1] as u64) << 8) | ((bytes[start + 2] as u64) << 16) | ((bytes[start + 3] as u64) << 24) | ((bytes[start + 4] as u64) << 32) | ((bytes[start + 5] as u64) << 40) | ((bytes[start + 6] as u64) << 48) | ((bytes[start + 7] as u64) << 56)) as nat == varint_value(first, 9, le_value(bytes, start, 8)),
{
    lemma_decode_bytes(first, bytes[start + 0], bytes[start + 1], bytes[start + 2], bytes[start + 3], bytes[start + 4], bytes[start + 5], bytes[start + 6], bytes[start + 7]);
    reveal_with_fuel(le_value, 9);
    lemma_varint_value(first, le_value(bytes, start as int, 8));
}

/// The value of an encoding of `shift + 1` bytes with tag byte `first` and
/// payload `bytes[start..start + shift]`, assembled with shifts.
fn payload_value(bytes: &[u8], start: usize, first: u8, shift: u32) -> (value: u64)
    requires
        shift <= 8,
        start + shift <= bytes.len(),
        shift == 8 ==> first == 0,
        shift == 7 ==> first == 128,
    ensures
        value as nat == varint_value(first, (shift + 1) as nat, le_value(bytes@, start as int, shift as nat)),
{
    match shift {
        0 => {
            proof {
                lemma_payload_value_1(bytes@, start as int, first);
            }
            (first >> 1) as u64
        }
        1 => {
            proof {
                lemma_payload_value_2(bytes@, start as int, first);
            }
            (first >> 2) as u64 | ((bytes[start + 0] as u64) << 6)
        }
        2 => {
            proof {
                lemma_payload_value_3(bytes@, start as int, first);
            }
            (first >> 3) as u64 | ((bytes[start + 0] as u64) << 5) | ((bytes[start + 1] as u64) << 13)
        }
        3 => {
            proof {
                lemma_payload_value_4(bytes@, start as int, first);
            }
            (first >> 4) as u64 | ((bytes[start + 0] as u64) << 4) | ((bytes[start + 1] as u64) << 12) | ((bytes[start + 2] as u64) << 20)
        }
        4 => {
            proof {
                lemma_payload_value_5(bytes@, start as int, first);
            }
            (first >> 5) as u64 | ((bytes[start + 0] as u64) << 3) | ((bytes[start + 1] as u64) << 11) | ((bytes[start + 2] as u64) << 19) | ((bytes[start + 3] as u64) << 27)
        }
        5 => {
            proof {
                lemma_payload_value_6(bytes@, start as int, first);
            }
            (first >> 6) as u64 | ((bytes[start + 0] as u64) << 2) | ((bytes[start + 1] as u64) << 10) | ((bytes[start + 2] as u64) << 18) | ((bytes[start + 3] as u64) << 26) | ((bytes[start + 4] as u64) << 34)
        }
        6 => {
            proof {
                lemma_payload_value_7(bytes@, start as int, first);
            }
            (first >> 7) as u64 | ((bytes[start + 0] as u64) << 1) | ((bytes[start + 1] as u64) << 9) | ((bytes[start + 2] as u64) << 17) | ((bytes[start + 3] as u64) << 25) | ((bytes[start + 4] as u64) << 33) | ((bytes[start + 5] as u64) << 41)
        }
        7 => {
            proof {
                lemma_payload_value_8(bytes@, start as int, first);
            }
            bytes[start + 0] as u64 | ((bytes[start + 1] as u64) << 8) | ((bytes[start + 2] as u64) << 16) | ((bytes[start + 3] as u64) << 24) | ((bytes[start + 4] as u64) << 32) | ((bytes[start + 5] as u64) << 40) | ((bytes[start + 6] as u64) << 48)
        }
        _ => {
            proof {
                lemma_payload_value_9(bytes@, start as int, first);
            }
            bytes[start + 0] as u64 | ((bytes[start + 1] as u64) << 8) | ((bytes[start + 2] as u64) << 16) | ((bytes[start + 3] as u64) << 24) | ((bytes[start + 4] as u64) << 32) | ((bytes[start + 5] as u64) << 40) | ((bytes[start + 6] as u64) << 48) | ((bytes[start + 7] as u64) << 56)
        }
    }
}

/// Reads the prefix varint whose tag byte is at `*offset`, and moves
/// `*offset` past it. Fails, leaving `*offset` as it was, where the bytes
/// run out.
pub fn decode_prefix_varint(bytes: &[u8], offset: &mut usize) -> (result: DecodeResult<u64>)
    ensures
        match decode_prefix_spec(bytes@, *old(offset) as int) {
            Some((value, end)) => result == Ok::<u64, DecodeError>(value) && *final(offset) as int == end,
            None => result == Err::<u64, DecodeError>(DecodeError::InvalidFormat) && *final(offset) == *old(offset),
        },
{
    let off = *offset;
    if off >= bytes.len() {
        return Err(DecodeError::InvalidFormat);
    }
    let first = bytes[off];
    let shift = first.trailing_zeros();
    proof {
        lemma_trailing_zeros_tag_len(first);
    }
    if shift as usize >= bytes.len() - off {
        return Err(DecodeError::InvalidFormat);
    }
    let result = payload_value(bytes, off + 1, first, shift);
    *offset = off + shift as usize + 1;
    Ok(result)
}

/// Reads, backwards, the suffix varint whose tag byte is at `*offset`, and
/// moves `*offset` to the byte before it. Where that encoding starts the
/// buffer, `*offset` ends at `usize::MAX`. Fails, leaving `*offset` as it
/// was, where the bytes run out.
pub fn decode_suffix_varint(bytes: &[u8], offset: &mut usize) -> (result: DecodeResult<u64>)
    ensures
        match decode_suffix_spec(bytes@, *old(offset) as int) {
            Some((value, end)) => result == Ok::<u64, DecodeError>(value) && *final(offset) == wrapped_offset(end),
            None => result == Err::<u64, DecodeError>(DecodeError::InvalidFormat) && *final(offset) == *old(offset),
        },
{
    let off = *offset;
    if off >= bytes.len() {
        return Err(DecodeError::InvalidFormat);
    }
    let first = bytes[off];
    let shift = first.trailing_zeros();
    proof {
        lemma_trailing_zeros_tag_len(first);
    }
    if off < shift as usize {
        return Err(DecodeError::InvalidFormat);
    }
    let result = payload_value(bytes, off - shift as usize, first, shift);
    *offset = off.wrapping_sub(shift as usize + 1);
    Ok(result)
}

// ---------------------------------------------------------------------------
// Laws
// ---------------------------------------------------------------------------

/// Bytes holding the base-256 digits of `x / d` read back as that number.
proof fn lemma_le_value_digits(s: Seq<u8>, start: int, x: nat, d: nat, m: nat)
    requires
        d > 0,
        0 <= start,
        start + m <= s.len(),
        forall|j: int|
            start <= j < start + m ==> #[trigger] s[j] == ((x / (d * exp256((j - start) as nat))) % 256) as u8,
        x / d < exp256(m),
    ensures
        le_value(s, start, m) == x / d,
    decreases m,
{
    if m > 0 {
        let d2 = d * 256;
        assert forall|j: int| start + 1 <= j < start + 1 + (m - 1) implies #[trigger] s[j] == ((x / (d2
            * exp256((j - (start + 1)) as nat))) % 256) as u8 by {
            let i = j - (start + 1);
            assert(exp256((j - start) as nat) == 256 * exp256(i as nat));
            vstd::arithmetic::mul::lemma_mul_is_associative(d as int, 256, exp256(i as nat) as int);
        }
        vstd::arithmetic::div_mod::lemma_div_denominator(x as int, d as int, 256);
        let q = x / d;
        assert(q / 256 < exp256((m - 1) as nat)) by (nonlinear_arith)
            requires
                q < 256 * exp256((m - 1) as nat),
        ;
        lemma_le_value_digits(s, start + 1, x, d2, (m - 1) as nat);
        assert(exp256(0) == 1);
        assert(d * exp256(0) == d);
        assert(s[start] == ((x / (d * exp256(0))) % 256) as u8);
        assert(s[start] as nat == q % 256);
        assert(le_value(s, start + 1, (m - 1) as nat) == q / 256);
        vstd::arithmetic::div_mod::lemma_fundamental_div_mod(q as int, 256);
        assert(le_value(s, start, m) == s[start] as nat + 256 * le_value(s, start + 1, (m - 1) as nat));
    }
}

proof fn lemma_tag_len_1(value: u64)
    requires
        0 <= value < 0x80,
    ensures
        tag_len(varint_tag(value)) == 1,
        varint_tag(value) as nat / exp2(1) == value as nat % tag_divisor(1),
{
    lemma_exp_values();
    assert(tag_divisor(1) == 128);
    let a = value as nat % 128;
    assert(varint_tag(value) as nat == a * 2 + 1);
    assert((a * 2 + 1) / 2 == a);
}

proof fn lemma_tag_len_2(value: u64)
    requires
        0x80 <= value < 0x4000,
    ensures
        tag_len(varint_tag(value)) == 2,
        varint_tag(value) as nat / exp2(2) == value as nat % tag_divisor(2),
{
    lemma_exp_values();
    assert(tag_divisor(2) == 64);
    let a = value as nat % 64;
    assert(varint_tag(value) as nat == a * 4 + 2);
    assert((a * 4 + 2) / 4 == a);
}

proof fn lemma_tag_len_3(value: u64)
    requires
        0x4000 <= value < 0x20_0000,
    ensures
        tag_len(varint_tag(value)) == 3,
        varint_tag(value) as nat / exp2(3) == value as nat % tag_divisor(3),
{
    lemma_exp_values();
    assert(tag_divisor(3) == 32);
    let a = value as nat % 32;
    assert(varint_tag(value) as nat == a * 8 + 4);
    assert((a * 8 + 4) / 8 == a);
}

proof fn lemma_tag_len_4(value: u64)
    requires
        0x20_0000 <= value < 0x1000_0000,
    ensures
        tag_len(varint_tag(value)) == 4,
        varint_tag(value) as nat / exp2(4) == value as nat % tag_divisor(4),
{
    lemma_exp_values();
    assert(tag_divisor(4) == 16);
    let a = value as nat % 16;
    assert(varint_tag(value) as nat == a * 16 + 8);
    assert((a * 16 + 8) / 16 == a);
}

proof fn lemma_tag_len_5(value: u64)
    requires
        0x1000_0000 <= value < 0x8_0000_0000,
    ensures
        tag_len(varint_tag(value)) == 5,
        varint_tag(value) as nat / exp2(5) == value as nat % tag_divisor(5),
{
    lemma_exp_values();
    assert(tag_divisor(5) == 8);
    let a = value as nat % 8;
    assert(varint_tag(value) as nat == a * 32 + 16);
    assert((a * 32 + 16) / 32 == a);
}

proof fn lemma_tag_len_6(value: u64)
    requires
        0x8_0000_0000 <= value < 0x400_0000_0000,
    ensures
        tag_len(varint_tag(value)) == 6,
        varint_tag(value) as nat / exp2(6) == value as nat % tag_divisor(6),
{
    lemma_exp_values();
    assert(tag_divisor(6) == 4);
    let a = value as nat % 4;
    assert(varint_tag(value) as nat == a * 64 + 32);
    assert((a * 64 + 32) / 64 == a);
}

proof fn lemma_tag_len_7(value: u64)
    requires
        0x400_0000_0000 <= value < 0x2_0000_0000_0000,
    ensures
        tag_len(varint_tag(value)) == 7,
        varint_tag(value) as nat / exp2(7) == value as nat % tag_divisor(7),
{
    lemma_exp_values();
    assert(tag_divisor(7) == 2);
    let a = value as nat % 2;
    assert(varint_tag(value) as nat == a * 128 + 64);
    assert((a * 128 + 64) / 128 == a);
}

/// The tag byte of an encoding tells its length, and holds the low bits of
/// the value.
proof fn lemma_tag_round_trip(value: u64)
    ensures
        tag_len(varint_tag(value)) == varint_len(value),
        varint_tag(value) as nat / exp2(varint_len(value)) == value as nat % tag_divisor(varint_len(value)),
{
    lemma_exp_values();
    let n = varint_len(value);
    if n == 1 {
        lemma_tag_len_1(value);
    } else if n == 2 {
        lemma_tag_len_2(value);
    } else if n == 3 {
        lemma_tag_len_3(value);
    } else if n == 4 {
        lemma_tag_len_4(value);
    } else if n == 5 {
        lemma_tag_len_5(value);
    } else if n == 6 {
        lemma_tag_len_6(value);
    } else if n == 7 {
        lemma_tag_len_7(value);
    } else if n == 8 {
        assert(tag_divisor(8) == 1 && exp2(8) == 256);
        assert(varint_tag(value) == 128);
        assert(value as nat % 1 == 0);
        assert(varint_tag(value) as nat / exp2(8) == 0);
    } else {
        assert(tag_divisor(9) == 1);
        assert(exp2(9) == 512) by {
            reveal_with_fuel(exp2, 10);
        }
        assert(varint_tag(value) == 0);
        assert(value as nat % 1 == 0);
        assert(varint_tag(value) as nat / exp2(9) == 0);
    }
}

/// The payload of an encoding is the value without the bits the tag holds.
proof fn lemma_payload_round_trip(value: u64, s: Seq<u8>, start: int)
    requires
        0 <= start,
        start + varint_payload(value).len() <= s.len(),
        forall|i: int| 0 <= i < varint_payload(value).len() ==> s[start + i] == varint_payload(value)[i],
    ensures
        le_value(s, start, (varint_len(value) - 1) as nat) == value as nat / tag_divisor(varint_len(value)),
{
    lemma_exp_values();
    let n = varint_len(value);
    let d = tag_divisor(n);
    let v = value as nat;
    assert(v / d < exp256((n - 1) as nat)) by {
        if n == 9 {
            assert(v / 1 == v);
        } else {
            assert(d == exp2((8 - n) as nat));
            assert(v < d * exp256((n - 1) as nat)) by {
                if n == 1 {
                    assert(d * exp256(0) == 0x80);
                } else if n == 2 {
                    assert(d * exp256(1) == 0x4000);
                } else if n == 3 {
                    assert(d * exp256(2) == 0x20_0000);
                } else if n == 4 {
                    assert(d * exp256(3) == 0x1000_0000);
                } else if n == 5 {
                    assert(d * exp256(4) == 0x8_0000_0000);
                } else if n == 6 {
                    assert(d * exp256(5) == 0x400_0000_0000);
                } else if n == 7 {
                    assert(d * exp256(6) == 0x2_0000_0000_0000);
                } else {
                    assert(d * exp256(7) == 0x100_0000_0000_0000);
                }
            }
            assert(v / d < exp256((n - 1) as nat)) by (nonlinear_arith)
                requires
                    v < d * exp256((n - 1) as nat),
                    d > 0,
            ;
        }
    }
    assert forall|j: int| start <= j < start + (n - 1) implies #[trigger] s[j] == ((v / (d * exp256(
        (j - start) as nat,
    ))) % 256) as u8 by {
        assert(s[start + (j - start)] == varint_payload(value)[j - start]);
    }
    lemma_le_value_digits(s, start, v, d, (n - 1) as nat);
}

/// Reading a prefix varint back gives the value written, whatever bytes
/// stand before and after it, and ends just past its encoding.
pub proof fn lemma_prefix_varint_round_trip(before: Seq<u8>, value: u64, after: Seq<u8>)
    ensures
        prefix_varint(value).len() == varint_len(value),
        decode_prefix_spec(before + prefix_varint(value) + after, before.len() as int) == Some(
            (value, (before.len() + varint_len(value)) as int),
        ),
{
    let s = before + prefix_varint(value) + after;
    let o = before.len() as int;
    let n = varint_len(value);
    let p = varint_payload(value);
    assert(s[o] == varint_tag(value));
    lemma_tag_round_trip(value);
    assert forall|i: int| 0 <= i < p.len() implies s[o + 1 + i] == p[i] by {
        assert(s[o + 1 + i] == prefix_varint(value)[1 + i]);
    }
    lemma_payload_round_trip(value, s, o + 1);
    let d = tag_divisor(n);
    lemma_exp_values();
    assert(d > 0);
    vstd::arithmetic::div_mod::lemma_fundamental_div_mod(value as int, d as int);
}

/// Reading a suffix varint back, from its last byte, gives the value
/// written, whatever bytes stand before and after it, and ends on the byte
/// just before its encoding.
pub proof fn lemma_suffix_varint_round_trip(before: Seq<u8>, value: u64, after: Seq<u8>)
    ensures
        suffix_varint(value).len() == varint_len(value),
        decode_suffix_spec(
            before + suffix_varint(value) + after,
            before.len() + varint_len(value) - 1,
        ) == Some((value, before.len() - 1)),
{
    let s = before + suffix_varint(value) + after;
    let o = before.len() as int;
    let n = varint_len(value);
    let p = varint_payload(value);
    assert(s[o + n - 1] == varint_tag(value));
    lemma_tag_round_trip(value);
    assert forall|i: int| 0 <= i < p.len() implies s[o + i] == p[i] by {
        assert(s[o + i] == suffix_varint(value)[i]);
    }
    lemma_payload_round_trip(value, s, o);
    let d = tag_divisor(n);
    lemma_exp_values();
    assert(d > 0);
    vstd::arithmetic::div_mod::lemma_fundamental_div_mod(value as int, d as int);
}

/// The prefix varint encodings of `values`, one after another.
pub open spec fn prefix_varints(values: Seq<u64>) -> Seq<u8>
    decreases values.len(),
{
    if values.len() == 0 {
        Seq::empty()
    } else {
        prefix_varint(values[0]) + prefix_varints(values.drop_first())
    }
}

/// The suffix varint encodings of `values`, one after another.
pub open spec fn suffix_varints(values: Seq<u64>) -> Seq<u8>
    decreases values.len(),
{
    if values.len() == 0 {
        Seq::empty()
    } else {
        suffix_varints(values.drop_last()) + suffix_varint(values.last())
    }
}

/// Reading prefix varints forwards from `offset` until the bytes are used up.
pub open spec fn decode_prefix_all(bytes: Seq<u8>, offset: int) -> Option<Seq<u64>>
    decreases bytes.len() - offset,
{
    if offset < 0 || offset >= bytes.len() {
        Some(Seq::empty())
    } else {
        match decode_prefix_spec(bytes, offset) {
            None => None,
            Some((value, end)) => match decode_prefix_all(bytes, end) {
                None => None,
                Some(rest) => Some(seq![value] + rest),
            },
        }
    }
}

/// Reading suffix varints backwards from `offset` until the start of the
/// bytes is reached; the values come out last first.
pub open spec fn decode_suffix_all(bytes: Seq<u8>, offset: int) -> Option<Seq<u64>>
    decreases offset + 1,
{
    if offset < 0 || offset >= bytes.len() {
        Some(Seq::empty())
    } else {
        match decode_suffix_spec(bytes, offset) {
            None => None,
            Some((value, end)) => match decode_suffix_all(bytes, end) {
                None => None,
                Some(rest) => Some(seq![value] + rest),
            },
        }
    }
}

/// Prefix varints written one after another read back, forwards, as the
/// values written.
pub proof fn lemma_prefix_varints_round_trip(before: Seq<u8>, values: Seq<u64>)
    ensures
        decode_prefix_all(before + prefix_varints(values), before.len() as int) == Some(values),
    decreases values.len(),
{
    let s = before + prefix_varints(values);
    if values.len() == 0 {
        assert(s.len() == before.len());
        assert(values =~= Seq::<u64>::empty());
    } else {
        let first = values[0];
        let rest = values.drop_first();
        let before2 = before + prefix_varint(first);
        assert(s =~= before + prefix_varint(first) + prefix_varints(rest));
        assert(s =~= before2 + prefix_varints(rest));
        lemma_prefix_varint_round_trip(before, first, prefix_varints(rest));
        lemma_prefix_varints_round_trip(before2, rest);
        assert(seq![first] + rest =~= values);
    }
}

/// Suffix varints written one after another read back, backwards from the
/// last byte, as the values written, last first.
pub proof fn lemma_suffix_varints_round_trip(values: Seq<u64>, after: Seq<u8>)
    ensures
        decode_suffix_all(suffix_varints(values) + after, suffix_varints(values).len() - 1) == Some(
            values.reverse(),
        ),
    decreases values.len(),
{
    let enc = suffix_varints(values);
    if values.len() == 0 {
        assert(values.reverse() =~= Seq::<u64>::empty());
    } else {
        let last = values.last();
        let init = values.drop_last();
        let before = suffix_varints(init);
        let s = enc + after;
        assert(s =~= before + suffix_varint(last) + after);
        lemma_suffix_varint_round_trip(before, last, after);
        assert(before + suffix_varint(last) + after =~= before + (suffix_varint(last) + after));
        lemma_suffix_varints_round_trip(init, suffix_varint(last) + after);
        assert(seq![last] + init.reverse() =~= values.reverse());
    }
}

/// A little endian value of `n` bytes is below `256^n`.
pub proof fn lemma_le_value_bound(s: Seq<u8>, start: int, n: nat)
    ensures
        le_value(s, start, n) < exp256(n),
    decreases n,
{
    if n > 0 {
        lemma_le_value_bound(s, start + 1, (n - 1) as nat);
    }
}

/// The little endian value of the bytes `data`, at most eight of them.
pub fn le_bytes_value(data: &[u8]) -> (value: u64)
    requires
        data@.len() <= 8,
    ensures
        value as nat == le_value(data@, 0, data@.len()),
{
    let n = data.len();
    let mut value: u64 = 0;
    let mut k: usize = n;
    proof {
        reveal_with_fuel(exp256, 9);
    }
    while k > 0
        invariant
            k <= n,
            n == data@.len(),
            n <= 8,
            value as nat == le_value(data@, k as int, (n - k) as nat),
            value < exp256((n - k) as nat),
            exp256(8) == 0x1_0000_0000_0000_0000,
        decreases k,
    {
        k -= 1;
        proof {
            lemma_le_value_bound(data@, k as int, (n - k) as nat);
            assert(exp256((n - k) as nat) <= exp256(8)) by {
                lemma_exp256_monotone((n - k) as nat, 8);
            }
            assert(le_value(data@, k as int, (n - k) as nat) == data@[k as int] as nat + 256
                * le_value(data@, k as int + 1, (n - k - 1) as nat));
        }
        value = (data[k] as u64) + 256 * value;
    }
    value
}

/// `256^a <= 256^b` for `a <= b`.
pub proof fn lemma_exp256_monotone(a: nat, b: nat)
    requires
        a <= b,
    ensures
        exp256(a) <= exp256(b),
    decreases b,
{
    if a < b {
        lemma_exp256_monotone(a, (b - 1) as nat);
    }
}

} // verus!
