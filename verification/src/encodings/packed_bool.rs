//! Booleans packed eight to a byte, least significant bit first.
use vstd::prelude::*;

verus! {

/// Bit `i` (0 for the least significant) of `byte`.
pub open spec fn bit(byte: u8, i: u8) -> bool {
    (byte >> i) & 1u8 == 1u8
}

/// The booleans a sequence of bytes holds: eight per byte, least
/// significant bit first.
pub open spec fn unpack_bools(bytes: Seq<u8>) -> Seq<bool> {
    Seq::new(8 * bytes.len(), |j: int| bit(bytes[j / 8], (j % 8) as u8))
}

/// `items` followed by `false` up to a multiple of eight.
pub open spec fn padded_bools(items: Seq<bool>) -> Seq<bool> {
    Seq::new(8 * ((items.len() + 7) / 8), |j: int| j < items.len() && items[j])
}

/// The number of bytes that `n` packed booleans take.
pub open spec fn packed_len(n: nat) -> nat {
    (n + 7) / 8
}

proof fn lemma_pack_byte(x0: u8, x1: u8, x2: u8, x3: u8, x4: u8, x5: u8, x6: u8, x7: u8)
    by (bit_vector)
    requires
        x0 <= 1 && x1 <= 1 && x2 <= 1 && x3 <= 1 && x4 <= 1 && x5 <= 1 && x6 <= 1 && x7 <= 1,
    ensures
        ({
            let b = x0 << 0u8 | x1 << 1u8 | x2 << 2u8 | x3 << 3u8 | x4 << 4u8 | x5 << 5u8 | x6 << 6u8
                | x7 << 7u8;
            &&& (b >> 0u8) & 1u8 == x0
            &&& (b >> 1u8) & 1u8 == x1
            &&& (b >> 2u8) & 1u8 == x2
            &&& (b >> 3u8) & 1u8 == x3
            &&& (b >> 4u8) & 1u8 == x4
            &&& (b >> 5u8) & 1u8 == x5
            &&& (b >> 6u8) & 1u8 == x6
            &&& (b >> 7u8) & 1u8 == x7
        }),
{
}

proof fn lemma_set_bit(b: u8, x: u8, i: u8, j: u8)
    by (bit_vector)
    requires
        x <= 1,
        i < 8,
        j < 8,
        j >= i ==> (b >> j) & 1u8 == 0u8,
    ensures
        ((b | (x << i)) >> j) & 1u8 == (if j == i {
            x
        } else {
            (b >> j) & 1u8
        }),
{
}

proof fn lemma_zero_bits(j: u8)
    by (bit_vector)
    ensures
        (0u8 >> j) & 1u8 == 0u8,
{
}

proof fn lemma_test_bit(byte: u8)
    by (bit_vector)
    ensures
        ((byte & 1u8 << 0u8) != 0) == ((byte >> 0u8) & 1u8 == 1u8),
        ((byte & 1u8 << 1u8) != 0) == ((byte >> 1u8) & 1u8 == 1u8),
        ((byte & 1u8 << 2u8) != 0) == ((byte >> 2u8) & 1u8 == 1u8),
        ((byte & 1u8 << 3u8) != 0) == ((byte >> 3u8) & 1u8 == 1u8),
        ((byte & 1u8 << 4u8) != 0) == ((byte >> 4u8) & 1u8 == 1u8),
        ((byte & 1u8 << 5u8) != 0) == ((byte >> 5u8) & 1u8 == 1u8),
        ((byte & 1u8 << 6u8) != 0) == ((byte >> 6u8) & 1u8 == 1u8),
        ((byte & 1u8 << 7u8) != 0) == ((byte >> 7u8) & 1u8 == 1u8),
{
}

/// 1 for `true`, 0 for `false`.
fn bool_bit(value: bool) -> (bit: u8)
    ensures
        bit == (if value {
            1u8
        } else {
            0u8
        }),
{
    if value {
        1
    } else {
        0
    }
}

/// Appends `items` to `bytes`, eight to a byte with the first in the least
/// significant bit; the last byte is padded with `false`.
pub fn encode_packed_bool(items: &[bool], bytes: &mut Vec<u8>)
    ensures
        final(bytes)@.len() == old(bytes)@.len() + packed_len(items@.len()),
        final(bytes)@.subrange(0, old(bytes)@.len() as int) == old(bytes)@,
        unpack_bools(final(bytes)@.subrange(old(bytes)@.len() as int, final(bytes)@.len() as int))
            == padded_bools(items@),
{
    let ghost start = bytes@.len();
    let mut offset: usize = 0;
    while offset + 7 < items.len()
        invariant
            offset % 8 == 0,
            offset <= items@.len(),
            bytes@.len() == start + offset / 8,
            bytes@.subrange(0, start as int) == old(bytes)@,
            start == old(bytes)@.len(),
            forall|k: int, i: u8|
                0 <= k < offset / 8 && i < 8 ==> #[trigger] bit(bytes@[start + k], i) == items@[8 * k + i],
        decreases items@.len() - offset,
    {
        let x0 = bool_bit(items[offset + 0]);
        let x1 = bool_bit(items[offset + 1]);
        let x2 = bool_bit(items[offset + 2]);
        let x3 = bool_bit(items[offset + 3]);
        let x4 = bool_bit(items[offset + 4]);
        let x5 = bool_bit(items[offset + 5]);
        let x6 = bool_bit(items[offset + 6]);
        let x7 = bool_bit(items[offset + 7]);
        let b = x0 << 0 | x1 << 1 | x2 << 2 | x3 << 3 | x4 << 4 | x5 << 5 | x6 << 6 | x7 << 7;
        proof {
            lemma_pack_byte(x0, x1, x2, x3, x4, x5, x6, x7);
        }
        let ghost prior = bytes@;
        bytes.push(b);
        proof {
            assert forall|k: int, i: u8|
                0 <= k < (offset + 8) / 8 && i < 8 implies #[trigger] bit(bytes@[start + k], i)
                == items@[8 * k + i] by {
                if k == offset / 8 {
                    assert(8 * k == offset);
                    if i == 0 {
                    } else if i == 1 {
                    } else if i == 2 {
                    } else if i == 3 {
                    } else if i == 4 {
                    } else if i == 5 {
                    } else if i == 6 {
                    } else {
                    }
                } else {
                    assert(bytes@[start + k] == prior[start + k]);
                }
            }
        }
        offset += 8;
    }
    if offset < items.len() {
        let mut b: u8 = 0;
        let rest = items.len() - offset;
        proof {
            assert forall|j: u8| j < 8 implies (b >> j) & 1u8 == 0u8 by {
                lemma_zero_bits(j);
            }
        }
        for i in 0..rest
            invariant
                rest == items@.len() - offset,
                rest < 8,
                offset + rest == items.len(),
                forall|j: u8| j < 8 ==> #[trigger] ((b >> j) & 1u8) == (if (j as int) < i {
                    if items@[offset + j] {
                        1u8
                    } else {
                        0u8
                    }
                } else {
                    0u8
                }),
        {
            assert(i < rest);
            let x = bool_bit(items[offset + i]);
            let ghost old_b = b;
            b |= x << (i as u8);
            proof {
                assert forall|j: u8| j < 8 implies #[trigger] ((b >> j) & 1u8) == (if (j as int) < i
                    + 1 {
                    if items@[offset + j] {
                        1u8
                    } else {
                        0u8
                    }
                } else {
                    0u8
                }) by {
                    lemma_set_bit(old_b, x, i as u8, j);
                }
            }
        }
        bytes.push(b);
        proof {
            assert forall|k: int, i: u8|
                0 <= k < offset / 8 + 1 && i < 8 implies #[trigger] bit(bytes@[start + k], i) == (8
                * k + i < items@.len() && items@[8 * k + i]) by {
                if k == offset / 8 {
                    assert(8 * k == offset);
                }
            }
        }
    }
    proof {
        let out = bytes@.subrange(start as int, bytes@.len() as int);
        assert(unpack_bools(out) =~= padded_bools(items@)) by {
            assert forall|j: int| 0 <= j < 8 * out.len() implies unpack_bools(out)[j] == padded_bools(
                items@,
            )[j] by {
                let k = j / 8;
                let i = (j % 8) as u8;
                assert(out[k] == bytes@[start + k]);
                assert(bit(bytes@[start + k], i) == (8 * k + i < items@.len() && items@[8 * k + i]));
            }
        }
        assert(bytes@.subrange(0, start as int) =~= old(bytes)@);
    }
}

/// The booleans packed in `bytes`: eight per byte, least significant bit
/// first, so the result has a multiple of eight entries.
pub fn decode_packed_bool(bytes: &[u8]) -> (result: Vec<bool>)
    ensures
        result@ == unpack_bools(bytes@),
{
    let mut result: Vec<bool> = Vec::new();
    for k in 0..bytes.len()
        invariant
            result@.len() == 8 * k,
            forall|j: int| 0 <= j < 8 * k ==> #[trigger] result@[j] == bit(bytes@[j / 8], (j % 8) as u8),
    {
        let byte = bytes[k];
        proof {
            lemma_test_bit(byte);
        }
        result.push((byte & 1 << 0) != 0);
        result.push((byte & 1 << 1) != 0);
        result.push((byte & 1 << 2) != 0);
        result.push((byte & 1 << 3) != 0);
        result.push((byte & 1 << 4) != 0);
        result.push((byte & 1 << 5) != 0);
        result.push((byte & 1 << 6) != 0);
        result.push((byte & 1 << 7) != 0);
    }
    assert(result@ =~= unpack_bools(bytes@));
    result
}

/// Packing booleans and unpacking them gives them back, in order, followed
/// by `false` up to a multiple of eight.
pub proof fn lemma_packed_bool_round_trip(items: Seq<bool>, packed: Seq<u8>)
    requires
        packed.len() == packed_len(items.len()),
        unpack_bools(packed) == padded_bools(items),
    ensures
        unpack_bools(packed).len() == 8 * packed_len(items.len()),
        forall|j: int| 0 <= j < items.len() ==> #[trigger] unpack_bools(packed)[j] == items[j],
        forall|j: int| items.len() <= j < unpack_bools(packed).len() ==> !#[trigger] unpack_bools(packed)[j],
{
}

} // verus!
