//! The framing of a Gorilla float column: the bit stream's 64 bit words
//! and the number of bits used in the last word.
use vstd::prelude::*;
use crate::encodings::varint::{le_bytes_value, le_value};
use crate::error::{DecodeError, DecodeResult};

verus! {

/// The last, partial word of a column: its bytes placed at the high end of
/// a little endian word.
pub open spec fn gorilla_last_word(tail: Seq<u8>) -> u64 {
    let padded = Seq::new(8, |k: int| if k < 8 - tail.len() { 0u8 } else { tail[k - (8 - tail.len())] });
    le_value(padded, 0, 8) as u64
}

/// The words of a Gorilla column and the bits used in the last one. The
/// last byte counts the bits; the bytes before it are whole little endian
/// words, then what remains of a last word.
pub open spec fn gorilla_words_spec(bytes: Seq<u8>) -> Option<(Seq<u64>, u8)> {
    if bytes.len() == 0 {
        None
    } else {
        let body = bytes.drop_last();
        let full = body.len() - body.len() % 8;
        let words = Seq::new((full / 8) as nat, |i: int| le_value(body, 8 * i, 8) as u64);
        Some((words.push(gorilla_last_word(body.subrange(full, body.len() as int))), bytes.last()))
    }
}

/// Splits a Gorilla column into the words of its bit stream and the number
/// of bits used in the last word; fails on an empty column.
pub fn gorilla_words(bytes: &[u8]) -> (result: DecodeResult<(Vec<u64>, u8)>)
    ensures
        match gorilla_words_spec(bytes@) {
            Some((words, bits)) => result matches Ok((w, b)) && w@ == words && b == bits,
            None => result == Err::<(Vec<u64>, u8), DecodeError>(DecodeError::InvalidFormat),
        },
{
    if bytes.len() == 0 {
        return Err(DecodeError::InvalidFormat);
    }
    let bits = bytes[bytes.len() - 1];
    let body = vstd::slice::slice_subrange(bytes, 0, bytes.len() - 1);
    let tail_len = body.len() % 8;
    let full = body.len() - tail_len;
    let ghost spec_words = Seq::new((full / 8) as nat, |i: int| le_value(body@, 8 * i, 8) as u64);
    proof {
        assert(body@ =~= bytes@.drop_last());
    }
    let mut words: Vec<u64> = Vec::new();
    let mut offset: usize = 0;
    while offset < full
        invariant
            full <= body@.len(),
            full % 8 == 0,
            offset % 8 == 0,
            offset <= full,
            words@ =~= spec_words.subrange(0, (offset / 8) as int),
            spec_words == Seq::new((full / 8) as nat, |i: int| le_value(body@, 8 * i, 8) as u64),
        decreases full - offset,
    {
        let chunk = vstd::slice::slice_subrange(body, offset, offset + 8);
        let word = le_bytes_value(chunk);
        proof {
            lemma_le_value_shift(chunk@, body@, offset as int, 8);
            assert(8 * (offset as int / 8) == offset) by (nonlinear_arith)
                requires
                    offset % 8 == 0,
            ;
            assert(offset as int / 8 < full as int / 8) by (nonlinear_arith)
                requires
                    offset % 8 == 0,
                    full % 8 == 0,
                    offset < full,
            ;
            assert(chunk@.len() == 8);
            assert(spec_words[(offset / 8) as int] == word);
            assert(spec_words.subrange(0, (offset / 8) as int + 1) =~= spec_words.subrange(
                0,
                (offset / 8) as int,
            ).push(word));
        }
        words.push(word);
        offset += 8;
    }
    let mut padded: [u8; 8] = [0; 8];
    let mut k: usize = 0;
    let start = 8 - tail_len;
    let ghost tail = body@.subrange(full as int, body@.len() as int);
    while k < tail_len
        invariant
            k <= tail_len < 8,
            start == 8 - tail_len,
            full + tail_len == body@.len(),
            full + tail_len <= usize::MAX,
            tail == body@.subrange(full as int, body@.len() as int),
            padded@.len() == 8,
            forall|j: int| 0 <= j < 8 ==> #[trigger] padded@[j] == if j < start {
                0u8
            } else if j < start + k {
                tail[j - start]
            } else {
                0u8
            },
        decreases tail_len - k,
    {
        padded[start + k] = body[full + k];
        k += 1;
    }
    let last = le_bytes_value(&padded);
    proof {
        assert(padded@ =~= Seq::new(8, |j: int| if j < 8 - tail.len() { 0u8 } else { tail[j - (8 - tail.len())] }));
        assert(words@ =~= spec_words);
    }
    words.push(last);
    Ok((words, bits))
}

/// The value of bytes read from a copy of a stretch of them.
proof fn lemma_le_value_shift(chunk: Seq<u8>, whole: Seq<u8>, offset: int, n: nat)
    requires
        0 <= offset,
        offset + n <= whole.len(),
        chunk.len() == n,
        forall|j: int| 0 <= j < n ==> #[trigger] chunk[j] == whole[offset + j],
    ensures
        le_value(chunk, 0, n) == le_value(whole, offset, n),
    decreases n,
{
    if n > 0 {
        lemma_le_value_shift(chunk.drop_first(), whole, offset + 1, (n - 1) as nat);
        lemma_le_value_drop_first(chunk, (n - 1) as nat);
    }
}

/// Reading from the second byte on is reading what follows the first.
proof fn lemma_le_value_drop_first(s: Seq<u8>, n: nat)
    requires
        n + 1 <= s.len(),
    ensures
        le_value(s, 1, n) == le_value(s.drop_first(), 0, n),
    decreases n,
{
    if n > 0 {
        lemma_le_value_drop_first_at(s, 1, n);
    }
}

/// Reading at `start + 1` is reading at `start` of what follows the first.
proof fn lemma_le_value_drop_first_at(s: Seq<u8>, start: int, n: nat)
    requires
        1 <= start,
        start + n <= s.len(),
    ensures
        le_value(s, start, n) == le_value(s.drop_first(), start - 1, n),
    decreases n,
{
    if n > 0 {
        lemma_le_value_drop_first_at(s, start + 1, (n - 1) as nat);
    }
}

} // verus!
