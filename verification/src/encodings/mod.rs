//! The byte-level encodings that Tree-Buf documents are built from.
use vstd::prelude::*;
use crate::error::{DecodeError, DecodeResult};

pub mod delta;
pub mod dictionary;
pub mod gorilla;
pub mod packed_bool;
pub mod rle;
pub mod rle_bool;
pub mod varint;
pub mod zfp;

verus! {

/// `items` are what `f` reads from `bytes` one after another: the reads
/// start at `offsets[i]` and end at `offsets[i + 1]`, the first at 0 and the
/// last at the end of `bytes`.
pub open spec fn reads_all<T, F: Fn(&[u8], usize) -> DecodeResult<(T, usize)>>(
    f: F,
    bytes: &[u8],
    offsets: Seq<usize>,
    items: Seq<T>,
) -> bool {
    &&& offsets.len() == items.len() + 1
    &&& offsets[0] == 0
    &&& offsets.last() == bytes@.len()
    &&& forall|i: int|
        0 <= i < items.len() ==> #[trigger] f.ensures(
            (bytes, offsets[i]),
            Ok::<(T, usize), DecodeError>((items[i], offsets[i + 1])),
        )
}

/// `items` are what `f` reads from `bytes` one after another from offset 0,
/// each read ending where the next starts, `offsets[i]` being where read `i`
/// starts and the last offset where reading stands after them.
pub open spec fn reads_from_start<T, F: Fn(&[u8], usize) -> DecodeResult<(T, usize)>>(
    f: F,
    bytes: &[u8],
    offsets: Seq<usize>,
    items: Seq<T>,
) -> bool {
    &&& offsets.len() == items.len() + 1
    &&& offsets[0] == 0
    &&& forall|i: int|
        0 <= i < items.len() ==> #[trigger] f.ensures(
            (bytes, offsets[i]),
            Ok::<(T, usize), DecodeError>((items[i], offsets[i + 1])),
        )
}

/// Reads all items of a byte-aligned encoding: `f` reads one item at the
/// offset it is given and returns it with the offset just past it; reading
/// goes on from offset 0 until the bytes are used up, and stops at the
/// first read that fails.
pub fn read_all<T, F: Fn(&[u8], usize) -> DecodeResult<(T, usize)>>(bytes: &[u8], f: F) -> (result:
    DecodeResult<Vec<T>>)
    requires
        forall|o: usize| o < bytes@.len() ==> #[trigger] f.requires((bytes, o)),
        forall|o: usize, r: DecodeResult<(T, usize)>|
            o < bytes@.len() && #[trigger] f.ensures((bytes, o), r) ==> (r matches Ok((_, end)) ==> o
                < end <= bytes@.len()),
    ensures
        result is Ok ==> exists|offsets: Seq<usize>| #[trigger] reads_all(f, bytes, offsets, result->Ok_0@),
        result matches Err(e) ==> exists|offsets: Seq<usize>, items: Seq<T>|
            {
                &&& #[trigger] reads_from_start(f, bytes, offsets, items)
                &&& offsets.last() < bytes@.len()
                &&& f.ensures((bytes, offsets.last()), Err::<(T, usize), DecodeError>(e))
            },
{
    let mut offset: usize = 0;
    let mut items: Vec<T> = Vec::new();
    let ghost mut offsets: Seq<usize> = seq![0usize];
    while offset < bytes.len()
        invariant
            offset <= bytes@.len(),
            offsets.len() == items@.len() + 1,
            offsets[0] == 0,
            offsets.last() == offset,
            forall|o: usize| o < bytes@.len() ==> #[trigger] f.requires((bytes, o)),
            forall|o: usize, r: DecodeResult<(T, usize)>|
                o < bytes@.len() && #[trigger] f.ensures((bytes, o), r) ==> (r matches Ok((_, end)) ==> o
                    < end <= bytes@.len()),
            forall|i: int|
                0 <= i < items@.len() ==> #[trigger] f.ensures(
                    (bytes, offsets[i]),
                    Ok::<(T, usize), DecodeError>((items@[i], offsets[i + 1])),
                ),
        decreases bytes@.len() - offset,
    {
        let read = f(bytes, offset);
        match read {
            Ok((item, end)) => {
                proof {
                    offsets = offsets.push(end);
                }
                items.push(item);
                offset = end;
            },
            Err(e) => {
                proof {
                    assert(reads_from_start(f, bytes, offsets, items@));
                }
                return Err(e);
            },
        }
    }
    proof {
        assert(reads_all(f, bytes, offsets, items@));
        assert(exists|o: Seq<usize>| #[trigger] reads_all(f, bytes, o, items@));
    }
    let result = Ok(items);
    proof {
        assert(result->Ok_0@ == items@);
        assert(exists|o: Seq<usize>| #[trigger] reads_all(f, bytes, o, result->Ok_0@));
    }
    result
}

} // verus!
