//! Delta encoding: each item replaced by its difference to the one before.
use vstd::prelude::*;

verus! {

/// The sum of the items of `s` up to and including index `i`.
pub open spec fn prefix_sum(s: Seq<i64>, i: int) -> int
    decreases i + 1,
{
    if i < 0 {
        0
    } else {
        prefix_sum(s, i - 1) + s[i]
    }
}

/// `deltas` is the delta encoding of `data`: the first item kept, every
/// other item replaced by its difference to the one before.
pub open spec fn is_delta_encoding(data: Seq<i64>, deltas: Seq<i64>) -> bool {
    &&& deltas.len() == data.len()
    &&& data.len() > 0 ==> deltas[0] == data[0]
    &&& forall|i: int| 1 <= i < data.len() ==> #[trigger] deltas[i] == data[i] - data[i - 1]
}

/// Replaces each item but the first by its difference to the one before.
pub fn delta_encode_in_place(data: &mut [i64])
    requires
        forall|i: int|
            1 <= i < old(data)@.len() ==> i64::MIN <= #[trigger] old(data)@[i] - old(data)@[i - 1]
                <= i64::MAX,
    ensures
        is_delta_encoding(old(data)@, final(data)@),
{
    if data.len() == 0 {
        return;
    }
    let mut current = data[0];
    let n = data.len();
    for i in 1..n
        invariant
            n == data@.len(),
            data@.len() == old(data)@.len(),
            current == old(data)@[i - 1],
            data@[0] == old(data)@[0],
            forall|j: int| 1 <= j < i ==> #[trigger] data@[j] == old(data)@[j] - old(data)@[j - 1],
            forall|j: int| i <= j < n ==> #[trigger] data@[j] == old(data)@[j],
            forall|j: int|
                1 <= j < old(data)@.len() ==> i64::MIN <= #[trigger] old(data)@[j] - old(data)@[j - 1]
                    <= i64::MAX,
    {
        let next = data[i];
        data[i] = next - current;
        current = next;
    }
}

/// Replaces each item by the sum of it and all items before it, undoing
/// `delta_encode_in_place`.
pub fn delta_decode_in_place(data: &mut [i64])
    requires
        forall|i: int|
            0 <= i < old(data)@.len() ==> i64::MIN <= #[trigger] prefix_sum(old(data)@, i) <= i64::MAX,
    ensures
        final(data)@.len() == old(data)@.len(),
        forall|i: int| 0 <= i < final(data)@.len() ==> #[trigger] final(data)@[i] == prefix_sum(old(data)@, i),
{
    let n = data.len();
    if n == 0 {
        return;
    }
    proof {
        assert(prefix_sum(old(data)@, 0) == prefix_sum(old(data)@, -1) + old(data)@[0]);
    }
    for i in 1..n
        invariant
            n == data@.len(),
            data@.len() == old(data)@.len(),
            forall|j: int| 0 <= j < i && j < n ==> #[trigger] data@[j] == prefix_sum(old(data)@, j),
            forall|j: int| i <= j < n ==> #[trigger] data@[j] == old(data)@[j],
            forall|j: int|
                0 <= j < old(data)@.len() ==> i64::MIN <= #[trigger] prefix_sum(old(data)@, j) <= i64::MAX,
    {
        proof {
            assert(prefix_sum(old(data)@, i as int) == prefix_sum(old(data)@, i - 1) + old(data)@[i as int]);
        }
        data[i] = data[i] + data[i - 1];
    }
}

/// Decoding a delta encoding gives back the items encoded.
pub proof fn lemma_delta_round_trip(data: Seq<i64>, deltas: Seq<i64>)
    requires
        is_delta_encoding(data, deltas),
    ensures
        forall|i: int| 0 <= i < data.len() ==> #[trigger] prefix_sum(deltas, i) == data[i],
{
    assert forall|i: int| 0 <= i < data.len() implies #[trigger] prefix_sum(deltas, i) == data[i] by {
        lemma_delta_prefix(data, deltas, i);
    }
}

proof fn lemma_delta_prefix(data: Seq<i64>, deltas: Seq<i64>, i: int)
    requires
        is_delta_encoding(data, deltas),
        0 <= i < data.len(),
    ensures
        prefix_sum(deltas, i) == data[i],
    decreases i,
{
    if i > 0 {
        lemma_delta_prefix(data, deltas, i - 1);
        assert(deltas[i] == data[i] - data[i - 1]);
    } else {
        assert(prefix_sum(deltas, -1) == 0);
    }
}

} // verus!
