//! Dictionary encoding: the distinct values once, and an index per item.
use vstd::prelude::*;
use std::collections::HashMap;
use crate::branch::array_branch::DynArrayBranch;
use crate::error::{DecodeError, DecodeResult};
use crate::options::DecodeOptions;
use crate::parallel::parallel;

verus! {

broadcast use vstd::std_specs::hash::group_hash_axioms;

/// The distinct values of `data`, in the order of their first occurrence.
pub open spec fn first_occurrences(data: Seq<u64>) -> Seq<u64>
    decreases data.len(),
{
    if data.len() == 0 {
        Seq::empty()
    } else {
        let earlier = first_occurrences(data.drop_last());
        if earlier.contains(data.last()) {
            earlier
        } else {
            earlier.push(data.last())
        }
    }
}

/// The item at `index` of a dictionary, or `fill` past its end.
pub open spec fn dictionary_lookup<T>(values: Seq<T>, fill: T, index: u64) -> T {
    if index < values.len() {
        values[index as int]
    } else {
        fill
    }
}

proof fn lemma_first_occurrences(data: Seq<u64>)
    ensures
        first_occurrences(data).no_duplicates(),
        forall|x: u64| #[trigger] first_occurrences(data).contains(x) <==> data.contains(x),
        first_occurrences(data).len() <= data.len(),
    decreases data.len(),
{
    if data.len() > 0 {
        let init = data.drop_last();
        let last = data.last();
        let fo_init = first_occurrences(init);
        let fo = first_occurrences(data);
        lemma_first_occurrences(init);
        assert(data =~= init.push(last));
        assert forall|x: u64| data.contains(x) <==> (init.contains(x) || x == last) by {
            if data.contains(x) {
                let i = choose|i: int| 0 <= i < data.len() && data[i] == x;
                if i < data.len() - 1 {
                    assert(init[i] == x);
                }
            }
            if init.contains(x) {
                let i = choose|i: int| 0 <= i < init.len() && init[i] == x;
                assert(data[i] == x);
            }
            if x == last {
                assert(data[data.len() - 1] == x);
            }
        }
        if !fo_init.contains(last) {
            assert(fo == fo_init.push(last));
            assert forall|x: u64| fo.contains(x) <==> (fo_init.contains(x) || x == last) by {
                if fo.contains(x) {
                    let k = choose|k: int| 0 <= k < fo.len() && fo[k] == x;
                    if k < fo_init.len() {
                        assert(fo_init[k] == x);
                    }
                }
                if fo_init.contains(x) {
                    let k = choose|k: int| 0 <= k < fo_init.len() && fo_init[k] == x;
                    assert(fo[k] == x);
                }
                if x == last {
                    assert(fo[fo.len() - 1] == x);
                }
            }
        }
    }
}

/// The dictionary form of `data`: an index into the distinct values for
/// each item, and the distinct values in the order they first occur. Fails
/// where this cannot be smaller: for fewer than 2 items, or when all items
/// differ.
pub fn dictionary_indices(data: &[u64]) -> (result: Result<(Vec<u64>, Vec<u64>), ()>)
    ensures
        result is Err <==> (data@.len() < 2 || first_occurrences(data@).len() == data@.len()),
        result matches Ok((indices, values)) ==> {
            &&& values@ == first_occurrences(data@)
            &&& indices@.len() == data@.len()
            &&& forall|i: int|
                0 <= i < data@.len() ==> #[trigger] indices@[i] < values@.len() && values@[indices@[i] as int]
                    == data@[i]
        },
{
    if data.len() < 2 {
        return Err(());
    }
    let mut indices: Vec<u64> = Vec::new();
    let mut values: Vec<u64> = Vec::new();
    let mut lookup: HashMap<u64, u64> = HashMap::new();
    let mut i: usize = 0;
    while i < data.len()
        invariant
            i <= data@.len(),
            values@ == first_occurrences(data@.take(i as int)),
            values@.len() <= i,
            indices@.len() == i,
            forall|j: int|
                0 <= j < i ==> #[trigger] indices@[j] < values@.len() && values@[indices@[j] as int]
                    == data@[j],
            forall|x: u64|
                #[trigger] lookup@.contains_key(x) <==> values@.contains(x),
            forall|x: u64|
                #[trigger] lookup@.contains_key(x) ==> lookup@[x] < values@.len() && values@[lookup@[x] as int] == x,
        decreases data@.len() - i,
    {
        let value = data[i];
        proof {
            assert(data@.take(i + 1).drop_last() =~= data@.take(i as int));
            assert(data@.take(i + 1).last() == value);
            lemma_first_occurrences(data@.take(i as int));
        }
        let ghost old_lookup = lookup@;
        let ghost old_values = values@;
        let index: u64 = match lookup.get(&value) {
            Some(found) => *found,
            None => {
                let next = values.len() as u64;
                lookup.insert(value, next);
                values.push(value);
                proof {
                    assert forall|x: u64| #[trigger] lookup@.contains_key(x) implies lookup@[x] < values@.len()
                        && values@[lookup@[x] as int] == x by {
                        if x != value {
                            assert(old_lookup.contains_key(x));
                            assert(lookup@[x] == old_lookup[x]);
                            assert(old_values[old_lookup[x] as int] == x);
                        }
                    }
                    assert forall|x: u64| #[trigger] lookup@.contains_key(x) <==> values@.contains(x) by {
                        if values@.contains(x) && x != value {
                            let k = choose|k: int| 0 <= k < values@.len() && values@[k] == x;
                            assert(old_values[k] == x);
                            assert(old_values.contains(x));
                        }
                        if old_values.contains(x) {
                            let k = choose|k: int| 0 <= k < old_values.len() && old_values[k] == x;
                            assert(values@[k] == x);
                        }
                        if x == value {
                            assert(values@[values@.len() - 1] == x);
                        }
                    }
                }
                next
            },
        };
        indices.push(index);
        i += 1;
    }
    proof {
        assert(data@.take(data@.len() as int) =~= data@);
    }
    if indices.len() == values.len() {
        Err(())
    } else {
        Ok((indices, values))
    }
}

/// Reads the items of a dictionary encoding one at a time: the value each
/// index points at, with indices past the values reading as the default.
pub struct DictionaryIterator<T> {
    indexes: Vec<u64>,
    index_pos: usize,
    values: Vec<T>,
    value_pos: usize,
    cache: HashMap<u64, T>,
    fill: T,
}

impl<T: Copy + Default> DictionaryIterator<T> {
    /// The iterator is in a consistent state.
    pub closed spec fn wf(&self) -> bool {
        &&& self.index_pos <= self.indexes@.len()
        &&& self.value_pos <= self.values@.len()
        &&& self.cache@.len() <= self.values@.len() ==> self.value_pos == self.cache@.len()
        &&& self.cache@.len() > self.values@.len() ==> self.value_pos == self.values@.len()
        &&& forall|k: u64| #[trigger] self.cache@.contains_key(k) <==> k < self.cache@.len()
        &&& forall|k: u64|
            #[trigger] self.cache@.contains_key(k) ==> self.cache@[k] == dictionary_lookup(
                self.values@,
                self.fill,
                k,
            )
    }

    /// The value that indices past the values read as: `T::default()`.
    pub closed spec fn fill(&self) -> T {
        self.fill
    }

    /// The items not yet read.
    pub closed spec fn remaining(&self) -> Seq<T> {
        Seq::new(
            (self.indexes@.len() - self.index_pos) as nat,
            |k: int| dictionary_lookup(self.values@, self.fill, self.indexes@[self.index_pos + k]),
        )
    }

    /// An iterator over the values that `indexes` point at in `values`.
    pub fn from_decoded(indexes: Vec<u64>, values: Vec<T>) -> (iter: Self)
        ensures
            iter.wf(),
            call_ensures(T::default, (), iter.fill()),
            iter.remaining() == Seq::new(
                indexes@.len(),
                |k: int| dictionary_lookup(values@, iter.fill(), indexes@[k]),
            ),
    {
        let iter = DictionaryIterator {
            indexes,
            index_pos: 0,
            values,
            value_pos: 0,
            cache: HashMap::new(),
            fill: T::default(),
        };
        proof {
            assert(iter.remaining() =~= Seq::new(
                iter.indexes@.len(),
                |k: int| dictionary_lookup(iter.values@, iter.fill(), iter.indexes@[k]),
            ));
        }
        iter
    }

    /// An iterator over the items of a dictionary column: decodes the
    /// indexes branch with `decode_indexes` and the values branch with `f`,
    /// in parallel where the options allow, and fails with the error of the
    /// indexes, else of the values, where either fails.
    pub fn new<'a, O, FI, FV>(
        indexes: Box<DynArrayBranch<'a>>,
        values: Box<DynArrayBranch<'a>>,
        options: &O,
        decode_indexes: FI,
        f: FV,
    ) -> (result: DecodeResult<Self>)
        where
            O: DecodeOptions,
            T: Send,
            FI: FnOnce(DynArrayBranch<'a>) -> DecodeResult<Vec<u64>> + Send,
            FV: FnOnce(DynArrayBranch<'a>) -> DecodeResult<Vec<T>> + Send,
        requires
            decode_indexes.requires((*indexes,)),
            f.requires((*values,)),
        ensures
            exists|decoded_indexes: DecodeResult<Vec<u64>>, decoded_values: DecodeResult<Vec<T>>|
                {
                    &&& #[trigger] decode_indexes.ensures((*indexes,), decoded_indexes)
                    &&& #[trigger] f.ensures((*values,), decoded_values)
                    &&& match decoded_indexes {
                        Err(e) => result == Err::<Self, DecodeError>(e),
                        Ok(ix) => match decoded_values {
                            Err(e) => result == Err::<Self, DecodeError>(e),
                            Ok(v) => result matches Ok(iter) && iter.wf() && call_ensures(
                                T::default,
                                (),
                                iter.fill(),
                            ) && iter.remaining() == Seq::new(
                                ix@.len(),
                                |k: int| dictionary_lookup(v@, iter.fill(), ix@[k]),
                            ),
                        },
                    }
                },
    {
        let indexes_branch = *indexes;
        let values_branch = *values;
        let read_indexes = move || -> (decoded: DecodeResult<Vec<u64>>)
            requires
                decode_indexes.requires((indexes_branch,)),
            ensures
                decode_indexes.ensures((indexes_branch,), decoded),
            { decode_indexes(indexes_branch) };
        let read_values = move || -> (decoded: DecodeResult<Vec<T>>)
            requires
                f.requires((values_branch,)),
            ensures
                f.ensures((values_branch,), decoded),
            { f(values_branch) };
        let (decoded_indexes, decoded_values) = parallel(read_indexes, read_values, options);
        let indexes = match decoded_indexes {
            Ok(indexes) => indexes,
            Err(e) => return Err(e),
        };
        let values = match decoded_values {
            Ok(values) => values,
            Err(e) => return Err(e),
        };
        Ok(Self::from_decoded(indexes, values))
    }

    /// The next item, or `None` once all are read.
    pub fn next_item(&mut self) -> (item: Option<T>)
        requires
            old(self).wf(),
        ensures
            final(self).wf(),
            final(self).fill() == old(self).fill(),
            old(self).remaining().len() == 0 ==> item is None && final(self).remaining().len() == 0,
            old(self).remaining().len() > 0 ==> item == Some(old(self).remaining()[0])
                && final(self).remaining() == old(self).remaining().drop_first(),
    {
        if self.index_pos >= self.indexes.len() {
            return None;
        }
        let index = self.indexes[self.index_pos];
        self.index_pos = self.index_pos + 1;
        let ghost start_len = self.cache@.len();
        proof {
            assert(self.cache@.dom().finite());
        }
        while (self.cache.len() as u64) <= index
            invariant
                self.wf(),
                self.index_pos == old(self).index_pos + 1,
                self.indexes == old(self).indexes,
                self.values == old(self).values,
                self.fill == old(self).fill,
                index == self.indexes@[self.index_pos - 1],
                self.cache@.len() <= index as int + 1 || self.cache@.len() == start_len,
            decreases index as int + 1 - self.cache@.len() as int,
        {
            let next = if self.value_pos < self.values.len() {
                let v = self.values[self.value_pos];
                self.value_pos = self.value_pos + 1;
                v
            } else {
                self.fill
            };
            let key = self.cache.len() as u64;
            let ghost before = self.cache@;
            proof {
                assert(!before.contains_key(key));
                assert(before.dom().finite());
            }
            self.cache.insert(key, next);
            proof {
                assert(self.cache@ == before.insert(key, next));
                assert(self.cache@.dom() =~= before.dom().insert(key));
                assert(self.cache@.len() == before.len() + 1);
                assert forall|k: u64| #[trigger] self.cache@.contains_key(k) <==> k < self.cache@.len() by {
                    if k == key {
                    } else {
                        assert(self.cache@.contains_key(k) == before.contains_key(k));
                    }
                }
            }
        }
        proof {
            assert(self.cache@.contains_key(index));
        }
        let item = *self.cache.get(&index).unwrap();
        Some(item)
    }
}

/// A dictionary compressor that hands the distinct values on to the
/// compressors it holds.
pub struct Dictionary<S> {
    sub_compressors: S,
}

impl<S> Dictionary<S> {
    /// A dictionary compressor over `sub_compressors`.
    pub fn new(sub_compressors: S) -> (dictionary: Self)
        ensures
            dictionary.sub_compressors() == sub_compressors,
    {
        Self { sub_compressors }
    }

    /// The compressors that the distinct values are handed on to.
    pub closed spec fn sub_compressors(&self) -> S {
        self.sub_compressors
    }
}

/// Each index of the dictionary form points at the item it replaces, so
/// reading the dictionary back gives the items it was made from.
pub proof fn lemma_dictionary_round_trip(data: Seq<u64>, indices: Seq<u64>, values: Seq<u64>, fill: u64)
    requires
        indices.len() == data.len(),
        forall|i: int|
            0 <= i < data.len() ==> #[trigger] indices[i] < values.len() && values[indices[i] as int]
                == data[i],
    ensures
        Seq::new(indices.len(), |k: int| dictionary_lookup(values, fill, indices[k])) == data,
{
    assert(Seq::new(indices.len(), |k: int| dictionary_lookup(values, fill, indices[k])) =~= data);
}

} // verus!
