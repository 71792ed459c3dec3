//! Run-length encoding: values with the number of times each repeats.
use vstd::prelude::*;
use crate::branch::array_branch::DynArrayBranch;
use crate::encodings::rle_bool::repeat;
use crate::error::{DecodeError, DecodeResult};
use crate::options::DecodeOptions;
use crate::parallel::parallel;
use vstd::laws_eq::obeys_concrete_eq;
use vstd::std_specs::cmp::PartialEqSpec;

verus! {

/// The items that runs stand for: `values[i]` repeated `runs[i] + 1` times,
/// in order. A value without a run is taken once; runs beyond the values
/// stand for nothing.
pub open spec fn rle_items<T>(runs: Seq<u64>, values: Seq<T>) -> Seq<T>
    decreases values.len(),
{
    if values.len() == 0 {
        Seq::empty()
    } else {
        let run: u64 = if runs.len() > 0 {
            runs[0]
        } else {
            0
        };
        let rest_runs = if runs.len() > 0 {
            runs.drop_first()
        } else {
            runs
        };
        repeat(values[0], (run + 1) as nat) + rle_items(rest_runs, values.drop_first())
    }
}

/// No two neighbouring items are equal.
pub open spec fn no_repeats<T>(data: Seq<T>) -> bool {
    forall|i: int| 0 <= i < data.len() - 1 ==> data[i] != #[trigger] data[i + 1]
}

/// Adding a run at the end adds its items at the end.
pub proof fn lemma_rle_items_push<T>(runs: Seq<u64>, values: Seq<T>, run: u64, value: T)
    requires
        runs.len() == values.len(),
    ensures
        rle_items(runs.push(run), values.push(value)) == rle_items(runs, values) + repeat(
            value,
            (run + 1) as nat,
        ),
    decreases values.len(),
{
    if values.len() == 0 {
        assert(rle_items(runs, values) =~= Seq::<T>::empty());
        assert(runs.push(run).drop_first() =~= Seq::<u64>::empty());
        assert(values.push(value).drop_first() =~= Seq::<T>::empty());
        assert(rle_items(runs.push(run).drop_first(), values.push(value).drop_first()) =~= Seq::<T>::empty());
        assert(rle_items(runs.push(run), values.push(value)) =~= repeat(value, (run + 1) as nat));
    } else {
        assert(runs.push(run).drop_first() =~= runs.drop_first().push(run));
        assert(values.push(value).drop_first() =~= values.drop_first().push(value));
        lemma_rle_items_push(runs.drop_first(), values.drop_first(), run, value);
        assert(rle_items(runs.push(run), values.push(value)) =~= rle_items(runs, values) + repeat(
            value,
            (run + 1) as nat,
        ));
    }
}

/// Splits `data` into runs of equal values: the distinct neighbouring
/// values, and how many times less one each repeats. Fails where this
/// cannot be smaller: for fewer than 2 items, or when no value repeats.
/// Items are compared with `==`; where that is the equality of values, the
/// runs stand for exactly the items.
pub fn get_runs<T: PartialEq + Copy>(data: &[T]) -> (result: Result<(Vec<u64>, Vec<T>), ()>)
    ensures
        data@.len() < 2 ==> result is Err,
        result matches Ok((runs, values)) ==> runs@.len() == values@.len() && values@.len() < data@.len(),
        obeys_concrete_eq::<T>() ==> {
            &&& result is Err <==> (data@.len() < 2 || no_repeats(data@))
            &&& result matches Ok((runs, values)) ==> {
                &&& rle_items(runs@, values@) == data@
                &&& no_repeats(values@)
            }
        },
{
    if data.len() < 2 {
        return Err(());
    }
    let ghost lawful = obeys_concrete_eq::<T>();
    proof {
        reveal(obeys_concrete_eq);
    }
    let mut runs: Vec<u64> = Vec::new();
    let mut current_run: u64 = 0;
    let mut current_value = data[0];
    let mut values: Vec<T> = Vec::new();
    let mut i: usize = 1;
    while i < data.len()
        invariant
            1 <= i <= data@.len(),
            current_run < i,
            runs@.len() == values@.len(),
            values@.len() < i,
            lawful == obeys_concrete_eq::<T>(),
            lawful ==> forall|x: T, y: T| x.eq_spec(&y) <==> x == y,
            lawful ==> T::obeys_eq_spec(),
            lawful ==> rle_items(runs@, values@) + repeat(current_value, (current_run + 1) as nat)
                == data@.take(i as int),
            lawful ==> no_repeats(values@.push(current_value)),
        decreases data@.len() - i,
    {
        let item = data[i];
        let ghost prefix = rle_items(runs@, values@);
        if current_value == item {
            let ghost old_run = current_run;
            current_run += 1;
            proof {
                if lawful {
                    assert(data@.take(i + 1) =~= data@.take(i as int).push(item));
                    assert(repeat(current_value, (current_run + 1) as nat) =~= repeat(
                        current_value,
                        (old_run + 1) as nat,
                    ).push(current_value));
                    assert(prefix + repeat(current_value, (current_run + 1) as nat) =~= data@.take(
                        i + 1,
                    ));
                }
            }
        } else {
            let ghost old_runs = runs@;
            let ghost old_values = values@;
            proof {
                lemma_rle_items_push(old_runs, old_values, current_run, current_value);
            }
            runs.push(current_run);
            values.push(current_value);
            current_value = item;
            current_run = 0;
            proof {
                if lawful {
                    assert(data@.take(i + 1) =~= data@.take(i as int).push(item));
                    assert(rle_items(runs@, values@) + repeat(current_value, 1) =~= data@.take(i + 1));
                    assert(no_repeats(values@.push(current_value))) by {
                        assert forall|k: int| 0 <= k < values@.push(current_value).len() - 1 implies values@.push(
                            current_value,
                        )[k] != #[trigger] values@.push(current_value)[k + 1] by {
                            if k < values@.len() - 1 {
                                assert(old_values.push(values@.last())[k] == values@.push(current_value)[k]);
                                assert(old_values.push(values@.last())[k + 1] == values@.push(current_value)[k + 1]);
                            }
                        }
                    }
                }
            }
        }
        i += 1;
    }
    let ghost old_runs = runs@;
    let ghost old_values = values@;
    proof {
        lemma_rle_items_push(old_runs, old_values, current_run, current_value);
    }
    runs.push(current_run);
    values.push(current_value);
    proof {
        assert(data@.take(data@.len() as int) =~= data@);
        assert(values@ =~= old_values.push(current_value));
    }
    if values.len() == data.len() {
        proof {
            if lawful {
                lemma_no_merge_no_repeats(runs@, values@, data@);
            }
        }
        Err(())
    } else {
        proof {
            if lawful {
                lemma_repeats_merge(runs@, values@, data@);
            }
        }
        Ok((runs, values))
    }
}

/// The number of items that runs of equal length stand for.
proof fn lemma_rle_items_len<T>(runs: Seq<u64>, values: Seq<T>)
    requires
        runs.len() == values.len(),
    ensures
        rle_items(runs, values).len() >= values.len(),
        rle_items(runs, values).len() == values.len() ==> forall|i: int|
            0 <= i < runs.len() ==> runs[i] == 0,
        (forall|i: int| 0 <= i < runs.len() ==> runs[i] == 0) ==> rle_items(runs, values) == values,
    decreases values.len(),
{
    if values.len() > 0 {
        lemma_rle_items_len(runs.drop_first(), values.drop_first());
        if rle_items(runs, values).len() == values.len() {
            assert forall|i: int| 0 <= i < runs.len() implies runs[i] == 0 by {
                if i > 0 {
                    assert(runs.drop_first()[i - 1] == runs[i]);
                }
            }
        }
        if forall|i: int| 0 <= i < runs.len() ==> runs[i] == 0 {
            assert forall|i: int| 0 <= i < runs.drop_first().len() implies runs.drop_first()[i] == 0 by {
                assert(runs[i + 1] == 0);
            }
            assert(runs[0] == 0);
            assert(rle_items(runs, values) =~= values);
        }
    }
}

/// Where no run merged items, the items had no repeats.
proof fn lemma_no_merge_no_repeats<T>(runs: Seq<u64>, values: Seq<T>, data: Seq<T>)
    requires
        runs.len() == values.len(),
        rle_items(runs, values) == data,
        no_repeats(values),
        values.len() == data.len(),
    ensures
        no_repeats(data),
{
    lemma_rle_items_len(runs, values);
}

/// Where some run merged items, two neighbouring items were equal.
proof fn lemma_repeats_merge<T>(runs: Seq<u64>, values: Seq<T>, data: Seq<T>)
    requires
        runs.len() == values.len(),
        rle_items(runs, values) == data,
        values.len() != data.len(),
    ensures
        !no_repeats(data),
    decreases values.len(),
{
    lemma_rle_items_len(runs, values);
    let tail = rle_items(runs.drop_first(), values.drop_first());
    let head = repeat(values[0], (runs[0] + 1) as nat);
    assert(data =~= head + tail);
    if runs[0] > 0 {
        assert(data[0] == values[0]);
        assert(data[1] == values[0]);
        assert(data[0] == data[0int + 1]);
    } else {
        assert(data =~= seq![values[0]] + tail);
        lemma_repeats_merge(runs.drop_first(), values.drop_first(), tail);
        let k = choose|k: int| 0 <= k < tail.len() - 1 && tail[k] == #[trigger] tail[k + 1];
        assert(data[k + 1] == tail[k] && data[k + 2] == tail[k + 1]);
        assert(data[k + 1] == data[(k + 1) + 1]);
    }
}

/// Reads the items that runs stand for, one at a time; see `rle_items`.
pub struct RleIterator<T> {
    runs: Vec<u64>,
    run_index: usize,
    values: Vec<T>,
    value_index: usize,
    current_run: Option<u64>,
    current_value: Option<T>,
}

impl<T: Copy> RleIterator<T> {
    /// The iterator is in a consistent state.
    pub closed spec fn wf(&self) -> bool {
        &&& self.run_index <= self.runs@.len()
        &&& self.value_index <= self.values@.len()
        &&& (self.current_run is Some && self.current_value is None) ==> self.value_index
            == self.values@.len()
    }

    /// The items not yet read.
    pub closed spec fn remaining(&self) -> Seq<T> {
        let rest = rle_items(
            self.runs@.skip(self.run_index as int),
            self.values@.skip(self.value_index as int),
        );
        match self.current_run {
            None => rest,
            Some(run) => match self.current_value {
                None => Seq::empty(),
                Some(value) => repeat(value, (run + 1) as nat) + rest,
            },
        }
    }

    /// How many state changes reading the next item takes at most.
    pub closed spec fn steps_to_item(&self) -> nat {
        if self.current_run is None {
            1
        } else {
            0
        }
    }

    /// An iterator over the items that `runs` and `values` stand for.
    pub fn from_decoded(runs: Vec<u64>, values: Vec<T>) -> (iter: Self)
        ensures
            iter.wf(),
            iter.remaining() == rle_items(runs@, values@),
    {
        let iter = RleIterator {
            runs,
            run_index: 0,
            values,
            value_index: 0,
            current_run: None,
            current_value: None,
        };
        proof {
            assert(iter.runs@.skip(0) =~= iter.runs@);
            assert(iter.values@.skip(0) =~= iter.values@);
        }
        iter
    }

    /// An iterator over the items of a run-length column: decodes the runs
    /// branch with `decode_runs` and the values branch with `f`, in
    /// parallel where the options allow, and fails with the error of the
    /// runs, else of the values, where either fails.
    pub fn new<'a, O, FR, FV>(
        runs: Box<DynArrayBranch<'a>>,
        values: Box<DynArrayBranch<'a>>,
        options: &O,
        decode_runs: FR,
        f: FV,
    ) -> (result: DecodeResult<Self>)
        where
            O: DecodeOptions,
            T: Send,
            FR: FnOnce(DynArrayBranch<'a>) -> DecodeResult<Vec<u64>> + Send,
            FV: FnOnce(DynArrayBranch<'a>) -> DecodeResult<Vec<T>> + Send,
        requires
            decode_runs.requires((*runs,)),
            f.requires((*values,)),
        ensures
            exists|decoded_runs: DecodeResult<Vec<u64>>, decoded_values: DecodeResult<Vec<T>>|
                {
                    &&& #[trigger] decode_runs.ensures((*runs,), decoded_runs)
                    &&& #[trigger] f.ensures((*values,), decoded_values)
                    &&& match decoded_runs {
                        Err(e) => result == Err::<Self, DecodeError>(e),
                        Ok(r) => match decoded_values {
                            Err(e) => result == Err::<Self, DecodeError>(e),
                            Ok(v) => result matches Ok(iter) && iter.wf() && iter.remaining()
                                == rle_items(r@, v@),
                        },
                    }
                },
    {
        let runs_branch = *runs;
        let values_branch = *values;
        let read_runs = move || -> (decoded: DecodeResult<Vec<u64>>)
            requires
                decode_runs.requires((runs_branch,)),
            ensures
                decode_runs.ensures((runs_branch,), decoded),
            { decode_runs(runs_branch) };
        let read_values = move || -> (decoded: DecodeResult<Vec<T>>)
            requires
                f.requires((values_branch,)),
            ensures
                f.ensures((values_branch,), decoded),
            { f(values_branch) };
        let (decoded_runs, decoded_values) = parallel(read_runs, read_values, options);
        let runs = match decoded_runs {
            Ok(runs) => runs,
            Err(e) => return Err(e),
        };
        let values = match decoded_values {
            Ok(values) => values,
            Err(e) => return Err(e),
        };
        Ok(Self::from_decoded(runs, values))
    }

    /// The next item, or `None` once all are read.
    pub fn next_item(&mut self) -> (item: Option<T>)
        requires
            old(self).wf(),
        ensures
            final(self).wf(),
            old(self).remaining().len() == 0 ==> item is None && final(self).remaining().len() == 0,
            old(self).remaining().len() > 0 ==> item == Some(old(self).remaining()[0])
                && final(self).remaining() == old(self).remaining().drop_first(),
        decreases old(self).steps_to_item(),
    {
        match self.current_run {
            None => {
                let ghost rs = self.runs@.skip(self.run_index as int);
                let ghost vs = self.values@.skip(self.value_index as int);
                let run = if self.run_index < self.runs.len() {
                    let r = self.runs[self.run_index];
                    self.run_index = self.run_index + 1;
                    r
                } else {
                    0
                };
                self.current_run = Some(run);
                if self.value_index < self.values.len() {
                    self.current_value = Some(self.values[self.value_index]);
                    self.value_index = self.value_index + 1;
                } else {
                    self.current_value = None;
                }
                proof {
                    if vs.len() > 0 {
                        assert(vs.drop_first() =~= self.values@.skip(self.value_index as int));
                        if rs.len() > 0 {
                            assert(rs.drop_first() =~= self.runs@.skip(self.run_index as int));
                        }
                        assert(self.remaining() =~= rle_items(rs, vs));
                    } else {
                        assert(rle_items(rs, vs) =~= Seq::<T>::empty());
                    }
                }
                self.next_item()
            },
            Some(0) => {
                self.current_run = None;
                let value = self.current_value;
                self.current_value = None;
                proof {
                    if value is Some {
                        assert(repeat(value->0, 1) + self.remaining() =~= old(self).remaining());
                    } else {
                        assert(rle_items(
                            self.runs@.skip(self.run_index as int),
                            self.values@.skip(self.value_index as int),
                        ) =~= Seq::<T>::empty());
                    }
                }
                value
            },
            Some(run) => {
                self.current_run = Some(run - 1);
                proof {
                    if self.current_value is Some {
                        let v = self.current_value->0;
                        assert(repeat(v, (run + 1) as nat) =~= seq![v] + repeat(v, run as nat));
                        assert(self.remaining() =~= old(self).remaining().drop_first());
                    }
                }
                self.current_value
            },
        }
    }
}

/// A run-length compressor that hands the distinct values on to the
/// compressors it holds.
pub struct RLE<S> {
    sub_compressors: S,
}

impl<S> RLE<S> {
    /// A run-length compressor over `sub_compressors`.
    pub fn new(sub_compressors: S) -> (rle: Self)
        ensures
            rle.sub_compressors() == sub_compressors,
    {
        Self { sub_compressors }
    }

    /// The compressors that the distinct values are handed on to.
    pub closed spec fn sub_compressors(&self) -> S {
        self.sub_compressors
    }
}

} // verus!
