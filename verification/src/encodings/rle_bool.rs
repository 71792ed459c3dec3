//! Booleans as the lengths of their runs.
use vstd::prelude::*;
use crate::type_id::ArrayTypeId;

verus! {

/// `count` copies of `value`.
pub open spec fn repeat<T>(value: T, count: nat) -> Seq<T> {
    Seq::new(count, |i: int| value)
}

/// The value of run `i` when runs alternate starting with `first`.
pub open spec fn run_value(first: bool, i: int) -> bool {
    if i % 2 == 0 {
        first
    } else {
        !first
    }
}

/// The booleans that alternating runs stand for: run `i` is `runs[i] + 1`
/// copies of `first` for even `i` and of `!first` for odd `i`.
pub open spec fn expand_bool_runs(runs: Seq<u64>, first: bool) -> Seq<bool>
    decreases runs.len(),
{
    if runs.len() == 0 {
        Seq::empty()
    } else {
        expand_bool_runs(runs.drop_last(), first) + repeat(
            run_value(first, runs.len() - 1),
            (runs.last() + 1) as nat,
        )
    }
}

/// The booleans that `runs` stand for, starting with a run of `first`.
pub fn decode_rle_bool(runs: Vec<u64>, first: bool) -> (result: Vec<bool>)
    requires
        expand_bool_runs(runs@, first).len() <= usize::MAX,
    ensures
        result@ == expand_bool_runs(runs@, first),
{
    let mut results: Vec<bool> = Vec::new();
    let mut current = first;
    let mut i: usize = 0;
    while i < runs.len()
        invariant
            i <= runs@.len(),
            current == run_value(first, i as int),
            results@ == expand_bool_runs(runs@.take(i as int), first),
            expand_bool_runs(runs@, first).len() <= usize::MAX,
        decreases runs@.len() - i,
    {
        let run = runs[i];
        let ghost before = results@;
        proof {
            lemma_expand_prefix_len(runs@, first, (i + 1) as int);
            assert(runs@.take(i + 1).drop_last() =~= runs@.take(i as int));
        }
        let mut j: u64 = 0;
        loop
            invariant_except_break
                j <= run,
                results@ == before + repeat(current, j as nat),
            ensures
                results@ == before + repeat(current, (run + 1) as nat),
            decreases run - j,
        {
            results.push(current);
            proof {
                assert(results@ =~= before + repeat(current, (j + 1) as nat));
            }
            if j == run {
                break;
            }
            j += 1;
        }
        proof {
            assert(results@ =~= expand_bool_runs(runs@.take(i + 1), first));
        }
        current = !current;
        i += 1;
    }
    assert(runs@.take(runs@.len() as int) =~= runs@);
    results
}

/// A prefix of the runs stands for no more booleans than all of them.
proof fn lemma_expand_prefix_len(runs: Seq<u64>, first: bool, k: int)
    requires
        0 <= k <= runs.len(),
    ensures
        expand_bool_runs(runs.take(k), first).len() <= expand_bool_runs(runs, first).len(),
        k >= 1 ==> expand_bool_runs(runs.take(k - 1), first).len() + runs[k - 1] + 1 == expand_bool_runs(
            runs.take(k),
            first,
        ).len(),
    decreases runs.len(),
{
    if k >= 1 {
        assert(runs.take(k).drop_last() =~= runs.take(k - 1));
    }
    if runs.len() > 0 && k < runs.len() {
        assert(runs.drop_last().take(k) =~= runs.take(k));
        lemma_expand_prefix_len(runs.drop_last(), first, k);
    } else if k == runs.len() {
        assert(runs.take(k) =~= runs);
    }
}

/// Splits `items` into its runs of equal values: the length of each run
/// less one, the first run being of `items[0]`; the type id tells the first
/// value. Fails for fewer than 25 items, where packing the booleans is
/// never larger.
pub fn bool_runs_and_id(items: &[bool]) -> (result: Result<(Vec<u64>, ArrayTypeId), ()>)
    ensures
        result is Err <==> items@.len() < 25,
        result matches Ok((runs, id)) ==> {
            &&& expand_bool_runs(runs@, items@[0]) == items@
            &&& id == (if items@[0] {
                ArrayTypeId::RLEBoolTrue
            } else {
                ArrayTypeId::RLEBoolFalse
            })
        },
{
    if items.len() < 25 {
        return Err(());
    }
    let mut current_value = items[0];
    let type_id = if current_value {
        ArrayTypeId::RLEBoolTrue
    } else {
        ArrayTypeId::RLEBoolFalse
    };
    let mut current_run: u64 = 0;
    let mut runs: Vec<u64> = Vec::new();
    let mut i: usize = 1;
    while i < items.len()
        invariant
            1 <= i <= items@.len(),
            current_run < i,
            current_value == run_value(items@[0], runs@.len() as int),
            expand_bool_runs(runs@, items@[0]) + repeat(current_value, (current_run + 1) as nat)
                == items@.take(i as int),
        decreases items@.len() - i,
    {
        let item = items[i];
        let ghost prefix = expand_bool_runs(runs@, items@[0]);
        if item == current_value {
            let ghost old_run = current_run;
            current_run += 1;
            proof {
                assert(items@.take(i + 1) =~= items@.take(i as int).push(item));
                assert(repeat(current_value, (current_run + 1) as nat) =~= repeat(
                    current_value,
                    (old_run + 1) as nat,
                ).push(current_value));
                assert(prefix + repeat(current_value, (current_run + 1) as nat) =~= items@.take(
                    i + 1,
                ));
            }
        } else {
            let ghost old_runs = runs@;
            let ghost old_value = current_value;
            current_value = item;
            runs.push(current_run);
            current_run = 0;
            proof {
                assert(runs@.drop_last() =~= old_runs);
                assert(items@.take(i + 1) =~= items@.take(i as int).push(item));
                assert(expand_bool_runs(runs@, items@[0]) == prefix + repeat(old_value, (runs@.last() + 1) as nat));
                assert(expand_bool_runs(runs@, items@[0]) + repeat(current_value, 1) =~= items@.take(
                    i + 1,
                ));
            }
        }
        i += 1;
    }
    let ghost old_runs = runs@;
    runs.push(current_run);
    proof {
        assert(runs@.drop_last() =~= old_runs);
        assert(items@.take(items@.len() as int) =~= items@);
    }
    Ok((runs, type_id))
}

} // verus!
