//! The kinds of data a stick holds, and the buffer that collects the values
//! of one kind on writing and hands them back in order on reading.
use vstd::prelude::*;
use crate::branch::stick::PrimitiveId;

verus! {

/// The marker of a struct: it holds no data of its own.
#[derive(Copy, Clone, Debug)]
pub struct Struct;

/// The marker of an array: its length.
#[derive(Copy, Clone, Debug)]
pub struct Array(pub usize);

/// The marker of an optional value: whether it is there.
#[derive(Copy, Clone, Debug)]
pub struct Opt(pub bool);

impl Default for Struct {
    fn default() -> (value: Self)
        ensures
            value == Struct,
    {
        Struct
    }
}

impl Default for Array {
    fn default() -> (value: Self)
        ensures
            value.0 == 0,
    {
        Array(0)
    }
}

impl Default for Opt {
    fn default() -> (value: Self)
        ensures
            !value.0,
    {
        Opt(false)
    }
}

/// A kind of value a stick can hold.
pub trait Primitive: Sized {
    /// The kind, as stored.
    spec fn kind() -> PrimitiveId;

    /// The kind, as stored.
    fn id() -> (id: PrimitiveId)
        ensures
            id == Self::kind(),
    ;
}

impl Primitive for Struct {
    open spec fn kind() -> PrimitiveId {
        PrimitiveId::Struct
    }

    fn id() -> (id: PrimitiveId) {
        PrimitiveId::Struct
    }
}

impl Primitive for Array {
    open spec fn kind() -> PrimitiveId {
        PrimitiveId::Array
    }

    fn id() -> (id: PrimitiveId) {
        PrimitiveId::Array
    }
}

impl Primitive for Opt {
    open spec fn kind() -> PrimitiveId {
        PrimitiveId::Opt
    }

    fn id() -> (id: PrimitiveId) {
        PrimitiveId::Opt
    }
}

impl Primitive for u32 {
    open spec fn kind() -> PrimitiveId {
        PrimitiveId::U32
    }

    fn id() -> (id: PrimitiveId) {
        PrimitiveId::U32
    }
}

impl Primitive for usize {
    open spec fn kind() -> PrimitiveId {
        PrimitiveId::Usize
    }

    fn id() -> (id: PrimitiveId) {
        PrimitiveId::Usize
    }
}

impl Primitive for bool {
    open spec fn kind() -> PrimitiveId {
        PrimitiveId::Bool
    }

    fn id() -> (id: PrimitiveId) {
        PrimitiveId::Bool
    }
}

/// One write to a buffer holding `before` leaves it holding `after`.
pub open spec fn write_step<T>(before: Seq<T>, value: T, after: Seq<T>) -> bool {
    after == before.push(value)
}

/// One read from a buffer holding `values`, with `before` of them read
/// back, gives `value` and leaves `after` of them read back.
pub open spec fn read_step<T>(values: Seq<T>, before: nat, value: T, after: nat) -> bool {
    &&& before < values.len()
    &&& value == values[before as int]
    &&& after == before + 1
}

/// Writing values one after another into an empty buffer leaves it holding
/// them in the order written.
pub proof fn lemma_writes_in_order<T>(states: Seq<Seq<T>>, written: Seq<T>)
    requires
        states.len() == written.len() + 1,
        states[0].len() == 0,
        forall|k: int| 0 <= k < written.len() ==> #[trigger] write_step(states[k], written[k], states[k + 1]),
    ensures
        forall|k: int| 0 <= k <= written.len() ==> #[trigger] states[k] == written.take(k),
    decreases written.len(),
{
    if written.len() > 0 {
        let n = written.len() - 1;
        lemma_writes_in_order(states.take(n + 1), written.take(n));
        assert forall|k: int| 0 <= k <= written.len() implies #[trigger] states[k] == written.take(k) by {
            if k <= n {
                assert(states.take(n + 1)[k] == states[k]);
                assert(written.take(n).take(k) =~= written.take(k));
            } else {
                assert(states.take(n + 1)[n] == states[n]);
                assert(written.take(n).take(n) =~= written.take(n));
                assert(write_step(states[n], written[n], states[n + 1]));
                assert(written.take(n).push(written[n]) =~= written.take(k));
            }
        }
    } else {
        assert(written.take(0) =~= Seq::<T>::empty());
    }
}

/// Reading back, from the first value on, gives the values in the order
/// written: first in, first out; there are no more reads than values.
pub proof fn lemma_reads_in_order<T>(values: Seq<T>, offsets: Seq<nat>, reads: Seq<T>)
    requires
        offsets.len() == reads.len() + 1,
        offsets[0] == 0,
        forall|k: int| 0 <= k < reads.len() ==> #[trigger] read_step(values, offsets[k], reads[k], offsets[k + 1]),
    ensures
        reads.len() <= values.len(),
        forall|k: int| 0 <= k < reads.len() ==> #[trigger] reads[k] == values[k],
{
    assert forall|k: int| 0 <= k <= reads.len() implies #[trigger] offsets[k] == k by {
        lemma_offset_counts(values, offsets, reads, k);
    }
    if reads.len() > 0 {
        let j = reads.len() - 1;
        assert(read_step(values, offsets[j], reads[j], offsets[j + 1]));
        assert(offsets[j] == j);
    }
    assert forall|k: int| 0 <= k < reads.len() implies #[trigger] reads[k] == values[k] by {
        assert(read_step(values, offsets[k], reads[k], offsets[k + 1]));
        assert(offsets[k] == k);
    }
}

/// After `k` reads from the first value on, `k` values have been read.
proof fn lemma_offset_counts<T>(values: Seq<T>, offsets: Seq<nat>, reads: Seq<T>, k: int)
    requires
        offsets.len() == reads.len() + 1,
        offsets[0] == 0,
        forall|j: int| 0 <= j < reads.len() ==> #[trigger] read_step(values, offsets[j], reads[j], offsets[j + 1]),
        0 <= k <= reads.len(),
    ensures
        offsets[k] == k,
    decreases k,
{
    if k > 0 {
        lemma_offset_counts(values, offsets, reads, k - 1);
        let j = k - 1;
        assert(read_step(values, offsets[j], reads[j], offsets[j + 1]));
    }
}

/// The values of one kind, in the order written, and how many of them have
/// been read back.
#[derive(Debug)]
pub struct PrimitiveBuffer<T> {
    values: Vec<T>,
    read_offset: usize,
}

impl<T> PrimitiveBuffer<T> {
    /// The values written.
    pub closed spec fn values(&self) -> Seq<T> {
        self.values@
    }

    /// The number of values read back.
    pub closed spec fn read_offset(&self) -> nat {
        self.read_offset as nat
    }

    /// An empty buffer.
    pub fn new() -> (buffer: Self)
        ensures
            buffer.values() == Seq::<T>::empty(),
            buffer.read_offset() == 0,
    {
        PrimitiveBuffer { values: Vec::new(), read_offset: 0 }
    }
}

impl<T: Copy> PrimitiveBuffer<T> {
    /// Appends a value.
    pub fn write(&mut self, value: &T)
        ensures
            final(self).values() == old(self).values().push(*value),
            write_step(old(self).values(), *value, final(self).values()),
            final(self).read_offset() == old(self).read_offset(),
    {
        self.values.push(*value);
    }

    /// The next value not yet read back. There must be one.
    pub fn read(&mut self) -> (value: T)
        requires
            old(self).read_offset() < old(self).values().len(),
        ensures
            value == old(self).values()[old(self).read_offset() as int],
            final(self).values() == old(self).values(),
            final(self).read_offset() == old(self).read_offset() + 1,
            read_step(old(self).values(), old(self).read_offset(), value, final(self).read_offset()),
    {
        let count = self.values.len();
        let value = self.values[self.read_offset];
        proof {
            assert(self.read_offset < count);
        }
        self.read_offset = self.read_offset + 1;
        value
    }
}

} // verus!
