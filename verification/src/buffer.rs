//! Fixed capacity buffers of plain values, and a pool that keeps emptied
//! buffers for reuse by values of another type.
use vstd::prelude::*;
use vstd::layout::{align_of, size_of};

verus! {

/// The bytes every buffer holds room for.
pub const BUFFER_SIZE: usize = 131072;

/// The largest alignment a buffer's values may ask for.
pub const BUFFER_ALIGN: usize = 64;

/// Whether values of `T` can live in a buffer: they take room, fill the
/// buffer exactly, and ask for no more than the buffer's alignment.
pub open spec fn storable<T>() -> bool {
    &&& size_of::<T>() > 0
    &&& BUFFER_SIZE as nat % size_of::<T>() == 0
    &&& align_of::<T>() <= BUFFER_ALIGN
}

/// How many values of `T` a buffer holds.
pub open spec fn buffer_capacity<T>() -> nat {
    BUFFER_SIZE as nat / size_of::<T>()
}

/// One push onto a buffer holding `before` leaves it holding `after`, as
/// `try_push` does: below capacity the value is added and the push
/// succeeds; at capacity nothing changes and the push fails.
pub open spec fn push_step<T>(before: Seq<T>, elem: T, after: Seq<T>, pushed: bool) -> bool {
    if before.len() < buffer_capacity::<T>() {
        pushed && after == before.push(elem)
    } else {
        !pushed && after == before
    }
}

/// The number of the first `k` pushes that find room.
pub open spec fn pushes_with_room<T>(k: int) -> int {
    if k < buffer_capacity::<T>() {
        k
    } else {
        buffer_capacity::<T>() as int
    }
}

/// Pushing values one after another onto an empty buffer fills it with
/// them, in order, up to its capacity; each push after that fails and
/// changes nothing.
pub proof fn lemma_pushes<T>(states: Seq<Seq<T>>, elems: Seq<T>, pushed: Seq<bool>)
    requires
        states.len() == elems.len() + 1,
        pushed.len() == elems.len(),
        states[0].len() == 0,
        forall|k: int| 0 <= k < elems.len() ==> #[trigger] push_step(states[k], elems[k], states[k + 1], pushed[k]),
    ensures
        forall|k: int| 0 <= k <= elems.len() ==> #[trigger] states[k] == elems.take(pushes_with_room::<T>(k)),
        forall|k: int| 0 <= k < elems.len() ==> (#[trigger] pushed[k] <==> k < buffer_capacity::<T>()),
    decreases elems.len(),
{
    if elems.len() > 0 {
        let n = elems.len() - 1;
        lemma_pushes(states.take(n + 1), elems.take(n), pushed.take(n));
        assert forall|k: int| 0 <= k <= elems.len() implies #[trigger] states[k] == elems.take(pushes_with_room::<T>(k)) by {
            if k <= n {
                assert(states.take(n + 1)[k] == states[k]);
                assert(elems.take(n).take(pushes_with_room::<T>(k)) =~= elems.take(pushes_with_room::<T>(k)));
            } else {
                assert(states.take(n + 1)[n] == states[n]);
                assert(elems.take(n).take(pushes_with_room::<T>(n)) =~= elems.take(pushes_with_room::<T>(n)));
                assert(push_step(states[n], elems[n], states[n + 1], pushed[n]));
                if n < buffer_capacity::<T>() {
                    assert(elems.take(pushes_with_room::<T>(n)).push(elems[n]) =~= elems.take(pushes_with_room::<T>(k)));
                }
            }
        }
        assert forall|k: int| 0 <= k < elems.len() implies (#[trigger] pushed[k] <==> k < buffer_capacity::<T>()) by {
            if k < n {
                assert(pushed.take(n)[k] == pushed[k]);
            } else {
                assert(push_step(states[n], elems[n], states[n + 1], pushed[n]));
            }
        }
    } else {
        assert(elems.take(0) =~= Seq::<T>::empty());
    }
}

/// Bytes can live in a buffer.
proof fn lemma_u8_storable()
    ensures
        storable::<u8>(),
{
    broadcast use vstd::layout::layout_of_primitives, vstd::layout::align_of_u8;
    assert(size_of::<u8>() == 1);
    assert(align_of::<u8>() == 1);
}

/// A list of values with a fixed capacity, `BUFFER_SIZE` bytes' worth.
pub struct Buffer<T> {
    items: Vec<T>,
}

impl<T> View for Buffer<T> {
    type V = Seq<T>;

    closed spec fn view(&self) -> Seq<T> {
        self.items@
    }
}

impl<T> Buffer<T> {
    /// A buffer holds values that fit it, no more than it has room for.
    pub closed spec fn wf(&self) -> bool {
        &&& storable::<T>()
        &&& self.items@.len() <= buffer_capacity::<T>()
    }

    /// A sound buffer holds values that can live in a buffer, and no more
    /// of them than it has room for.
    pub proof fn lemma_within_capacity(&self)
        requires
            self.wf(),
        ensures
            storable::<T>(),
            self@.len() <= buffer_capacity::<T>(),
    {
    }

    /// The number of values a buffer holds room for.
    pub fn capacity(&self) -> (capacity: usize)
        requires
            self.wf(),
        ensures
            capacity == buffer_capacity::<T>(),
    {
        BUFFER_SIZE / core::mem::size_of::<T>()
    }

    /// Empties the buffer.
    pub fn clear(&mut self)
        requires
            old(self).wf(),
        ensures
            final(self).wf(),
            final(self)@ == Seq::<T>::empty(),
    {
        self.items.clear();
    }

    /// The number of values held.
    pub fn len(&self) -> (len: usize)
        ensures
            len == self@.len(),
    {
        self.items.len()
    }

    /// The values held, in order.
    pub fn as_slice(&self) -> (items: &[T])
        ensures
            items@ == self@,
    {
        self.items.as_slice()
    }

    /// Appends `elem`; a full buffer hands it back instead.
    pub fn try_push(&mut self, elem: T) -> (result: Result<(), T>)
        requires
            old(self).wf(),
        ensures
            final(self).wf(),
            old(self)@.len() < buffer_capacity::<T>() ==> result is Ok && final(self)@
                == old(self)@.push(elem),
            old(self)@.len() == buffer_capacity::<T>() ==> result == Err::<(), T>(elem)
                && final(self)@ == old(self)@,
            push_step(old(self)@, elem, final(self)@, result is Ok),
    {
        if self.items.len() == self.capacity() {
            return Err(elem);
        }
        self.items.push(elem);
        Ok(())
    }

    /// Empties a buffer for use by values of another type.
    pub fn transmute_empty<O: Copy>(self) -> (buffer: Buffer<O>)
        requires
            self@.len() == 0,
            storable::<O>(),
        ensures
            buffer.wf(),
            buffer@ == Seq::<O>::empty(),
    {
        Buffer { items: Vec::new() }
    }
}

impl<T: Copy> Buffer<T> {
    /// An empty buffer.
    pub fn new() -> (buffer: Self)
        requires
            storable::<T>(),
        ensures
            buffer.wf(),
            buffer@ == Seq::<T>::empty(),
    {
        Buffer { items: Vec::new() }
    }

    /// Appends as many values of `slice` as there is room for, in order,
    /// and hands back those that did not fit.
    pub fn try_extend<'a>(&mut self, slice: &'a [T]) -> (result: Result<(), &'a [T]>)
        requires
            old(self).wf(),
        ensures
            final(self).wf(),
            ({
                let room = buffer_capacity::<T>() - old(self)@.len();
                let take = if slice@.len() <= room {
                    slice@.len() as int
                } else {
                    room
                };
                &&& final(self)@ == old(self)@ + slice@.subrange(0, take)
                &&& slice@.len() <= room ==> result is Ok
                &&& slice@.len() > room ==> (result matches Err(rest) && rest@ == slice@.subrange(
                    take,
                    slice@.len() as int,
                ))
            }),
    {
        let room = self.capacity() - self.items.len();
        let take = if slice.len() < room {
            slice.len()
        } else {
            room
        };
        let ghost before = self.items@;
        let mut i: usize = 0;
        while i < take
            invariant
                i <= take <= slice@.len(),
                take <= room,
                room == buffer_capacity::<T>() - before.len(),
                storable::<T>(),
                before.len() <= buffer_capacity::<T>(),
                self.items@ == before + slice@.subrange(0, i as int),
            decreases take - i,
        {
            self.items.push(slice[i]);
            proof {
                assert(self.items@ =~= before + slice@.subrange(0, i + 1));
            }
            i += 1;
        }
        if take != slice.len() {
            Err(vstd::slice::slice_subrange(slice, take, slice.len()))
        } else {
            Ok(())
        }
    }
}

/// Emptied buffers kept for reuse.
pub struct BufferPool {
    pool: Vec<Buffer<u8>>,
}

impl BufferPool {
    /// An empty pool.
    pub fn new() -> (pool: Self)
        ensures
            pool.wf(),
            pool.size() == 0,
    {
        BufferPool { pool: Vec::new() }
    }

    /// The number of buffers kept.
    pub closed spec fn size(&self) -> nat {
        self.pool@.len()
    }

    /// The buffers kept are empty and sound.
    pub closed spec fn wf(&self) -> bool {
        forall|i: int| 0 <= i < self.pool@.len() ==> (#[trigger] self.pool@[i]).wf()
    }

    /// An empty buffer for values of `T`: one from the pool where it has
    /// any, else a new one.
    pub fn take<T: Copy>(&mut self) -> (buffer: Buffer<T>)
        requires
            old(self).wf(),
            storable::<T>(),
        ensures
            final(self).wf(),
            buffer.wf(),
            buffer@ == Seq::<T>::empty(),
            final(self).size() == if old(self).size() == 0 {
                0
            } else {
                old(self).size() - 1
            },
    {
        let kept = match self.pool.pop() {
            Some(buffer) => buffer,
            None => {
                proof {
                    lemma_u8_storable();
                }
                Buffer::new()
            },
        };
        let mut kept = kept;
        kept.clear();
        kept.transmute_empty()
    }

    /// Keeps an emptied buffer for later.
    pub fn put<T>(&mut self, buffer: Buffer<T>)
        requires
            old(self).wf(),
            buffer@.len() == 0,
        ensures
            final(self).wf(),
            final(self).size() == old(self).size() + 1,
    {
        proof {
            lemma_u8_storable();
        }
        self.pool.push(buffer.transmute_empty());
    }
}

} // verus!
