//! Reusable working memory for encoding over and over again.
use vstd::prelude::*;
use crate::buffer::{storable, Buffer, BufferPool};

verus! {

/// Buffers kept between encodes, so that encoding in a loop need not
/// allocate afresh.
pub struct Scratch {
    buffers: BufferPool,
}

impl Scratch {
    /// Empty working memory.
    pub fn new() -> (scratch: Self)
        ensures
            scratch.wf(),
            scratch.kept() == 0,
    {
        Scratch { buffers: BufferPool::new() }
    }

    /// The number of buffers kept for reuse.
    pub closed spec fn kept(&self) -> nat {
        self.buffers.size()
    }

    /// The kept buffers are sound.
    pub closed spec fn wf(&self) -> bool {
        self.buffers.wf()
    }

    /// An empty buffer for values of `T`: a kept one where there is any,
    /// else a new one.
    pub fn take_buffer<T: Copy>(&mut self) -> (buffer: Buffer<T>)
        requires
            old(self).wf(),
            storable::<T>(),
        ensures
            final(self).wf(),
            buffer.wf(),
            buffer@ == Seq::<T>::empty(),
            final(self).kept() == if old(self).kept() == 0 {
                0
            } else {
                old(self).kept() - 1
            },
    {
        self.buffers.take()
    }

    /// Keeps an emptied buffer for later.
    pub fn put_buffer<T>(&mut self, buffer: Buffer<T>)
        requires
            old(self).wf(),
            buffer@.len() == 0,
        ensures
            final(self).wf(),
            final(self).kept() == old(self).kept() + 1,
    {
        self.buffers.put(buffer)
    }
}

/// Working memory for encoding values of `T` over and over again.
pub fn scratch<T>() -> (scratch: Scratch)
    ensures
        scratch.wf(),
        scratch.kept() == 0,
{
    Scratch::new()
}

} // verus!
