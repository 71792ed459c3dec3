//! Writing a value into sticks: each type has a writer that buffers its
//! values and then flushes them, branch by branch.
use vstd::prelude::*;
use crate::branch::stick::BranchId;

verus! {

/// A value that can be written, through its writer.
pub trait Writable: Sized {
    type Writer: Writer<Write = Self>;
}

/// Buffers values of one type, then flushes them as sticks.
pub trait Writer: Sized {
    type Write;

    /// What an implementation promises of a fresh writer; nothing, unless
    /// it says more.
    open spec fn fresh(writer: Self) -> bool {
        true
    }

    /// What an implementation promises of buffering `value`: how the writer
    /// `before` it relates to the writer `after` it. Nothing, unless it says
    /// more.
    open spec fn buffers(before: Self, value: Self::Write, after: Self) -> bool {
        true
    }

    /// What an implementation promises of flushing `writer` for the branch
    /// with the given parent offset and name: how the bytes `before` relate
    /// to the bytes `after`. Nothing beyond only adding to them, unless it
    /// says more.
    open spec fn flushes(writer: Self, parent: usize, name: Seq<char>, before: Seq<u8>, after: Seq<u8>) -> bool {
        true
    }

    /// Buffers a value.
    fn write(&mut self, value: &Self::Write)
        ensures
            Self::buffers(*old(self), *value, *final(self)),
    ;

    /// Appends the sticks of the buffered values, for the branch `branch`,
    /// to `bytes`; it only adds to them.
    fn flush(&self, branch: &BranchId<'_>, bytes: &mut Vec<u8>)
        ensures
            old(bytes)@.len() <= final(bytes)@.len(),
            final(bytes)@.subrange(0, old(bytes)@.len() as int) == old(bytes)@,
            Self::flushes(*self, branch.parent, branch.name@, old(bytes)@, final(bytes)@),
    ;

    /// A writer with nothing buffered.
    fn new() -> (writer: Self)
        ensures
            Self::fresh(writer),
    ;
}

/// The bytes that start a document of sticks: `TREEBUF` in ASCII.
pub open spec fn preamble() -> Seq<u8> {
    seq![84u8, 82u8, 69u8, 69u8, 66u8, 85u8, 70u8]
}

/// Writes `value` as a document of sticks: the preamble, then the sticks of
/// the root branch, whose parent is offset 0. The preamble keeps the first
/// real branch from starting at that offset too.
pub fn write<T: Writable>(value: &T) -> (bytes: Vec<u8>)
    ensures
        bytes@.len() >= 7,
        bytes@.subrange(0, 7) == preamble(),
        exists|fresh: T::Writer, written: T::Writer|
            {
                &&& T::Writer::fresh(fresh)
                &&& T::Writer::buffers(fresh, *value, written)
                &&& T::Writer::flushes(written, 0, Seq::empty(), preamble(), bytes@)
            },
{
    let mut writer = T::Writer::new();
    let ghost fresh = writer;
    writer.write(value);
    let mut bytes: Vec<u8> = Vec::new();
    bytes.push(84);
    bytes.push(82);
    bytes.push(69);
    bytes.push(69);
    bytes.push(66);
    bytes.push(85);
    bytes.push(70);
    let ghost head = bytes@;
    proof {
        assert(head =~= preamble());
    }
    let root = BranchId { name: "", parent: 0 };
    proof {
        reveal_strlit("");
        assert(root.name@ =~= Seq::<char>::empty());
    }
    writer.flush(&root, &mut bytes);
    proof {
        assert(T::Writer::fresh(fresh) && T::Writer::buffers(fresh, *value, writer));
    }
    bytes
}

} // verus!
