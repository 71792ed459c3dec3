//! Writing a document: the stream that type ids, data bytes and the lengths
//! of array data go to, and the framing of the finished document.
use vstd::prelude::*;
use crate::encodings::varint::{
    decode_suffix_spec, encode_prefix_varint, encode_suffix_varint, lemma_suffix_varint_round_trip,
    prefix_varint, suffix_varint, suffix_varints,
};
use crate::branch::array_branch::DynArrayBranch;
use crate::branch::root_branch::{read_root, read_root_spec, DynRootBranch};
use crate::error::{DecodeError, DecodeResult};
use crate::options::{DecodeOptions, EncodeOptions};
use crate::scratch::Scratch;
use crate::type_id::{root_type_id_byte, ArrayTypeId, RootTypeId, TypeId};

verus! {

/// Where encoding writes: the data bytes, the lengths of the data of array
/// branches (in the order they were written), working memory, and the
/// options.
pub struct EncoderStream<'a, O> {
    pub bytes: Vec<u8>,
    pub lens: Vec<usize>,
    pub scratch: Scratch,
    pub options: &'a O,
}

/// `after` is `before` with more bytes and lengths added at the end, and
/// the same options.
pub open spec fn appends<'a, O>(before: EncoderStream<'a, O>, after: EncoderStream<'a, O>) -> bool {
    &&& before.bytes@.len() <= after.bytes@.len()
    &&& after.bytes@.subrange(0, before.bytes@.len() as int) == before.bytes@
    &&& before.lens@.len() <= after.lens@.len()
    &&& after.lens@.subrange(0, before.lens@.len() as int) == before.lens@
    &&& after.options == before.options
}

/// A closure that accepts the stream `stream` and, given it, only adds to
/// it.
pub open spec fn only_appends<'a, O: 'a, T, F: FnOnce(EncoderStream<'a, O>) -> (EncoderStream<'a, O>, T)>(
    f: F,
    stream: EncoderStream<'a, O>,
) -> bool {
    &&& f.requires((stream,))
    &&& forall|r: (EncoderStream<'a, O>, T)| #[trigger] f.ensures((stream,), r) ==> appends(stream, r.0)
}

impl<'a, O> EncoderStream<'a, O> {
    /// A stream that writes after `bytes` and `lens`.
    pub fn new(bytes: Vec<u8>, lens: Vec<usize>, options: &'a O) -> (stream: Self)
        ensures
            stream.bytes == bytes,
            stream.lens == lens,
            stream.options == options,
    {
        EncoderStream { bytes, lens, scratch: Scratch::new(), options }
    }

    /// The data bytes written so far.
    pub fn bytes(&self) -> (bytes: &Vec<u8>)
        ensures
            bytes == &self.bytes,
    {
        &self.bytes
    }

    /// The lengths written so far.
    pub fn lens(&self) -> (lens: &Vec<usize>)
        ensures
            lens == &self.lens,
    {
        &self.lens
    }

    /// The working memory.
    pub fn scratch(&self) -> (scratch: &Scratch)
        ensures
            scratch == &self.scratch,
    {
        &self.scratch
    }

    /// Runs `f`, which writes a value and returns its type id; where that
    /// is the void id, drops the bytes `f` wrote.
    pub fn restore_if_void<T: TypeId, F: FnOnce(Self) -> (Self, T)>(self, f: F) -> (result: (Self, T))
        requires
            only_appends(f, self),
        ensures
            exists|r: (Self, T)|
                #![trigger f.ensures((self,), r)]
                {
                    &&& f.ensures((self,), r)
                    &&& result.1 == r.1
                    &&& result.0.lens == r.0.lens
                    &&& result.0.options == r.0.options
                    &&& result.0.bytes@ == if r.1.byte_of() == T::void_id().byte_of() {
                        self.bytes@
                    } else {
                        r.0.bytes@
                    }
                },
    {
        let restore = self.bytes.len();
        let ghost input = self;
        let (mut stream, id) = f(self);
        let ghost r = (stream, id);
        if id.id_byte() == T::void().id_byte() {
            stream.bytes.truncate(restore);
            proof {
                assert(stream.bytes@ =~= input.bytes@);
            }
        }
        (stream, id)
    }

    /// Runs `f`, which writes a value and returns its type id, and stores
    /// that id in the byte before the value. A value written as void writes
    /// no bytes.
    pub fn encode_with_id<T: TypeId, F: FnOnce(Self) -> (Self, T)>(self, f: F) -> (result: (Self, T))
        requires
            forall|s: Self|
                s.bytes@ == self.bytes@.push(0u8) && s.lens == self.lens && s.scratch == self.scratch
                    && s.options == self.options ==> #[trigger] only_appends(f, s),
            forall|s: Self, r: (Self, T)|
                s.bytes@ == self.bytes@.push(0u8) && s.lens == self.lens && s.scratch == self.scratch
                    && s.options == self.options && #[trigger] f.ensures((s,), r) && r.1 == T::void_id()
                    ==> r.0.bytes@.len() == s.bytes@.len(),
        ensures
            result.1 == T::void_id() ==> result.0.bytes@.len() == self.bytes@.len() + 1,
            exists|s: Self, r: (Self, T)|
                #![trigger f.ensures((s,), r)]
                {
                    &&& s.bytes@ == self.bytes@.push(0u8)
                    &&& s.lens == self.lens
                    &&& s.options == self.options
                    &&& f.ensures((s,), r)
                    &&& result.1 == r.1
                    &&& result.0.lens == r.0.lens
                    &&& result.0.options == r.0.options
                    &&& result.0.bytes@ == r.0.bytes@.update(self.bytes@.len() as int, r.1.byte_of())
                },
    {
        let mut stream = self;
        let type_index = stream.bytes.len();
        stream.bytes.push(0);
        let ghost s = stream;
        proof {
            assert(s.bytes@ == self.bytes@.push(0u8) && s.lens == self.lens && s.scratch == self.scratch
                && s.options == self.options);
            assert(only_appends(f, s));
        }
        let (mut stream, id) = f(stream);
        let ghost r = (stream, id);
        stream.bytes.set(type_index, id.id_byte());
        (stream, id)
    }

    /// Runs `f`, which writes data bytes, and records their number in the
    /// lengths.
    pub fn encode_with_len<T, F: FnOnce(Self) -> (Self, T)>(self, f: F) -> (result: (Self, T))
        requires
            only_appends(f, self),
        ensures
            exists|r: (Self, T)|
                #![trigger f.ensures((self,), r)]
                {
                    &&& f.ensures((self,), r)
                    &&& result.1 == r.1
                    &&& result.0.bytes == r.0.bytes
                    &&& result.0.options == r.0.options
                    &&& result.0.lens@ == r.0.lens@.push((r.0.bytes@.len() - self.bytes@.len()) as usize)
                },
    {
        let start = self.bytes.len();
        let (mut stream, result) = f(self);
        let written = stream.bytes.len() - start;
        stream.lens.push(written);
        (stream, result)
    }
}

/// A value that can be written at the root of a document.
pub trait Encodable: Sized {
    /// What gathers values of this type when they stand in an array.
    type EncoderArray: EncoderArray<Self>;

    /// What an implementation promises of writing this value: how the data
    /// bytes and lengths `before` relate to those `after`, and to the type
    /// id returned. Nothing beyond only adding to them, unless it says
    /// more.
    open spec fn encodes(&self, before: (Seq<u8>, Seq<usize>), after: (Seq<u8>, Seq<usize>), id: RootTypeId) -> bool {
        true
    }

    /// Writes this value to the stream, only adding to it, and returns the
    /// type id it was written as.
    fn encode_root<'a, O: EncodeOptions>(&self, stream: EncoderStream<'a, O>) -> (result: (
        EncoderStream<'a, O>,
        RootTypeId,
    ))
        ensures
            appends(stream, result.0),
            self.encodes((stream.bytes@, stream.lens@), (result.0.bytes@, result.0.lens@), result.1),
    ;
}

/// Gathers the values of an array, one by one, and then writes them all to
/// a stream at once, choosing their encoding.
pub trait EncoderArray<T>: Sized + Default {
    /// What an implementation promises of gathering `value`: how the array
    /// `before` it relates to the array `after` it. Nothing, unless the
    /// implementation says more.
    open spec fn buffers(before: Self, value: T, after: Self) -> bool {
        true
    }

    /// Adds one value after those gathered so far.
    fn buffer_one(&mut self, value: &T)
        ensures
            Self::buffers(*old(self), *value, *final(self)),
    ;

    /// Adds the values, in order, after those gathered so far: one
    /// `buffer_one` after the other.
    fn buffer_many(&mut self, values: &[T])
        ensures
            exists|states: Seq<Self>|
                {
                    &&& states.len() == values@.len() + 1
                    &&& states[0] == *old(self)
                    &&& states.last() == *final(self)
                    &&& forall|k: int|
                        0 <= k < values@.len() ==> #[trigger] Self::buffers(states[k], values@[k], states[k + 1])
                },
    {
        let ghost mut states: Seq<Self> = seq![*self];
        let mut i: usize = 0;
        while i < values.len()
            invariant
                i <= values@.len(),
                states.len() == i + 1,
                states[0] == *old(self),
                states.last() == *self,
                forall|k: int| 0 <= k < i ==> #[trigger] Self::buffers(states[k], values@[k], states[k + 1]),
            decreases values@.len() - i,
        {
            self.buffer_one(&values[i]);
            proof {
                let before = states;
                states = states.push(*self);
                assert forall|k: int| 0 <= k < i + 1 implies #[trigger] Self::buffers(
                    states[k],
                    values@[k],
                    states[k + 1],
                ) by {
                    if k < i {
                        assert(states[k] == before[k] && states[k + 1] == before[k + 1]);
                    }
                }
            }
            i += 1;
        }
        proof {
            assert(states.len() == values@.len() + 1);
        }
    }

    /// Writes the gathered values to the stream, only adding to it, and
    /// returns the type id they were written as.
    fn flush<'a, O: EncodeOptions>(self, stream: EncoderStream<'a, O>) -> (result: (
        EncoderStream<'a, O>,
        ArrayTypeId,
    ))
        ensures
            appends(stream, result.0),
    ;

    /// Gathers `values` into a fresh array and writes them to the stream.
    fn encode_all<'a, O: EncodeOptions>(values: &[T], stream: EncoderStream<'a, O>) -> (result: (
        EncoderStream<'a, O>,
        ArrayTypeId,
    ))
        ensures
            appends(stream, result.0),
    {
        let mut array = Self::default();
        array.buffer_many(values);
        array.flush(stream)
    }
}

/// A value that can be read from the root of a document.
pub trait Decodable: Sized {
    /// What reads values of this type when they stand in an array.
    type DecoderArray: DecoderArray<Decode = Self>;

    /// What an implementation promises of the result of `decode` from
    /// `sticks`, whatever the options; nothing, unless it says more.
    open spec fn decodes<'a>(sticks: DynRootBranch<'a>, result: DecodeResult<Self>) -> bool {
        true
    }

    /// Reads a value from the root branch of a document.
    fn decode<'a, O: DecodeOptions>(sticks: DynRootBranch<'a>, options: &O) -> (result: DecodeResult<Self>)
        ensures
            Self::decodes(sticks, result),
    ;
}

/// Reads the values of an array one after the other.
pub trait DecoderArray: Sized + Send {
    /// What a read of one value can fail with.
    type Error;
    /// The values read.
    type Decode;

    /// What an implementation promises of the result of `new` from `sticks`,
    /// whatever the options; nothing, unless it says more.
    open spec fn prepares<'a>(sticks: DynArrayBranch<'a>, result: DecodeResult<Self>) -> bool {
        true
    }

    /// What an implementation promises of a read: how the array `before` it
    /// relates to the array `after` it and to what it returned. Nothing,
    /// unless it says more.
    open spec fn reads(before: Self, after: Self, result: Result<Self::Decode, Self::Error>) -> bool {
        true
    }

    /// Prepares to read the values of an array branch.
    fn new<'a, O: DecodeOptions>(sticks: DynArrayBranch<'a>, options: &O) -> (result: DecodeResult<Self>)
        ensures
            Self::prepares(sticks, result),
    ;

    /// Reads the next value.
    fn decode_next(&mut self) -> (result: Result<Self::Decode, Self::Error>)
        ensures
            Self::reads(*old(self), *final(self), result),
    ;
}

/// Reads the values of an array one after the other, where reading a value
/// cannot fail once the array is prepared.
pub trait InfallibleDecoderArray: Sized {
    /// The values read.
    type Decode;

    /// What an implementation promises of the result of `new_infallible`
    /// from `sticks`, whatever the options; nothing, unless it says more.
    open spec fn prepares_infallible<'a>(sticks: DynArrayBranch<'a>, result: DecodeResult<Self>) -> bool {
        true
    }

    /// What an implementation promises of a read: how the array `before` it
    /// relates to the array `after` it and to the value read. Nothing,
    /// unless it says more.
    open spec fn reads_infallible(before: Self, after: Self, value: Self::Decode) -> bool {
        true
    }

    /// Prepares to read the values of an array branch; this may fail.
    fn new_infallible<'a, O: DecodeOptions>(sticks: DynArrayBranch<'a>, options: &O) -> (result: DecodeResult<
        Self,
    >)
        ensures
            Self::prepares_infallible(sticks, result),
    ;

    /// Reads the next value.
    fn decode_next_infallible(&mut self) -> (value: Self::Decode)
        ensures
            Self::reads_infallible(*old(self), *final(self), value),
    ;
}

/// An array whose reads cannot fail is an array whose reads never return
/// an error.
impl<T: InfallibleDecoderArray + Send> DecoderArray for T {
    type Decode = <T as InfallibleDecoderArray>::Decode;
    type Error = core::convert::Infallible;

    /// Preparing is preparing the infallible array.
    open spec fn prepares<'a>(sticks: DynArrayBranch<'a>, result: DecodeResult<Self>) -> bool {
        T::prepares_infallible(sticks, result)
    }

    /// A read never fails: it returns what the infallible read returns.
    open spec fn reads(before: Self, after: Self, result: Result<Self::Decode, Self::Error>) -> bool {
        &&& result is Ok
        &&& T::reads_infallible(before, after, result->Ok_0)
    }

    fn new<'a, O: DecodeOptions>(sticks: DynArrayBranch<'a>, options: &O) -> (result: DecodeResult<Self>) {
        T::new_infallible(sticks, options)
    }

    fn decode_next(&mut self) -> (result: Result<Self::Decode, Self::Error>)
        ensures
            result is Ok,
    {
        Ok(self.decode_next_infallible())
    }
}

/// The lengths as the values their varints hold.
pub open spec fn lens_values(lens: Seq<usize>) -> Seq<u64> {
    Seq::new(lens.len(), |i: int| lens[i] as u64)
}

/// A finished document: the root's bytes with its type id in the first
/// byte, then the lengths as suffix varints, last length first, so that
/// reading backwards from the end meets them in the order they were
/// written.
pub open spec fn document_spec(bytes: Seq<u8>, lens: Seq<usize>, id: RootTypeId) -> Seq<u8> {
    bytes.update(0, root_type_id_byte(id)) + suffix_varints(lens_values(lens).reverse())
}

/// Finishes a document whose root was written to `bytes` after a first
/// placeholder byte: stores the root's type id there and appends the
/// lengths.
pub fn finish_document(bytes: Vec<u8>, lens: Vec<usize>, id: RootTypeId) -> (document: Vec<u8>)
    requires
        bytes@.len() >= 1,
    ensures
        document@ == document_spec(bytes@, lens@, id),
{
    let mut document = bytes;
    document.set(0, id.to_u8());
    let ghost head = document@;
    let mut i = lens.len();
    proof {
        assert(lens_values(lens@).reverse().subrange(0, 0) =~= Seq::<u64>::empty());
        assert(document@ =~= head + suffix_varints(Seq::<u64>::empty()));
    }
    while i > 0
        invariant
            i <= lens@.len(),
            head == bytes@.update(0, root_type_id_byte(id)),
            document@ == head + suffix_varints(
                lens_values(lens@).reverse().subrange(0, (lens@.len() - i) as int),
            ),
        decreases i,
    {
        i -= 1;
        let ghost done = lens_values(lens@).reverse().subrange(0, (lens@.len() - i - 1) as int);
        encode_suffix_varint(lens[i] as u64, &mut document);
        proof {
            let next = lens_values(lens@).reverse().subrange(0, (lens@.len() - i) as int);
            assert(next.drop_last() =~= done);
            assert(next.last() == lens@[i as int] as u64);
            assert(suffix_varints(next) == suffix_varints(done) + suffix_varint(lens@[i as int] as u64));
            assert(document@ =~= head + suffix_varints(next));
        }
    }
    proof {
        assert(lens_values(lens@).reverse().subrange(0, lens@.len() as int) =~= lens_values(
            lens@,
        ).reverse());
    }
    document
}

/// Encodes `value` as a whole document with the given options: its root,
/// with the root's type id first, then the lengths of the array data.
pub fn encode_with_options<T: Encodable, O: EncodeOptions>(value: &T, options: &O) -> (document: Vec<
    u8,
>)
    ensures
        exists|written: (Seq<u8>, Seq<usize>), id: RootTypeId|
            {
                &&& value.encodes((seq![0u8], Seq::empty()), written, id)
                &&& written.0.len() >= 1
                &&& document@ == document_spec(written.0, written.1, id)
            },
{
    let mut bytes: Vec<u8> = Vec::new();
    bytes.push(0);
    let stream = EncoderStream::new(bytes, Vec::new(), options);
    let ghost before = stream;
    proof {
        assert(before.bytes@ =~= seq![0u8]);
        assert(before.lens@ =~= Seq::<usize>::empty());
    }
    let (stream, id) = value.encode_root(stream);
    let EncoderStream { bytes, lens, .. } = stream;
    let document = finish_document(bytes, lens, id);
    proof {
        assert(value.encodes((seq![0u8], Seq::empty()), (bytes@, lens@), id));
    }
    document
}

/// Decodes a whole document as a `T` with the given options: reads its root
/// branch, then lets `T` decode that.
pub fn decode_with_options<T: Decodable, O: DecodeOptions>(bytes: &[u8], options: &O) -> (result: DecodeResult<T>)
    ensures
        match read_root_spec(bytes@) {
            None => result matches Err(e) && e == DecodeError::InvalidFormat,
            Some(node) => exists|sticks: DynRootBranch|
                sticks.node() == node && #[trigger] T::decodes(sticks, result),
        },
{
    match read_root(bytes) {
        Ok(sticks) => {
            let result = T::decode(sticks, options);
            proof {
                assert(T::decodes(sticks, result));
            }
            result
        },
        Err(e) => Err(e),
    }
}

/// Writes a `usize` as a prefix varint.
pub fn encode_usize<'a, O>(value: usize, stream: &mut EncoderStream<'a, O>)
    ensures
        final(stream).bytes@ == old(stream).bytes@ + prefix_varint(value as u64),
        final(stream).lens == old(stream).lens,
        final(stream).options == old(stream).options,
{
    encode_prefix_varint(value as u64, &mut stream.bytes);
}

/// Reading `k` lengths backwards from the cursor at `cursor`: the lengths
/// in the order met, and where the cursor ends.
pub open spec fn read_lens(doc: Seq<u8>, cursor: int, k: nat) -> Option<(Seq<u64>, int)>
    decreases k,
{
    if k == 0 {
        Some((Seq::empty(), cursor))
    } else {
        match decode_suffix_spec(doc, cursor) {
            Some((len, next)) => match read_lens(doc, next, (k - 1) as nat) {
                Some((rest, end)) => Some((seq![len] + rest, end)),
                None => None,
            },
            None => None,
        }
    }
}

/// The lengths stored after `body`, read back from the end of the bytes
/// that hold them, come in the order they were recorded.
proof fn lemma_read_back_lens(body: Seq<u8>, lens: Seq<u64>, after: Seq<u8>)
    ensures
        read_lens(
            body + suffix_varints(lens.reverse()) + after,
            body.len() + suffix_varints(lens.reverse()).len() - 1,
            lens.len(),
        ) == Some((lens, body.len() - 1)),
    decreases lens.len(),
{
    let enc = suffix_varints(lens.reverse());
    if lens.len() == 0 {
        assert(lens.reverse() =~= Seq::<u64>::empty());
        assert(lens =~= Seq::<u64>::empty());
    } else {
        let first = lens[0];
        let rest = lens.drop_first();
        assert(lens.reverse() =~= rest.reverse().push(first));
        assert(lens.reverse().drop_last() =~= rest.reverse());
        let rest_enc = suffix_varints(rest.reverse());
        assert(enc == rest_enc + suffix_varint(first));
        let doc = body + enc + after;
        assert(doc =~= (body + rest_enc) + suffix_varint(first) + after);
        lemma_suffix_varint_round_trip(body + rest_enc, first, after);
        assert(doc =~= body + rest_enc + (suffix_varint(first) + after));
        lemma_read_back_lens(body, rest, suffix_varint(first) + after);
        assert(seq![first] + rest =~= lens);
    }
}

/// The lengths a finished document carries are read back from its last
/// byte on, in the order they were recorded while encoding, and the
/// reading stops just before the first byte of the lengths.
pub proof fn lemma_document_lens(bytes: Seq<u8>, lens: Seq<usize>, id: RootTypeId)
    requires
        bytes.len() >= 1,
    ensures
        read_lens(
            document_spec(bytes, lens, id),
            document_spec(bytes, lens, id).len() - 1,
            lens.len(),
        ) == Some((lens_values(lens), bytes.len() - 1)),
{
    let body = bytes.update(0, root_type_id_byte(id));
    let values = lens_values(lens);
    lemma_read_back_lens(body, values, Seq::empty());
    assert(body + suffix_varints(values.reverse()) + Seq::<u8>::empty() =~= document_spec(bytes, lens, id));
}

} // verus!
