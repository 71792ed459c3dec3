//! A boxed value is written and read as the value inside the box.
use vstd::prelude::*;
use crate::branch::array_branch::DynArrayBranch;
use crate::branch::root_branch::DynRootBranch;
use crate::encoder_decoder::{Decodable, DecoderArray, Encodable, EncoderArray, EncoderStream};
use crate::error::{DecodeError, DecodeResult};
use crate::options::{DecodeOptions, EncodeOptions};
use crate::type_id::{ArrayTypeId, RootTypeId};

verus! {

/// Gathers boxed values by gathering the values inside the boxes.
pub struct BoxEncoderArray<A> {
    inner: A,
}

impl<A: Default> Default for BoxEncoderArray<A> {
    fn default() -> (array: Self) {
        BoxEncoderArray { inner: A::default() }
    }
}

impl<T: Encodable> Encodable for Box<T> {
    type EncoderArray = BoxEncoderArray<T::EncoderArray>;

    /// A boxed value is written as the value in the box.
    open spec fn encodes(&self, before: (Seq<u8>, Seq<usize>), after: (Seq<u8>, Seq<usize>), id: RootTypeId) -> bool {
        (**self).encodes(before, after, id)
    }

    fn encode_root<'a, O: EncodeOptions>(&self, stream: EncoderStream<'a, O>) -> (result: (
        EncoderStream<'a, O>,
        RootTypeId,
    )) {
        let value: &T = &**self;
        value.encode_root(stream)
    }
}

impl<A> BoxEncoderArray<A> {
    /// The array that gathers the unboxed values.
    pub closed spec fn inner(&self) -> A {
        self.inner
    }
}

impl<T: Encodable> EncoderArray<Box<T>> for BoxEncoderArray<T::EncoderArray> {
    /// Gathering a boxed value is gathering the value in the box.
    open spec fn buffers(before: Self, value: Box<T>, after: Self) -> bool {
        T::EncoderArray::buffers(before.inner(), *value, after.inner())
    }

    fn buffer_one(&mut self, value: &Box<T>) {
        let inner_value: &T = &**value;
        self.inner.buffer_one(inner_value);
    }

    fn flush<'a, O: EncodeOptions>(self, stream: EncoderStream<'a, O>) -> (result: (
        EncoderStream<'a, O>,
        ArrayTypeId,
    )) {
        self.inner.flush(stream)
    }
}

/// Reads boxed values by reading the values and boxing them.
pub struct BoxDecoderArray<A> {
    inner: A,
}

/// A result with its value boxed.
pub open spec fn boxed<V, E>(result: Result<V, E>) -> Result<Box<V>, E> {
    match result {
        Ok(value) => Ok(Box::new(value)),
        Err(e) => Err(e),
    }
}

impl<A> BoxDecoderArray<A> {
    /// The array that reads the unboxed values.
    pub closed spec fn inner(&self) -> A {
        self.inner
    }
}

impl<T: Decodable> Decodable for Box<T> {
    type DecoderArray = BoxDecoderArray<T::DecoderArray>;

    /// A boxed value decodes as the value does, boxed.
    open spec fn decodes<'a>(sticks: DynRootBranch<'a>, result: DecodeResult<Self>) -> bool {
        exists|inner: DecodeResult<T>| T::decodes(sticks, inner) && result == boxed(inner)
    }

    fn decode<'a, O: DecodeOptions>(sticks: DynRootBranch<'a>, options: &O) -> (result: DecodeResult<Self>) {
        let inner = T::decode(sticks, options);
        let result = match inner {
            Ok(value) => Ok(Box::new(value)),
            Err(e) => Err(e),
        };
        proof {
            assert(T::decodes(sticks, inner) && result == boxed(inner));
        }
        result
    }
}

impl<A: DecoderArray> DecoderArray for BoxDecoderArray<A> {
    type Decode = Box<A::Decode>;
    type Error = A::Error;

    /// Preparing is preparing the array of unboxed values.
    open spec fn prepares<'a>(sticks: DynArrayBranch<'a>, result: DecodeResult<Self>) -> bool {
        exists|inner: DecodeResult<A>|
            {
                &&& A::prepares(sticks, inner)
                &&& match inner {
                    Ok(array) => result matches Ok(boxed_array) && boxed_array.inner() == array,
                    Err(e) => result == Err::<Self, DecodeError>(e),
                }
            }
    }

    /// A read reads the unboxed value and boxes it.
    open spec fn reads(before: Self, after: Self, result: Result<Self::Decode, Self::Error>) -> bool {
        exists|inner: Result<A::Decode, A::Error>|
            A::reads(before.inner(), after.inner(), inner) && result == boxed(inner)
    }

    fn new<'a, O: DecodeOptions>(sticks: DynArrayBranch<'a>, options: &O) -> (result: DecodeResult<Self>) {
        let inner = A::new(sticks, options);
        let result = match inner {
            Ok(array) => Ok(BoxDecoderArray { inner: array }),
            Err(e) => Err(e),
        };
        proof {
            assert(A::prepares(sticks, inner));
        }
        result
    }

    fn decode_next(&mut self) -> (result: Result<Self::Decode, Self::Error>) {
        let inner = self.inner.decode_next();
        let result = match inner {
            Ok(value) => Ok(Box::new(value)),
            Err(e) => Err(e),
        };
        proof {
            assert(A::reads(old(self).inner(), self.inner(), inner) && result == boxed(inner));
        }
        result
    }
}

} // verus!
