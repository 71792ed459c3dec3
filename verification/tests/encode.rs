use tree_buf::branch::root_branch::{read_root, DynRootBranch};
use tree_buf::encoder_decoder::{
    encode_usize, encode_with_options, finish_document, Decodable, DecoderArray, Encodable, EncoderArray, EncoderStream,
    InfallibleDecoderArray,
};
use tree_buf::encodings::packed_bool::encode_packed_bool;
use tree_buf::error::{DecodeError, DecodeResult};
use tree_buf::smart_pointers::{BoxDecoderArray, BoxEncoderArray};
use tree_buf::branch::array_branch::DynArrayBranch;
use tree_buf::options::{
    override_decode_options, override_encode_options, DecodeOptions, DecodeOptionsDefault, DisableParallel,
    EnableParallel, EncodeOptions, EncodeOptionsDefault, LosslessFloat, LossyFloatTolerance,
};
use tree_buf::parallel::parallel;
use tree_buf::scratch::scratch;
use tree_buf::type_id::{ArrayTypeId, RootTypeId};

struct Flag(bool);

#[derive(Default)]
struct FlagArray(Vec<bool>);

impl EncoderArray<Flag> for FlagArray {
    fn buffer_one(&mut self, value: &Flag) {
        self.0.push(value.0);
    }
    fn flush<'a, O: EncodeOptions>(self, mut stream: EncoderStream<'a, O>) -> (EncoderStream<'a, O>, ArrayTypeId) {
        encode_packed_bool(&self.0, &mut stream.bytes);
        (stream, ArrayTypeId::PackedBool)
    }
}

impl Encodable for Flag {
    type EncoderArray = FlagArray;
    fn encode_root<'a, O: EncodeOptions>(&self, stream: EncoderStream<'a, O>) -> (EncoderStream<'a, O>, RootTypeId) {
        let id = if self.0 { RootTypeId::True } else { RootTypeId::False };
        (stream, id)
    }
}

struct Small(u8);

#[derive(Default)]
struct SmallArray(Vec<u8>);

impl EncoderArray<Small> for SmallArray {
    fn buffer_one(&mut self, value: &Small) {
        self.0.push(value.0);
    }
    fn flush<'a, O: EncodeOptions>(self, mut stream: EncoderStream<'a, O>) -> (EncoderStream<'a, O>, ArrayTypeId) {
        stream.bytes.extend_from_slice(&self.0);
        (stream, ArrayTypeId::U8)
    }
}

impl Encodable for Small {
    type EncoderArray = SmallArray;
    fn encode_root<'a, O: EncodeOptions>(&self, mut stream: EncoderStream<'a, O>) -> (EncoderStream<'a, O>, RootTypeId) {
        stream.bytes.push(self.0);
        (stream, RootTypeId::IntU8)
    }
}

#[test]
fn encode_then_decode_root_values() {
    let bytes = encode_with_options(&Flag(true), &EncodeOptionsDefault);
    assert_eq!(bytes, vec![4]);
    assert!(matches!(read_root(&bytes), Ok(DynRootBranch::Boolean(true))));

    let bytes = encode_with_options(&Small(77), &EncodeOptionsDefault);
    assert_eq!(bytes, vec![13, 77]);
    assert!(matches!(
        read_root(&bytes),
        Ok(DynRootBranch::Integer(tree_buf::branch::root_branch::RootInteger::U(77)))
    ));
}

#[test]
fn finish_document_appends_lengths_last_first() {
    let document = finish_document(vec![0, 9, 9, 9], vec![1, 2], RootTypeId::ArrayN);
    // The id goes in front; the lengths follow as suffix varints, the last
    // written first, so that reading backwards meets the first first.
    assert_eq!(document, vec![3, 9, 9, 9, 0x05, 0x03]);
}

#[test]
fn stream_records_ids_and_lengths() {
    let options = EncodeOptionsDefault;
    let stream = EncoderStream::new(vec![42], Vec::new(), &options);
    let (stream, id) = stream.encode_with_id(|mut s: EncoderStream<'_, EncodeOptionsDefault>| {
        s.bytes.push(7);
        (s, ArrayTypeId::U8)
    });
    assert_eq!(id, ArrayTypeId::U8);
    assert_eq!(stream.bytes(), &vec![42, 13, 7]);

    let (stream, ()) = stream.encode_with_len(|mut s: EncoderStream<'_, EncodeOptionsDefault>| {
        s.bytes.extend_from_slice(&[1, 2, 3]);
        (s, ())
    });
    assert_eq!(stream.lens(), &vec![3]);

    let (stream, id) = stream.restore_if_void(|mut s: EncoderStream<'_, EncodeOptionsDefault>| {
        s.bytes.push(99);
        (s, ArrayTypeId::Void)
    });
    assert_eq!(id, ArrayTypeId::Void);
    assert_eq!(stream.bytes(), &vec![42, 13, 7, 1, 2, 3]);

    let (mut stream, _) = stream.restore_if_void(|mut s: EncoderStream<'_, EncodeOptionsDefault>| {
        s.bytes.push(5);
        (s, ArrayTypeId::U8)
    });
    assert_eq!(stream.bytes(), &vec![42, 13, 7, 1, 2, 3, 5]);

    encode_usize(300, &mut stream);
    assert_eq!(&stream.bytes()[7..], &[0xB2, 0x04]);
    let _ = stream.scratch();
}

#[test]
fn options_hierarchy() {
    assert_eq!(EncodeOptionsDefault.lossy_float_tolerance(), None);
    assert!(DecodeOptionsDefault.parallel());

    let lossy = override_encode_options(EncodeOptionsDefault, LossyFloatTolerance(-7));
    assert_eq!(lossy.lossy_float_tolerance(), Some(-7));
    let lossless = override_encode_options(lossy, LosslessFloat);
    assert_eq!(lossless.lossy_float_tolerance(), None);

    let off = override_decode_options(DecodeOptionsDefault, DisableParallel);
    assert!(!off.parallel());
    let on = override_decode_options(off, EnableParallel);
    assert!(on.parallel());
}

#[test]
fn parallel_runs_both() {
    let off = override_decode_options(DecodeOptionsDefault, DisableParallel);
    assert_eq!(parallel(|| 1 + 1, || "two", &off), (2, "two"));
    assert_eq!(parallel(|| 3, || 4, &DecodeOptionsDefault), (3, 4));
}

#[test]
fn scratch_hands_out_empty_buffers() {
    let mut s = scratch::<Flag>();
    let buffer: tree_buf::buffer::Buffer<u32> = s.take_buffer();
    assert_eq!(buffer.len(), 0);
    s.put_buffer(buffer);
}

#[test]
fn encoder_array_gathers_then_writes() {
    let options = EncodeOptionsDefault;
    let stream = EncoderStream::new(vec![1], Vec::new(), &options);
    let flags = [Flag(true), Flag(false), Flag(true)];
    let (stream, id) = FlagArray::encode_all(&flags, stream);
    assert_eq!(id, ArrayTypeId::PackedBool);
    assert_eq!(stream.bytes(), &vec![1, 0b101]);

    let mut array = SmallArray::default();
    array.buffer_many(&[Small(4), Small(5)]);
    array.buffer_one(&Small(6));
    let (stream, id) = array.flush(stream);
    assert_eq!(id, ArrayTypeId::U8);
    assert_eq!(stream.bytes(), &vec![1, 0b101, 4, 5, 6]);
}

#[test]
fn boxed_values_encode_as_their_contents() {
    let bytes = encode_with_options(&Box::new(Small(77)), &EncodeOptionsDefault);
    assert_eq!(bytes, encode_with_options(&Small(77), &EncodeOptionsDefault));

    let options = EncodeOptionsDefault;
    let stream = EncoderStream::new(Vec::new(), Vec::new(), &options);
    let boxed = [Box::new(Small(8)), Box::new(Small(9))];
    let (stream, id) = <BoxEncoderArray<SmallArray> as EncoderArray<Box<Small>>>::encode_all(&boxed, stream);
    assert_eq!(id, ArrayTypeId::U8);
    assert_eq!(stream.bytes(), &vec![8, 9]);
}

/// Reads counts from a list prepared in advance; past its end it reads zero.
struct Counts(Vec<usize>, usize);

impl InfallibleDecoderArray for Counts {
    type Decode = usize;
    fn new_infallible<'a, O: DecodeOptions>(sticks: DynArrayBranch<'a>, _options: &O) -> DecodeResult<Self> {
        match sticks {
            DynArrayBranch::Void => Ok(Counts(vec![3, 1, 2], 0)),
            _ => Err(DecodeError::SchemaMismatch),
        }
    }
    fn decode_next_infallible(&mut self) -> usize {
        let value = self.0.get(self.1).copied().unwrap_or_default();
        self.1 += 1;
        value
    }
}

impl Decodable for Small {
    type DecoderArray = SmallReader;
    fn decode<'a, O: DecodeOptions>(sticks: DynRootBranch<'a>, _options: &O) -> DecodeResult<Self> {
        match sticks {
            DynRootBranch::Integer(tree_buf::branch::root_branch::RootInteger::U(v)) if v < 256 => Ok(Small(v as u8)),
            _ => Err(DecodeError::SchemaMismatch),
        }
    }
}

struct SmallReader(Counts);

impl DecoderArray for SmallReader {
    type Error = DecodeError;
    type Decode = Small;
    fn new<'a, O: DecodeOptions>(sticks: DynArrayBranch<'a>, options: &O) -> DecodeResult<Self> {
        Ok(SmallReader(Counts::new_infallible(sticks, options)?))
    }
    fn decode_next(&mut self) -> Result<Small, DecodeError> {
        let v = self.0.decode_next_infallible();
        if v == 0 { Err(DecodeError::InvalidFormat) } else { Ok(Small(v as u8)) }
    }
}

#[test]
fn infallible_arrays_never_fail_to_read() {
    let mut counts = <Counts as DecoderArray>::new(DynArrayBranch::Void, &DecodeOptionsDefault).unwrap();
    assert!(matches!(counts.decode_next(), Ok(3)));
    assert!(matches!(counts.decode_next(), Ok(1)));
    assert!(matches!(counts.decode_next(), Ok(2)));
    assert!(matches!(counts.decode_next(), Ok(0)));
    assert!(<Counts as DecoderArray>::new(DynArrayBranch::Map0, &DecodeOptionsDefault).is_err());
}

#[test]
fn boxed_values_decode_as_their_contents() {
    let bytes = encode_with_options(&Small(77), &EncodeOptionsDefault);
    let root = read_root(&bytes).unwrap();
    let boxed = <Box<Small> as Decodable>::decode(root, &DecodeOptionsDefault).unwrap();
    assert_eq!(boxed.0, 77);
    assert!(<Box<Small> as Decodable>::decode(DynRootBranch::Void, &DecodeOptionsDefault).is_err());

    let mut reader = BoxDecoderArray::<SmallReader>::new(DynArrayBranch::Void, &DecodeOptionsDefault).unwrap();
    assert_eq!(reader.decode_next().unwrap().0, 3);
    assert_eq!(reader.decode_next().unwrap().0, 1);
    assert_eq!(reader.decode_next().unwrap().0, 2);
    assert_eq!(reader.decode_next().err(), Some(DecodeError::InvalidFormat));
    assert!(BoxDecoderArray::<SmallReader>::new(DynArrayBranch::Map0, &DecodeOptionsDefault).is_err());
}

#[test]
fn decode_with_options_reads_the_root_then_the_type() {
    let bytes = encode_with_options(&Small(77), &EncodeOptionsDefault);
    let value: Small = tree_buf::encoder_decoder::decode_with_options(&bytes, &DecodeOptionsDefault).unwrap();
    assert_eq!(value.0, 77);
    // A root that decodes, but not as a `Small`.
    let flag = encode_with_options(&Flag(true), &EncodeOptionsDefault);
    assert_eq!(
        tree_buf::encoder_decoder::decode_with_options::<Small, _>(&flag, &DecodeOptionsDefault).err(),
        Some(DecodeError::SchemaMismatch)
    );
    // No root at all.
    assert_eq!(
        tree_buf::encoder_decoder::decode_with_options::<Small, _>(&[200], &DecodeOptionsDefault).err(),
        Some(DecodeError::InvalidFormat)
    );
}
