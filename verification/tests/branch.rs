use tree_buf::branch::path::Branch;

#[test]
fn debug_formatting() {
    let root = Branch::root();
    let root_one = root.child("one");
    let root_one_a = root_one.child("a");

    fn expect(branch: &Branch, s: &str) {
        assert_eq!(branch.debug_string(), s);
    }

    expect(&root, "");
    expect(&root_one, ":one");
    expect(&root_one_a, ":one:a");
}

#[test]
fn hash_equality() {
    let root = Branch::root();
    let root_one = root.child("one");
    let root_one_a = root_one.child("a");
    let root_one_one = root_one.child("one");

    fn eq(l: &Branch, r: &Branch) {
        assert_eq!(l.hash_128(), r.hash_128());
    }
    fn ne(l: &Branch, r: &Branch) {
        assert_ne!(l.hash_128(), r.hash_128());
    }

    ne(&root, &root_one);
    ne(&root, &root_one_one);
    ne(&root_one, &root_one_one);
    ne(&root_one_one, &root_one_a);

    eq(&root, &Branch::root());
    eq(&root_one, &Branch::root().child("one"));
    eq(&root_one_one, &Branch::root().child("one").child("one"));
}

#[test]
fn branch_test() {
    let root = Branch::root();
    let one = root.child("one");
    let two = root.child("two");
    let one_a = one.child("a");

    assert_ne!(one.hash_128(), two.hash_128());

    assert_eq!(one_a.debug_string(), ":one:a");
}

#[test]
fn hash_fits_in_64_bits_and_names_are_kept() {
    let root = Branch::root();
    let deep = root.child("x");
    let deeper = deep.child("y");
    assert!(deeper.hash_128() <= u64::MAX as u128);
    assert_eq!(deeper.namespace(), "y");
    assert_eq!(root.namespace(), "");
}

use tree_buf::branch::stick::{BranchId, PrimitiveId, Stick};

#[test]
fn branch_id_round_trip_and_sticks() {
    let id = BranchId { name: "field", parent: 300 };
    let mut bytes = vec![1u8];
    id.flush(&mut bytes);
    assert_eq!(bytes, vec![1, 0xB2, 0x04, 0x0B, b'f', b'i', b'e', b'l', b'd']);
    let mut offset = 1;
    let read = BranchId::read(&bytes, &mut offset);
    assert_eq!(read.name, "field");
    assert_eq!(read.parent, 300);
    assert_eq!(offset, bytes.len());

    // A stick: its end offset, its id, its kind, then its data.
    let mut stored = Vec::new();
    let end: u64 = 8 + 3 + 1 + 2;
    stored.extend_from_slice(&end.to_le_bytes());
    BranchId { name: "a", parent: 0 }.flush(&mut stored);
    stored.push(5);
    stored.extend_from_slice(&[7, 7]);
    let mut offset = 0;
    let stick = Stick::read(&stored, &mut offset);
    assert_eq!(stick.name, "a");
    assert_eq!(stick.parent, 0);
    assert_eq!(stick.primitive, PrimitiveId::Bool);
    assert_eq!(stick.bytes, &[7, 7]);
    assert_eq!(stick.start, 0);
    assert_eq!(offset, stored.len());

    let sticks = vec![
        Stick { name: "a", parent: 1, bytes: &[], primitive: PrimitiveId::U32, start: 0 },
        Stick { name: "b", parent: 0, bytes: &[], primitive: PrimitiveId::Str, start: 5 },
        Stick { name: "b", parent: 0, bytes: &[], primitive: PrimitiveId::Bool, start: 9 },
    ];
    let found = BranchId { name: "b", parent: 0 }.find_stick(&sticks).unwrap();
    assert_eq!(found.start, 5);
    assert!(BranchId { name: "a", parent: 0 }.find_stick(&sticks).is_none());
    assert_eq!(PrimitiveId::from_u32(7), Some(PrimitiveId::Str));
    assert_eq!(PrimitiveId::from_u32(8), None);
    assert_eq!(PrimitiveId::Usize.to_u32(), 6);
}

use tree_buf::primitive::{Array, Opt, Primitive, PrimitiveBuffer, Struct};

#[test]
fn primitive_buffers_read_back_in_order() {
    let mut buffer = PrimitiveBuffer::new();
    buffer.write(&3u32);
    buffer.write(&9u32);
    assert_eq!(buffer.read(), 3);
    assert_eq!(buffer.read(), 9);
    assert_eq!(<u32 as Primitive>::id(), PrimitiveId::U32);
    assert_eq!(Struct::id(), PrimitiveId::Struct);
    assert_eq!(Array::id(), PrimitiveId::Array);
    assert_eq!(Opt::id(), PrimitiveId::Opt);
    assert_eq!(Array::default().0, 0);
    assert!(!Opt::default().0);
}

use tree_buf::reader_writer::{Writable, Writer};

struct Note(u8);

struct NoteWriter {
    values: Vec<u8>,
}

impl Writer for NoteWriter {
    type Write = Note;
    fn write(&mut self, value: &Note) {
        self.values.push(value.0);
    }
    fn flush(&self, branch: &BranchId<'_>, bytes: &mut Vec<u8>) {
        branch.flush(bytes);
        bytes.extend_from_slice(&self.values);
    }
    fn new() -> Self {
        NoteWriter { values: Vec::new() }
    }
}

impl Writable for Note {
    type Writer = NoteWriter;
}

#[test]
fn write_starts_with_the_preamble() {
    let bytes = tree_buf::reader_writer::write(&Note(42));
    assert_eq!(&bytes[..7], b"TREEBUF");
    // The root branch: parent 0, empty name, then the buffered value.
    assert_eq!(&bytes[7..], &[0x01, 0x01, 42]);
}

#[test]
fn fallible_reads_of_ids_and_sticks() {
    let id = BranchId { name: "field", parent: 300 };
    let mut bytes = Vec::new();
    id.flush(&mut bytes);
    let mut offset = 0;
    let read = BranchId::try_read(&bytes, &mut offset).unwrap();
    assert_eq!((read.name, read.parent, offset), ("field", 300, bytes.len()));
    // The name is cut short.
    let mut offset = 0;
    assert!(BranchId::try_read(&bytes[..bytes.len() - 1], &mut offset).is_err());

    let mut stored = Vec::new();
    let end: u64 = 8 + 3 + 1 + 2;
    stored.extend_from_slice(&end.to_le_bytes());
    BranchId { name: "a", parent: 0 }.flush(&mut stored);
    stored.push(5);
    stored.extend_from_slice(&[7, 7]);
    let mut offset = 0;
    let stick = Stick::try_read(&stored, &mut offset).unwrap();
    assert_eq!((stick.name, stick.primitive, stick.bytes, offset), ("a", PrimitiveId::Bool, &[7u8, 7][..], 14));
    // The end offset lies past the bytes.
    let mut offset = 0;
    assert_eq!(Stick::try_read(&stored[..13], &mut offset).err(), Some(tree_buf::error::DecodeError::InvalidFormat));
    // An unknown kind.
    stored[11] = 99;
    let mut offset = 0;
    assert!(Stick::try_read(&stored, &mut offset).is_err());
}
