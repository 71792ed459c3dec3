use tree_buf::encodings::gorilla::gorilla_words;
use tree_buf::encodings::zfp::{decode_zfp_header, encode_zfp_header};
use tree_buf::error::DecodeError;

#[test]
fn gorilla_words_split_the_stream() {
    // Two whole words, then three bytes of a last word, then the bit count.
    let mut bytes = Vec::new();
    bytes.extend_from_slice(&1u64.to_le_bytes());
    bytes.extend_from_slice(&0x0102_0304_0506_0708u64.to_le_bytes());
    bytes.extend_from_slice(&[0xAA, 0xBB, 0xCC]);
    bytes.push(17);
    let (words, bits) = gorilla_words(&bytes).unwrap();
    assert_eq!(bits, 17);
    assert_eq!(words, vec![1, 0x0102_0304_0506_0708, 0xCCBB_AA00_0000_0000]);

    // Only the bit count: one empty last word.
    assert_eq!(gorilla_words(&[5]), Ok((vec![0], 5)));
    assert_eq!(gorilla_words(&[]), Err(DecodeError::InvalidFormat));
}

#[test]
fn zfp_header_round_trip() {
    for (len, tolerance) in [(0u64, None), (3, Some(0)), (1000, Some(-12)), (7, Some(i32::MAX)), (9, Some(-1))] {
        let mut bytes = Vec::new();
        encode_zfp_header(len, tolerance, &mut bytes);
        let header_len = bytes.len();
        bytes.extend_from_slice(&[1, 2, 3]);
        assert_eq!(decode_zfp_header(&bytes), Ok((len, tolerance, header_len)));
    }
    // Tolerance -1 is zigzag code 1, stored as 2.
    let mut bytes = Vec::new();
    encode_zfp_header(0, Some(-1), &mut bytes);
    assert_eq!(bytes, vec![0x01, 0x05]);
    assert_eq!(decode_zfp_header(&[0x03]), Err(DecodeError::InvalidFormat));
}

use tree_buf::branch::{decode_usize, read_usize};
use tree_buf::encodings::dictionary::{dictionary_indices, DictionaryIterator};
use tree_buf::encodings::rle::{get_runs, RleIterator};
use tree_buf::encodings::rle_bool::{bool_runs_and_id, decode_rle_bool};
use tree_buf::type_id::ArrayTypeId;

#[test]
fn runs_of_repeated_values() {
    let (runs, values) = get_runs(&[1, 1, 2, 3, 3, 3]).unwrap();
    assert_eq!(runs, vec![1, 0, 2]);
    assert_eq!(values, vec![1, 2, 3]);
    // Nothing repeats, or too few items: no runs.
    assert_eq!(get_runs(&[1, 2, 3]), Err(()));
    assert_eq!(get_runs(&[5]), Err(()));

    let mut iter = RleIterator::from_decoded(runs, values);
    let mut items = Vec::new();
    while let Some(item) = iter.next_item() {
        items.push(item);
    }
    assert_eq!(items, vec![1, 1, 2, 3, 3, 3]);
    assert_eq!(iter.next_item(), None);
}

#[test]
fn runs_of_booleans() {
    let mut items = vec![true; 10];
    items.extend(vec![false; 20]);
    items.push(true);
    let (runs, id) = bool_runs_and_id(&items).unwrap();
    assert_eq!(runs, vec![9, 19, 0]);
    assert_eq!(id, ArrayTypeId::RLEBoolTrue);
    assert_eq!(decode_rle_bool(runs, true), items);

    let (runs, id) = bool_runs_and_id(&[false; 30]).unwrap();
    assert_eq!(runs, vec![29]);
    assert_eq!(id, ArrayTypeId::RLEBoolFalse);
    // Fewer than 25 booleans are always packed.
    assert_eq!(bool_runs_and_id(&[true; 24]), Err(()));
    assert_eq!(decode_rle_bool(vec![1, 0, 2], false), vec![false, false, true, false, false, false]);
}

#[test]
fn dictionary_of_repeated_values() {
    let (indices, values) = dictionary_indices(&[7, 9, 7, 7, 9, 4]).unwrap();
    assert_eq!(indices, vec![0, 1, 0, 0, 1, 2]);
    assert_eq!(values, vec![7, 9, 4]);
    // All items differ, or too few items: no dictionary.
    assert_eq!(dictionary_indices(&[1, 2, 3]), Err(()));
    assert_eq!(dictionary_indices(&[1]), Err(()));

    let mut iter = DictionaryIterator::from_decoded(indices, values);
    let mut items = Vec::new();
    while let Some(item) = iter.next_item() {
        items.push(item);
    }
    assert_eq!(items, vec![7, 9, 7, 7, 9, 4]);
}

#[test]
fn usize_varints_and_error_messages() {
    let bytes = [0xB2, 0x04, 0x0B];
    let mut offset = 0;
    assert_eq!(read_usize(&bytes, &mut offset), Ok(300));
    assert_eq!(offset, 2);
    assert_eq!(decode_usize(&bytes, &mut offset), Ok(5));
    assert_eq!(offset, 3);
    assert_eq!(read_usize(&bytes, &mut offset), Err(DecodeError::InvalidFormat));

    assert_eq!(
        DecodeError::SchemaMismatch.message(),
        "The expected schema did not match that in the document."
    );
    assert_eq!(DecodeError::InvalidFormat.message(), "The format was not a valid Tree-Buf");
}

use tree_buf::naming::canonical_ident;

#[test]
fn identifiers_are_stored_in_camel_case() {
    assert_eq!(canonical_ident("foo_bar"), "fooBar");
    assert_eq!(canonical_ident("FooBar"), "fooBar");
    assert_eq!(canonical_ident("FOO_BAR"), "fooBar");
    assert_eq!(canonical_ident("fooBar"), "fooBar");
}

use tree_buf::branch::array_branch::DynArrayBranch;
use tree_buf::options::{override_decode_options, DecodeOptionsDefault, DisableParallel};

fn numbers(branch: DynArrayBranch<'_>, items: Vec<u64>) -> Result<Vec<u64>, DecodeError> {
    match branch {
        DynArrayBranch::Void => Ok(items),
        _ => Err(DecodeError::SchemaMismatch),
    }
}

#[test]
fn rle_iterator_decodes_both_branches() {
    let mut iter = RleIterator::new(
        Box::new(DynArrayBranch::Void),
        Box::new(DynArrayBranch::Void),
        &DecodeOptionsDefault,
        |b| numbers(b, vec![2, 0]),
        |b| numbers(b, vec![7, 8]),
    )
    .unwrap();
    let mut items = Vec::new();
    while let Some(item) = iter.next_item() {
        items.push(item);
    }
    assert_eq!(items, vec![7, 7, 7, 8]);

    // The runs' error comes first, then the values'.
    let sequential = override_decode_options(DecodeOptionsDefault, DisableParallel);
    let failed = RleIterator::<u64>::new(
        Box::new(DynArrayBranch::Map0),
        Box::new(DynArrayBranch::Void),
        &sequential,
        |b| numbers(b, vec![0]),
        |_| Err(DecodeError::InvalidFormat),
    );
    assert_eq!(failed.err(), Some(DecodeError::SchemaMismatch));
    let failed = RleIterator::<u64>::new(
        Box::new(DynArrayBranch::Void),
        Box::new(DynArrayBranch::Void),
        &sequential,
        |b| numbers(b, vec![0]),
        |_| Err(DecodeError::InvalidFormat),
    );
    assert_eq!(failed.err(), Some(DecodeError::InvalidFormat));
}

#[test]
fn dictionary_iterator_decodes_both_branches() {
    let mut iter = DictionaryIterator::new(
        Box::new(DynArrayBranch::Void),
        Box::new(DynArrayBranch::Void),
        &DecodeOptionsDefault,
        |b| numbers(b, vec![1, 0, 1, 5]),
        |b| numbers(b, vec![40, 50]),
    )
    .unwrap();
    let mut items = Vec::new();
    while let Some(item) = iter.next_item() {
        items.push(item);
    }
    // An index past the values reads as the default value.
    assert_eq!(items, vec![50, 40, 50, 0]);

    let failed = DictionaryIterator::<u64>::new(
        Box::new(DynArrayBranch::Void),
        Box::new(DynArrayBranch::Map0),
        &DecodeOptionsDefault,
        |b| numbers(b, vec![0]),
        |b| numbers(b, vec![1]),
    );
    assert_eq!(failed.err(), Some(DecodeError::SchemaMismatch));
}
