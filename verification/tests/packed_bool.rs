use tree_buf::encodings::packed_bool::{decode_packed_bool, encode_packed_bool};

#[test]
fn round_trip_packed_bool() {
    let cases = vec![
        vec![],
        vec![true],
        vec![false],
        vec![true, true, true, true, true, true, true],
        vec![true, true, true, true, true, true, true, true],
        vec![true, true, true, true, true, true, true, true, true],
        vec![true, false, true, false, true, false, true, false, true, false, true, false, true, false, true, false],
        vec![false, true, false, true, false, true, false, true, false, true, false, true, false, true, false, true],
        vec![true, false, true, false, true, false, true, false, true, false, true, false, true, false, true, true, true],
        vec![
            false, true, false, true, false, true, false, true, false, true, false, true, false, true, false, false, false,
        ],
    ];

    for case in cases {
        let mut bytes = Vec::new();
        encode_packed_bool(&case, &mut bytes);
        let result = decode_packed_bool(&bytes);

        // Can't simply assert_eq, because the decoder will pad with false at the end.
        for i in 0..case.len() {
            assert_eq!(case[i], result[i]);
        }
    }
}

#[test]
fn packed_bool_exact_bytes() {
    let mut bytes = Vec::new();
    encode_packed_bool(&[true, false, true], &mut bytes);
    assert_eq!(bytes, vec![0b101]);

    let mut bytes = vec![7u8];
    encode_packed_bool(&[true; 9], &mut bytes);
    assert_eq!(bytes, vec![7, 0xFF, 0x01]);

    assert_eq!(decode_packed_bool(&[0b1000_0001]), vec![true, false, false, false, false, false, false, true]);
    assert!(decode_packed_bool(&[]).is_empty());
}
