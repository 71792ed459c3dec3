use tree_buf::encodings::delta::{delta_decode_in_place, delta_encode_in_place};

#[test]
pub fn round_trip() {
    let tests: Vec<Vec<i64>> = vec![vec![], vec![10], vec![0, 1]];
    for test in tests {
        let mut data = test.clone();
        delta_encode_in_place(&mut data);
        delta_decode_in_place(&mut data);
        assert_eq!(data, test);
    }
}

#[test]
fn delta_exact_values() {
    let mut data = vec![5i64, 7, 4, 4, 10];
    delta_encode_in_place(&mut data);
    assert_eq!(data, vec![5, 2, -3, 0, 6]);
    delta_decode_in_place(&mut data);
    assert_eq!(data, vec![5, 7, 4, 4, 10]);
}
