use tree_buf::encodings::read_all;
use tree_buf::encodings::varint::{
    decode_prefix_varint, decode_suffix_varint, encode_prefix_varint, encode_suffix_varint,
    size_for_varint,
};
use tree_buf::error::{DecodeError, DecodeResult};

fn round_trip_prefix(values: &[u64]) -> DecodeResult<()> {
    let mut bytes = Vec::new();
    for value in values.iter() {
        encode_prefix_varint(*value, &mut bytes);
    }
    let result = read_all(&bytes, |b: &[u8], o: usize| {
        let mut offset = o;
        let value = decode_prefix_varint(b, &mut offset)?;
        Ok((value, offset))
    })?;
    assert_eq!(&result[..], values);
    Ok(())
}

fn round_trip_suffix(values: &[u64]) -> DecodeResult<()> {
    let mut bytes = Vec::new();
    for value in values.iter() {
        encode_suffix_varint(*value, &mut bytes);
    }

    let mut result = Vec::new();
    let mut offset = bytes.len().wrapping_sub(1);
    while offset != std::usize::MAX {
        let next = decode_suffix_varint(&bytes, &mut offset)?;
        result.push(next);
    }
    result.reverse();

    assert_eq!(&result[..], values);
    Ok(())
}

#[test]
fn test_prefix() -> DecodeResult<()> {
    let vecs = vec![vec![99, 127, 128, 0, 1, 2, 3, std::u64::MAX]];
    for vec in &vecs {
        round_trip_prefix(vec)?;
    }

    // All the numbers with between 0 and 3 bits set
    let mut vec = Vec::new();
    for a in 0..64 {
        for b in 0..64 {
            for c in 0..64 {
                let num = (1_u64 << a) | (1_u64 << b) | (1_u64 << c);
                vec.push(num);
            }
            round_trip_prefix(&vec)?;
            vec.clear();
        }
    }
    Ok(())
}

#[test]
fn test_suffix() -> DecodeResult<()> {
    let vecs = vec![vec![99, 127, 128, 0, 1, 2, 3, std::u64::MAX]];
    for vec in &vecs {
        round_trip_suffix(vec)?;
    }

    let mut vec = Vec::new();
    for a in 0..64 {
        for b in 0..64 {
            for c in 0..64 {
                let num = (1_u64 << a) | (1_u64 << b) | (1_u64 << c);
                vec.push(num);
            }
            round_trip_suffix(&vec)?;
            vec.clear();
        }
    }
    Ok(())
}

#[test]
fn prefix_varint_exact_bytes() {
    let mut bytes = Vec::new();
    encode_prefix_varint(0, &mut bytes);
    assert_eq!(bytes, vec![0x01]);

    let mut bytes = Vec::new();
    encode_prefix_varint(127, &mut bytes);
    assert_eq!(bytes, vec![0xFF]);

    // 300 needs two bytes: a tag ending in `10`, then the high bits.
    let mut bytes = Vec::new();
    encode_prefix_varint(300, &mut bytes);
    assert_eq!(bytes, vec![0xB2, 0x04]);

    let mut bytes = Vec::new();
    encode_prefix_varint(u64::MAX, &mut bytes);
    assert_eq!(bytes.len(), 9);
    assert_eq!(bytes[0], 0);
}

#[test]
fn suffix_varint_exact_bytes() {
    let mut bytes = Vec::new();
    encode_suffix_varint(300, &mut bytes);
    assert_eq!(bytes, vec![0x04, 0xB2]);
}

#[test]
fn varint_sizes() {
    assert_eq!(size_for_varint(0), 1);
    assert_eq!(size_for_varint(127), 1);
    assert_eq!(size_for_varint(128), 2);
    assert_eq!(size_for_varint(0x3FFF), 2);
    assert_eq!(size_for_varint(0x4000), 3);
    assert_eq!(size_for_varint((1 << 56) - 1), 8);
    assert_eq!(size_for_varint(1 << 56), 9);
    assert_eq!(size_for_varint(u64::MAX), 9);
    for value in [0u64, 1, 300, 1 << 20, 1 << 40, u64::MAX] {
        let mut bytes = Vec::new();
        encode_prefix_varint(value, &mut bytes);
        assert_eq!(bytes.len(), size_for_varint(value));
    }
}

#[test]
fn truncated_varint_is_an_error() {
    let mut bytes = Vec::new();
    encode_prefix_varint(1 << 30, &mut bytes);
    bytes.pop();
    let mut offset = 0;
    assert_eq!(decode_prefix_varint(&bytes, &mut offset), Err(DecodeError::InvalidFormat));
    assert_eq!(offset, 0);

    let empty: Vec<u8> = Vec::new();
    let mut offset = 0;
    assert_eq!(decode_prefix_varint(&empty, &mut offset), Err(DecodeError::InvalidFormat));
}
