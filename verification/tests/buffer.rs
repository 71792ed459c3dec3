use tree_buf::buffer::{Buffer, BufferPool};

#[test]
pub fn can_push_to_capacity() {
    let mut buffer = Buffer::new();
    for i in 0..buffer.capacity() {
        assert_eq!(buffer.len(), i);
        assert_eq!(Ok(()), buffer.try_push(i));
    }
    assert_eq!(buffer.len(), buffer.capacity());
    assert_eq!(Err(1), buffer.try_push(1));
    assert_eq!(Err(100), buffer.try_push(100));
}

#[test]
pub fn can_extend() {
    // Try just a normal extend
    let mut buffer = Buffer::new();
    let mut data = vec![100u32, 20, 20, 10, 0];
    assert_eq!(Ok(()), buffer.try_extend(&data[..]));
    assert_eq!(&data[..], buffer.as_slice());

    // And another
    let extension = vec![10, 9, 8, 7, 6, 5, 4];
    data.extend_from_slice(&extension[..]);
    assert_eq!(Ok(()), buffer.try_extend(&extension[..]));
    assert_eq!(&data[..], buffer.as_slice());

    // Try extending beyond the capacity
    let long: Vec<_> = (0..buffer.capacity() as u32).collect();
    data.extend_from_slice(&long[..]);
    let err = buffer.try_extend(&long[..]);
    let too_much = &data[buffer.capacity()..];
    assert_eq!(Err(too_much), err);
    assert_eq!(&data[0..buffer.capacity()], buffer.as_slice());
}

#[test]
pub fn deref() {
    let mut buffer = Buffer::new();

    let data = vec![0u8, 1, 255, 12];
    for elem in data.iter() {
        buffer.try_push(*elem).unwrap();
    }

    assert_eq!(&data[..], buffer.as_slice());
}

#[test]
fn capacity_follows_the_size_of_the_values() {
    assert_eq!(Buffer::<u8>::new().capacity(), 131072);
    assert_eq!(Buffer::<u32>::new().capacity(), 32768);
    assert_eq!(Buffer::<u64>::new().capacity(), 16384);
}

#[test]
fn pool_hands_out_empty_buffers() {
    let mut pool = BufferPool::new();
    let mut buffer: Buffer<u16> = pool.take();
    assert_eq!(buffer.len(), 0);
    buffer.try_push(7).unwrap();
    buffer.clear();
    pool.put(buffer);
    let again: Buffer<u64> = pool.take();
    assert_eq!(again.len(), 0);
    assert_eq!(again.capacity(), 16384);
}
