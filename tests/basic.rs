use donut::{ArrayBuffer, RingBuffer};

#[test]
fn buffer_basic() {
    let mut buffer: RingBuffer<4> = RingBuffer::with_capacity();

    buffer.push(64);
    buffer.push(32);
    buffer.push(16);

    assert_eq!(buffer.len(), 3);
    assert_eq!(buffer.pop(), Some(64));
    assert_eq!(buffer.len(), 2);

    buffer.push(8);
    buffer.push(4);

    assert_eq!(buffer.len(), 4);
    assert!(buffer.is_full());

    assert_eq!(buffer.push(2), Some(2));

    assert_eq!(buffer.pop(), Some(32));
    assert_eq!(buffer.pop(), Some(16));
    assert_eq!(buffer.pop(), Some(8));
    assert_eq!(buffer.pop(), Some(4));
    assert_eq!(buffer.pop(), None);

    buffer.push(100);
    buffer.push(101);

    assert_eq!(buffer.pop(), Some(100));
    assert_eq!(buffer.pop(), Some(101));
    assert_eq!(buffer.pop(), None);
}

#[test]
fn array_basic() {
    let mut buffer: ArrayBuffer<u64, 4> = ArrayBuffer::with_capacity();

    buffer.push(64);
    buffer.push(32);
    buffer.push(16);

    assert_eq!(buffer.len(), 3);
    assert_eq!(buffer.pop(), Some(64));
    assert_eq!(buffer.len(), 2);

    buffer.push(8);
    buffer.push(4);

    assert_eq!(buffer.len(), 4);
    assert!(buffer.is_full());

    assert_eq!(buffer.push(2), Some(2));

    assert_eq!(buffer.pop(), Some(32));
    assert_eq!(buffer.pop(), Some(16));
    assert_eq!(buffer.pop(), Some(8));
    assert_eq!(buffer.pop(), Some(4));
    assert_eq!(buffer.pop(), None);

    buffer.push(100);
    buffer.push(101);

    assert_eq!(buffer.pop(), Some(100));
    assert_eq!(buffer.pop(), Some(101));
    assert_eq!(buffer.pop(), None);
}

#[test]
fn tests_basic() {
    let mut buffer: ArrayBuffer<u64, 4> = ArrayBuffer::new();

    buffer.push(64);
    buffer.push(32);
    buffer.push(16);

    assert_eq!(buffer.len(), 3);
    assert_eq!(buffer.pop(), Some(64));
    assert_eq!(buffer.len(), 2);

    buffer.push(8);
    buffer.push(4);

    assert_eq!(buffer.len(), 4);
    assert!(buffer.is_full());

    assert_eq!(buffer.push(2), Some(2));

    assert_eq!(buffer.pop(), Some(32));
    assert_eq!(buffer.pop(), Some(16));
    assert_eq!(buffer.pop(), Some(8));
    assert_eq!(buffer.pop(), Some(4));
    assert_eq!(buffer.pop(), None);

    buffer.push(100);
    buffer.push(101);

    assert_eq!(buffer.pop(), Some(100));
    assert_eq!(buffer.pop(), Some(101));
    assert_eq!(buffer.pop(), None);
}
