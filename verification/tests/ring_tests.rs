use d3cap::ring::RingBuffer;

#[test]
fn test_basics() {
    // size 0
    let buffer: RingBuffer<i64> = RingBuffer::new(0);
    assert!(buffer.len() == 0);

    // size 1
    let mut buffer = RingBuffer::new(1);
    assert!(buffer.len() == 0);

    buffer.push(2);
    assert!(buffer.len() == 1);
    assert!(*buffer.get(0) == 2);

    buffer.push(3);
    assert!(buffer.len() == 1);
    assert!(*buffer.get(0) == 3);

    // size 4
    let mut buffer = RingBuffer::new(4);
    assert!(buffer.len() == 0);

    buffer.push(1);
    assert!(buffer.len() == 1);
    assert!(*buffer.get(0) == 1);

    buffer.push(2);
    assert!(buffer.len() == 2);
    assert!(*buffer.get(0) == 1);
    assert!(*buffer.get(1) == 2);

    buffer.push(3);
    assert!(buffer.len() == 3);
    assert!(*buffer.get(0) == 1);
    assert!(*buffer.get(1) == 2);
    assert!(*buffer.get(2) == 3);

    buffer.push(4);
    assert!(buffer.len() == 4);
    assert!(*buffer.get(0) == 1);
    assert!(*buffer.get(1) == 2);
    assert!(*buffer.get(2) == 3);
    assert!(*buffer.get(3) == 4);

    // At this point the elements have wrapped around.
    buffer.push(5);
    assert!(buffer.len() == 4);
    assert!(*buffer.get(3) == 5);

    // But the public API hides this from clients (and the private fields
    // can only be used within the library).
    assert!(*buffer.get(0) == 2);
    assert!(*buffer.get(1) == 3);
    assert!(*buffer.get(2) == 4);
    assert!(*buffer.get(3) == 5);
    assert!(buffer.to_str() == "[2, 3, 4, 5]");

    // clear
    buffer.clear();
    assert!(buffer.len() == 0);

    buffer.push(2);
    assert!(buffer.len() == 1);
    assert!(*buffer.get(0) == 2);

    buffer.push(3);
    assert!(buffer.len() == 2);
    assert!(*buffer.get(0) == 2);
    assert!(*buffer.get(1) == 3);
}

#[test]
fn test_functional() {
    let mut buffer: RingBuffer<i64> = RingBuffer::new(4);
    buffer.push(1);
    buffer.push(3);
    buffer.push(5);
    buffer.push(2);

    let mut max = 0;
    let mut it = buffer.iter();
    while let Some(element) = it.next() {
        if *element > max {
            max = *element;
        }
    }
    assert!(max == 5);

    let mut odd: Vec<bool> = Vec::new();
    let mut it = buffer.iter();
    while let Some(e) = it.next() {
        odd.push(*e & 1 == 1);
    }
    assert!(odd == vec![true, true, true, false]);

    let mut odd: Vec<i64> = Vec::new();
    let mut it = buffer.iter();
    while let Some(e) = it.next() {
        if e & 1 == 1 {
            odd.push(*e);
        }
    }
    assert!(odd == vec![1, 3, 5]);

    let mut sum: i64 = 0;
    let mut it = buffer.iter();
    while let Some(b) = it.next() {
        sum += *b;
    }
    assert!(sum == 1 + 3 + 5 + 2);
}

#[test]
fn overwrites_keep_the_most_recent_values() {
    // seven pushes into capacity three: only the last three remain
    let mut buffer: RingBuffer<i64> = RingBuffer::new(3);
    for v in 10..17 {
        buffer.push(v);
    }
    assert_eq!(buffer.len(), 3);
    assert_eq!(*buffer.get(0), 14);
    assert_eq!(*buffer.get(1), 15);
    assert_eq!(*buffer.get(2), 16);
    assert!(buffer.is_empty() == false);
}

#[test]
fn zero_capacity_push_is_a_no_op() {
    let mut buffer: RingBuffer<i64> = RingBuffer::new(0);
    buffer.push(7);
    buffer.push(8);
    assert_eq!(buffer.len(), 0);
    assert!(buffer.is_empty());
    assert_eq!(buffer.to_str(), "[]");
}
