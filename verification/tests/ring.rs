use wordle::buffer::CircularBuffer;

#[test]
fn no_overwrite() {
    let mut buf = CircularBuffer::new(3);
    buf.push("hello".to_string());
    buf.push("world".to_string());

    let vec = buf.to_vector();

    assert_eq!(2, buf.len, "unexpected buffer size");
    assert_eq!(2, vec.len(), "unexpected vector size");
    assert_eq!(vec[0], "hello".to_string(), "unexpected value at index 0");
    assert_eq!(vec[1], "world".to_string(), "unexpected value at index 1");
}

#[test]
fn with_overwrite() {
    let mut buf = CircularBuffer::new(3);
    buf.push("some");
    buf.push("long");
    buf.push("sentence");

    buf.push("that");
    buf.push("overwrite");
    buf.push("the");

    buf.push("initial");
    buf.push("one");

    let vec = buf.to_vector();

    assert_eq!(3, buf.len, "unexpected buffer size");
    assert_eq!(3, vec.len(), "unexpected vector size");
    assert_eq!(vec[0], "the".to_string(), "unexpected value at index 0");
    assert_eq!(vec[1], "initial".to_string(), "unexpected value at index 1");
    assert_eq!(vec[2], "one".to_string(), "unexpected value at index 1");
}

#[test]
fn single_slot_keeps_latest() {
    let mut buf = CircularBuffer::new(1);
    buf.push(10u32);
    buf.push(20u32);
    buf.push(30u32);

    let vec = buf.to_vector();

    assert_eq!(1, buf.len);
    assert_eq!(vec![30u32], vec);
}

#[test]
fn empty_buffer_gives_empty_vector() {
    let buf: CircularBuffer<String> = CircularBuffer::new(4);
    assert_eq!(0, buf.len);
    assert!(buf.to_vector().is_empty());
}
