use bytes::Bytes;
use shepherd::buffer::{LogBuffer, LogBufferMessage, LOG_BUFFER_CAPACITY};

#[test]
fn new_buffer_is_empty() {
    let b = LogBuffer::new(LOG_BUFFER_CAPACITY);
    assert_eq!(b.len(), 0);
    assert!(b.get(0).is_none());
    assert_eq!(LOG_BUFFER_CAPACITY, 1024);
}

#[test]
fn appends_keep_order() {
    let mut b = LogBuffer::new(4);
    b.handle(LogBufferMessage::Append(Bytes::from_static(b"one")));
    b.handle(LogBufferMessage::Append(Bytes::from_static(b"two")));
    assert_eq!(b.len(), 2);
    assert_eq!(b.get(0).unwrap().as_ref(), b"one");
    assert_eq!(b.get(1).unwrap().as_ref(), b"two");
    assert!(b.get(2).is_none());
}

#[test]
fn appends_past_initial_capacity() {
    let mut b = LogBuffer::new(1);
    for i in 0..10u8 {
        b.handle(LogBufferMessage::Append(Bytes::from(vec![i])));
    }
    assert_eq!(b.len(), 10);
    assert_eq!(b.get(9).unwrap().as_ref(), &[9u8]);
}

#[test]
fn clear_forgets_everything_before() {
    let mut b = LogBuffer::new(4);
    b.handle(LogBufferMessage::Append(Bytes::from_static(b"old")));
    b.handle(LogBufferMessage::Clear);
    assert_eq!(b.len(), 0);
    b.handle(LogBufferMessage::Append(Bytes::from_static(b"new")));
    assert_eq!(b.len(), 1);
    assert_eq!(b.get(0).unwrap().as_ref(), b"new");
}

#[test]
fn clear_on_empty_buffer() {
    let mut b = LogBuffer::new(0);
    b.handle(LogBufferMessage::Clear);
    assert_eq!(b.len(), 0);
}
