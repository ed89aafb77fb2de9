use bytes::{Bytes, BytesMut};
use shepherd::common::{Mode, Zone};
use shepherd::dispatch::{new_image_chunk, prepare_log_read, resets_log, take_log_chunk, ImageFramer, HOPPER_BUF_SIZE};
use shepherd::messages::{ControlMessage, ControlMessageType};
use shepherd::receiver::{subscription_topic, MessageReceiver, RecvFailure, RecvOutcome};

fn chunk(data: &[u8], extra: usize) -> (BytesMut, usize) {
    let mut b = BytesMut::from(data);
    b.resize(data.len() + extra, 0xAA);
    (b, data.len())
}

fn images(v: Vec<Bytes>) -> Vec<Vec<u8>> {
    v.into_iter().map(|b| b.to_vec()).collect()
}

#[test]
fn chunk_without_newline_is_held_back() {
    let mut f = ImageFramer::new();
    let (c, n) = chunk(b"abc", 5);
    assert!(f.push_chunk(c, n).is_empty());
    assert_eq!(f.pending_len(), 3);
}

#[test]
fn every_newline_ends_an_image() {
    let mut f = ImageFramer::new();
    let (c, n) = chunk(b"abc", 0);
    assert!(f.push_chunk(c, n).is_empty());
    let (c, n) = chunk(b"de\nfg\nh", 16);
    assert_eq!(images(f.push_chunk(c, n)), vec![b"abcde\n".to_vec(), b"fg\n".to_vec()]);
    assert_eq!(f.pending_len(), 1);
    let (c, n) = chunk(b"i\n", 0);
    assert_eq!(images(f.push_chunk(c, n)), vec![b"hi\n".to_vec()]);
    assert_eq!(f.pending_len(), 0);
}

#[test]
fn images_split_across_reads() {
    let mut f = ImageFramer::new();
    let (c, n) = chunk(b"a\nb\nc", 4);
    assert_eq!(images(f.push_chunk(c, n)), vec![b"a\n".to_vec(), b"b\n".to_vec()]);
    let (c, n) = chunk(b"d\n", 4);
    assert_eq!(images(f.push_chunk(c, n)), vec![b"cd\n".to_vec()]);
    assert_eq!(f.pending_len(), 0);
}

#[test]
fn newline_alone_is_an_image() {
    let mut f = ImageFramer::new();
    let (c, n) = chunk(b"\n", 3);
    assert_eq!(images(f.push_chunk(c, n)), vec![b"\n".to_vec()]);
    assert_eq!(f.pending_len(), 0);
}

#[test]
fn consecutive_newlines_are_separate_images() {
    let mut f = ImageFramer::new();
    let (c, n) = chunk(b"\n\n\n", 0);
    assert_eq!(images(f.push_chunk(c, n)), vec![b"\n".to_vec(), b"\n".to_vec(), b"\n".to_vec()]);
}

#[test]
fn bytes_past_the_read_are_ignored() {
    let mut f = ImageFramer::new();
    let mut c = BytesMut::from(&b"xy"[..]);
    c.extend_from_slice(b"\nzz");
    assert!(f.push_chunk(c, 2).is_empty());
    assert_eq!(f.pending_len(), 2);
}

#[test]
fn empty_read_changes_nothing() {
    let mut f = ImageFramer::new();
    let (c, n) = chunk(b"", 10);
    assert!(f.push_chunk(c, n).is_empty());
    assert_eq!(f.pending_len(), 0);
}

#[test]
fn framing_does_not_depend_on_how_reads_cut_the_stream() {
    let stream: &[u8] = b"ab\ncd\n\nefg\nh";
    let expected = vec![b"ab\n".to_vec(), b"cd\n".to_vec(), b"\n".to_vec(), b"efg\n".to_vec()];
    for cut in 1..stream.len() {
        let mut f = ImageFramer::new();
        let mut out = Vec::new();
        for part in stream.chunks(cut) {
            let (c, n) = chunk(part, 2);
            out.extend(images(f.push_chunk(c, n)));
        }
        assert_eq!(out, expected);
        assert_eq!(f.pending_len(), 1);
    }
}

#[test]
fn image_chunk_is_zeroed_full_size() {
    let c = new_image_chunk();
    assert_eq!(c.len(), HOPPER_BUF_SIZE);
    assert_eq!(HOPPER_BUF_SIZE, 65536);
    assert!(c.iter().all(|b| *b == 0));
}

#[test]
fn log_read_buffer_grows_and_keeps_prefix() {
    let mut b = BytesMut::from(&b"xyz"[..]);
    prepare_log_read(&mut b);
    assert_eq!(b.len(), HOPPER_BUF_SIZE);
    assert_eq!(&b[..3], b"xyz");
    assert!(b[3..].iter().all(|x| *x == 0));
}

#[test]
fn log_read_buffer_shrinks() {
    let mut b = BytesMut::zeroed(HOPPER_BUF_SIZE + 10);
    b[0] = 7;
    prepare_log_read(&mut b);
    assert_eq!(b.len(), HOPPER_BUF_SIZE);
    assert_eq!(b[0], 7);
}

#[test]
fn log_chunk_is_the_bytes_read() {
    let mut b = BytesMut::from(&b"hello world"[..]);
    let c: Bytes = take_log_chunk(&mut b, 5);
    assert_eq!(c.as_ref(), b"hello");
    assert_eq!(&b[..], b"hello");
}

#[test]
fn log_chunk_longer_than_buffer() {
    let mut b = BytesMut::from(&b"hi"[..]);
    let c = take_log_chunk(&mut b, 10);
    assert_eq!(c.as_ref(), b"hi");
}

#[test]
fn reset_on_control_topic_clears_log() {
    let ctl = "robot/control".to_string();
    let reset = Some(ControlMessage { _type: ControlMessageType::Reset, zone: Zone::Red, mode: Mode::Dev });
    let start = Some(ControlMessage { _type: ControlMessageType::Start, zone: Zone::Red, mode: Mode::Dev });
    assert!(resets_log(&ctl, &ctl, &reset));
    assert!(!resets_log(&"robot/log".to_string(), &ctl, &reset));
    assert!(!resets_log(&ctl, &ctl, &start));
    assert!(!resets_log(&ctl, &ctl, &None));
}

#[test]
fn topic_from_path() {
    assert_eq!(subscription_topic("/robot/log"), "robot/log");
    assert_eq!(subscription_topic("/"), "");
    assert_eq!(subscription_topic("/é"), "é");
}

#[test]
fn camera_subscribers_get_images() {
    let cam = "robot/camera".to_string();
    match MessageReceiver::for_topic("robot/camera".to_string(), &cam) {
        MessageReceiver::Image(t) => assert_eq!(t, "robot/camera"),
        other => panic!("unexpected {:?}", other),
    }
    match MessageReceiver::for_topic("robot/log".to_string(), &cam) {
        MessageReceiver::Raw(t) => assert_eq!(t, "robot/log"),
        other => panic!("unexpected {:?}", other),
    }
}

#[test]
fn receiver_filters_by_topic() {
    let rx = MessageReceiver::Raw("robot/log".to_string());
    assert_eq!(rx.topic(), "robot/log");
    let p = Bytes::from_static(b"line");
    match rx.accept(RecvOutcome::Message("robot/log".to_string(), p.clone())) {
        Some(Ok(b)) => assert_eq!(b, p),
        other => panic!("unexpected {:?}", other),
    }
    assert!(rx.accept(RecvOutcome::Message("robot/other".to_string(), p)).is_none());
    assert!(rx.accept(RecvOutcome::Lagged).is_none());
    match rx.accept(RecvOutcome::Closed) {
        Some(Err(e)) => assert_eq!(e, RecvFailure::Closed),
        other => panic!("unexpected {:?}", other),
    }
}
