use stub_resolver::message::MessageBuf;
use stub_resolver::message::Question;
use stub_resolver::tcp::push_frame;
use stub_resolver::tcp::take_frame;

fn message(label: &str, id: u16) -> MessageBuf {
    let q = Question::new(vec![label.as_bytes().to_vec()], 1, 1);
    MessageBuf::query_from_question(&q).unwrap().with_id(id)
}

#[test]
fn frame_is_length_then_bytes() {
    let m = message("abc", 1);
    let mut out = Vec::new();
    push_frame(&mut out, &m);
    assert_eq!(out.len(), 2 + m.len());
    assert_eq!(out[0], 0);
    assert_eq!(out[1] as usize, m.len());
    assert_eq!(&out[2..], &m.as_bytes()[..]);
}

#[test]
fn frame_length_is_big_endian() {
    let m = MessageBuf::from_bytes(vec![0x55; 0x0123]).unwrap();
    let mut out = Vec::new();
    push_frame(&mut out, &m);
    assert_eq!(&out[..2], &[0x01, 0x23]);
}

#[test]
fn take_frame_waits_for_the_prefix() {
    let mut buf: Vec<u8> = Vec::new();
    assert_eq!(take_frame(&mut buf), None);
    buf.push(0);
    assert_eq!(take_frame(&mut buf), None);
    assert_eq!(buf, vec![0]);
}

#[test]
fn take_frame_waits_for_the_body() {
    let mut buf: Vec<u8> = vec![0, 3, 1, 2];
    assert_eq!(take_frame(&mut buf), None);
    assert_eq!(buf, vec![0, 3, 1, 2]);
    buf.push(3);
    assert_eq!(take_frame(&mut buf), Some(vec![1, 2, 3]));
    assert!(buf.is_empty());
}

#[test]
fn take_frame_leaves_what_follows() {
    let mut buf: Vec<u8> = vec![0, 2, 9, 8, 0, 1, 7, 0];
    assert_eq!(take_frame(&mut buf), Some(vec![9, 8]));
    assert_eq!(buf, vec![0, 1, 7, 0]);
    assert_eq!(take_frame(&mut buf), Some(vec![7]));
    assert_eq!(buf, vec![0]);
    assert_eq!(take_frame(&mut buf), None);
}

#[test]
fn take_frame_takes_an_empty_message() {
    let mut buf: Vec<u8> = vec![0, 0, 5];
    assert_eq!(take_frame(&mut buf), Some(Vec::new()));
    assert_eq!(buf, vec![5]);
}

#[test]
fn framed_message_comes_back_whatever_the_split() {
    let m = message("example", 0x0102);
    let mut wire = Vec::new();
    push_frame(&mut wire, &m);
    for cut in 0..=wire.len() {
        let mut buf: Vec<u8> = wire[..cut].to_vec();
        if cut < wire.len() {
            assert_eq!(take_frame(&mut buf), None, "cut at {}", cut);
        }
        buf.extend_from_slice(&wire[cut..]);
        assert_eq!(take_frame(&mut buf).as_ref(), Some(m.as_bytes()), "cut at {}", cut);
        assert!(buf.is_empty());
    }
}
