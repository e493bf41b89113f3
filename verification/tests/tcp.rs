use stub_resolver::conf::ServerAddr;
use stub_resolver::error::Error;
use stub_resolver::message::MessageBuf;
use stub_resolver::message::Question;
use stub_resolver::query::ChannelId;
use stub_resolver::query::Query;
use stub_resolver::tcp::fail_queries;
use stub_resolver::tcp::TcpEvent;
use stub_resolver::tcp::TcpTransport;

const SERVER: ServerAddr = ServerAddr { ip: 0xffff_0a00_0001, port: 53 };

fn query(label: &str, reply_to: u64) -> Query {
    let q = Question::new(vec![label.as_bytes().to_vec()], 1, 1);
    Query::new(MessageBuf::query_from_question(&q).unwrap(), ChannelId(reply_to))
}

/// The response to the query that stands framed at the start of `wire`.
fn response_to_frame(wire: &[u8]) -> Vec<u8> {
    let n = ((wire[0] as usize) << 8) | wire[1] as usize;
    let mut bytes = wire[2..2 + n].to_vec();
    bytes[2] |= 0x80;
    // One answer.
    bytes[7] = 1;
    bytes.extend_from_slice(&[1, 2, 3, 4]);
    bytes
}

fn framed(message: &[u8]) -> Vec<u8> {
    let mut out = vec![(message.len() >> 8) as u8, (message.len() & 0xff) as u8];
    out.extend_from_slice(message);
    out
}

#[test]
fn sending_frames_the_query_behind_what_is_to_leave() {
    let mut m = TcpTransport::new(1, SERVER, 1000);
    assert_eq!(m.index(), 1);
    assert!(!m.send_next(0));
    m.accept(query("a", 1));
    m.accept(query("b", 2));
    assert!(m.wants_send());
    assert!(m.send_next(5));
    let first = m.outgoing().clone();
    assert_eq!(first.len(), 2 + 19);
    assert_eq!(&first[..4], &[0, 19, 0, 0]);
    assert!(m.send_next(6));
    let both = m.outgoing().clone();
    assert_eq!(&both[..first.len()], &first[..]);
    assert_eq!(&both[first.len()..first.len() + 4], &[0, 19, 0, 1]);
    assert!(!m.send_next(7));
    assert_eq!(m.pending_len(), 2);
    assert_eq!(m.next_deadline(), Some(1005));
}

#[test]
fn send_all_frames_everything_that_waits() {
    let mut m = TcpTransport::new(0, SERVER, 1000);
    m.accept(query("a", 1));
    m.accept(query("b", 2));
    m.accept(query("c", 3));
    m.send_all(0);
    assert!(!m.wants_send());
    assert_eq!(m.pending_len(), 3);
    assert_eq!(m.outgoing().len(), 3 * 21);
}

#[test]
fn wrote_drops_what_the_stream_took() {
    let mut m = TcpTransport::new(0, SERVER, 1000);
    m.accept(query("a", 1));
    m.send_all(0);
    let all = m.outgoing().clone();
    m.wrote(0);
    assert_eq!(m.outgoing(), &all);
    m.wrote(5);
    assert_eq!(m.outgoing(), &all[5..].to_vec());
    m.wrote(1000);
    assert!(m.outgoing().is_empty());
    m.wrote(1);
    assert!(m.outgoing().is_empty());
}

#[test]
fn answer_is_matched_by_identifier_only() {
    let mut m = TcpTransport::new(0, SERVER, 1000);
    m.accept(query("a", 1));
    m.accept(query("b", 2));
    m.send_all(0);
    let wire = m.outgoing().clone();
    let second = response_to_frame(&wire[21..]);
    match m.receive(second.clone()) {
        TcpEvent::Deliver(d) => {
            assert_eq!(d.to, ChannelId(2));
            assert_eq!(d.outcome.unwrap().as_bytes(), &second);
        }
        other => panic!("expected a delivery, got {:?}", other),
    }
    assert_eq!(m.pending_len(), 1);
    assert!(matches!(m.receive(second), TcpEvent::Discard));
    assert!(matches!(m.receive(vec![1, 2, 3]), TcpEvent::Discard));
    assert_eq!(m.pending_len(), 1);
}

#[test]
fn feed_puts_messages_together_across_reads() {
    let mut m = TcpTransport::new(0, SERVER, 1000);
    m.accept(query("a", 1));
    m.accept(query("b", 2));
    m.send_all(0);
    let wire = m.outgoing().clone();
    let mut stream = framed(&response_to_frame(&wire[..21]));
    stream.extend(framed(&response_to_frame(&wire[21..])));
    // One byte of the length prefix.
    assert!(m.feed(&stream[..1].to_vec()).is_empty());
    // The rest of the prefix and part of the body.
    assert!(m.feed(&stream[1..10].to_vec()).is_empty());
    // The rest of the first message and the first byte of the next prefix.
    let first_len = 2 + 23;
    let out = m.feed(&stream[10..first_len + 1].to_vec());
    assert_eq!(out.len(), 1);
    assert_eq!(out[0].to, ChannelId(1));
    assert_eq!(m.pending_len(), 1);
    // Everything else.
    let out = m.feed(&stream[first_len + 1..].to_vec());
    assert_eq!(out.len(), 1);
    assert_eq!(out[0].to, ChannelId(2));
    assert_eq!(m.pending_len(), 0);
}

#[test]
fn feed_takes_several_messages_from_one_read() {
    let mut m = TcpTransport::new(0, SERVER, 1000);
    m.accept(query("a", 1));
    m.accept(query("b", 2));
    m.send_all(0);
    let wire = m.outgoing().clone();
    let mut stream = framed(&response_to_frame(&wire[21..]));
    stream.extend(framed(&[9, 9, 9]));
    stream.extend(framed(&response_to_frame(&wire[..21])));
    let out = m.feed(&stream);
    let to: Vec<ChannelId> = out.iter().map(|d| d.to).collect();
    assert_eq!(to, vec![ChannelId(2), ChannelId(1)]);
    assert!(out.iter().all(|d| d.outcome.is_ok()));
}

#[test]
fn expiry_ends_due_queries_with_timeout() {
    let mut m = TcpTransport::new(0, SERVER, 100);
    m.accept(query("a", 1));
    m.send_all(0);
    m.accept(query("b", 2));
    m.send_all(50);
    assert!(m.expire(99).is_empty());
    let out = m.expire(100);
    assert_eq!(out.len(), 1);
    assert_eq!(out[0].to, ChannelId(1));
    assert!(matches!(out[0].outcome, Err(Error::Timeout)));
    assert_eq!(m.pending_len(), 1);
    assert_eq!(m.next_deadline(), Some(150));
}

#[test]
fn connection_loss_fails_every_query_once() {
    let mut m = TcpTransport::new(0, SERVER, 100);
    m.accept(query("a", 1));
    m.accept(query("b", 2));
    m.send_all(0);
    m.accept(query("c", 3));
    let out = m.connection_lost();
    let to: Vec<ChannelId> = out.iter().map(|d| d.to).collect();
    assert_eq!(to, vec![ChannelId(1), ChannelId(2), ChannelId(3)]);
    assert!(out.iter().all(|d| matches!(d.outcome, Err(Error::Connection))));
}

#[test]
fn connection_loss_with_nothing_held_delivers_nothing() {
    let m = TcpTransport::new(0, SERVER, 100);
    assert!(m.connection_lost().is_empty());
}

#[test]
fn fail_queries_keeps_the_order() {
    let out = fail_queries(vec![query("a", 5), query("b", 4)], Error::Dispatch);
    assert_eq!(out.len(), 2);
    assert_eq!(out[0].to, ChannelId(5));
    assert_eq!(out[1].to, ChannelId(4));
    assert!(out.iter().all(|d| matches!(d.outcome, Err(Error::Dispatch))));
}
