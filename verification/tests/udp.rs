use stub_resolver::conf::ServerAddr;
use stub_resolver::error::Error;
use stub_resolver::message::MessageBuf;
use stub_resolver::message::Question;
use stub_resolver::query::ChannelId;
use stub_resolver::query::Query;
use stub_resolver::timeout::deadline;
use stub_resolver::udp::Expired;
use stub_resolver::udp::UdpEvent;
use stub_resolver::udp::UdpTransport;

const SERVER: ServerAddr = ServerAddr { ip: 0xffff_0a00_0001, port: 53 };
const OTHER: ServerAddr = ServerAddr { ip: 0xffff_0a00_0002, port: 53 };

fn query(label: &str, reply_to: u64) -> Query {
    let q = Question::new(vec![label.as_bytes().to_vec()], 1, 1);
    Query::new(MessageBuf::query_from_question(&q).unwrap(), ChannelId(reply_to))
}

fn response(datagram: &[u8], truncated: bool) -> Vec<u8> {
    let mut bytes = datagram.to_vec();
    bytes[2] |= 0x80;
    // One answer.
    bytes[7] = 1;
    if truncated {
        bytes[2] |= 0x02;
    }
    bytes.extend_from_slice(&[0xc0, 0x0c, 0, 1, 0, 1, 0, 0, 0, 60, 0, 4, 192, 0, 2, 1]);
    bytes
}

#[test]
fn nothing_is_sent_while_nothing_waits() {
    let mut m = UdpTransport::new(0, SERVER, 1000, 2);
    assert!(!m.wants_send());
    assert!(m.send_next(5).is_none());
    assert_eq!(m.pending_len(), 0);
    assert_eq!(m.next_deadline(), None);
}

#[test]
fn send_stamps_identifier_counts_attempt_and_sets_deadline() {
    let mut m = UdpTransport::new(3, SERVER, 1000, 2);
    assert_eq!(m.index(), 3);
    m.accept(query("a", 1));
    m.accept(query("b", 2));
    assert!(m.wants_send());
    let first = m.send_next(500).unwrap();
    assert_eq!(first.to, SERVER);
    assert_eq!(&first.bytes[..2], &[0, 0]);
    assert_eq!(first.bytes[13], b'a');
    assert_eq!(m.pending_len(), 1);
    assert_eq!(m.next_deadline(), Some(1500));
    let second = m.send_next(700).unwrap();
    assert_eq!(&second.bytes[..2], &[0, 1]);
    assert_eq!(second.bytes[13], b'b');
    assert_eq!(m.pending_len(), 2);
    assert_eq!(m.next_deadline(), Some(1500));
    assert!(!m.wants_send());
}

#[test]
fn matching_response_is_delivered_and_entry_leaves() {
    let mut m = UdpTransport::new(0, SERVER, 1000, 2);
    m.accept(query("a", 11));
    let sent = m.send_next(0).unwrap();
    let answer = response(&sent.bytes, false);
    match m.receive(SERVER, answer.clone()) {
        UdpEvent::Deliver(d) => {
            assert_eq!(d.to, ChannelId(11));
            assert_eq!(d.outcome.unwrap().as_bytes(), &answer);
        }
        other => panic!("expected a delivery, got {:?}", other),
    }
    assert_eq!(m.pending_len(), 0);
    assert_eq!(m.next_deadline(), None);
    // A second copy of the response matches nothing any more.
    assert!(matches!(m.receive(SERVER, answer), UdpEvent::Discard));
}

#[test]
fn response_with_wrong_identifier_is_discarded() {
    let mut m = UdpTransport::new(0, SERVER, 1000, 2);
    m.accept(query("a", 11));
    let sent = m.send_next(0).unwrap();
    let mut answer = response(&sent.bytes, false);
    answer[1] ^= 0x40;
    assert!(matches!(m.receive(SERVER, answer), UdpEvent::Discard));
    assert_eq!(m.pending_len(), 1);
    assert_eq!(m.next_deadline(), Some(1000));
    // The right response still gets through afterwards.
    assert!(matches!(m.receive(SERVER, response(&sent.bytes, false)), UdpEvent::Deliver(_)));
}

#[test]
fn response_from_wrong_address_is_discarded() {
    let mut m = UdpTransport::new(0, SERVER, 1000, 2);
    m.accept(query("a", 11));
    let sent = m.send_next(0).unwrap();
    assert!(matches!(m.receive(OTHER, response(&sent.bytes, false)), UdpEvent::Discard));
    let same_ip_other_port = ServerAddr { ip: SERVER.ip, port: 5353 };
    assert!(matches!(
        m.receive(same_ip_other_port, response(&sent.bytes, false)),
        UdpEvent::Discard
    ));
    assert_eq!(m.pending_len(), 1);
    assert_eq!(m.next_deadline(), Some(1000));
}

#[test]
fn datagram_that_is_no_response_is_discarded() {
    let mut m = UdpTransport::new(0, SERVER, 1000, 2);
    m.accept(query("a", 11));
    let sent = m.send_next(0).unwrap();
    // The query itself, echoed back: the response bit is not set.
    assert!(matches!(m.receive(SERVER, sent.bytes.clone()), UdpEvent::Discard));
    // Too short to hold a header.
    assert!(matches!(m.receive(SERVER, vec![0, 0, 0x80]), UdpEvent::Discard));
    // Another question under the right identifier.
    let mut other = response(&sent.bytes, false);
    other[13] = b'z';
    assert!(matches!(m.receive(SERVER, other), UdpEvent::Discard));
    assert_eq!(m.pending_len(), 1);
}

#[test]
fn unmatched_response_leaves_other_entries_alone() {
    let mut m = UdpTransport::new(0, SERVER, 1000, 3);
    m.accept(query("a", 1));
    m.accept(query("b", 2));
    let a = m.send_next(10).unwrap();
    let b = m.send_next(20).unwrap();
    let mut stray = response(&a.bytes, false);
    stray[0] = 0x7f;
    assert!(matches!(m.receive(SERVER, stray), UdpEvent::Discard));
    assert_eq!(m.pending_len(), 2);
    assert_eq!(m.next_deadline(), Some(1010));
    match m.receive(SERVER, response(&b.bytes, false)) {
        UdpEvent::Deliver(d) => assert_eq!(d.to, ChannelId(2)),
        other => panic!("expected a delivery, got {:?}", other),
    }
    assert_eq!(m.next_deadline(), Some(1010));
    match m.receive(SERVER, response(&a.bytes, false)) {
        UdpEvent::Deliver(d) => assert_eq!(d.to, ChannelId(1)),
        other => panic!("expected a delivery, got {:?}", other),
    }
}

#[test]
fn truncated_response_escalates_and_keeps_the_entry() {
    let mut m = UdpTransport::new(0, SERVER, 1000, 2);
    m.accept(query("a", 11));
    let sent = m.send_next(0).unwrap();
    match m.receive(SERVER, response(&sent.bytes, true)) {
        UdpEvent::Escalate { id, query } => {
            assert_eq!(id, 0);
            assert_eq!(query.reply_to, ChannelId(11));
            assert_eq!(query.message.as_bytes(), &sent.bytes);
            assert_eq!(query.attempts, 1);
        }
        other => panic!("expected an escalation, got {:?}", other),
    }
    assert_eq!(m.pending_len(), 1);
    // The deadline of an entry that is being handed over no longer counts.
    assert_eq!(m.next_deadline(), None);
    assert!(m.expire(u64::MAX).is_empty());
    // And no further response matches it.
    assert!(matches!(m.receive(SERVER, response(&sent.bytes, false)), UdpEvent::Discard));
    assert_eq!(m.pending_len(), 1);
}

#[test]
fn handed_over_clears_the_entry_silently() {
    let mut m = UdpTransport::new(0, SERVER, 1000, 2);
    m.accept(query("a", 11));
    let sent = m.send_next(0).unwrap();
    let _ = m.receive(SERVER, response(&sent.bytes, true));
    m.handed_over(0);
    assert_eq!(m.pending_len(), 0);
}

#[test]
fn handed_over_ignores_entries_that_are_not_handed_over() {
    let mut m = UdpTransport::new(0, SERVER, 1000, 2);
    m.accept(query("a", 11));
    let _ = m.send_next(0).unwrap();
    m.handed_over(0);
    m.handed_over(17);
    assert_eq!(m.pending_len(), 1);
}

#[test]
fn handed_back_fails_with_dispatch_error() {
    let mut m = UdpTransport::new(0, SERVER, 1000, 2);
    m.accept(query("a", 11));
    let sent = m.send_next(0).unwrap();
    let escalated = match m.receive(SERVER, response(&sent.bytes, true)) {
        UdpEvent::Escalate { query, .. } => query,
        other => panic!("expected an escalation, got {:?}", other),
    };
    let d = m.handed_back(0, escalated);
    assert_eq!(d.to, ChannelId(11));
    assert!(matches!(d.outcome, Err(Error::Dispatch)));
    assert_eq!(m.pending_len(), 0);
}

#[test]
fn expiry_retries_while_attempts_are_left() {
    let mut m = UdpTransport::new(0, SERVER, 1000, 2);
    m.accept(query("a", 11));
    let _ = m.send_next(0).unwrap();
    assert!(m.expire(999).is_empty());
    assert_eq!(m.pending_len(), 1);
    let mut out = m.expire(1000);
    assert_eq!(out.len(), 1);
    match out.remove(0) {
        Expired::Retry(q) => {
            assert_eq!(q.reply_to, ChannelId(11));
            assert_eq!(q.attempts, 1);
        }
        other => panic!("expected a retry, got {:?}", other),
    }
    assert_eq!(m.pending_len(), 0);
}

#[test]
fn expiry_after_last_attempt_is_a_timeout() {
    let mut m = UdpTransport::new(0, SERVER, 1000, 2);
    m.accept(query("a", 11));
    let _ = m.send_next(0).unwrap();
    let retry = match m.expire(1000).remove(0) {
        Expired::Retry(q) => q,
        other => panic!("expected a retry, got {:?}", other),
    };
    m.accept(retry);
    let again = m.send_next(1000).unwrap();
    assert_eq!(&again.bytes[..2], &[0, 1]);
    assert_eq!(m.next_deadline(), Some(2000));
    let mut out = m.expire(2000);
    assert_eq!(out.len(), 1);
    match out.remove(0) {
        Expired::Deliver(d) => {
            assert_eq!(d.to, ChannelId(11));
            assert!(matches!(d.outcome, Err(Error::Timeout)));
        }
        other => panic!("expected a delivery, got {:?}", other),
    }
    assert_eq!(m.pending_len(), 0);
    assert_eq!(m.next_deadline(), None);
}

#[test]
fn expiry_takes_only_what_is_due_in_table_order() {
    let mut m = UdpTransport::new(0, SERVER, 100, 1);
    m.accept(query("a", 1));
    m.accept(query("b", 2));
    m.accept(query("c", 3));
    let _ = m.send_next(0);
    let _ = m.send_next(50);
    let _ = m.send_next(10);
    let out = m.expire(110);
    let to: Vec<ChannelId> = out
        .iter()
        .map(|e| match e {
            Expired::Deliver(d) => d.to,
            Expired::Retry(q) => q.reply_to,
        })
        .collect();
    assert_eq!(to, vec![ChannelId(1), ChannelId(3)]);
    assert_eq!(m.pending_len(), 1);
    assert_eq!(m.next_deadline(), Some(150));
}

#[test]
fn zero_attempts_means_first_expiry_is_a_timeout() {
    let mut m = UdpTransport::new(0, SERVER, 10, 0);
    m.accept(query("a", 1));
    let _ = m.send_next(0);
    assert!(matches!(m.expire(10).remove(0), Expired::Deliver(_)));
}

#[test]
fn identifiers_in_use_are_skipped() {
    let mut m = UdpTransport::new(0, SERVER, 1000, 1);
    m.accept(query("a", 1));
    m.accept(query("b", 2));
    let a = m.send_next(0).unwrap();
    let b = m.send_next(0).unwrap();
    assert_eq!(&a.bytes[..2], &[0, 0]);
    assert_eq!(&b.bytes[..2], &[0, 1]);
    // Free identifier 0 again; the search goes on from 2.
    let _ = m.receive(SERVER, response(&a.bytes, false));
    m.accept(query("c", 3));
    let c = m.send_next(0).unwrap();
    assert_eq!(&c.bytes[..2], &[0, 2]);
}

#[test]
fn deadline_is_the_sum_and_saturates() {
    assert_eq!(deadline(0, 0), 0);
    assert_eq!(deadline(1500, 250), 1750);
    assert_eq!(deadline(u64::MAX - 5, 5), u64::MAX);
    assert_eq!(deadline(u64::MAX - 5, 6), u64::MAX);
    assert_eq!(deadline(u64::MAX, u64::MAX), u64::MAX);
}

#[test]
fn attempts_count_saturates() {
    let mut q = query("a", 1);
    q.attempts = u32::MAX;
    let q = q.stamped(9);
    assert_eq!(q.attempts, u32::MAX);
    assert_eq!(q.message.id(), 9);
}
