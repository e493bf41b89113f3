use stub_resolver::action::Action;
use stub_resolver::action::Address;
use stub_resolver::action::Mail;
use stub_resolver::conf::Protocol;
use stub_resolver::conf::ServerAddr;
use stub_resolver::conf::TransportId;
use stub_resolver::error::Error;
use stub_resolver::mailroom::Effect;
use stub_resolver::mailroom::Mailroom;
use stub_resolver::message::MessageBuf;
use stub_resolver::message::Question;
use stub_resolver::query::ChannelId;
use stub_resolver::query::Query;
use stub_resolver::udp::Datagram;

fn query(reply_to: u64) -> Query {
    let q = Question::new(vec![b"a".to_vec()], 1, 1);
    Query::new(MessageBuf::query_from_question(&q).unwrap(), ChannelId(reply_to))
}

fn udp(server: usize) -> Address {
    Address::Transport(TransportId { server, protocol: Protocol::Udp })
}

fn tcp(server: usize) -> Address {
    Address::Transport(TransportId { server, protocol: Protocol::Tcp })
}

fn reply_to(mail: &Mail) -> Option<ChannelId> {
    match mail {
        Mail::Query(q) => Some(q.reply_to),
        Mail::Retry { query, .. } => Some(query.reply_to),
        Mail::Escalate { query, .. } => Some(query.reply_to),
        Mail::Rejected { query, .. } => Some(query.reply_to),
        Mail::Closed(_) | Mail::Accepted { .. } => None,
    }
}

#[test]
fn posted_mail_waits_in_order_and_wakes_the_machine() {
    let mut room = Mailroom::new();
    room.attach(udp(0));
    assert!(room.has(udp(0)));
    assert!(!room.has(tcp(0)));
    for i in 0..3 {
        let effects = room.post(udp(0), Mail::Query(query(i)));
        assert_eq!(effects.len(), 1);
        assert!(matches!(effects[0], Effect::Wake(a) if a == udp(0)));
    }
    let mail = room.take(udp(0));
    let to: Vec<Option<ChannelId>> = mail.iter().map(reply_to).collect();
    assert_eq!(to, vec![Some(ChannelId(0)), Some(ChannelId(1)), Some(ChannelId(2))]);
    assert!(room.take(udp(0)).is_empty());
    assert!(room.has(udp(0)));
}

#[test]
fn attach_keeps_a_queue_that_is_there() {
    let mut room = Mailroom::new();
    room.attach(Address::Dispatcher);
    let _ = room.post(Address::Dispatcher, Mail::Query(query(1)));
    room.attach(Address::Dispatcher);
    assert_eq!(room.take(Address::Dispatcher).len(), 1);
}

#[test]
fn mail_for_a_machine_that_is_not_there_fails_its_query() {
    let mut room = Mailroom::new();
    let mut effects = room.post(Address::Dispatcher, Mail::Query(query(7)));
    assert_eq!(effects.len(), 1);
    match effects.remove(0) {
        Effect::Deliver(d) => {
            assert_eq!(d.to, ChannelId(7));
            assert!(matches!(d.outcome, Err(Error::Dispatch)));
        }
        other => panic!("expected a delivery, got {:?}", other),
    }
    // An item without a query leaves nothing behind.
    assert!(room.post(Address::Dispatcher, Mail::Accepted { id: 1 }).is_empty());
}

#[test]
fn missing_transport_is_reported_to_the_dispatcher() {
    let mut room = Mailroom::new();
    room.attach(Address::Dispatcher);
    let effects = room.post(tcp(2), Mail::Retry { query: query(7), after: 0 });
    assert_eq!(effects.len(), 2);
    assert!(matches!(&effects[0], Effect::Deliver(d) if d.to == ChannelId(7)
        && matches!(d.outcome, Err(Error::Dispatch))));
    assert!(matches!(effects[1], Effect::Wake(Address::Dispatcher)));
    let mail = room.take(Address::Dispatcher);
    assert_eq!(mail.len(), 1);
    assert!(matches!(mail[0], Mail::Closed(TransportId { server: 2, protocol: Protocol::Tcp })));
}

#[test]
fn perform_keeps_the_order_of_the_actions() {
    let mut room = Mailroom::new();
    room.attach(Address::Dispatcher);
    let datagram = Datagram { to: ServerAddr { ip: 1, port: 53 }, bytes: vec![1, 2, 3] };
    let effects = room.perform(vec![
        Action::Deliver(query(1).fail(Error::Timeout)),
        Action::Post { to: Address::Dispatcher, mail: Mail::Query(query(2)) },
        Action::Transmit(datagram),
        Action::Post { to: udp(0), mail: Mail::Query(query(3)) },
    ]);
    assert_eq!(effects.len(), 5);
    assert!(matches!(&effects[0], Effect::Deliver(d) if d.to == ChannelId(1)
        && matches!(d.outcome, Err(Error::Timeout))));
    assert!(matches!(effects[1], Effect::Wake(Address::Dispatcher)));
    assert!(matches!(&effects[2], Effect::Transmit(d) if d.bytes == vec![1, 2, 3]));
    assert!(matches!(&effects[3], Effect::Deliver(d) if d.to == ChannelId(3)
        && matches!(d.outcome, Err(Error::Dispatch))));
    assert!(matches!(effects[4], Effect::Wake(Address::Dispatcher)));
    let mail = room.take(Address::Dispatcher);
    assert_eq!(mail.len(), 2);
    assert!(matches!(&mail[0], Mail::Query(q) if q.reply_to == ChannelId(2)));
    assert!(matches!(mail[1], Mail::Closed(TransportId { server: 0, protocol: Protocol::Udp })));
}

#[test]
fn detach_fails_what_still_waits() {
    let mut room = Mailroom::new();
    room.attach(tcp(0));
    let _ = room.post(tcp(0), Mail::Query(query(1)));
    let _ = room.post(tcp(0), Mail::Accepted { id: 4 });
    let _ = room.post(tcp(0), Mail::Escalate { query: query(2), server: 0, id: 9 });
    let effects = room.detach(tcp(0));
    assert!(!room.has(tcp(0)));
    let to: Vec<ChannelId> = effects
        .iter()
        .map(|e| match e {
            Effect::Deliver(d) => {
                assert!(matches!(d.outcome, Err(Error::Dispatch)));
                d.to
            }
            other => panic!("expected a delivery, got {:?}", other),
        })
        .collect();
    assert_eq!(to, vec![ChannelId(1), ChannelId(2)]);
    assert!(room.detach(tcp(0)).is_empty());
}

#[test]
fn mail_fails_only_if_it_carries_a_query() {
    assert!(Mail::Closed(TransportId { server: 0, protocol: Protocol::Udp }).fail().is_none());
    assert!(Mail::Accepted { id: 0 }.fail().is_none());
    for mail in [
        Mail::Query(query(5)),
        Mail::Retry { query: query(5), after: 1 },
        Mail::Escalate { query: query(5), server: 1, id: 2 },
        Mail::Rejected { id: 2, query: query(5) },
    ] {
        let d = mail.fail().unwrap();
        assert_eq!(d.to, ChannelId(5));
        assert!(matches!(d.outcome, Err(Error::Dispatch)));
    }
}
