use stub_resolver::action::Action;
use stub_resolver::action::Address;
use stub_resolver::action::Mail;
use stub_resolver::conf::Protocol;
use stub_resolver::conf::ResolvConf;
use stub_resolver::conf::ServerAddr;
use stub_resolver::conf::TransportId;
use stub_resolver::dispatcher::BootstrapItem;
use stub_resolver::dispatcher::Dispatcher;
use stub_resolver::dispatcher::Seed;
use stub_resolver::error::Error;
use stub_resolver::message::MessageBuf;
use stub_resolver::message::Question;
use stub_resolver::query::ChannelId;
use stub_resolver::query::Query;

fn server(n: u8) -> ServerAddr {
    ServerAddr { ip: 0xffff_0a00_0000 + n as u128, port: 53 }
}

fn conf(servers: u8, rotate: bool) -> ResolvConf {
    ResolvConf { servers: (1..=servers).map(server).collect(), timeout_ms: 3000, attempts: 2, rotate }
}

fn udp(server: usize) -> TransportId {
    TransportId { server, protocol: Protocol::Udp }
}

fn tcp(server: usize) -> TransportId {
    TransportId { server, protocol: Protocol::Tcp }
}

fn query(reply_to: u64) -> Query {
    let q = Question::new(vec![b"a".to_vec()], 1, 1);
    Query::new(MessageBuf::query_from_question(&q).unwrap(), ChannelId(reply_to))
}

/// A dispatcher whose transports have all been brought up.
fn running(servers: u8, rotate: bool) -> Dispatcher {
    let mut d = Dispatcher::new(conf(servers, rotate));
    while d.spawn_next().is_some() {
        d.spawned();
    }
    d
}

/// Where the single action of `actions` posts a query to.
fn forwarded_to(actions: &[Action]) -> TransportId {
    assert_eq!(actions.len(), 1);
    match &actions[0] {
        Action::Post { to: Address::Transport(t), mail: Mail::Query(_) } => *t,
        other => panic!("expected a forwarded query, got {:?}", other),
    }
}

#[test]
fn transports_are_brought_up_in_order() {
    let mut d = Dispatcher::new(conf(2, false));
    assert_eq!(d.server_count(), 2);
    let mut seeds = Vec::new();
    while let Some(seed) = d.spawn_next() {
        // While one is being brought up, no other is asked for.
        assert_eq!(d.spawn_next(), None);
        seeds.push(seed);
        d.spawned();
    }
    let seed = |i: usize| Seed { index: i, server: server(i as u8 + 1), timeout_ms: 3000, attempts: 2 };
    assert_eq!(
        seeds,
        vec![
            BootstrapItem::Udp(seed(0)),
            BootstrapItem::Tcp(seed(0)),
            BootstrapItem::Udp(seed(1)),
            BootstrapItem::Tcp(seed(1)),
        ]
    );
}

#[test]
fn transport_is_there_only_after_it_has_been_made() {
    let mut d = Dispatcher::new(conf(1, false));
    assert!(!d.is_up(udp(0)));
    assert!(d.spawn_next().is_some());
    assert!(!d.is_up(udp(0)));
    d.spawned();
    assert!(d.is_up(udp(0)));
    assert!(!d.is_up(tcp(0)));
    assert!(!d.is_up(udp(1)));
}

#[test]
fn query_fails_with_dispatch_error_when_no_transport_is_there() {
    let mut d = Dispatcher::new(conf(2, false));
    let actions = d.dispatch(Mail::Query(query(5)));
    assert_eq!(actions.len(), 1);
    match &actions[0] {
        Action::Deliver(delivery) => {
            assert_eq!(delivery.to, ChannelId(5));
            assert!(matches!(delivery.outcome, Err(Error::Dispatch)));
        }
        other => panic!("expected a delivery, got {:?}", other),
    }
}

#[test]
fn query_fails_with_dispatch_error_without_servers() {
    let mut d = running(0, true);
    let actions = d.dispatch(Mail::Query(query(5)));
    assert!(matches!(&actions[0], Action::Deliver(d) if matches!(d.outcome, Err(Error::Dispatch))));
    let actions = d.dispatch(Mail::Retry { query: query(6), after: 0 });
    assert!(matches!(&actions[0], Action::Deliver(d) if matches!(d.outcome, Err(Error::Dispatch))));
}

#[test]
fn new_queries_go_to_the_first_server() {
    let mut d = running(3, false);
    for _ in 0..3 {
        assert_eq!(forwarded_to(&d.dispatch(Mail::Query(query(1)))), udp(0));
    }
}

#[test]
fn new_queries_take_turns_when_rotating() {
    let mut d = running(3, true);
    let order: Vec<TransportId> =
        (0..5).map(|_| forwarded_to(&d.dispatch(Mail::Query(query(1))))).collect();
    assert_eq!(order, vec![udp(0), udp(1), udp(2), udp(0), udp(1)]);
}

#[test]
fn next_server_is_taken_when_the_first_is_gone() {
    let mut d = running(3, false);
    assert!(d.dispatch(Mail::Closed(udp(0))).is_empty());
    assert!(!d.is_up(udp(0)));
    assert_eq!(forwarded_to(&d.dispatch(Mail::Query(query(1)))), udp(1));
    assert!(d.dispatch(Mail::Closed(udp(1))).is_empty());
    assert_eq!(forwarded_to(&d.dispatch(Mail::Query(query(1)))), udp(2));
}

#[test]
fn retry_goes_to_the_server_behind() {
    let mut d = running(3, false);
    assert_eq!(forwarded_to(&d.dispatch(Mail::Retry { query: query(1), after: 0 })), udp(1));
    assert_eq!(forwarded_to(&d.dispatch(Mail::Retry { query: query(1), after: 1 })), udp(2));
    assert_eq!(forwarded_to(&d.dispatch(Mail::Retry { query: query(1), after: 2 })), udp(0));
    // A place beyond the configuration starts over.
    assert_eq!(forwarded_to(&d.dispatch(Mail::Retry { query: query(1), after: 9 })), udp(0));
}

#[test]
fn retry_with_one_server_goes_to_that_server() {
    let mut d = running(1, false);
    assert_eq!(forwarded_to(&d.dispatch(Mail::Retry { query: query(1), after: 0 })), udp(0));
}

#[test]
fn retry_skips_servers_that_are_gone() {
    let mut d = running(3, false);
    let _ = d.dispatch(Mail::Closed(udp(1)));
    assert_eq!(forwarded_to(&d.dispatch(Mail::Retry { query: query(1), after: 0 })), udp(2));
}

#[test]
fn escalation_goes_to_the_stream_of_the_same_server() {
    let mut d = running(2, false);
    let q = query(8);
    let bytes = q.message.as_bytes().clone();
    let actions = d.dispatch(Mail::Escalate { query: q, server: 1, id: 42 });
    assert_eq!(actions.len(), 2);
    match &actions[0] {
        Action::Post { to, mail: Mail::Query(q) } => {
            assert_eq!(*to, Address::Transport(tcp(1)));
            assert_eq!(q.reply_to, ChannelId(8));
            assert_eq!(q.message.as_bytes(), &bytes);
        }
        other => panic!("expected a forwarded query, got {:?}", other),
    }
    match &actions[1] {
        Action::Post { to, mail: Mail::Accepted { id } } => {
            assert_eq!(*to, Address::Transport(udp(1)));
            assert_eq!(*id, 42);
        }
        other => panic!("expected the news of the hand-over, got {:?}", other),
    }
}

#[test]
fn escalation_comes_back_when_the_stream_is_not_there() {
    let mut d = running(2, false);
    let _ = d.dispatch(Mail::Closed(tcp(1)));
    let actions = d.dispatch(Mail::Escalate { query: query(8), server: 1, id: 42 });
    assert_eq!(actions.len(), 1);
    match &actions[0] {
        Action::Post { to, mail: Mail::Rejected { id, query } } => {
            assert_eq!(*to, Address::Transport(udp(1)));
            assert_eq!(*id, 42);
            assert_eq!(query.reply_to, ChannelId(8));
        }
        other => panic!("expected the query to come back, got {:?}", other),
    }
    // The same for a server that the configuration does not have.
    let actions = d.dispatch(Mail::Escalate { query: query(8), server: 7, id: 1 });
    assert!(matches!(&actions[0], Action::Post { mail: Mail::Rejected { .. }, .. }));
}

#[test]
fn closed_transport_is_brought_up_again() {
    let mut d = running(1, false);
    assert_eq!(d.spawn_next(), None);
    let _ = d.dispatch(Mail::Closed(tcp(0)));
    assert!(!d.is_up(tcp(0)));
    let seed = d.spawn_next();
    assert_eq!(
        seed,
        Some(BootstrapItem::Tcp(Seed { index: 0, server: server(1), timeout_ms: 3000, attempts: 2 }))
    );
    d.spawned();
    assert!(d.is_up(tcp(0)));
    // News of a transport that the configuration does not have changes nothing.
    let _ = d.dispatch(Mail::Closed(tcp(5)));
    assert_eq!(d.spawn_next(), None);
}

#[test]
fn mail_that_is_not_for_the_dispatcher() {
    let mut d = running(1, false);
    assert!(d.dispatch(Mail::Accepted { id: 3 }).is_empty());
    let actions = d.dispatch(Mail::Rejected { id: 3, query: query(4) });
    assert_eq!(actions.len(), 1);
    assert!(matches!(&actions[0], Action::Deliver(d) if d.to == ChannelId(4)
        && matches!(d.outcome, Err(Error::Dispatch))));
}

#[test]
fn on_wakeup_routes_every_item_in_order() {
    let mut d = running(2, true);
    let actions = d.on_wakeup(vec![
        Mail::Query(query(1)),
        Mail::Query(query(2)),
        Mail::Closed(udp(0)),
        Mail::Query(query(3)),
    ]);
    let to: Vec<Address> = actions
        .iter()
        .map(|a| match a {
            Action::Post { to, .. } => *to,
            other => panic!("expected a post, got {:?}", other),
        })
        .collect();
    assert_eq!(
        to,
        vec![Address::Transport(udp(0)), Address::Transport(udp(1)), Address::Transport(udp(1))]
    );
}
