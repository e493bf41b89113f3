use rotor::EventSet;
use stub_resolver::action::Action;
use stub_resolver::action::Address;
use stub_resolver::action::Mail;
use stub_resolver::conf::Protocol;
use stub_resolver::conf::ResolvConf;
use stub_resolver::conf::ServerAddr;
use stub_resolver::conf::TransportId;
use stub_resolver::dispatcher::BootstrapItem;
use stub_resolver::error::Error;
use stub_resolver::events::Readiness;
use stub_resolver::lifecycle::Received;
use stub_resolver::lifecycle::SocketInput;
use stub_resolver::message::MessageBuf;
use stub_resolver::query::ChannelId;
use stub_resolver::resolver::Resolver;
use stub_resolver::sync::RecvError;
use stub_resolver::task::Emitter;
use stub_resolver::task::Progress;
use stub_resolver::task::Task;
use stub_resolver::transport::DnsTransport;
use stub_resolver::transport::Kind;
use stub_resolver::transport::Response;

const SERVER: ServerAddr = ServerAddr { ip: 0xffff_c000_0201, port: 53 };

fn conf(timeout_ms: u64, attempts: u32) -> ResolvConf {
    ResolvConf { servers: vec![SERVER], timeout_ms, attempts, rotate: false }
}

fn nothing() -> SocketInput {
    SocketInput { datagrams: Vec::new(), stream: Vec::new(), written: 0, closed: false }
}

fn datagram(bytes: Vec<u8>) -> SocketInput {
    SocketInput {
        datagrams: vec![Received { from: SERVER, bytes }],
        stream: Vec::new(),
        written: 0,
        closed: false,
    }
}

fn machine(r: Response<DnsTransport, BootstrapItem>) -> DnsTransport {
    match r {
        Response::Normal(m) | Response::Deadline(m, _) | Response::Spawn(m, _) => m,
        Response::Done => panic!("the machine has ended"),
    }
}

/// Asks for the address of one name and succeeds with the last four bytes
/// of the response.
struct Lookup;

impl Task for Lookup {
    type Success = [u8; 4];

    fn start(self, emit: &mut Emitter) -> Self {
        emit.emit(vec![b"www".to_vec(), b"example".to_vec(), b"com".to_vec()], 1, 1);
        self
    }

    fn progress(
        self,
        response: Result<MessageBuf, Error>,
        _emit: &mut Emitter,
    ) -> Progress<Self, [u8; 4]> {
        match response {
            Ok(message) => {
                let bytes = message.as_bytes();
                let n = bytes.len();
                Progress::Success([bytes[n - 4], bytes[n - 3], bytes[n - 2], bytes[n - 1]])
            }
            Err(e) => Progress::Error(e),
        }
    }
}

/// The three machines of a resolver with one server, all brought up.
struct Rig {
    dispatcher: DnsTransport,
    udp: DnsTransport,
    tcp: DnsTransport,
    resolver: Resolver,
}

fn rig(timeout_ms: u64, attempts: u32) -> Rig {
    let (dispatcher, resolver) = DnsTransport::new(conf(timeout_ms, attempts));
    let (r, actions) = dispatcher.wakeup(Vec::new(), 0);
    assert!(actions.is_empty());
    let (dispatcher, seed) = match r {
        Response::Spawn(m, seed) => (m, seed),
        other => panic!("expected a spawn, got {:?}", other),
    };
    assert!(matches!(seed, BootstrapItem::Udp(_)));
    let udp = machine(DnsTransport::create(seed));
    let (r, _) = dispatcher.spawned();
    let (dispatcher, seed) = match r {
        Response::Spawn(m, seed) => (m, seed),
        other => panic!("expected a spawn, got {:?}", other),
    };
    assert!(matches!(seed, BootstrapItem::Tcp(_)));
    let tcp = machine(DnsTransport::create(seed));
    let (r, _) = dispatcher.spawned();
    let dispatcher = match r {
        Response::Normal(m) => m,
        other => panic!("expected the dispatcher to rest, got {:?}", other),
    };
    Rig { dispatcher, udp, tcp, resolver }
}

/// The first query that `actions` submit, as mail for the dispatcher.
fn first_query(mut actions: Vec<Action>) -> Mail {
    match actions.remove(0) {
        Action::Post { to: Address::Dispatcher, mail } => mail,
        other => panic!("expected a query for the dispatcher, got {:?}", other),
    }
}

/// Takes the single posted item out of `actions`.
fn posted(mut actions: Vec<Action>, to: Address) -> Mail {
    assert_eq!(actions.len(), 1);
    match actions.remove(0) {
        Action::Post { to: t, mail } => {
            assert_eq!(t, to);
            mail
        }
        other => panic!("expected a post, got {:?}", other),
    }
}

fn udp0() -> Address {
    Address::Transport(TransportId { server: 0, protocol: Protocol::Udp })
}

fn tcp0() -> Address {
    Address::Transport(TransportId { server: 0, protocol: Protocol::Tcp })
}

/// Carries one query from the resolver through the dispatcher and the
/// datagram transport to the wire, and hands back the datagram.
fn put_on_wire(rig: Rig, mail: Mail, now: u64) -> (Rig, Vec<u8>) {
    let (r, actions) = rig.dispatcher.wakeup(vec![mail], now);
    let dispatcher = machine(r);
    let forwarded = posted(actions, udp0());
    let (r, actions) = rig.udp.wakeup(vec![forwarded], now);
    assert!(actions.is_empty());
    let (r, mut actions) = machine(r).ready(&EventSet::writable(), nothing(), now);
    assert_eq!(actions.len(), 1);
    let bytes = match actions.remove(0) {
        Action::Transmit(d) => {
            assert_eq!(d.to, SERVER);
            d.bytes
        }
        other => panic!("expected a datagram, got {:?}", other),
    };
    (Rig { dispatcher, udp: machine(r), tcp: rig.tcp, resolver: rig.resolver }, bytes)
}

fn response_to(query: &[u8], truncated: bool) -> Vec<u8> {
    let mut bytes = query.to_vec();
    bytes[2] |= 0x80;
    // One answer.
    bytes[7] = 1;
    if truncated {
        bytes[2] |= 0x02;
    }
    bytes.extend_from_slice(&[0xc0, 0x0c, 0, 1, 0, 1, 0, 0, 0, 60, 0, 4, 192, 0, 2, 7]);
    bytes
}

#[test]
fn readiness_is_read_from_the_event_set() {
    let none = Readiness::of(&EventSet::none());
    assert_eq!(none, Readiness { readable: false, writable: false, error: false, hup: false });
    assert!(!none.lost());
    let r = Readiness::of(&EventSet::readable());
    assert_eq!(r, Readiness { readable: true, writable: false, error: false, hup: false });
    let w = Readiness::of(&EventSet::writable());
    assert_eq!(w, Readiness { readable: false, writable: true, error: false, hup: false });
    let e = Readiness::of(&EventSet::error());
    assert_eq!(e, Readiness { readable: false, writable: false, error: true, hup: false });
    assert!(e.lost());
    let h = Readiness::of(&EventSet::hup());
    assert_eq!(h, Readiness { readable: false, writable: false, error: false, hup: true });
    assert!(h.lost());
    let all = Readiness::of(&EventSet::all());
    assert_eq!(all, Readiness { readable: true, writable: true, error: true, hup: true });
    let rw = Readiness::of(&(EventSet::readable() | EventSet::writable()));
    assert_eq!(rw, Readiness { readable: true, writable: true, error: false, hup: false });
}

#[test]
fn new_gives_a_dispatcher_and_a_resolver_for_its_queue() {
    let (transport, resolver) = DnsTransport::new(conf(1000, 2));
    assert_eq!(transport.kind(), Kind::Dispatcher);
    assert_eq!(resolver.request_queue(), Address::Dispatcher);
    assert!(transport.outgoing().is_none());
}

#[test]
fn created_machines_are_of_the_kind_of_their_seed() {
    let rig = rig(1000, 2);
    assert_eq!(rig.dispatcher.kind(), Kind::Dispatcher);
    assert_eq!(rig.udp.kind(), Kind::Udp);
    assert_eq!(rig.tcp.kind(), Kind::Tcp);
    assert!(rig.udp.outgoing().is_none());
    assert_eq!(rig.tcp.outgoing(), Some(&Vec::new()));
}

#[test]
fn every_call_keeps_the_kind() {
    let rig = rig(1000, 2);
    for (m, kind) in
        [(rig.dispatcher, Kind::Dispatcher), (rig.udp, Kind::Udp), (rig.tcp, Kind::Tcp)]
    {
        let (r, _) = m.ready(&EventSet::readable(), nothing(), 1);
        let m = machine(r);
        assert_eq!(m.kind(), kind);
        let (r, _) = m.spawned();
        let m = machine(r);
        assert_eq!(m.kind(), kind);
        let (r, _) = m.timeout(2);
        let m = machine(r);
        assert_eq!(m.kind(), kind);
        let (r, _) = m.wakeup(Vec::new(), 3);
        assert_eq!(machine(r).kind(), kind);
    }
}

#[test]
fn scenario_answer_over_udp_succeeds() {
    let rig = rig(1000, 2);
    let (task, queries) = rig.resolver.task(Lookup, ChannelId(9));
    let task = task.ok().expect("the question can be encoded");
    assert_eq!(queries.len(), 1);
    let (rig, sent) = put_on_wire(rig, first_query(queries), 100);
    let (r, mut actions) = rig.udp.ready(&EventSet::readable(), datagram(response_to(&sent, false)), 150);
    assert!(matches!(r, Response::Normal(_)));
    assert_eq!(actions.len(), 1);
    let delivery = match actions.remove(0) {
        Action::Deliver(d) => d,
        other => panic!("expected a delivery, got {:?}", other),
    };
    assert_eq!(delivery.to, ChannelId(9));
    let (progress, more) = task.step(Ok(delivery.outcome));
    assert!(more.is_empty());
    match progress {
        Progress::Success(address) => assert_eq!(address, [192, 0, 2, 7]),
        _ => panic!("expected success"),
    }
}

#[test]
fn scenario_two_attempts_without_response_time_out() {
    let rig = rig(200, 2);
    let (task, queries) = rig.resolver.task(Lookup, ChannelId(9));
    let task = task.ok().expect("the question can be encoded");
    let (rig, first) = put_on_wire(rig, first_query(queries), 1000);
    // Nothing happens before the deadline.
    let (r, actions) = rig.udp.timeout(1199);
    assert!(actions.is_empty());
    let udp = match r {
        Response::Deadline(m, at) => {
            assert_eq!(at, 1200);
            m
        }
        other => panic!("expected a deadline, got {:?}", other),
    };
    // The first expiry: the query goes back to the dispatcher for another try.
    let (r, actions) = udp.timeout(1200);
    assert!(matches!(r, Response::Normal(_)));
    let retry = posted(actions, Address::Dispatcher);
    assert!(matches!(retry, Mail::Retry { after: 0, .. }));
    let rig = Rig { udp: machine(r), ..rig };
    let (rig, second) = put_on_wire(rig, retry, 1200);
    assert_eq!(&second[2..], &first[2..]);
    // The second expiry: the attempts are used up.
    let (r, mut actions) = rig.udp.timeout(1400);
    assert!(matches!(r, Response::Normal(_)));
    assert_eq!(actions.len(), 1);
    let delivery = match actions.remove(0) {
        Action::Deliver(d) => d,
        other => panic!("expected a delivery, got {:?}", other),
    };
    assert_eq!(delivery.to, ChannelId(9));
    assert!(matches!(delivery.outcome, Err(Error::Timeout)));
    let (progress, _) = task.step(Ok(delivery.outcome));
    assert!(matches!(progress, Progress::Error(Error::Timeout)));
}

#[test]
fn scenario_truncated_response_goes_to_tcp_before_any_delivery() {
    let rig = rig(1000, 2);
    let (_task, queries) = rig.resolver.task(Lookup, ChannelId(9));
    let (rig, sent) = put_on_wire(rig, first_query(queries), 0);
    // The truncated response: nothing is delivered, the query goes to the dispatcher.
    let (r, actions) = rig.udp.ready(&EventSet::readable(), datagram(response_to(&sent, true)), 10);
    let udp = machine(r);
    assert!(actions.iter().all(|a| !matches!(a, Action::Deliver(_))));
    let escalate = posted(actions, Address::Dispatcher);
    assert!(matches!(escalate, Mail::Escalate { server: 0, .. }));
    // The dispatcher sends it to the stream transport of the same server.
    let (_, mut actions) = rig.dispatcher.wakeup(vec![escalate], 10);
    assert_eq!(actions.len(), 2);
    assert!(actions.iter().all(|a| !matches!(a, Action::Deliver(_))));
    let accepted = posted(vec![actions.pop().unwrap()], udp0());
    let forwarded = posted(actions, tcp0());
    // The stream transport frames the identical question.
    let (r, actions) = rig.tcp.wakeup(vec![forwarded], 10);
    assert!(actions.is_empty());
    let tcp = match r {
        Response::Deadline(m, at) => {
            assert_eq!(at, 1010);
            m
        }
        other => panic!("expected a deadline, got {:?}", other),
    };
    let wire = tcp.outgoing().unwrap().clone();
    assert_eq!(wire.len(), 2 + sent.len());
    assert_eq!(&wire[..2], &[0, sent.len() as u8]);
    assert_eq!(&wire[4..], &sent[2..]);
    // The datagram transport lets go of its entry without a delivery.
    let (r, actions) = udp.wakeup(vec![accepted], 10);
    assert!(actions.is_empty());
    assert!(matches!(r, Response::Normal(_)));
    // The answer over the stream is what is delivered.
    let mut answer = response_to(&wire[2..], false);
    let mut stream = vec![0, answer.len() as u8];
    stream.append(&mut answer);
    let input = SocketInput { datagrams: Vec::new(), stream, written: wire.len(), closed: false };
    let (r, mut actions) = tcp.ready(&(EventSet::readable() | EventSet::writable()), input, 20);
    let tcp = match r {
        Response::Normal(m) => m,
        other => panic!("expected the machine to rest, got {:?}", other),
    };
    assert!(tcp.outgoing().unwrap().is_empty());
    assert_eq!(actions.len(), 1);
    match actions.remove(0) {
        Action::Deliver(d) => {
            assert_eq!(d.to, ChannelId(9));
            assert!(d.outcome.is_ok());
        }
        other => panic!("expected a delivery, got {:?}", other),
    }
}

#[test]
fn truncated_response_without_stream_transport_fails_with_dispatch_error() {
    let rig = rig(1000, 2);
    let (_task, queries) = rig.resolver.task(Lookup, ChannelId(9));
    let (rig, sent) = put_on_wire(rig, first_query(queries), 0);
    let tcp_gone = Mail::Closed(TransportId { server: 0, protocol: Protocol::Tcp });
    let (r, actions) = rig.udp.ready(&EventSet::readable(), datagram(response_to(&sent, true)), 10);
    let escalate = posted(actions, Address::Dispatcher);
    let (_, actions) = rig.dispatcher.wakeup(vec![tcp_gone, escalate], 10);
    let rejected = posted(actions, udp0());
    let (_, mut actions) = machine(r).wakeup(vec![rejected], 10);
    assert_eq!(actions.len(), 1);
    match actions.remove(0) {
        Action::Deliver(d) => {
            assert_eq!(d.to, ChannelId(9));
            assert!(matches!(d.outcome, Err(Error::Dispatch)));
        }
        other => panic!("expected a delivery, got {:?}", other),
    }
}

#[test]
fn stream_loss_ends_the_machine_and_fails_what_it_held() {
    for (events, closed) in
        [(EventSet::hup(), false), (EventSet::error(), false), (EventSet::readable(), true)]
    {
        let rig = rig(1000, 2);
        let (_task, queries) = rig.resolver.task(Lookup, ChannelId(9));
        let (r, _) = rig.tcp.wakeup(vec![first_query(queries)], 0);
        let input = SocketInput { datagrams: Vec::new(), stream: Vec::new(), written: 0, closed };
        let (r, actions) = machine(r).ready(&events, input, 5);
        assert!(matches!(r, Response::Done));
        assert_eq!(actions.len(), 2);
        assert!(matches!(&actions[0], Action::Deliver(d) if d.to == ChannelId(9)
            && matches!(d.outcome, Err(Error::Connection))));
        assert!(matches!(&actions[1], Action::Post { to: Address::Dispatcher,
            mail: Mail::Closed(TransportId { server: 0, protocol: Protocol::Tcp }) }));
    }
}

#[test]
fn mail_for_another_machine_fails_its_query() {
    let rig = rig(1000, 2);
    let (_task, queries) = rig.resolver.task(Lookup, ChannelId(9));
    let query = match first_query(queries) {
        Mail::Query(q) => q,
        other => panic!("expected a query, got {:?}", other),
    };
    let (_, actions) = rig.udp.wakeup(vec![Mail::Retry { query, after: 0 }], 0);
    assert!(matches!(&actions[0], Action::Deliver(d) if matches!(d.outcome, Err(Error::Dispatch))));
    let (_task, queries) = rig.resolver.task(Lookup, ChannelId(9));
    let query = match first_query(queries) {
        Mail::Query(q) => q,
        other => panic!("expected a query, got {:?}", other),
    };
    let (_, actions) = rig.tcp.wakeup(vec![Mail::Escalate { query, server: 0, id: 0 }], 0);
    assert!(matches!(&actions[0], Action::Deliver(d) if matches!(d.outcome, Err(Error::Dispatch))));
}

#[test]
fn step_after_receive_failure_is_a_timeout() {
    let rig = rig(1000, 2);
    let (task, _) = rig.resolver.task(Lookup, ChannelId(9));
    let (progress, queries) = task.ok().unwrap().step(Err(RecvError));
    assert!(queries.is_empty());
    assert!(matches!(progress, Progress::Error(Error::Timeout)));
}
