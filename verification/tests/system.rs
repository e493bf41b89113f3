use std::collections::HashMap;

use rotor::EventSet;
use stub_resolver::action::Action;
use stub_resolver::action::Address;
use stub_resolver::conf::Protocol;
use stub_resolver::conf::ResolvConf;
use stub_resolver::conf::ServerAddr;
use stub_resolver::conf::TransportId;
use stub_resolver::dispatcher::BootstrapItem;
use stub_resolver::error::Error;
use stub_resolver::lifecycle::Received;
use stub_resolver::lifecycle::SocketInput;
use stub_resolver::mailroom::Effect;
use stub_resolver::mailroom::Mailroom;
use stub_resolver::message::MessageBuf;
use stub_resolver::query::ChannelId;
use stub_resolver::replies::Replies;
use stub_resolver::resolver::Resolver;
use stub_resolver::resolver::ResolverMachine;
use stub_resolver::sync::TryRecvError;
use stub_resolver::task::Emitter;
use stub_resolver::task::Progress;
use stub_resolver::task::Task;
use stub_resolver::transport::DnsTransport;
use stub_resolver::transport::Response;
use stub_resolver::udp::Datagram;

fn server(n: u8) -> ServerAddr {
    ServerAddr { ip: 0xffff_c000_0200 + n as u128, port: 53 }
}

fn udp(server: usize) -> Address {
    Address::Transport(TransportId { server, protocol: Protocol::Udp })
}

fn tcp(server: usize) -> Address {
    Address::Transport(TransportId { server, protocol: Protocol::Tcp })
}

/// Asks for one name; succeeds with the number of bytes of the answer.
struct Ask(&'static str);

impl Task for Ask {
    type Success = usize;

    fn start(self, emit: &mut Emitter) -> Self {
        emit.emit(self.0.split('.').map(|l| l.as_bytes().to_vec()).collect(), 1, 1);
        self
    }

    fn progress(self, response: Result<MessageBuf, Error>, _emit: &mut Emitter) -> Progress<Self, usize> {
        match response {
            Ok(m) => Progress::Success(m.len()),
            Err(e) => Progress::Error(e),
        }
    }
}

/// All machines of one resolver, driven by hand: the test is the event
/// loop, the network and the clock.
struct World {
    machines: HashMap<Address, DnsTransport>,
    deadlines: HashMap<Address, u64>,
    room: Mailroom,
    replies: Replies,
    resolver: Resolver,
    /// The datagrams that have been put on the wire.
    wire: Vec<Datagram>,
    /// How many outcomes have reached each queue.
    delivered: HashMap<ChannelId, usize>,
    now: u64,
}

impl World {
    fn new(servers: u8, timeout_ms: u64, attempts: u32) -> World {
        let conf = ResolvConf {
            servers: (1..=servers).map(server).collect(),
            timeout_ms,
            attempts,
            rotate: false,
        };
        let (dispatcher, resolver) = DnsTransport::new(conf);
        let mut world = World {
            machines: HashMap::new(),
            deadlines: HashMap::new(),
            room: Mailroom::new(),
            replies: Replies::new(),
            resolver,
            wire: Vec::new(),
            delivered: HashMap::new(),
            now: 0,
        };
        world.room.attach(Address::Dispatcher);
        world.machines.insert(Address::Dispatcher, dispatcher);
        world.wake(Address::Dispatcher);
        world
    }

    fn settle(
        &mut self,
        address: Address,
        answer: (Response<DnsTransport, BootstrapItem>, Vec<Action>),
    ) {
        let (response, actions) = answer;
        self.deadlines.remove(&address);
        let mut spawn = None;
        match response {
            Response::Normal(m) => {
                self.machines.insert(address, m);
            }
            Response::Deadline(m, at) => {
                self.machines.insert(address, m);
                self.deadlines.insert(address, at);
            }
            Response::Spawn(m, seed) => {
                self.machines.insert(address, m);
                spawn = Some(seed);
            }
            Response::Done => {
                let effects = self.room.detach(address);
                self.carry_out(effects);
            }
        }
        let effects = self.room.perform(actions);
        self.carry_out(effects);
        if let Some(seed) = spawn {
            let made = match seed {
                BootstrapItem::Udp(s) => udp(s.index),
                BootstrapItem::Tcp(s) => tcp(s.index),
            };
            self.room.attach(made);
            self.settle(made, (DnsTransport::create(seed), Vec::new()));
            let parent = self.machines.remove(&address).unwrap();
            let answer = parent.spawned();
            self.settle(address, answer);
        }
    }

    fn carry_out(&mut self, effects: Vec<Effect>) {
        for effect in effects {
            match effect {
                Effect::Deliver(d) => {
                    *self.delivered.entry(d.to).or_insert(0) += 1;
                    self.replies.deliver(d);
                }
                Effect::Transmit(d) => self.wire.push(d),
                Effect::Wake(address) => self.wake(address),
            }
        }
    }

    fn wake(&mut self, address: Address) {
        if let Some(machine) = self.machines.remove(&address) {
            let mail = self.room.take(address);
            let answer = machine.wakeup(mail, self.now);
            self.settle(address, answer);
        }
    }

    fn ready(&mut self, address: Address, events: EventSet, input: SocketInput) {
        if let Some(machine) = self.machines.remove(&address) {
            let answer = machine.ready(&events, input, self.now);
            self.settle(address, answer);
        }
    }

    /// Lets the time pass up to `now` and calls every machine whose
    /// deadline has come.
    fn advance(&mut self, now: u64) {
        self.now = now;
        let due: Vec<Address> =
            self.deadlines.iter().filter(|(_, at)| **at <= now).map(|(a, _)| *a).collect();
        for address in due {
            if let Some(machine) = self.machines.remove(&address) {
                let answer = machine.timeout(now);
                self.settle(address, answer);
            }
        }
    }

    /// Starts a task and submits its queries.
    fn ask(&mut self, name: &'static str) -> (ChannelId, ResolverMachine<Ask>) {
        let receiver = self.replies.open(false).unwrap();
        let (machine, actions) = self.resolver.task(Ask(name), receiver);
        let effects = self.room.perform(actions);
        self.carry_out(effects);
        (receiver, machine.ok().unwrap())
    }

    /// Lets every datagram transport send what waits, and takes the
    /// datagrams off the wire.
    fn flush(&mut self) -> Vec<Datagram> {
        let transports: Vec<Address> = self.machines.keys().cloned().collect();
        for address in transports {
            while self.machines.get(&address).map(|m| m.wants_write()).unwrap_or(false)
                && address != tcp(0)
                && address != tcp(1)
            {
                self.ready(address, EventSet::writable(), no_input());
            }
        }
        std::mem::take(&mut self.wire)
    }
}

fn no_input() -> SocketInput {
    SocketInput { datagrams: Vec::new(), stream: Vec::new(), written: 0, closed: false }
}

fn response_to(query: &[u8], truncated: bool) -> Vec<u8> {
    let mut bytes = query.to_vec();
    bytes[2] |= 0x80;
    bytes[7] = 1;
    if truncated {
        bytes[2] |= 0x02;
    }
    bytes.extend_from_slice(&[0xc0, 0x0c, 0, 1, 0, 1, 0, 0, 0, 60, 0, 4, 192, 0, 2, 7]);
    bytes
}

fn from(server: ServerAddr, bytes: Vec<u8>) -> SocketInput {
    SocketInput {
        datagrams: vec![Received { from: server, bytes }],
        stream: Vec::new(),
        written: 0,
        closed: false,
    }
}

#[test]
fn all_transports_come_up() {
    let world = World::new(2, 1000, 2);
    let mut there: Vec<String> = world.machines.keys().map(|a| format!("{:?}", a)).collect();
    there.sort();
    assert_eq!(there.len(), 5);
    for address in [Address::Dispatcher, udp(0), tcp(0), udp(1), tcp(1)] {
        assert!(world.machines.contains_key(&address));
        assert!(world.room.has(address));
    }
}

#[test]
fn every_query_gets_exactly_one_outcome() {
    let mut world = World::new(2, 100, 2);
    // Five tasks with one query each.
    let mut tasks = Vec::new();
    for name in ["answered.example", "truncated.example", "lost.example", "late.example", "cut.example"] {
        tasks.push(world.ask(name));
    }
    let sent = world.flush();
    assert_eq!(sent.len(), 5);
    assert!(sent.iter().all(|d| d.to == server(1)));
    // The first is answered.
    world.ready(udp(0), EventSet::readable(), from(server(1), response_to(&sent[0].bytes, false)));
    // The second is answered, truncated: it goes to the stream.
    world.ready(udp(0), EventSet::readable(), from(server(1), response_to(&sent[1].bytes, true)));
    let framed = world.machines[&tcp(0)].outgoing().unwrap().clone();
    assert_eq!(&framed[4..], &sent[1].bytes[2..]);
    // A stray response changes nothing.
    let mut stray = response_to(&sent[2].bytes, false);
    stray[0] ^= 0x55;
    world.ready(udp(0), EventSet::readable(), from(server(1), stray));
    world.ready(udp(0), EventSet::readable(), from(server(2), response_to(&sent[2].bytes, false)));
    assert!(world.delivered.get(&tasks[2].0).is_none());
    // The stream answers the second.
    let mut answer = response_to(&framed[2..], false);
    let mut stream = vec![0, answer.len() as u8];
    stream.append(&mut answer);
    let input = SocketInput { datagrams: Vec::new(), stream, written: framed.len(), closed: false };
    world.ready(tcp(0), EventSet::readable() | EventSet::writable(), input);
    // The others time out at the first server and are tried at the second.
    world.advance(100);
    let again = world.flush();
    assert_eq!(again.len(), 3);
    assert!(again.iter().all(|d| d.to == server(2)));
    // The fourth is answered by the second server; the answer of the first
    // server comes too late and matches nothing.
    world.ready(udp(1), EventSet::readable(), from(server(2), response_to(&again[1].bytes, false)));
    world.ready(udp(0), EventSet::readable(), from(server(1), response_to(&sent[3].bytes, false)));
    // The third and the fifth run out of attempts.
    world.advance(200);
    assert!(world.flush().is_empty());
    world.advance(10_000);
    // Every task has exactly one outcome on its queue.
    let mut outcomes = Vec::new();
    for (receiver, machine) in tasks {
        assert_eq!(world.delivered.get(&receiver), Some(&1), "queue {:?}", receiver);
        let (progress, more) = machine.wakeup(world.replies.try_recv(receiver));
        assert!(more.is_empty());
        assert!(matches!(world.replies.try_recv(receiver), Err(TryRecvError::Empty)));
        outcomes.push(match progress {
            Progress::Success(n) => Ok(n),
            Progress::Error(e) => Err(e),
            Progress::Continue(_) => panic!("no outcome on queue {:?}", receiver),
        });
    }
    assert!(matches!(outcomes[0], Ok(_)));
    assert!(matches!(outcomes[1], Ok(_)));
    assert!(matches!(outcomes[2], Err(Error::Timeout)));
    assert!(matches!(outcomes[3], Ok(_)));
    assert!(matches!(outcomes[4], Err(Error::Timeout)));
    // Nothing is left anywhere.
    assert!(world.deadlines.is_empty());
    for address in [Address::Dispatcher, udp(0), tcp(0), udp(1), tcp(1)] {
        assert!(world.room.take(address).is_empty());
    }
}

#[test]
fn stream_loss_fails_what_the_stream_held_and_the_stream_comes_back() {
    let mut world = World::new(1, 100, 2);
    let (first, _) = world.ask("one.example");
    let (second, _) = world.ask("two.example");
    let sent = world.flush();
    for d in sent.iter() {
        world.ready(udp(0), EventSet::readable(), from(server(1), response_to(&d.bytes, true)));
    }
    assert_eq!(world.machines[&tcp(0)].outgoing().unwrap().len(), 2 * (2 + sent[0].bytes.len()));
    assert!(world.delivered.is_empty());
    // The peer hangs up.
    world.ready(tcp(0), EventSet::hup(), no_input());
    assert_eq!(world.delivered.get(&first), Some(&1));
    assert_eq!(world.delivered.get(&second), Some(&1));
    assert!(matches!(world.replies.try_recv(first), Ok(Err(Error::Connection))));
    assert!(matches!(world.replies.try_recv(second), Ok(Err(Error::Connection))));
    // The dispatcher has brought the stream transport up again.
    assert!(world.machines.contains_key(&tcp(0)));
    assert!(world.room.has(tcp(0)));
    assert!(world.machines[&tcp(0)].outgoing().unwrap().is_empty());
    // Nothing more arrives for the two tasks, whatever the time.
    world.advance(100_000);
    assert_eq!(world.delivered.get(&first), Some(&1));
    assert_eq!(world.delivered.get(&second), Some(&1));
}

#[test]
fn outcome_for_a_task_that_has_gone_is_dropped() {
    let mut world = World::new(1, 100, 1);
    let (receiver, machine) = world.ask("gone.example");
    let sent = world.flush();
    drop(machine);
    world.replies.close(receiver);
    world.ready(udp(0), EventSet::readable(), from(server(1), response_to(&sent[0].bytes, false)));
    assert!(!world.replies.is_open(receiver));
    assert!(matches!(world.replies.try_recv(receiver), Err(TryRecvError::Disconnected)));
}
