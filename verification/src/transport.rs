//! The one machine that the event loop sees.
//!
//! A `DnsTransport` is a dispatcher, a datagram transport or a stream
//! transport. Every call of the event loop goes to whichever it is, and
//! what comes back is wrapped again as the same kind: a machine is of one
//! kind from its creation to its end.

use vstd::prelude::*;
use crate::action::action_views;
use crate::action::mail_views;
use crate::action::Action;
use crate::action::ActionView;
use crate::action::Address;
use crate::action::Mail;
use crate::action::MailView;
use crate::conf::ResolvConf;
use crate::dispatcher::after_spawned;
use crate::dispatcher::dispatcher_initial;
use crate::dispatcher::spawn_next;
use crate::dispatcher::BootstrapItem;
use crate::dispatcher::Dispatcher;
use crate::dispatcher::DispatcherView;
use crate::events::event_kinds;
use crate::events::readiness_of;
use crate::events::Readiness;
use crate::lifecycle::dispatch_all;
use crate::lifecycle::tcp_ready;
use crate::lifecycle::tcp_timeout;
use crate::lifecycle::tcp_wakeup;
use crate::lifecycle::udp_mails;
use crate::lifecycle::udp_ready;
use crate::lifecycle::udp_timeout;
use crate::lifecycle::SocketInput;
use crate::lifecycle::SocketInputView;
use crate::timeout::earliest;
use crate::resolver::Resolver;
use crate::tcp::tcp_initial;
use crate::tcp::TcpTransport;
use crate::tcp::TcpView;
use crate::udp::udp_initial;
use crate::udp::UdpTransport;
use crate::udp::UdpView;

verus! {

/// What a machine answers to a call of the event loop.
#[derive(Debug)]
pub enum Response<M, N> {
    /// The machine goes on and waits for no deadline.
    Normal(M),
    /// The machine goes on and is to be called when the time has come.
    Deadline(M, u64),
    /// The machine goes on and asks for a machine to be made from the seed.
    Spawn(M, N),
    /// The machine has ended.
    Done,
}

/// The three kinds of machine.
#[derive(Clone, Copy, Debug, PartialEq, Eq, Structural)]
pub enum Kind {
    Dispatcher,
    Udp,
    Tcp,
}

/// The machine that the event loop drives.
#[derive(Debug)]
pub struct DnsTransport(Composition);

/// The machines that a `DnsTransport` can be.
#[derive(Debug)]
enum Composition {
    Dispatcher(Dispatcher),
    Udp(UdpTransport),
    Tcp(TcpTransport),
}

/// The state of a `DnsTransport` as a mathematical value.
pub enum MachineView {
    Dispatcher(DispatcherView),
    Udp(UdpView),
    Tcp(TcpView),
}

impl View for DnsTransport {
    type V = MachineView;

    closed spec fn view(&self) -> MachineView {
        match self.0 {
            Composition::Dispatcher(m) => MachineView::Dispatcher(m@),
            Composition::Udp(m) => MachineView::Udp(m@),
            Composition::Tcp(m) => MachineView::Tcp(m@),
        }
    }
}

/// The kind of the machine `m`.
pub open spec fn kind_of(m: MachineView) -> Kind {
    match m {
        MachineView::Dispatcher(_) => Kind::Dispatcher,
        MachineView::Udp(_) => Kind::Udp,
        MachineView::Tcp(_) => Kind::Tcp,
    }
}

/// The machine that goes on after the response `r`, if one does.
pub open spec fn machine_of<M, N>(r: Response<M, N>) -> Option<M> {
    match r {
        Response::Normal(m) => Some(m),
        Response::Deadline(m, _) => Some(m),
        Response::Spawn(m, _) => Some(m),
        Response::Done => None,
    }
}

/// The response `r` with the state of its machine in place of the machine.
pub open spec fn response_view(r: Response<DnsTransport, BootstrapItem>) -> Response<
    MachineView,
    BootstrapItem,
> {
    match r {
        Response::Normal(m) => Response::Normal(m@),
        Response::Deadline(m, at) => Response::Deadline(m@, at),
        Response::Spawn(m, seed) => Response::Spawn(m@, seed),
        Response::Done => Response::Done,
    }
}

/// The time at which the machine `m` is to be called next.
pub open spec fn deadline_of(m: MachineView) -> Option<u64> {
    match m {
        MachineView::Dispatcher(_) => None,
        MachineView::Udp(s) => earliest(s.pending),
        MachineView::Tcp(s) => earliest(s.pending),
    }
}

/// The response with which the machine `m` goes on: it waits for its
/// earliest deadline, if it has one.
pub open spec fn settle(m: MachineView) -> Response<MachineView, BootstrapItem> {
    match deadline_of(m) {
        Some(at) => Response::Deadline(m, at),
        None => Response::Normal(m),
    }
}

/// The response with which a dispatcher in the state `s` goes on: it asks
/// for the next transport that is to be brought up, if there is one.
pub open spec fn bring_up(s: DispatcherView) -> Response<MachineView, BootstrapItem> {
    let (s1, seed) = spawn_next(s);
    match seed {
        Some(seed) => Response::Spawn(MachineView::Dispatcher(s1), seed),
        None => Response::Normal(MachineView::Dispatcher(s1)),
    }
}

/// The machine that is made from `seed`.
pub open spec fn transport_create(seed: BootstrapItem) -> MachineView {
    match seed {
        BootstrapItem::Udp(s) => MachineView::Udp(
            udp_initial(s.index, s.server, s.timeout_ms, s.attempts),
        ),
        BootstrapItem::Tcp(s) => MachineView::Tcp(tcp_initial(s.index, s.server, s.timeout_ms)),
    }
}

/// The answer of the machine `m` when its socket is ready, and the actions
/// that follow. A dispatcher has no socket and stays as it is.
pub open spec fn transport_ready(m: MachineView, ready: Readiness, input: SocketInputView, now: u64)
    -> (Response<MachineView, BootstrapItem>, Seq<ActionView>) {
    match m {
        MachineView::Dispatcher(s) => (Response::Normal(m), Seq::empty()),
        MachineView::Udp(s) => {
            let (s1, a) = udp_ready(s, ready, input.datagrams, now);
            (settle(MachineView::Udp(s1)), a)
        },
        MachineView::Tcp(s) => {
            let (s1, a) = tcp_ready(s, ready, input.stream, input.written, input.closed, now);
            match s1 {
                Some(s1) => (settle(MachineView::Tcp(s1)), a),
                None => (Response::Done, a),
            }
        },
    }
}

/// The answer of the machine `m` when a machine it asked for has been
/// made. A dispatcher marks the transport as there and asks for the next;
/// a transport never asks for a machine and stays as it is.
pub open spec fn transport_spawned(m: MachineView) -> (
    Response<MachineView, BootstrapItem>,
    Seq<ActionView>,
) {
    match m {
        MachineView::Dispatcher(s) => (bring_up(after_spawned(s)), Seq::empty()),
        _ => (settle(m), Seq::empty()),
    }
}

/// The answer of the machine `m` when its deadline has passed, and the
/// actions that follow. A dispatcher has no deadline and stays as it is.
pub open spec fn transport_timeout(m: MachineView, now: u64) -> (
    Response<MachineView, BootstrapItem>,
    Seq<ActionView>,
) {
    match m {
        MachineView::Dispatcher(s) => (Response::Normal(m), Seq::empty()),
        MachineView::Udp(s) => {
            let (s1, a) = udp_timeout(s, now);
            (settle(MachineView::Udp(s1)), a)
        },
        MachineView::Tcp(s) => {
            let (s1, a) = tcp_timeout(s, now);
            (settle(MachineView::Tcp(s1)), a)
        },
    }
}

/// The answer of the machine `m` when it has the mail `mail`, and the
/// actions that follow. A dispatcher routes the mail and then asks for the
/// next transport that is to be brought up.
pub open spec fn transport_wakeup(m: MachineView, mail: Seq<MailView>, now: u64) -> (
    Response<MachineView, BootstrapItem>,
    Seq<ActionView>,
) {
    match m {
        MachineView::Dispatcher(s) => {
            let (s1, a) = dispatch_all(s, mail, mail.len() as int);
            (bring_up(s1), a)
        },
        MachineView::Udp(s) => {
            let (s1, a) = udp_mails(s, mail, mail.len() as int);
            (settle(MachineView::Udp(s1)), a)
        },
        MachineView::Tcp(s) => {
            let (s1, a) = tcp_wakeup(s, mail, now);
            (settle(MachineView::Tcp(s1)), a)
        },
    }
}

impl DnsTransport {
    /// The dispatcher for `conf`, and the resolver whose queries go to the
    /// dispatcher's queue.
    pub fn new(conf: ResolvConf) -> (r: (DnsTransport, Resolver))
        ensures
            r.0@ == MachineView::Dispatcher(
                dispatcher_initial(conf.servers@, conf.timeout_ms, conf.attempts, conf.rotate),
            ),
            r.1.requests() == Address::Dispatcher,
    {
        let dispatcher = Dispatcher::new(conf);
        let resolver = Resolver::new(Address::Dispatcher);
        (DnsTransport(Composition::Dispatcher(dispatcher)), resolver)
    }

    /// The kind of machine this is.
    pub fn kind(&self) -> (k: Kind)
        ensures
            k == kind_of(self@),
    {
        match &self.0 {
            Composition::Dispatcher(_) => Kind::Dispatcher,
            Composition::Udp(_) => Kind::Udp,
            Composition::Tcp(_) => Kind::Tcp,
        }
    }

    /// What the stream has yet to take; nothing for a machine that has no
    /// stream.
    pub fn outgoing(&self) -> (bytes: Option<&Vec<u8>>)
        ensures
            match self@ {
                MachineView::Tcp(s) => bytes matches Some(b) && b@ == s.outbuf,
                _ => bytes is None,
            },
    {
        match &self.0 {
            Composition::Tcp(m) => Some(m.outgoing()),
            _ => None,
        }
    }

    /// Whether the machine has something for its socket to take: a
    /// datagram transport when a query waits, a stream transport when
    /// bytes are left to leave.
    pub fn wants_write(&self) -> (b: bool)
        ensures
            b == match self@ {
                MachineView::Dispatcher(_) => false,
                MachineView::Udp(s) => s.queue.len() > 0,
                MachineView::Tcp(s) => s.outbuf.len() > 0,
            },
    {
        match &self.0 {
            Composition::Dispatcher(_) => false,
            Composition::Udp(m) => m.wants_send(),
            Composition::Tcp(m) => m.outgoing().len() > 0,
        }
    }

    fn settled(self) -> (r: Response<DnsTransport, BootstrapItem>)
        ensures
            response_view(r) == settle(self@),
    {
        let at = match &self.0 {
            Composition::Dispatcher(_) => None,
            Composition::Udp(m) => m.next_deadline(),
            Composition::Tcp(m) => m.next_deadline(),
        };
        match at {
            Some(at) => Response::Deadline(self, at),
            None => Response::Normal(self),
        }
    }

    fn brought_up(dispatcher: Dispatcher) -> (r: Response<DnsTransport, BootstrapItem>)
        ensures
            response_view(r) == bring_up(dispatcher@),
    {
        let mut dispatcher = dispatcher;
        match dispatcher.spawn_next() {
            Some(seed) => Response::Spawn(DnsTransport(Composition::Dispatcher(dispatcher)), seed),
            None => Response::Normal(DnsTransport(Composition::Dispatcher(dispatcher))),
        }
    }

    /// Makes the machine that `seed` asks for.
    pub fn create(seed: BootstrapItem) -> (r: Response<DnsTransport, BootstrapItem>)
        ensures
            response_view(r) == Response::<MachineView, BootstrapItem>::Normal(
                transport_create(seed),
            ),
    {
        match seed {
            BootstrapItem::Udp(s) => Response::Normal(
                DnsTransport(
                    Composition::Udp(UdpTransport::new(s.index, s.server, s.timeout_ms, s.attempts)),
                ),
            ),
            BootstrapItem::Tcp(s) => Response::Normal(
                DnsTransport(Composition::Tcp(TcpTransport::new(s.index, s.server, s.timeout_ms))),
            ),
        }
    }

    /// The socket of the machine is ready. `events` is what the event loop
    /// reports, `input` what the program has gathered from the socket.
    pub fn ready(self, events: &rotor::EventSet, input: SocketInput, now: u64) -> (r: (
        Response<DnsTransport, BootstrapItem>,
        Vec<Action>,
    ))
        ensures
            response_view(r.0) == transport_ready(
                self@,
                readiness_of(event_kinds(*events)),
                input@,
                now,
            ).0,
            action_views(r.1@) == transport_ready(
                self@,
                readiness_of(event_kinds(*events)),
                input@,
                now,
            ).1,
    {
        let ready = Readiness::of(events);
        self.ready_with(ready, input, now)
    }

    /// The socket of the machine is ready in the way that `ready` says.
    pub fn ready_with(self, ready: Readiness, input: SocketInput, now: u64) -> (r: (
        Response<DnsTransport, BootstrapItem>,
        Vec<Action>,
    ))
        ensures
            response_view(r.0) == transport_ready(self@, ready, input@, now).0,
            action_views(r.1@) == transport_ready(self@, ready, input@, now).1,
    {
        match self.0 {
            Composition::Dispatcher(m) => {
                let out: Vec<Action> = Vec::new();
                assert(action_views(out@) == Seq::<ActionView>::empty());
                (Response::Normal(DnsTransport(Composition::Dispatcher(m))), out)
            },
            Composition::Udp(m) => {
                let mut m = m;
                let out = m.on_ready(ready, input.datagrams, now);
                (DnsTransport(Composition::Udp(m)).settled(), out)
            },
            Composition::Tcp(m) => {
                let (next, out) = m.on_ready(ready, &input.stream, input.written, input.closed, now);
                match next {
                    Some(m) => (DnsTransport(Composition::Tcp(m)).settled(), out),
                    None => (Response::Done, out),
                }
            },
        }
    }

    /// A machine that this machine asked for has been made.
    pub fn spawned(self) -> (r: (Response<DnsTransport, BootstrapItem>, Vec<Action>))
        ensures
            response_view(r.0) == transport_spawned(self@).0,
            action_views(r.1@) == transport_spawned(self@).1,
    {
        let out: Vec<Action> = Vec::new();
        assert(action_views(out@) == Seq::<ActionView>::empty());
        match self.0 {
            Composition::Dispatcher(m) => {
                let mut m = m;
                m.spawned();
                (Self::brought_up(m), out)
            },
            Composition::Udp(m) => (DnsTransport(Composition::Udp(m)).settled(), out),
            Composition::Tcp(m) => (DnsTransport(Composition::Tcp(m)).settled(), out),
        }
    }

    /// The deadline of the machine has passed.
    pub fn timeout(self, now: u64) -> (r: (Response<DnsTransport, BootstrapItem>, Vec<Action>))
        ensures
            response_view(r.0) == transport_timeout(self@, now).0,
            action_views(r.1@) == transport_timeout(self@, now).1,
    {
        match self.0 {
            Composition::Dispatcher(m) => {
                let out: Vec<Action> = Vec::new();
                assert(action_views(out@) == Seq::<ActionView>::empty());
                (Response::Normal(DnsTransport(Composition::Dispatcher(m))), out)
            },
            Composition::Udp(m) => {
                let mut m = m;
                let out = m.on_timeout(now);
                (DnsTransport(Composition::Udp(m)).settled(), out)
            },
            Composition::Tcp(m) => {
                let mut m = m;
                let out = m.on_timeout(now);
                (DnsTransport(Composition::Tcp(m)).settled(), out)
            },
        }
    }

    /// The machine has mail: `mail` is what was on its queue, oldest
    /// first.
    pub fn wakeup(self, mail: Vec<Mail>, now: u64) -> (r: (
        Response<DnsTransport, BootstrapItem>,
        Vec<Action>,
    ))
        ensures
            response_view(r.0) == transport_wakeup(self@, mail_views(mail@), now).0,
            action_views(r.1@) == transport_wakeup(self@, mail_views(mail@), now).1,
    {
        match self.0 {
            Composition::Dispatcher(m) => {
                let mut m = m;
                let out = m.on_wakeup(mail);
                (Self::brought_up(m), out)
            },
            Composition::Udp(m) => {
                let mut m = m;
                let out = m.on_wakeup(mail);
                (DnsTransport(Composition::Udp(m)).settled(), out)
            },
            Composition::Tcp(m) => {
                let mut m = m;
                let out = m.on_wakeup(mail, now);
                (DnsTransport(Composition::Tcp(m)).settled(), out)
            },
        }
    }
}

/// A machine is of one kind from its creation to its end: whatever the
/// event loop calls, the machine that goes on is of the kind that was
/// called. And only a dispatcher ever asks for a machine to be made.
pub proof fn lemma_kind_is_kept(
    m: MachineView,
    ready: Readiness,
    input: SocketInputView,
    mail: Seq<MailView>,
    now: u64,
)
    ensures
        machine_of(transport_ready(m, ready, input, now).0) matches Some(next) ==> kind_of(next)
            == kind_of(m),
        machine_of(transport_spawned(m).0) matches Some(next) ==> kind_of(next) == kind_of(m),
        machine_of(transport_timeout(m, now).0) matches Some(next) ==> kind_of(next) == kind_of(
            m,
        ),
        machine_of(transport_wakeup(m, mail, now).0) matches Some(next) ==> kind_of(next)
            == kind_of(m),
        kind_of(m) != Kind::Dispatcher ==> {
            &&& !(transport_ready(m, ready, input, now).0 is Spawn)
            &&& !(transport_spawned(m).0 is Spawn)
            &&& !(transport_timeout(m, now).0 is Spawn)
            &&& !(transport_wakeup(m, mail, now).0 is Spawn)
        },
{
}

/// The machine made from a seed is of the kind that the seed names, and
/// never a dispatcher.
pub proof fn lemma_created_kind(seed: BootstrapItem)
    ensures
        kind_of(transport_create(seed)) == match seed {
            BootstrapItem::Udp(_) => Kind::Udp,
            BootstrapItem::Tcp(_) => Kind::Tcp,
        },
{
}

} // verus!
