//! The dispatcher: it brings up one transport machine for every server and
//! protocol, and routes every query to one of them.

use vstd::prelude::*;
use crate::action::action_views;
use crate::action::Action;
use crate::action::ActionView;
use crate::action::Address;
use crate::action::Mail;
use crate::action::MailView;
use crate::conf::Protocol;
use crate::conf::ResolvConf;
use crate::conf::ServerAddr;
use crate::conf::TransportId;
use crate::error::Error;
use crate::query::failed;
use crate::query::Query;
use crate::query::QueryView;

verus! {

/// What a transport machine is made from.
#[derive(Clone, Copy, Debug, PartialEq, Eq, Structural)]
pub struct Seed {
    /// The place of the server in the configuration.
    pub index: usize,
    pub server: ServerAddr,
    pub timeout_ms: u64,
    pub attempts: u32,
}

/// What the dispatcher asks the event loop to make a machine from.
#[derive(Clone, Copy, Debug, PartialEq, Eq, Structural)]
pub enum BootstrapItem {
    Udp(Seed),
    Tcp(Seed),
}

/// The dispatcher.
#[derive(Debug)]
pub struct Dispatcher {
    conf: ResolvConf,
    udp_up: Vec<bool>,
    tcp_up: Vec<bool>,
    cursor: usize,
    to_spawn: Vec<TransportId>,
    spawning: Option<TransportId>,
}

/// The state of a `Dispatcher` as a mathematical value.
pub struct DispatcherView {
    /// The servers, in the order of preference.
    pub servers: Seq<ServerAddr>,
    pub timeout_ms: u64,
    pub attempts: u32,
    /// Whether new queries take turns among the servers.
    pub rotate: bool,
    /// For every server, whether its datagram transport is there.
    pub udp_up: Seq<bool>,
    /// For every server, whether its stream transport is there.
    pub tcp_up: Seq<bool>,
    /// The server at which the next new query is tried first.
    pub cursor: usize,
    /// The transports that are yet to be brought up, next first.
    pub to_spawn: Seq<TransportId>,
    /// The transport that is being brought up.
    pub spawning: Option<TransportId>,
}

impl View for Dispatcher {
    type V = DispatcherView;

    closed spec fn view(&self) -> DispatcherView {
        DispatcherView {
            servers: self.conf.servers@,
            timeout_ms: self.conf.timeout_ms,
            attempts: self.conf.attempts,
            rotate: self.conf.rotate,
            udp_up: self.udp_up@,
            tcp_up: self.tcp_up@,
            cursor: self.cursor,
            to_spawn: self.to_spawn@,
            spawning: self.spawning,
        }
    }
}

/// The transport of the `k`-th place in the order of bringing up: for every
/// server its datagram transport, then its stream transport.
pub open spec fn spawn_order(k: int) -> TransportId {
    TransportId {
        server: (k / 2) as usize,
        protocol: if k % 2 == 0 {
            Protocol::Udp
        } else {
            Protocol::Tcp
        },
    }
}

/// The state in which a dispatcher for the given configuration starts: no
/// transport is there, all are yet to be brought up.
pub open spec fn dispatcher_initial(
    servers: Seq<ServerAddr>,
    timeout_ms: u64,
    attempts: u32,
    rotate: bool,
) -> DispatcherView {
    DispatcherView {
        servers,
        timeout_ms,
        attempts,
        rotate,
        udp_up: Seq::new(servers.len(), |i: int| false),
        tcp_up: Seq::new(servers.len(), |i: int| false),
        cursor: 0,
        to_spawn: Seq::new(2 * servers.len(), |k: int| spawn_order(k)),
        spawning: None,
    }
}

/// Whether `s` is a state that a dispatcher can be in.
pub open spec fn dispatcher_wf(s: DispatcherView) -> bool {
    &&& s.servers.len() <= usize::MAX
    &&& s.udp_up.len() == s.servers.len()
    &&& s.tcp_up.len() == s.servers.len()
    &&& (s.cursor < s.servers.len() || s.cursor == 0)
    &&& forall|k: int| 0 <= k < s.to_spawn.len() ==> (#[trigger] s.to_spawn[k]).server
        < s.servers.len()
    &&& (s.spawning matches Some(t) ==> t.server < s.servers.len())
}

/// The place `k` steps behind `start` among `n` places, going round.
pub open spec fn wrap(start: int, k: int, n: int) -> int {
    if start + k < n {
        start + k
    } else {
        start + k - n
    }
}

/// The first place that is up, looked for from `k` steps behind `start`
/// on, going round once at most.
pub open spec fn first_up(up: Seq<bool>, start: int, k: int) -> Option<int>
    decreases up.len() - k,
{
    if k < 0 || k >= up.len() {
        None
    } else if up[wrap(start, k, up.len() as int)] {
        Some(wrap(start, k, up.len() as int))
    } else {
        first_up(up, start, k + 1)
    }
}

/// The place behind `i` among `n` places, going round.
pub open spec fn place_after(i: int, n: int) -> int {
    if i + 1 < n {
        i + 1
    } else {
        0
    }
}

/// The seed for the transport `t`.
pub open spec fn seed_of(s: DispatcherView, t: TransportId) -> BootstrapItem {
    let seed = Seed {
        index: t.server,
        server: s.servers[t.server as int],
        timeout_ms: s.timeout_ms,
        attempts: s.attempts,
    };
    match t.protocol {
        Protocol::Udp => BootstrapItem::Udp(seed),
        Protocol::Tcp => BootstrapItem::Tcp(seed),
    }
}

/// The item that hands `q` to the datagram transport of the server at `i`.
pub open spec fn forward_udp(i: int, q: QueryView) -> ActionView {
    ActionView::Post {
        to: Address::Transport(TransportId { server: i as usize, protocol: Protocol::Udp }),
        mail: MailView::Query(q),
    }
}

/// The action by which the query `q` is routed to a datagram transport,
/// looked for from the server at `start` on: the query goes to the first
/// such transport that is there, or fails with `Error::Dispatch` if none
/// is.
pub open spec fn route_udp(s: DispatcherView, q: QueryView, start: int) -> ActionView {
    match first_up(s.udp_up, start, 0) {
        Some(i) => forward_udp(i, q),
        None => ActionView::Deliver(failed(q, Error::Dispatch)),
    }
}

/// The state after a new query has been routed: with turns taken, the next
/// new query starts at the server behind the one that got this query.
pub open spec fn after_fresh(s: DispatcherView) -> DispatcherView {
    match first_up(s.udp_up, s.cursor as int, 0) {
        Some(i) => if s.rotate {
            DispatcherView { cursor: place_after(i, s.servers.len() as int) as usize, ..s }
        } else {
            s
        },
        None => s,
    }
}

/// `up` with `value` at the place `i`, if there is such a place.
pub open spec fn set_up(up: Seq<bool>, i: usize, value: bool) -> Seq<bool> {
    if i < up.len() {
        up.update(i as int, value)
    } else {
        up
    }
}

/// The state with the transport `t` marked as there or not there.
pub open spec fn mark(s: DispatcherView, t: TransportId, value: bool) -> DispatcherView {
    match t.protocol {
        Protocol::Udp => DispatcherView { udp_up: set_up(s.udp_up, t.server, value), ..s },
        Protocol::Tcp => DispatcherView { tcp_up: set_up(s.tcp_up, t.server, value), ..s },
    }
}

/// The state after the transport `t` has ended: it is not there, and, if
/// its server is one of the configuration, it is to be brought up again.
pub open spec fn after_closed(s: DispatcherView, t: TransportId) -> DispatcherView {
    if t.server < s.servers.len() {
        DispatcherView { to_spawn: s.to_spawn.push(t), ..mark(s, t, false) }
    } else {
        s
    }
}

/// The state after the dispatcher has taken `mail`, and the actions that
/// follow.
///
/// - A new query goes to the first datagram transport that is there, from
///   the cursor on.
/// - A query to try again goes to the first datagram transport that is
///   there, from the server behind the one that gave no response on.
/// - A query whose response was truncated goes to the stream transport of
///   the same server, and the datagram transport hears that it did. If
///   that transport is not there, the query goes back to the datagram
///   transport, which lets it fail.
/// - Where no datagram transport is there, the query fails with
///   `Error::Dispatch`.
/// - A query that comes back from a handing over is not for the
///   dispatcher: it fails with `Error::Dispatch`.
pub open spec fn dispatch(s: DispatcherView, mail: MailView) -> (DispatcherView, Seq<ActionView>) {
    match mail {
        MailView::Query(q) => (after_fresh(s), seq![route_udp(s, q, s.cursor as int)]),
        MailView::Retry { query, after } => (
            s,
            seq![route_udp(s, query, place_after(after as int, s.servers.len() as int))],
        ),
        MailView::Escalate { query, server, id } => {
            let back = Address::Transport(TransportId { server, protocol: Protocol::Udp });
            if server < s.tcp_up.len() && s.tcp_up[server as int] {
                (
                    s,
                    seq![
                        ActionView::Post {
                            to: Address::Transport(
                                TransportId { server, protocol: Protocol::Tcp },
                            ),
                            mail: MailView::Query(query),
                        },
                        ActionView::Post { to: back, mail: MailView::Accepted { id } },
                    ],
                )
            } else {
                (
                    s,
                    seq![ActionView::Post { to: back, mail: MailView::Rejected { id, query } }],
                )
            }
        },
        MailView::Closed(t) => (after_closed(s, t), Seq::empty()),
        MailView::Accepted { id } => (s, Seq::empty()),
        MailView::Rejected { id, query } => (
            s,
            seq![ActionView::Deliver(failed(query, Error::Dispatch))],
        ),
    }
}

/// The state after the next transport has been picked for bringing up, and
/// its seed. Nothing is picked while one is being brought up or none is
/// left.
pub open spec fn spawn_next(s: DispatcherView) -> (DispatcherView, Option<BootstrapItem>) {
    if s.spawning is Some || s.to_spawn.len() == 0 {
        (s, None)
    } else {
        (
            DispatcherView {
                to_spawn: s.to_spawn.drop_first(),
                spawning: Some(s.to_spawn[0]),
                ..s
            },
            Some(seed_of(s, s.to_spawn[0])),
        )
    }
}

/// The state after the event loop has made the machine that was asked for:
/// the transport is there.
pub open spec fn after_spawned(s: DispatcherView) -> DispatcherView {
    match s.spawning {
        Some(t) => DispatcherView { spawning: None, ..mark(s, t, true) },
        None => s,
    }
}

/// A copy of `up` with `value` at the place `i`.
fn with_flag(up: &Vec<bool>, i: usize, value: bool) -> (v: Vec<bool>)
    requires
        i < up@.len(),
    ensures
        v@ == up@.update(i as int, value),
{
    let mut v: Vec<bool> = Vec::new();
    let mut k: usize = 0;
    while k < up.len()
        invariant
            k <= up.len(),
            i < up@.len(),
            v@ == up@.update(i as int, value).take(k as int),
        decreases up.len() - k,
    {
        v.push(if k == i {
            value
        } else {
            up[k]
        });
        k += 1;
        assert(v@ == up@.update(i as int, value).take(k as int));
    }
    assert(up@.update(i as int, value).take(up@.len() as int) == up@.update(i as int, value));
    v
}

/// Fills a vector with `n` times `false`.
fn all_down(n: usize) -> (v: Vec<bool>)
    ensures
        v@ == Seq::new(n as nat, |i: int| false),
{
    let mut v: Vec<bool> = Vec::new();
    let mut i: usize = 0;
    while i < n
        invariant
            i <= n,
            v@ == Seq::new(i as nat, |j: int| false),
        decreases n - i,
    {
        v.push(false);
        i += 1;
        assert(v@ == Seq::new(i as nat, |j: int| false));
    }
    v
}

impl Dispatcher {
    /// The invariant of the dispatcher.
    #[verifier::type_invariant]
    spec fn well_formed(self) -> bool {
        dispatcher_wf(self@)
    }

    /// A dispatcher is always in a state that `dispatcher_wf` accepts.
    pub fn is_well_formed(&self)
        ensures
            dispatcher_wf(self@),
    {
        proof {
            use_type_invariant(self);
        }
    }

    /// A dispatcher for `conf`. No transport is there yet.
    pub fn new(conf: ResolvConf) -> (d: Dispatcher)
        ensures
            d@ == dispatcher_initial(conf.servers@, conf.timeout_ms, conf.attempts, conf.rotate),
    {
        let n = conf.servers.len();
        let udp_up = all_down(n);
        let tcp_up = all_down(n);
        let mut to_spawn: Vec<TransportId> = Vec::new();
        let mut i: usize = 0;
        while i < n
            invariant
                i <= n,
                to_spawn@ == Seq::new(2 * i as nat, |k: int| spawn_order(k)),
            decreases n - i,
        {
            to_spawn.push(TransportId { server: i, protocol: Protocol::Udp });
            to_spawn.push(TransportId { server: i, protocol: Protocol::Tcp });
            i += 1;
            assert(to_spawn@ == Seq::new(2 * i as nat, |k: int| spawn_order(k)));
        }
        Dispatcher { conf, udp_up, tcp_up, cursor: 0, to_spawn, spawning: None }
    }

    /// The number of servers.
    pub fn server_count(&self) -> (n: usize)
        ensures
            n == self@.servers.len(),
    {
        self.conf.servers.len()
    }

    /// Whether the transport `t` is there.
    pub fn is_up(&self, t: TransportId) -> (b: bool)
        ensures
            b == (t.server < self@.servers.len() && match t.protocol {
                Protocol::Udp => self@.udp_up[t.server as int],
                Protocol::Tcp => self@.tcp_up[t.server as int],
            }),
    {
        proof {
            use_type_invariant(&*self);
        }
        if t.server >= self.conf.servers.len() {
            return false;
        }
        match t.protocol {
            Protocol::Udp => self.udp_up[t.server],
            Protocol::Tcp => self.tcp_up[t.server],
        }
    }

    /// The first datagram transport that is there, from `start` on.
    fn pick_udp(&self, start: usize) -> (r: Option<usize>)
        requires
            start < self@.servers.len() || start == 0,
        ensures
            match r {
                Some(i) => i < self@.servers.len() && first_up(self@.udp_up, start as int, 0)
                    == Some(i as int),
                None => first_up(self@.udp_up, start as int, 0) is None,
            },
    {
        proof {
            use_type_invariant(&*self);
        }
        let n = self.udp_up.len();
        let mut k: usize = 0;
        while k < n
            invariant
                k <= n,
                dispatcher_wf(self@),
                n == self.udp_up@.len(),
                start < n || start == 0,
                first_up(self@.udp_up, start as int, 0) == first_up(
                    self@.udp_up,
                    start as int,
                    k as int,
                ),
            decreases n - k,
        {
            let i = if start < n - k {
                start + k
            } else {
                start - (n - k)
            };
            if self.udp_up[i] {
                return Some(i);
            }
            k += 1;
        }
        None
    }

    fn route_udp(&self, query: Query, start: usize) -> (a: Action)
        requires
            start < self@.servers.len() || start == 0,
        ensures
            a@ == route_udp(self@, query@, start as int),
    {
        match self.pick_udp(start) {
            Some(i) => Action::Post {
                to: Address::Transport(TransportId { server: i, protocol: Protocol::Udp }),
                mail: Mail::Query(query),
            },
            None => Action::Deliver(query.fail(Error::Dispatch)),
        }
    }

    fn set(&mut self, t: TransportId, value: bool)
        ensures
            final(self)@ == mark(old(self)@, t, value),
    {
        proof {
            use_type_invariant(&*self);
        }
        match t.protocol {
            Protocol::Udp => {
                if t.server < self.udp_up.len() {
                    self.udp_up = with_flag(&self.udp_up, t.server, value);
                }
            },
            Protocol::Tcp => {
                if t.server < self.tcp_up.len() {
                    self.tcp_up = with_flag(&self.tcp_up, t.server, value);
                }
            },
        }
    }

    /// Takes one item off the dispatcher's queue.
    pub fn dispatch(&mut self, mail: Mail) -> (r: Vec<Action>)
        ensures
            final(self)@ == dispatch(old(self)@, mail@).0,
            action_views(r@) == dispatch(old(self)@, mail@).1,
    {
        proof {
            use_type_invariant(&*self);
        }
        let mut out: Vec<Action> = Vec::new();
        let n = self.conf.servers.len();
        match mail {
            Mail::Query(query) => {
                let picked = self.pick_udp(self.cursor);
                let action = self.route_udp(query, self.cursor);
                if self.conf.rotate {
                    if let Some(i) = picked {
                        self.cursor = if i + 1 < n {
                            i + 1
                        } else {
                            0
                        };
                    }
                }
                out.push(action);
                assert(action_views(out@) == seq![action@]);
            },
            Mail::Retry { query, after } => {
                let start = if after < n && after + 1 < n {
                    after + 1
                } else {
                    0
                };
                let action = self.route_udp(query, start);
                out.push(action);
                assert(action_views(out@) == seq![action@]);
            },
            Mail::Escalate { query, server, id } => {
                let back = Address::Transport(TransportId { server, protocol: Protocol::Udp });
                if server < self.tcp_up.len() && self.tcp_up[server] {
                    let first = Action::Post {
                        to: Address::Transport(TransportId { server, protocol: Protocol::Tcp }),
                        mail: Mail::Query(query),
                    };
                    let second = Action::Post { to: back, mail: Mail::Accepted { id } };
                    out.push(first);
                    out.push(second);
                    assert(action_views(out@) == seq![first@, second@]);
                } else {
                    let only = Action::Post { to: back, mail: Mail::Rejected { id, query } };
                    out.push(only);
                    assert(action_views(out@) == seq![only@]);
                }
            },
            Mail::Closed(t) => {
                if t.server < n {
                    self.set(t, false);
                    let mut to_spawn: Vec<TransportId> = Vec::new();
                    std::mem::swap(&mut to_spawn, &mut self.to_spawn);
                    to_spawn.push(t);
                    self.to_spawn = to_spawn;
                }
                assert(action_views(out@) == Seq::<ActionView>::empty());
            },
            Mail::Accepted { id } => {
                assert(action_views(out@) == Seq::<ActionView>::empty());
            },
            Mail::Rejected { id, query } => {
                let action = Action::Deliver(query.fail(Error::Dispatch));
                out.push(action);
                assert(action_views(out@) == seq![action@]);
            },
        }
        out
    }

    /// Picks the next transport to bring up and hands out its seed.
    pub fn spawn_next(&mut self) -> (r: Option<BootstrapItem>)
        ensures
            final(self)@ == spawn_next(old(self)@).0,
            r == spawn_next(old(self)@).1,
    {
        if self.spawning.is_some() || self.to_spawn.len() == 0 {
            return None;
        }
        proof {
            use_type_invariant(&*self);
        }
        let mut to_spawn: Vec<TransportId> = Vec::new();
        std::mem::swap(&mut to_spawn, &mut self.to_spawn);
        let t = to_spawn.remove(0);
        assert(t == old(self)@.to_spawn[0]);
        self.to_spawn = to_spawn;
        self.spawning = Some(t);
        let seed = Seed {
            index: t.server,
            server: self.conf.servers[t.server],
            timeout_ms: self.conf.timeout_ms,
            attempts: self.conf.attempts,
        };
        Some(
            match t.protocol {
                Protocol::Udp => BootstrapItem::Udp(seed),
                Protocol::Tcp => BootstrapItem::Tcp(seed),
            },
        )
    }

    /// Takes the news that the machine asked for has been made.
    pub fn spawned(&mut self)
        ensures
            final(self)@ == after_spawned(old(self)@),
    {
        proof {
            use_type_invariant(&*self);
        }
        match self.spawning {
            Some(t) => {
                self.set(t, true);
                self.spawning = None;
            },
            None => {},
        }
    }
}

/// What `first_up` finds is a place that is up, and none of the places
/// tried before it is. It finds nothing exactly when none of the places
/// tried is up.
pub proof fn lemma_first_up(up: Seq<bool>, start: int, k: int)
    requires
        0 <= k,
        0 <= start < up.len() || start == 0,
    ensures
        match first_up(up, start, k) {
            Some(i) => 0 <= i < up.len() && up[i] && exists|j: int|
                k <= j < up.len() && i == #[trigger] wrap(start, j, up.len() as int) && forall|
                    h: int,
                | k <= h < j ==> !up[#[trigger] wrap(start, h, up.len() as int)],
            None => forall|j: int|
                k <= j < up.len() ==> !up[#[trigger] wrap(start, j, up.len() as int)],
        },
    decreases up.len() - k,
{
    if k < up.len() {
        let i = wrap(start, k, up.len() as int);
        if !up[i] {
            lemma_first_up(up, start, k + 1);
            match first_up(up, start, k + 1) {
                Some(found) => {
                    let j = choose|j: int|
                        k + 1 <= j < up.len() && found == #[trigger] wrap(start, j, up.len() as int)
                            && forall|h: int|
                            k + 1 <= h < j ==> !up[#[trigger] wrap(start, h, up.len() as int)];
                    assert forall|h: int| k <= h < j implies !up[#[trigger] wrap(
                        start,
                        h,
                        up.len() as int,
                    )] by {
                        if h > k {
                        }
                    }
                    assert(k <= j < up.len() && found == wrap(start, j, up.len() as int));
                },
                None => {
                    assert forall|j: int| k <= j < up.len() implies !up[#[trigger] wrap(
                        start,
                        j,
                        up.len() as int,
                    )] by {
                        if j > k {
                        }
                    }
                },
            }
        } else {
            assert(k <= k < up.len() && i == wrap(start, k, up.len() as int));
        }
    }
}

/// Going round once from any place reaches every place.
pub proof fn lemma_wrap_reaches_all(start: int, n: int, i: int)
    requires
        0 <= start < n,
        0 <= i < n,
    ensures
        exists|j: int| 0 <= j < n && i == #[trigger] wrap(start, j, n),
{
    let j = if i >= start {
        i - start
    } else {
        i - start + n
    };
    assert(0 <= j < n && i == wrap(start, j, n));
}

/// A query is routed to a datagram transport that is there, and it fails
/// with `Error::Dispatch` only when no datagram transport is there at
/// all. It is never dropped.
pub proof fn lemma_route_goes_where_a_transport_is(s: DispatcherView, q: QueryView, start: int)
    requires
        dispatcher_wf(s),
        0 <= start < s.servers.len() || start == 0,
    ensures
        match route_udp(s, q, start) {
            ActionView::Post { to, mail } => mail == MailView::Query(q) && exists|i: int|
                0 <= i < s.udp_up.len() && #[trigger] s.udp_up[i] && to == Address::Transport(
                    TransportId { server: i as usize, protocol: Protocol::Udp },
                ),
            ActionView::Deliver(d) => d == failed(q, Error::Dispatch) && forall|i: int|
                0 <= i < s.udp_up.len() ==> !#[trigger] s.udp_up[i],
            ActionView::Transmit(_) => false,
        },
{
    lemma_first_up(s.udp_up, start, 0);
    match first_up(s.udp_up, start, 0) {
        Some(i) => {
            assert(s.udp_up[i]);
        },
        None => {
            assert forall|i: int| 0 <= i < s.udp_up.len() implies !#[trigger] s.udp_up[i] by {
                if s.udp_up.len() > 0 {
                    lemma_wrap_reaches_all(start, s.udp_up.len() as int, i);
                    let j = choose|j: int|
                        0 <= j < s.udp_up.len() && i == #[trigger] wrap(
                            start,
                            j,
                            s.udp_up.len() as int,
                        );
                    assert(!s.udp_up[wrap(start, j, s.udp_up.len() as int)]);
                }
            }
        },
    }
}

/// With every datagram transport there and turns taken, new queries go
/// round the servers: each goes to the server at the cursor, and the
/// cursor moves to the server behind.
pub proof fn lemma_turns_are_taken(s: DispatcherView, q: QueryView)
    requires
        dispatcher_wf(s),
        s.rotate,
        s.servers.len() > 0,
        forall|i: int| 0 <= i < s.udp_up.len() ==> #[trigger] s.udp_up[i],
    ensures
        dispatch(s, MailView::Query(q)).1 == seq![forward_udp(s.cursor as int, q)],
        dispatch(s, MailView::Query(q)).0.cursor == place_after(
            s.cursor as int,
            s.servers.len() as int,
        ),
{
    assert(s.udp_up[s.cursor as int]);
    assert(wrap(s.cursor as int, 0, s.udp_up.len() as int) == s.cursor);
}

} // verus!
