//! The datagram transport for one nameserver.
//!
//! The machine never touches a socket. It is told what arrived and what
//! time it is, and says what to send and what to deliver.

use vstd::prelude::*;
use crate::timeout::deadline;
use crate::timeout::deadline_at;
use crate::conf::ServerAddr;
use crate::error::Error;
use crate::message::wire_is_truncated;
use crate::message::wire_ok;
use crate::message::MessageBuf;
use crate::message::push_all;
use crate::pending::candidate;
use crate::timeout::due_entries;
use crate::timeout::earliest;
use crate::pending::find_id;
use crate::pending::free_id;
use crate::timeout::live_entries;
use crate::pending::matching;
use crate::pending::pending_views;
use crate::pending::PendingTable;
use crate::pending::PendingView;
use crate::query::answered;
use crate::query::failed;
use crate::query::query_views;
use crate::query::sent_as;
use crate::query::Delivery;
use crate::query::DeliveryView;
use crate::query::Query;
use crate::query::QueryView;

verus! {

/// A datagram to put on the wire.
#[derive(Debug)]
pub struct Datagram {
    pub to: ServerAddr,
    pub bytes: Vec<u8>,
}

/// A datagram as a mathematical value.
pub struct DatagramView {
    pub to: ServerAddr,
    pub bytes: Seq<u8>,
}

impl View for Datagram {
    type V = DatagramView;

    open spec fn view(&self) -> DatagramView {
        DatagramView { to: self.to, bytes: self.bytes@ }
    }
}

/// What a received datagram leads to.
#[derive(Debug)]
pub enum UdpEvent {
    /// The datagram matches no pending query and is dropped.
    Discard,
    /// The datagram answers a query: the answer is to be delivered.
    Deliver(Delivery),
    /// The datagram answers a query but is truncated: the query is to be
    /// asked again over a stream to the same server. Nothing is delivered.
    /// The entry stays, under `id`, until the machine hears how that went.
    Escalate { id: u16, query: Query },
}

/// A `UdpEvent` as a mathematical value.
pub enum UdpEventView {
    Discard,
    Deliver(DeliveryView),
    Escalate { id: u16, query: QueryView },
}

impl View for UdpEvent {
    type V = UdpEventView;

    open spec fn view(&self) -> UdpEventView {
        match self {
            UdpEvent::Discard => UdpEventView::Discard,
            UdpEvent::Deliver(d) => UdpEventView::Deliver(d@),
            UdpEvent::Escalate { id, query } => UdpEventView::Escalate { id: *id, query: query@ },
        }
    }
}

/// What becomes of a query whose deadline has passed.
#[derive(Debug)]
pub enum Expired {
    /// Sends are left: the query is to be sent to the next server.
    Retry(Query),
    /// No send is left: the query ends with `Error::Timeout`.
    Deliver(Delivery),
}

/// An `Expired` as a mathematical value.
pub enum ExpiredView {
    Retry(QueryView),
    Deliver(DeliveryView),
}

impl View for Expired {
    type V = ExpiredView;

    open spec fn view(&self) -> ExpiredView {
        match self {
            Expired::Retry(q) => ExpiredView::Retry(q@),
            Expired::Deliver(d) => ExpiredView::Deliver(d@),
        }
    }
}

/// The views of the items in `v`, in order.
pub open spec fn expired_views(v: Seq<Expired>) -> Seq<ExpiredView> {
    v.map_values(|e: Expired| e@)
}

/// The datagram transport for one nameserver.
#[derive(Debug)]
pub struct UdpTransport {
    index: usize,
    server: ServerAddr,
    timeout_ms: u64,
    attempts: u32,
    queue: Vec<Query>,
    pending: PendingTable,
    next_id: u16,
}

/// The state of a `UdpTransport` as a mathematical value.
pub struct UdpView {
    /// The place of the server in the configuration.
    pub index: usize,
    /// The server that the machine talks to.
    pub server: ServerAddr,
    /// How long the machine waits for a response.
    pub timeout_ms: u64,
    /// How often a query may be sent in all.
    pub attempts: u32,
    /// The queries taken in and not sent yet, oldest first.
    pub queue: Seq<QueryView>,
    /// The queries on the wire.
    pub pending: Seq<PendingView>,
    /// Where the search for a free identifier starts.
    pub next_id: u16,
}

impl View for UdpTransport {
    type V = UdpView;

    closed spec fn view(&self) -> UdpView {
        UdpView {
            index: self.index,
            server: self.server,
            timeout_ms: self.timeout_ms,
            attempts: self.attempts,
            queue: query_views(self.queue@),
            pending: self.pending@,
            next_id: self.next_id,
        }
    }
}

/// The state in which a machine for `server` starts.
pub open spec fn udp_initial(
    index: usize,
    server: ServerAddr,
    timeout_ms: u64,
    attempts: u32,
) -> UdpView {
    UdpView {
        index,
        server,
        timeout_ms,
        attempts,
        queue: Seq::empty(),
        pending: Seq::empty(),
        next_id: 0,
    }
}

/// The state after `q` has been taken in.
pub open spec fn udp_accept(s: UdpView, q: QueryView) -> UdpView {
    UdpView { queue: s.queue.push(q), ..s }
}

/// The state after the oldest waiting query has been sent at the time
/// `now`, and the datagram that carries it. Nothing happens if no query
/// waits or no identifier is free.
pub open spec fn udp_send(s: UdpView, now: u64) -> (UdpView, Option<DatagramView>) {
    if s.queue.len() == 0 {
        (s, None)
    } else {
        match free_id(s.pending, s.next_id) {
            None => (s, None),
            Some(id) => {
                let sent = sent_as(s.queue[0], id);
                (
                    UdpView {
                        queue: s.queue.drop_first(),
                        pending: s.pending.push(
                            PendingView {
                                id,
                                query: sent,
                                deadline: deadline_at(now, s.timeout_ms),
                                escalating: false,
                            },
                        ),
                        next_id: candidate(id, 1),
                        ..s
                    },
                    Some(DatagramView { to: s.server, bytes: sent.message }),
                )
            },
        }
    }
}

/// The entry that a datagram with the content `bytes` from the address
/// `from` matches: it must come from the machine's server and match by
/// content, as `matching` says.
pub open spec fn udp_match(s: UdpView, from: ServerAddr, bytes: Seq<u8>) -> Option<int> {
    if from == s.server && wire_ok(bytes) {
        matching(s.pending, bytes)
    } else {
        None
    }
}

/// The state after a datagram has arrived, and what it leads to.
pub open spec fn udp_receive(s: UdpView, from: ServerAddr, bytes: Seq<u8>) -> (
    UdpView,
    UdpEventView,
) {
    match udp_match(s, from, bytes) {
        None => (s, UdpEventView::Discard),
        Some(i) => if wire_is_truncated(bytes) {
            (
                UdpView {
                    pending: s.pending.update(i, PendingView { escalating: true, ..s.pending[i] }),
                    ..s
                },
                UdpEventView::Escalate { id: s.pending[i].id, query: s.pending[i].query },
            )
        } else {
            (
                UdpView { pending: s.pending.remove(i), ..s },
                UdpEventView::Deliver(answered(s.pending[i].query, bytes)),
            )
        },
    }
}

/// The state after the machine has heard that the query it handed over
/// under `id` is done with, one way or the other: the entry is gone.
/// Nothing happens if no entry under `id` is being handed over.
pub open spec fn udp_handed_over(s: UdpView, id: u16) -> UdpView {
    match find_id(s.pending, id) {
        Some(i) => if s.pending[i].escalating {
            UdpView { pending: s.pending.remove(i), ..s }
        } else {
            s
        },
        None => s,
    }
}

/// What becomes of the entry `e` when its deadline has passed and queries
/// may be sent `budget` times in all.
pub open spec fn expiry_of(e: PendingView, budget: u32) -> ExpiredView {
    if e.query.attempts < budget {
        ExpiredView::Retry(e.query)
    } else {
        ExpiredView::Deliver(failed(e.query, Error::Timeout))
    }
}

/// The state after the deadlines up to `now` have passed, and what becomes
/// of each query that was due, in the order of the table.
pub open spec fn udp_expire(s: UdpView, now: u64) -> (UdpView, Seq<ExpiredView>) {
    (
        UdpView { pending: live_entries(s.pending, now), ..s },
        due_entries(s.pending, now).map_values(|e: PendingView| expiry_of(e, s.attempts)),
    )
}

impl UdpTransport {
    /// A machine for `server` with nothing waiting and nothing pending.
    pub fn new(index: usize, server: ServerAddr, timeout_ms: u64, attempts: u32) -> (m:
        UdpTransport)
        ensures
            m@ == udp_initial(index, server, timeout_ms, attempts),
    {
        let m = UdpTransport {
            index,
            server,
            timeout_ms,
            attempts,
            queue: Vec::new(),
            pending: PendingTable::new(),
            next_id: 0,
        };
        assert(m@.queue == Seq::<QueryView>::empty());
        m
    }

    /// Takes `query` in, behind the queries that wait already.
    pub fn accept(&mut self, query: Query)
        ensures
            final(self)@ == udp_accept(old(self)@, query@),
    {
        self.queue.push(query);
        assert(query_views(self.queue@) == query_views(old(self).queue@).push(query@));
    }

    /// No two queries on the wire share an identifier.
    pub fn ids_are_distinct(&self)
        ensures
            crate::pending::ids_distinct(self@.pending),
    {
        self.pending.ids_are_distinct();
    }

    /// The place of the machine's server in the configuration.
    pub fn index(&self) -> (i: usize)
        ensures
            i == self@.index,
    {
        self.index
    }

    /// Whether a query waits to be sent.
    pub fn wants_send(&self) -> (b: bool)
        ensures
            b == (self@.queue.len() > 0),
    {
        self.queue.len() > 0
    }

    /// The number of queries on the wire.
    pub fn pending_len(&self) -> (n: usize)
        ensures
            n == self@.pending.len(),
    {
        self.pending.len()
    }

    /// The earliest deadline that still counts.
    pub fn next_deadline(&self) -> (r: Option<u64>)
        ensures
            r == earliest(self@.pending),
    {
        self.pending.next_deadline()
    }

    /// Sends the oldest waiting query: gives it a free identifier, enters
    /// it in the table with its deadline, and hands out the datagram.
    pub fn send_next(&mut self, now: u64) -> (r: Option<Datagram>)
        ensures
            final(self)@ == udp_send(old(self)@, now).0,
            match r {
                Some(d) => udp_send(old(self)@, now).1 == Some(d@),
                None => udp_send(old(self)@, now).1 is None,
            },
    {
        if self.queue.len() == 0 {
            return None;
        }
        match self.pending.free_id(self.next_id) {
            None => None,
            Some(id) => {
                proof {
                    crate::pending::lemma_free_id_is_free(self.pending@, self.next_id);
                }
                let query = self.queue.remove(0).stamped(id);
                assert(query_views(self.queue@) == query_views(old(self).queue@).drop_first());
                assert(query@ == sent_as(old(self)@.queue[0], id));
                let mut bytes: Vec<u8> = Vec::new();
                push_all(&mut bytes, query.message.as_bytes());
                self.pending.insert(id, query, deadline(now, self.timeout_ms));
                self.next_id = if id == u16::MAX {
                    0
                } else {
                    id + 1
                };
                Some(Datagram { to: self.server, bytes })
            },
        }
    }

    /// Takes a datagram with the content `bytes` that came from `from`.
    pub fn receive(&mut self, from: ServerAddr, bytes: Vec<u8>) -> (r: UdpEvent)
        ensures
            final(self)@ == udp_receive(old(self)@, from, bytes@).0,
            r@ == udp_receive(old(self)@, from, bytes@).1,
    {
        if !(from.ip == self.server.ip && from.port == self.server.port) {
            return UdpEvent::Discard;
        }
        let response = match MessageBuf::from_bytes(bytes) {
            Ok(m) => m,
            Err(_) => {
                return UdpEvent::Discard;
            },
        };
        match self.pending.match_response(&response) {
            None => UdpEvent::Discard,
            Some(i) => {
                if response.is_truncated() {
                    let entry = self.pending.get(i);
                    let id = entry.id;
                    let query = entry.query.duplicate();
                    self.pending.mark_escalating(i);
                    UdpEvent::Escalate { id, query }
                } else {
                    let entry = self.pending.remove(i);
                    UdpEvent::Deliver(entry.query.answer(response))
                }
            },
        }
    }

    /// Takes the news that the query handed over under `id` has been
    /// taken: the entry goes, and nothing is delivered.
    pub fn handed_over(&mut self, id: u16)
        ensures
            final(self)@ == udp_handed_over(old(self)@, id),
    {
        match self.pending.find(id) {
            None => {},
            Some(i) => {
                if self.pending.get(i).escalating {
                    let _ = self.pending.remove(i);
                }
            },
        }
    }

    /// Takes back the query handed over under `id`, which could not be
    /// taken: the entry goes, and the query fails with `Error::Dispatch`.
    pub fn handed_back(&mut self, id: u16, query: Query) -> (d: Delivery)
        ensures
            final(self)@ == udp_handed_over(old(self)@, id),
            d@ == failed(query@, Error::Dispatch),
    {
        self.handed_over(id);
        query.fail(Error::Dispatch)
    }

    /// Lets the deadlines up to `now` pass.
    pub fn expire(&mut self, now: u64) -> (r: Vec<Expired>)
        ensures
            final(self)@ == udp_expire(old(self)@, now).0,
            expired_views(r@) == udp_expire(old(self)@, now).1,
    {
        let mut due = self.pending.take_expired(now);
        let ghost all = pending_views(due@);
        let ghost budget = self.attempts;
        let ghost f = |e: PendingView| expiry_of(e, budget);
        let mut out: Vec<Expired> = Vec::new();
        assert(all.take(0).map_values(f) == expired_views(out@));
        assert(all.skip(0) == all);
        while due.len() > 0
            invariant
                budget == self.attempts,
                f == |e: PendingView| expiry_of(e, budget),
                out.len() + due.len() == all.len(),
                expired_views(out@) == all.take(out.len() as int).map_values(f),
                pending_views(due@) == all.skip(out.len() as int),
            decreases due.len(),
        {
            let ghost k = out.len() as int;
            let ghost before = expired_views(out@);
            let ghost rest = pending_views(due@);
            let entry = due.remove(0);
            assert(entry@ == all[k]) by {
                assert(rest[0] == all.skip(k)[0]);
            }
            assert(pending_views(due@) == all.skip(k + 1)) by {
                assert(pending_views(due@) == rest.remove(0));
            }
            let item = if entry.query.attempts < self.attempts {
                Expired::Retry(entry.query)
            } else {
                Expired::Deliver(entry.query.fail(Error::Timeout))
            };
            assert(item@ == f(all[k]));
            out.push(item);
            proof {
                assert(expired_views(out@) == before.push(f(all[k])));
                all.lemma_take_succ_push(k);
                all.take(k).lemma_push_map_commute(f, all[k]);
            }
        }
        assert(all.take(all.len() as int) == all);
        out
    }
}

/// A datagram from another address than the server's, or with an
/// identifier that no entry has, is dropped, and the machine stays exactly
/// as it was: no entry changes, no deadline moves.
pub proof fn lemma_unmatched_is_discarded(s: UdpView, from: ServerAddr, bytes: Seq<u8>)
    requires
        from != s.server || find_id(s.pending, crate::message::wire_id(bytes)) is None,
    ensures
        udp_receive(s, from, bytes) == (s, UdpEventView::Discard),
{
}

/// Whatever arrives, an entry under another identifier than that of the
/// datagram stays in the table as it is.
pub proof fn lemma_receive_leaves_the_rest(
    s: UdpView,
    from: ServerAddr,
    bytes: Seq<u8>,
    e: PendingView,
)
    requires
        s.pending.contains(e),
        e.id != crate::message::wire_id(bytes),
    ensures
        udp_receive(s, from, bytes).0.pending.contains(e),
{
    let k = choose|k: int| 0 <= k < s.pending.len() && s.pending[k] == e;
    match udp_match(s, from, bytes) {
        None => {},
        Some(i) => {
            crate::pending::lemma_find_from(s.pending, crate::message::wire_id(bytes), 0);
            let after = udp_receive(s, from, bytes).0.pending;
            if wire_is_truncated(bytes) {
                assert(after[k] == e);
            } else {
                let k1 = if k < i {
                    k
                } else {
                    k - 1
                };
                assert(after[k1] == e);
            }
        },
    }
}

/// A truncated response is never delivered. If it matches an entry, the
/// query of that entry is handed over for the stream, and the entry stays
/// in the table, marked, until the machine hears how that went.
pub proof fn lemma_truncated_is_not_delivered(s: UdpView, from: ServerAddr, bytes: Seq<u8>)
    requires
        wire_is_truncated(bytes),
    ensures
        !(udp_receive(s, from, bytes).1 is Deliver),
        udp_match(s, from, bytes) matches Some(i) ==> {
            &&& 0 <= i < s.pending.len()
            &&& udp_receive(s, from, bytes).1 == UdpEventView::Escalate {
                id: s.pending[i].id,
                query: s.pending[i].query,
            }
            &&& udp_receive(s, from, bytes).0.pending.len() == s.pending.len()
            &&& udp_receive(s, from, bytes).0.pending[i] == (PendingView {
                escalating: true,
                ..s.pending[i]
            })
        },
{
    crate::pending::lemma_find_from(s.pending, crate::message::wire_id(bytes), 0);
}

/// When the deadline of an entry has passed and its query has been sent
/// as often as it may be, the query ends with `Error::Timeout`, and the
/// table holds no entry under its identifier any more.
pub proof fn lemma_exhausted_times_out(s: UdpView, now: u64, i: int)
    requires
        crate::pending::ids_distinct(s.pending),
        0 <= i < s.pending.len(),
        crate::timeout::is_due(s.pending[i], now),
        s.pending[i].query.attempts >= s.attempts,
    ensures
        udp_expire(s, now).1.contains(
            ExpiredView::Deliver(failed(s.pending[i].query, Error::Timeout)),
        ),
        find_id(udp_expire(s, now).0.pending, s.pending[i].id) is None,
{
    let t = s.pending;
    let e = t[i];
    let p = |e: PendingView| crate::timeout::is_due(e, now);
    let q = |e: PendingView| !crate::timeout::is_due(e, now);
    let due = due_entries(t, now);
    let live = live_entries(t, now);
    t.lemma_filter_contains(p, i);
    let k = choose|k: int| 0 <= k < due.len() && due[k] == e;
    let out = udp_expire(s, now).1;
    assert(out[k] == ExpiredView::Deliver(failed(e.query, Error::Timeout)));
    crate::pending::lemma_find_from(live, e.id, 0);
    if find_id(live, e.id) is Some {
        let j = find_id(live, e.id)->0;
        t.lemma_filter_pred(q, j);
        assert(live.contains(live[j]));
        t.lemma_filter_contains_rev(q, live[j]);
        let j0 = choose|j0: int| 0 <= j0 < t.len() && t[j0] == live[j];
        if j0 < i {
            assert(t[j0].id != t[i].id);
        } else if i < j0 {
            assert(t[i].id != t[j0].id);
        }
        assert(false);
    }
}

} // verus!
