//! The stream transport for one nameserver.
//!
//! On a stream every message travels behind its length, written as two
//! bytes, high byte first. What arrives is kept until a whole message is
//! there; what is to leave is kept until the stream has taken it. Several
//! queries may be on the wire at once and are matched by identifier.

use vstd::prelude::*;
use crate::timeout::deadline;
use crate::timeout::deadline_at;
use crate::conf::ServerAddr;
use crate::error::Error;
use crate::message::be16;
use crate::message::from_be16;
use crate::message::push_all;
use crate::message::push_be16;
use crate::message::read_be16;
use crate::message::wire_ok;
use crate::message::MessageBuf;
use crate::message::MAX_MESSAGE_LEN;
use crate::pending::candidate;
use crate::timeout::due_entries;
use crate::timeout::earliest;
use crate::pending::free_id;
use crate::timeout::live_entries;
use crate::pending::matching;
use crate::pending::pending_views;
use crate::pending::Pending;
use crate::pending::PendingTable;
use crate::pending::PendingView;
use crate::query::answered;
use crate::query::delivery_views;
use crate::query::failed;
use crate::query::query_views;
use crate::query::sent_as;
use crate::query::Delivery;
use crate::query::DeliveryView;
use crate::query::Query;
use crate::query::QueryView;

verus! {

/// The length of the prefix that frames a message on a stream.
pub const FRAME_PREFIX_LEN: usize = 2;

/// The message `m` as it travels on a stream: its length, then its bytes.
pub open spec fn frame(m: Seq<u8>) -> Seq<u8> {
    be16(m.len() as u16) + m
}

/// The first message in `buf` and what follows it, or `None` while the
/// prefix or the message is not all there.
pub open spec fn deframe(buf: Seq<u8>) -> Option<(Seq<u8>, Seq<u8>)> {
    if buf.len() < FRAME_PREFIX_LEN {
        None
    } else {
        let n = from_be16(buf[0], buf[1]) as int;
        if buf.len() < FRAME_PREFIX_LEN + n {
            None
        } else {
            Some((buf.subrange(2, 2 + n), buf.skip(2 + n)))
        }
    }
}

/// A framed message, with whatever follows it, comes apart into the message
/// and what follows.
pub proof fn lemma_deframe_frame(m: Seq<u8>, rest: Seq<u8>)
    requires
        m.len() <= MAX_MESSAGE_LEN,
    ensures
        deframe(frame(m) + rest) == Some((m, rest)),
{
    let n = m.len() as u16;
    let buf = frame(m) + rest;
    crate::message::lemma_be16_roundtrip(n);
    assert(buf[0] == (n >> 8) as u8);
    assert(buf[1] == (n & 0xff) as u8);
    assert(buf.subrange(2, 2 + n as int) == m);
    assert(buf.skip(2 + n as int) == rest);
}

/// While a framed message has not arrived in full, nothing comes out.
pub proof fn lemma_deframe_partial(m: Seq<u8>, k: int)
    requires
        m.len() <= MAX_MESSAGE_LEN,
        0 <= k < frame(m).len(),
    ensures
        deframe(frame(m).take(k)) is None,
{
    let n = m.len() as u16;
    crate::message::lemma_be16_roundtrip(n);
    let part = frame(m).take(k);
    if k >= 2 {
        assert(part[0] == (n >> 8) as u8);
        assert(part[1] == (n & 0xff) as u8);
    }
}

/// Appends `message` behind its length.
pub fn push_frame(out: &mut Vec<u8>, message: &MessageBuf)
    ensures
        final(out)@ == old(out)@ + frame(message@),
{
    let n = message.len();
    push_be16(out, n as u16);
    push_all(out, message.as_bytes());
}

/// Takes the first message off the front of `buf`, if it is all there.
pub fn take_frame(buf: &mut Vec<u8>) -> (r: Option<Vec<u8>>)
    ensures
        match r {
            Some(m) => deframe(old(buf)@) == Some((m@, final(buf)@)),
            None => deframe(old(buf)@) is None && final(buf)@ == old(buf)@,
        },
{
    if buf.len() < FRAME_PREFIX_LEN {
        return None;
    }
    let n = read_be16(buf[0], buf[1]) as usize;
    if buf.len() - FRAME_PREFIX_LEN < n {
        return None;
    }
    let mut rest = buf.split_off(FRAME_PREFIX_LEN + n);
    let message = buf.split_off(FRAME_PREFIX_LEN);
    std::mem::swap(buf, &mut rest);
    assert(message@ == old(buf)@.subrange(2, 2 + n as int));
    assert(buf@ == old(buf)@.skip(2 + n as int));
    Some(message)
}

/// What a message from the stream leads to.
#[derive(Debug)]
pub enum TcpEvent {
    /// The message matches no pending query and is dropped.
    Discard,
    /// The message answers a query: the answer is to be delivered.
    Deliver(Delivery),
}

/// A `TcpEvent` as a mathematical value.
pub enum TcpEventView {
    Discard,
    Deliver(DeliveryView),
}

impl View for TcpEvent {
    type V = TcpEventView;

    open spec fn view(&self) -> TcpEventView {
        match self {
            TcpEvent::Discard => TcpEventView::Discard,
            TcpEvent::Deliver(d) => TcpEventView::Deliver(d@),
        }
    }
}

/// The stream transport for one nameserver.
#[derive(Debug)]
pub struct TcpTransport {
    index: usize,
    server: ServerAddr,
    timeout_ms: u64,
    queue: Vec<Query>,
    pending: PendingTable,
    next_id: u16,
    inbuf: Vec<u8>,
    outbuf: Vec<u8>,
}

/// The state of a `TcpTransport` as a mathematical value.
pub struct TcpView {
    /// The place of the server in the configuration.
    pub index: usize,
    /// The server that the machine talks to.
    pub server: ServerAddr,
    /// How long the machine waits for a response.
    pub timeout_ms: u64,
    /// The queries taken in and not framed yet, oldest first.
    pub queue: Seq<QueryView>,
    /// The queries on the wire.
    pub pending: Seq<PendingView>,
    /// Where the search for a free identifier starts.
    pub next_id: u16,
    /// What has arrived and is not a whole message yet.
    pub inbuf: Seq<u8>,
    /// What the stream has yet to take.
    pub outbuf: Seq<u8>,
}

impl View for TcpTransport {
    type V = TcpView;

    closed spec fn view(&self) -> TcpView {
        TcpView {
            index: self.index,
            server: self.server,
            timeout_ms: self.timeout_ms,
            queue: query_views(self.queue@),
            pending: self.pending@,
            next_id: self.next_id,
            inbuf: self.inbuf@,
            outbuf: self.outbuf@,
        }
    }
}

/// The state in which a machine for `server` starts.
pub open spec fn tcp_initial(index: usize, server: ServerAddr, timeout_ms: u64) -> TcpView {
    TcpView {
        index,
        server,
        timeout_ms,
        queue: Seq::empty(),
        pending: Seq::empty(),
        next_id: 0,
        inbuf: Seq::empty(),
        outbuf: Seq::empty(),
    }
}

/// The state after `q` has been taken in.
pub open spec fn tcp_accept(s: TcpView, q: QueryView) -> TcpView {
    TcpView { queue: s.queue.push(q), ..s }
}

/// Whether the oldest waiting query can go out: one waits and an
/// identifier is free.
pub open spec fn tcp_can_send(s: TcpView) -> bool {
    s.queue.len() > 0 && free_id(s.pending, s.next_id) is Some
}

/// The state after the oldest waiting query has been framed at the time
/// `now`: it is pending, and its frame stands at the end of what is to
/// leave. Nothing happens if no query waits or no identifier is free.
pub open spec fn tcp_send(s: TcpView, now: u64) -> TcpView {
    if !tcp_can_send(s) {
        s
    } else {
        let id = free_id(s.pending, s.next_id)->0;
        let sent = sent_as(s.queue[0], id);
        TcpView {
            queue: s.queue.drop_first(),
            pending: s.pending.push(
                PendingView {
                    id,
                    query: sent,
                    deadline: deadline_at(now, s.timeout_ms),
                    escalating: false,
                },
            ),
            next_id: candidate(id, 1),
            outbuf: s.outbuf + frame(sent.message),
            ..s
        }
    }
}

/// The number of bytes that leave when the stream says it took `n`.
pub open spec fn taken(s: TcpView, n: usize) -> int {
    if n <= s.outbuf.len() {
        n as int
    } else {
        s.outbuf.len() as int
    }
}

/// The state after the stream has taken the first `n` bytes of what was to
/// leave.
pub open spec fn tcp_wrote(s: TcpView, n: usize) -> TcpView {
    TcpView { outbuf: s.outbuf.skip(taken(s, n)), ..s }
}

/// The state after `bytes` have arrived.
pub open spec fn tcp_read(s: TcpView, bytes: Seq<u8>) -> TcpView {
    TcpView { inbuf: s.inbuf + bytes, ..s }
}

/// The state after the whole message `bytes` has come off the stream, and
/// what it leads to.
pub open spec fn tcp_receive(s: TcpView, bytes: Seq<u8>) -> (TcpView, TcpEventView) {
    if !wire_ok(bytes) {
        (s, TcpEventView::Discard)
    } else {
        match matching(s.pending, bytes) {
            None => (s, TcpEventView::Discard),
            Some(i) => (
                TcpView { pending: s.pending.remove(i), ..s },
                TcpEventView::Deliver(answered(s.pending[i].query, bytes)),
            ),
        }
    }
}

/// `ds` with the delivery of `e` in front, if `e` is one.
pub open spec fn with_event(e: TcpEventView, ds: Seq<DeliveryView>) -> Seq<DeliveryView> {
    match e {
        TcpEventView::Discard => ds,
        TcpEventView::Deliver(d) => seq![d] + ds,
    }
}

/// The state after every whole message that has arrived has been taken,
/// and the deliveries that follow, in the order of arrival. (A message
/// that comes off the front always leaves less behind than was there.)
pub open spec fn tcp_drain(s: TcpView) -> (TcpView, Seq<DeliveryView>)
    decreases s.inbuf.len(),
{
    match deframe(s.inbuf) {
        None => (s, Seq::empty()),
        Some((m, rest)) => {
            if rest.len() < s.inbuf.len() {
                let (s1, e) = tcp_receive(TcpView { inbuf: rest, ..s }, m);
                let (s2, ds) = tcp_drain(s1);
                (s2, with_event(e, ds))
            } else {
                (s, Seq::empty())
            }
        },
    }
}

/// The state after `bytes` have arrived and every whole message has been
/// taken, and the deliveries that follow.
pub open spec fn tcp_feed(s: TcpView, bytes: Seq<u8>) -> (TcpView, Seq<DeliveryView>) {
    tcp_drain(tcp_read(s, bytes))
}

/// The state after the deadlines up to `now` have passed, and the
/// deliveries that follow: `Error::Timeout` for each query that was due, in
/// the order of the table.
pub open spec fn tcp_expire(s: TcpView, now: u64) -> (TcpView, Seq<DeliveryView>) {
    (
        TcpView { pending: live_entries(s.pending, now), ..s },
        due_entries(s.pending, now).map_values(|e: PendingView| failed(e.query, Error::Timeout)),
    )
}

/// The deliveries that follow the loss of the connection:
/// `Error::Connection` for every query on the wire, in the order of the
/// table, and then for every query that still waited, oldest first.
pub open spec fn tcp_lost(s: TcpView) -> Seq<DeliveryView> {
    s.pending.map_values(|e: PendingView| failed(e.query, Error::Connection)) + s.queue.map_values(
        |q: QueryView| failed(q, Error::Connection),
    )
}

/// A whole message at the front of what has arrived stays the first
/// message whatever arrives behind it.
pub proof fn lemma_deframe_more(buf: Seq<u8>, more: Seq<u8>)
    requires
        deframe(buf) is Some,
    ensures
        ({
            let (message, rest) = deframe(buf)->0;
            deframe(buf + more) == Some((message, rest + more))
        }),
{
    let n = from_be16(buf[0], buf[1]) as int;
    let all = buf + more;
    assert(all[0] == buf[0] && all[1] == buf[1]);
    assert(all.subrange(2, 2 + n) == buf.subrange(2, 2 + n));
    assert(all.skip(2 + n) == buf.skip(2 + n) + more);
}

/// It makes no difference how what arrives is cut into reads: taking
/// `first` and then `second` leaves the machine where taking both at once
/// leaves it, and delivers the same answers in the same order. A length
/// prefix or a message that is split between reads is put together.
pub proof fn lemma_feed_in_parts(s: TcpView, first: Seq<u8>, second: Seq<u8>)
    ensures
        ({
            let (s1, d1) = tcp_feed(s, first);
            let (s2, d2) = tcp_feed(s1, second);
            tcp_feed(s, first + second) == (s2, d1 + d2)
        }),
{
    let start = tcp_read(s, first);
    lemma_drain_in_parts(start, second);
    assert(s.inbuf + (first + second) == (s.inbuf + first) + second);
}

proof fn lemma_drain_in_parts(s: TcpView, more: Seq<u8>)
    ensures
        ({
            let (s1, d1) = tcp_drain(s);
            let (s2, d2) = tcp_drain(tcp_read(s1, more));
            tcp_drain(tcp_read(s, more)) == (s2, d1 + d2)
        }),
    decreases s.inbuf.len(),
{
    let (s1, d1) = tcp_drain(s);
    let (s2, d2) = tcp_drain(tcp_read(s1, more));
    match deframe(s.inbuf) {
        None => {
            assert(Seq::<DeliveryView>::empty() + d2 == d2);
        },
        Some((m, rest)) => {
            lemma_deframe_more(s.inbuf, more);
            assert(rest.len() < s.inbuf.len());
            let s0 = TcpView { inbuf: rest, ..s };
            let (sa, e) = tcp_receive(s0, m);
            let (sb, ds) = tcp_drain(sa);
            lemma_drain_in_parts(sa, more);
            let whole = tcp_read(s, more);
            let w0 = TcpView { inbuf: rest + more, ..whole };
            let (wa, we) = tcp_receive(w0, m);
            assert(wa == tcp_read(sa, more));
            assert(we == e);
            assert((rest + more).len() < whole.inbuf.len());
            let (sc, dc) = tcp_drain(tcp_read(sb, more));
            assert(with_event(e, ds + dc) == with_event(e, ds) + dc) by {
                match e {
                    TcpEventView::Discard => {},
                    TcpEventView::Deliver(d) => {
                        assert(seq![d] + (ds + dc) == (seq![d] + ds) + dc);
                    },
                }
            }
        },
    }
}

/// What the stream takes in two writes has left the buffer as if it had
/// been taken in one.
pub proof fn lemma_wrote_in_parts(s: TcpView, first: usize, second: usize)
    requires
        first + second <= usize::MAX,
    ensures
        tcp_wrote(tcp_wrote(s, first), second) == tcp_wrote(s, (first + second) as usize),
{
    let a = taken(s, first);
    let s1 = tcp_wrote(s, first);
    let b = taken(s1, second);
    assert(s.outbuf.skip(a).skip(b) == s.outbuf.skip(a + b));
    assert(a + b == taken(s, (first + second) as usize));
}

impl TcpTransport {
    /// A machine for `server` with nothing waiting, pending or buffered.
    pub fn new(index: usize, server: ServerAddr, timeout_ms: u64) -> (m: TcpTransport)
        ensures
            m@ == tcp_initial(index, server, timeout_ms),
    {
        let m = TcpTransport {
            index,
            server,
            timeout_ms,
            queue: Vec::new(),
            pending: PendingTable::new(),
            next_id: 0,
            inbuf: Vec::new(),
            outbuf: Vec::new(),
        };
        assert(m@.queue == Seq::<QueryView>::empty());
        m
    }

    /// Takes `query` in, behind the queries that wait already.
    pub fn accept(&mut self, query: Query)
        ensures
            final(self)@ == tcp_accept(old(self)@, query@),
    {
        self.queue.push(query);
        assert(query_views(self.queue@) == query_views(old(self).queue@).push(query@));
    }

    /// No two queries on the wire share an identifier.
    pub fn ids_are_distinct(&self)
        ensures
            crate::pending::ids_distinct(self@.pending),
    {
        self.pending.ids_are_distinct();
    }

    /// The place of the machine's server in the configuration.
    pub fn index(&self) -> (i: usize)
        ensures
            i == self@.index,
    {
        self.index
    }

    /// Whether a query waits to be framed.
    pub fn wants_send(&self) -> (b: bool)
        ensures
            b == (self@.queue.len() > 0),
    {
        self.queue.len() > 0
    }

    /// The number of queries on the wire.
    pub fn pending_len(&self) -> (n: usize)
        ensures
            n == self@.pending.len(),
    {
        self.pending.len()
    }

    /// The earliest deadline that still counts.
    pub fn next_deadline(&self) -> (r: Option<u64>)
        ensures
            r == earliest(self@.pending),
    {
        self.pending.next_deadline()
    }

    /// What the stream has yet to take.
    pub fn outgoing(&self) -> (bytes: &Vec<u8>)
        ensures
            bytes@ == self@.outbuf,
    {
        &self.outbuf
    }

    /// Frames the oldest waiting query: gives it a free identifier, enters
    /// it in the table with its deadline, and puts its frame behind what
    /// is to leave. Says whether it did.
    pub fn send_next(&mut self, now: u64) -> (sent: bool)
        ensures
            final(self)@ == tcp_send(old(self)@, now),
            sent == tcp_can_send(old(self)@),
    {
        if self.queue.len() == 0 {
            return false;
        }
        match self.pending.free_id(self.next_id) {
            None => false,
            Some(id) => {
                proof {
                    crate::pending::lemma_free_id_is_free(self.pending@, self.next_id);
                }
                let query = self.queue.remove(0).stamped(id);
                assert(query_views(self.queue@) == query_views(old(self).queue@).drop_first());
                assert(query@ == sent_as(old(self)@.queue[0], id));
                push_frame(&mut self.outbuf, &query.message);
                self.pending.insert(id, query, deadline(now, self.timeout_ms));
                self.next_id = if id == u16::MAX {
                    0
                } else {
                    id + 1
                };
                true
            },
        }
    }

    /// Takes the news that the stream took `n` bytes of what was to leave.
    /// A number beyond what was there counts as all of it.
    pub fn wrote(&mut self, n: usize)
        ensures
            final(self)@ == tcp_wrote(old(self)@, n),
    {
        let k = if n <= self.outbuf.len() {
            n
        } else {
            self.outbuf.len()
        };
        let mut rest = self.outbuf.split_off(k);
        std::mem::swap(&mut self.outbuf, &mut rest);
        assert(self.outbuf@ == old(self).outbuf@.skip(k as int));
    }

    /// Takes one whole message that came off the stream.
    pub fn receive(&mut self, bytes: Vec<u8>) -> (r: TcpEvent)
        ensures
            final(self)@ == tcp_receive(old(self)@, bytes@).0,
            r@ == tcp_receive(old(self)@, bytes@).1,
    {
        let response = match MessageBuf::from_bytes(bytes) {
            Ok(m) => m,
            Err(_) => {
                return TcpEvent::Discard;
            },
        };
        match self.pending.match_response(&response) {
            None => TcpEvent::Discard,
            Some(i) => {
                let entry = self.pending.remove(i);
                TcpEvent::Deliver(entry.query.answer(response))
            },
        }
    }

    /// Takes `bytes` that arrived on the stream, and every whole message
    /// that is there with them.
    pub fn feed(&mut self, bytes: &Vec<u8>) -> (r: Vec<Delivery>)
        ensures
            final(self)@ == tcp_feed(old(self)@, bytes@).0,
            delivery_views(r@) == tcp_feed(old(self)@, bytes@).1,
    {
        push_all(&mut self.inbuf, bytes);
        let ghost start = self@;
        assert(start == tcp_read(old(self)@, bytes@));
        let mut out: Vec<Delivery> = Vec::new();
        assert(delivery_views(out@) == Seq::<DeliveryView>::empty());
        assert(delivery_views(out@) + tcp_drain(self@).1 == tcp_drain(start).1);
        loop
            invariant
                tcp_drain(start).0 == tcp_drain(self@).0,
                tcp_drain(start).1 == delivery_views(out@) + tcp_drain(self@).1,
            ensures
                tcp_drain(start).0 == self@,
                tcp_drain(start).1 == delivery_views(out@),
            decreases self.inbuf.len(),
        {
            let ghost cur = self@;
            let ghost before = delivery_views(out@);
            match take_frame(&mut self.inbuf) {
                None => {
                    assert(tcp_drain(cur).1 == Seq::<DeliveryView>::empty());
                    assert(before + Seq::<DeliveryView>::empty() == before);
                    break ;
                },
                Some(message) => {
                    let ghost mid = self@;
                    assert(mid == (TcpView { inbuf: mid.inbuf, ..cur }));
                    let ghost m = message@;
                    match self.receive(message) {
                        TcpEvent::Discard => {
                            assert(tcp_drain(cur).1 == tcp_drain(self@).1);
                        },
                        TcpEvent::Deliver(d) => {
                            out.push(d);
                            assert(delivery_views(out@) == before.push(d@));
                            assert(tcp_drain(cur).1 == seq![d@] + tcp_drain(self@).1);
                            assert(before + (seq![d@] + tcp_drain(self@).1) == before.push(d@)
                                + tcp_drain(self@).1);
                        },
                    }
                },
            }
        }
        out
    }

    /// Lets the deadlines up to `now` pass.
    pub fn expire(&mut self, now: u64) -> (r: Vec<Delivery>)
        ensures
            final(self)@ == tcp_expire(old(self)@, now).0,
            delivery_views(r@) == tcp_expire(old(self)@, now).1,
    {
        let due = self.pending.take_expired(now);
        fail_entries(due, Error::Timeout)
    }

    /// Ends the machine after the connection is lost: every query that it
    /// held fails with `Error::Connection`.
    pub fn connection_lost(self) -> (r: Vec<Delivery>)
        ensures
            delivery_views(r@) == tcp_lost(self@),
    {
        let mut pending = self.pending;
        let all = pending.take_all();
        let mut out = fail_entries(all, Error::Connection);
        let mut rest = fail_queries(self.queue, Error::Connection);
        let ghost first = delivery_views(out@);
        let ghost second = delivery_views(rest@);
        out.append(&mut rest);
        assert(delivery_views(out@) == first + second);
        out
    }
}

/// Ends every query in `entries` with `error`.
pub fn fail_entries(entries: Vec<Pending>, error: Error) -> (r: Vec<Delivery>)
    ensures
        delivery_views(r@) == pending_views(entries@).map_values(
            |e: PendingView| failed(e.query, error),
        ),
{
    let mut entries = entries;
    let ghost all = pending_views(entries@);
    let ghost f = |e: PendingView| failed(e.query, error);
    let mut out: Vec<Delivery> = Vec::new();
    assert(all.take(0).map_values(f) == delivery_views(out@));
    assert(all.skip(0) == all);
    while entries.len() > 0
        invariant
            f == |e: PendingView| failed(e.query, error),
            out.len() + entries.len() == all.len(),
            delivery_views(out@) == all.take(out.len() as int).map_values(f),
            pending_views(entries@) == all.skip(out.len() as int),
        decreases entries.len(),
    {
        let ghost k = out.len() as int;
        let ghost before = delivery_views(out@);
        let ghost rest = pending_views(entries@);
        let entry = entries.remove(0);
        assert(entry@ == all[k]) by {
            assert(rest[0] == all.skip(k)[0]);
        }
        assert(pending_views(entries@) == all.skip(k + 1)) by {
            assert(pending_views(entries@) == rest.remove(0));
        }
        out.push(entry.query.fail(error));
        proof {
            assert(delivery_views(out@) == before.push(f(all[k])));
            all.lemma_take_succ_push(k);
            all.take(k).lemma_push_map_commute(f, all[k]);
        }
    }
    assert(all.take(all.len() as int) == all);
    out
}

/// Ends every query in `queries` with `error`.
pub fn fail_queries(queries: Vec<Query>, error: Error) -> (r: Vec<Delivery>)
    ensures
        delivery_views(r@) == query_views(queries@).map_values(|q: QueryView| failed(q, error)),
{
    let mut queries = queries;
    let ghost all = query_views(queries@);
    let ghost f = |q: QueryView| failed(q, error);
    let mut out: Vec<Delivery> = Vec::new();
    assert(all.take(0).map_values(f) == delivery_views(out@));
    assert(all.skip(0) == all);
    while queries.len() > 0
        invariant
            f == |q: QueryView| failed(q, error),
            out.len() + queries.len() == all.len(),
            delivery_views(out@) == all.take(out.len() as int).map_values(f),
            query_views(queries@) == all.skip(out.len() as int),
        decreases queries.len(),
    {
        let ghost k = out.len() as int;
        let ghost before = delivery_views(out@);
        let ghost rest = query_views(queries@);
        let query = queries.remove(0);
        assert(query@ == all[k]) by {
            assert(rest[0] == all.skip(k)[0]);
        }
        assert(query_views(queries@) == all.skip(k + 1)) by {
            assert(query_views(queries@) == rest.remove(0));
        }
        out.push(query.fail(error));
        proof {
            assert(delivery_views(out@) == before.push(f(all[k])));
            all.lemma_take_succ_push(k);
            all.take(k).lemma_push_map_commute(f, all[k]);
        }
    }
    assert(all.take(all.len() as int) == all);
    out
}

} // verus!
