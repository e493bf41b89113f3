//! What each machine does when the event loop calls it.
//!
//! The event loop knows five calls: a machine is created, its socket is
//! ready, a machine it asked for has been made, its deadline has passed, or
//! it has mail. Before a call the program gathers what there is to read;
//! after it, the program carries out the actions.

use vstd::prelude::*;
use crate::action::action_views;
use crate::action::append_actions;
use crate::action::mail_views;
use crate::action::push_action;
use crate::action::Action;
use crate::action::ActionView;
use crate::action::Address;
use crate::action::Mail;
use crate::action::MailView;
use crate::conf::Protocol;
use crate::conf::ServerAddr;
use crate::conf::TransportId;
use crate::dispatcher::dispatch;
use crate::dispatcher::Dispatcher;
use crate::dispatcher::DispatcherView;
use crate::error::Error;
use crate::events::Readiness;
use crate::query::delivery_views;
use crate::query::failed;
use crate::query::Delivery;
use crate::query::DeliveryView;
use crate::tcp::tcp_accept;
use crate::tcp::tcp_can_send;
use crate::tcp::tcp_expire;
use crate::tcp::tcp_feed;
use crate::tcp::tcp_lost;
use crate::tcp::tcp_send;
use crate::tcp::tcp_wrote;
use crate::tcp::TcpTransport;
use crate::tcp::TcpView;
use crate::udp::expired_views;
use crate::udp::udp_accept;
use crate::udp::udp_expire;
use crate::udp::udp_receive;
use crate::udp::udp_handed_over;
use crate::udp::udp_send;
use crate::udp::Expired;
use crate::udp::ExpiredView;
use crate::udp::UdpEvent;
use crate::udp::UdpEventView;
use crate::udp::UdpTransport;
use crate::udp::UdpView;

verus! {

/// A datagram that has arrived.
#[derive(Debug)]
pub struct Received {
    pub from: ServerAddr,
    pub bytes: Vec<u8>,
}

/// A `Received` as a mathematical value.
pub struct ReceivedView {
    pub from: ServerAddr,
    pub bytes: Seq<u8>,
}

impl View for Received {
    type V = ReceivedView;

    open spec fn view(&self) -> ReceivedView {
        ReceivedView { from: self.from, bytes: self.bytes@ }
    }
}

/// The views of the datagrams in `v`, in order.
pub open spec fn received_views(v: Seq<Received>) -> Seq<ReceivedView> {
    v.map_values(|r: Received| r@)
}

/// What the program has gathered from the socket of a machine before it
/// calls `ready`.
#[derive(Debug)]
pub struct SocketInput {
    /// The datagrams that have arrived, oldest first.
    pub datagrams: Vec<Received>,
    /// The bytes that have arrived on the stream.
    pub stream: Vec<u8>,
    /// How many bytes of what was to leave the stream has taken.
    pub written: usize,
    /// Whether reading or writing has failed, or the peer has closed.
    pub closed: bool,
}

/// A `SocketInput` as a mathematical value.
pub struct SocketInputView {
    pub datagrams: Seq<ReceivedView>,
    pub stream: Seq<u8>,
    pub written: usize,
    pub closed: bool,
}

impl View for SocketInput {
    type V = SocketInputView;

    open spec fn view(&self) -> SocketInputView {
        SocketInputView {
            datagrams: received_views(self.datagrams@),
            stream: self.stream@,
            written: self.written,
            closed: self.closed,
        }
    }
}

/// The actions that deliver `ds`, in order.
pub open spec fn deliveries(ds: Seq<DeliveryView>) -> Seq<ActionView> {
    ds.map_values(|d: DeliveryView| ActionView::Deliver(d))
}

/// The actions that follow what a datagram has led to at the datagram
/// transport of the server at `index`: an answer is delivered; a truncated
/// answer sends the query to the dispatcher, for the stream to the same
/// server, and nothing is delivered.
pub open spec fn udp_event_actions(index: usize, e: UdpEventView) -> Seq<ActionView> {
    match e {
        UdpEventView::Discard => Seq::empty(),
        UdpEventView::Deliver(d) => seq![ActionView::Deliver(d)],
        UdpEventView::Escalate { id, query } => seq![
            ActionView::Post {
                to: Address::Dispatcher,
                mail: MailView::Escalate { query, server: index, id },
            },
        ],
    }
}

/// The state after the first `n` of the datagrams `ds` have been taken, in
/// order, and the actions that follow.
pub open spec fn udp_datagrams(s: UdpView, ds: Seq<ReceivedView>, n: int) -> (
    UdpView,
    Seq<ActionView>,
)
    decreases n,
{
    if n <= 0 {
        (s, Seq::empty())
    } else {
        let (s1, a1) = udp_datagrams(s, ds, n - 1);
        let (s2, e) = udp_receive(s1, ds[n - 1].from, ds[n - 1].bytes);
        (s2, a1 + udp_event_actions(s.index, e))
    }
}

/// The action that puts `d` on the wire, if there is one.
pub open spec fn transmission(d: Option<crate::udp::DatagramView>) -> Seq<ActionView> {
    match d {
        Some(d) => seq![ActionView::Transmit(d)],
        None => Seq::empty(),
    }
}

/// A datagram transport whose socket is ready: every datagram that has
/// arrived is taken, and if the socket takes a datagram, the oldest
/// waiting query is sent.
pub open spec fn udp_ready(s: UdpView, ready: Readiness, ds: Seq<ReceivedView>, now: u64) -> (
    UdpView,
    Seq<ActionView>,
) {
    let (s1, a1) = udp_datagrams(s, ds, ds.len() as int);
    if ready.writable {
        let (s2, d) = udp_send(s1, now);
        (s2, a1 + transmission(d))
    } else {
        (s1, a1)
    }
}

/// The state after a datagram transport has taken one item of mail, and
/// the actions that follow. A query is taken in. News of a handing over
/// ends the entry it is about, and a query that comes back from one fails
/// with `Error::Dispatch`. So does a query that was meant for the
/// dispatcher.
pub open spec fn udp_mail(s: UdpView, m: MailView) -> (UdpView, Seq<ActionView>) {
    match m {
        MailView::Query(q) => (udp_accept(s, q), Seq::empty()),
        MailView::Accepted { id } => (udp_handed_over(s, id), Seq::empty()),
        MailView::Rejected { id, query } => (
            udp_handed_over(s, id),
            seq![ActionView::Deliver(failed(query, Error::Dispatch))],
        ),
        MailView::Retry { query, after } => (
            s,
            seq![ActionView::Deliver(failed(query, Error::Dispatch))],
        ),
        MailView::Escalate { query, server, id } => (
            s,
            seq![ActionView::Deliver(failed(query, Error::Dispatch))],
        ),
        MailView::Closed(t) => (s, Seq::empty()),
    }
}

/// The state after a datagram transport has taken the first `n` items of
/// `mail`, in order, and the actions that follow.
pub open spec fn udp_mails(s: UdpView, mail: Seq<MailView>, n: int) -> (UdpView, Seq<ActionView>)
    decreases n,
{
    if n <= 0 {
        (s, Seq::empty())
    } else {
        let (s1, a1) = udp_mails(s, mail, n - 1);
        let (s2, a2) = udp_mail(s1, mail[n - 1]);
        (s2, a1 + a2)
    }
}

/// The action that follows the passing of a deadline at the datagram
/// transport of the server at `index`: the query goes to the dispatcher,
/// for the next server, or ends with `Error::Timeout`.
pub open spec fn expired_action(index: usize, e: ExpiredView) -> ActionView {
    match e {
        ExpiredView::Retry(q) => ActionView::Post {
            to: Address::Dispatcher,
            mail: MailView::Retry { query: q, after: index },
        },
        ExpiredView::Deliver(d) => ActionView::Deliver(d),
    }
}

/// A datagram transport whose deadline has passed.
pub open spec fn udp_timeout(s: UdpView, now: u64) -> (UdpView, Seq<ActionView>) {
    let (s1, ex) = udp_expire(s, now);
    (s1, ex.map_values(|e: ExpiredView| expired_action(s.index, e)))
}

/// The state after every waiting query that can go out has been framed.
pub open spec fn tcp_send_all(s: TcpView, now: u64) -> TcpView
    decreases s.queue.len(),
{
    if tcp_can_send(s) {
        tcp_send_all(tcp_send(s, now), now)
    } else {
        s
    }
}

/// The state after a stream transport has taken one item of mail, and the
/// actions that follow. A query is taken in. A query that was meant for
/// another machine fails with `Error::Dispatch`.
pub open spec fn tcp_mail(s: TcpView, m: MailView) -> (TcpView, Seq<ActionView>) {
    match m {
        MailView::Query(q) => (tcp_accept(s, q), Seq::empty()),
        MailView::Accepted { id } => (s, Seq::empty()),
        MailView::Rejected { id, query } => (
            s,
            seq![ActionView::Deliver(failed(query, Error::Dispatch))],
        ),
        MailView::Retry { query, after } => (
            s,
            seq![ActionView::Deliver(failed(query, Error::Dispatch))],
        ),
        MailView::Escalate { query, server, id } => (
            s,
            seq![ActionView::Deliver(failed(query, Error::Dispatch))],
        ),
        MailView::Closed(t) => (s, Seq::empty()),
    }
}

/// The state after a stream transport has taken the first `n` items of
/// `mail`, in order, and the actions that follow.
pub open spec fn tcp_mails(s: TcpView, mail: Seq<MailView>, n: int) -> (TcpView, Seq<ActionView>)
    decreases n,
{
    if n <= 0 {
        (s, Seq::empty())
    } else {
        let (s1, a1) = tcp_mails(s, mail, n - 1);
        let (s2, a2) = tcp_mail(s1, mail[n - 1]);
        (s2, a1 + a2)
    }
}

/// A stream transport that has mail: the mail is taken, and every query
/// that can go out is framed.
pub open spec fn tcp_wakeup(s: TcpView, mail: Seq<MailView>, now: u64) -> (
    TcpView,
    Seq<ActionView>,
) {
    let (s1, a) = tcp_mails(s, mail, mail.len() as int);
    (tcp_send_all(s1, now), a)
}

/// The item that tells the dispatcher that the stream transport of the
/// server at `index` has ended.
pub open spec fn closed_notice(index: usize) -> ActionView {
    ActionView::Post {
        to: Address::Dispatcher,
        mail: MailView::Closed(TransportId { server: index, protocol: Protocol::Tcp }),
    }
}

/// Whether the connection of a stream transport is lost: the program saw
/// reading or writing fail or the peer close, or the event loop reports an
/// error or a hang-up.
pub open spec fn connection_is_lost(ready: Readiness, closed: bool) -> bool {
    closed || ready.is_lost()
}

/// A stream transport whose socket is ready. What the stream took leaves
/// the buffer, and what arrived is taken, whole messages being answers.
/// Then, if the connection is lost, the machine ends: every query it holds
/// fails with `Error::Connection`, and the dispatcher is told. Else every
/// query that can go out is framed.
pub open spec fn tcp_ready(
    s: TcpView,
    ready: Readiness,
    stream: Seq<u8>,
    written: usize,
    closed: bool,
    now: u64,
) -> (Option<TcpView>, Seq<ActionView>) {
    let (s1, ds) = tcp_feed(tcp_wrote(s, written), stream);
    if connection_is_lost(ready, closed) {
        (None, deliveries(ds) + deliveries(tcp_lost(s1)).push(closed_notice(s.index)))
    } else {
        (Some(tcp_send_all(s1, now)), deliveries(ds))
    }
}

/// A stream transport whose deadline has passed: every query that was due
/// ends with `Error::Timeout`.
pub open spec fn tcp_timeout(s: TcpView, now: u64) -> (TcpView, Seq<ActionView>) {
    let (s1, ds) = tcp_expire(s, now);
    (s1, deliveries(ds))
}

/// The state after the dispatcher has taken the first `n` items of `mail`,
/// in order, and the actions that follow.
pub open spec fn dispatch_all(s: DispatcherView, mail: Seq<MailView>, n: int) -> (
    DispatcherView,
    Seq<ActionView>,
)
    decreases n,
{
    if n <= 0 {
        (s, Seq::empty())
    } else {
        let (s1, a1) = dispatch_all(s, mail, n - 1);
        let (s2, a2) = dispatch(s1, mail[n - 1]);
        (s2, a1 + a2)
    }
}

/// The actions that deliver `ds`.
pub fn deliver_all(ds: Vec<Delivery>) -> (r: Vec<Action>)
    ensures
        action_views(r@) == deliveries(delivery_views(ds@)),
{
    let mut ds = ds;
    let ghost all = delivery_views(ds@);
    let ghost f = |d: DeliveryView| ActionView::Deliver(d);
    let mut out: Vec<Action> = Vec::new();
    assert(all.take(0).map_values(f) == action_views(out@));
    assert(all.skip(0) == all);
    while ds.len() > 0
        invariant
            f == |d: DeliveryView| ActionView::Deliver(d),
            out.len() + ds.len() == all.len(),
            action_views(out@) == all.take(out.len() as int).map_values(f),
            delivery_views(ds@) == all.skip(out.len() as int),
        decreases ds.len(),
    {
        let ghost k = out.len() as int;
        let ghost before = action_views(out@);
        let ghost rest = delivery_views(ds@);
        let d = ds.remove(0);
        assert(d@ == all[k]) by {
            assert(rest[0] == all.skip(k)[0]);
        }
        assert(delivery_views(ds@) == all.skip(k + 1)) by {
            assert(delivery_views(ds@) == rest.remove(0));
        }
        out.push(Action::Deliver(d));
        proof {
            assert(action_views(out@) == before.push(f(all[k])));
            all.lemma_take_succ_push(k);
            all.take(k).lemma_push_map_commute(f, all[k]);
        }
    }
    assert(all.take(all.len() as int) == all);
    out
}

impl UdpTransport {
    /// The socket is ready.
    pub fn on_ready(&mut self, ready: Readiness, datagrams: Vec<Received>, now: u64) -> (r: Vec<
        Action,
    >)
        ensures
            final(self)@ == udp_ready(old(self)@, ready, received_views(datagrams@), now).0,
            action_views(r@) == udp_ready(old(self)@, ready, received_views(datagrams@), now).1,
    {
        let mut datagrams = datagrams;
        let ghost start = self@;
        let ghost all = received_views(datagrams@);
        let mut out: Vec<Action> = Vec::new();
        assert(action_views(out@) == Seq::<ActionView>::empty());
        assert(all.skip(0) == all);
        while datagrams.len() > 0
            invariant
                self@.index == start.index,
                datagrams.len() <= all.len(),
                (self@, action_views(out@)) == udp_datagrams(
                    start,
                    all,
                    all.len() - datagrams.len(),
                ),
                received_views(datagrams@) == all.skip(all.len() - datagrams.len()),
            decreases datagrams.len(),
        {
            let ghost k = all.len() - datagrams.len();
            let ghost rest = received_views(datagrams@);
            let d = datagrams.remove(0);
            assert(d@ == all[k]) by {
                assert(rest[0] == all.skip(k)[0]);
            }
            assert(received_views(datagrams@) == all.skip(k + 1)) by {
                assert(received_views(datagrams@) == rest.remove(0));
            }
            let ghost before = action_views(out@);
            let event = self.receive(d.from, d.bytes);
            match event {
                UdpEvent::Discard => {
                    assert(before + Seq::<ActionView>::empty() == before);
                },
                UdpEvent::Deliver(delivery) => {
                    push_action(&mut out, Action::Deliver(delivery));
                    assert(before.push(ActionView::Deliver(delivery@)) == before
                        + seq![ActionView::Deliver(delivery@)]);
                },
                UdpEvent::Escalate { id, query } => {
                    let action = Action::Post {
                        to: Address::Dispatcher,
                        mail: Mail::Escalate { query, server: self.index(), id },
                    };
                    push_action(&mut out, action);
                    assert(before.push(action@) == before + seq![action@]);
                },
            }
        }
        if ready.writable {
            let ghost before = action_views(out@);
            match self.send_next(now) {
                Some(d) => {
                    push_action(&mut out, Action::Transmit(d));
                    assert(before.push(ActionView::Transmit(d@)) == before
                        + seq![ActionView::Transmit(d@)]);
                },
                None => {
                    assert(before + Seq::<ActionView>::empty() == before);
                },
            }
        }
        out
    }

    /// The machine has mail.
    pub fn on_wakeup(&mut self, mail: Vec<Mail>) -> (r: Vec<Action>)
        ensures
            final(self)@ == udp_mails(old(self)@, mail_views(mail@), mail@.len() as int).0,
            action_views(r@) == udp_mails(old(self)@, mail_views(mail@), mail@.len() as int).1,
    {
        let mut mail = mail;
        let ghost start = self@;
        let ghost all = mail_views(mail@);
        let mut out: Vec<Action> = Vec::new();
        assert(action_views(out@) == Seq::<ActionView>::empty());
        assert(all.skip(0) == all);
        while mail.len() > 0
            invariant
                mail.len() <= all.len(),
                (self@, action_views(out@)) == udp_mails(start, all, all.len() - mail.len()),
                mail_views(mail@) == all.skip(all.len() - mail.len()),
            decreases mail.len(),
        {
            let ghost k = all.len() - mail.len();
            let ghost rest = mail_views(mail@);
            let m = mail.remove(0);
            assert(m@ == all[k]) by {
                assert(rest[0] == all.skip(k)[0]);
            }
            assert(mail_views(mail@) == all.skip(k + 1)) by {
                assert(mail_views(mail@) == rest.remove(0));
            }
            let ghost before = action_views(out@);
            match m {
                Mail::Query(q) => {
                    self.accept(q);
                    assert(before + Seq::<ActionView>::empty() == before);
                },
                Mail::Accepted { id } => {
                    self.handed_over(id);
                    assert(before + Seq::<ActionView>::empty() == before);
                },
                Mail::Rejected { id, query } => {
                    let action = Action::Deliver(self.handed_back(id, query));
                    push_action(&mut out, action);
                    assert(before.push(action@) == before + seq![action@]);
                },
                Mail::Retry { query, after } => {
                    let action = Action::Deliver(query.fail(Error::Dispatch));
                    push_action(&mut out, action);
                    assert(before.push(action@) == before + seq![action@]);
                },
                Mail::Escalate { query, server, id } => {
                    let action = Action::Deliver(query.fail(Error::Dispatch));
                    push_action(&mut out, action);
                    assert(before.push(action@) == before + seq![action@]);
                },
                Mail::Closed(t) => {
                    assert(before + Seq::<ActionView>::empty() == before);
                },
            }
        }
        out
    }

    /// The deadline has passed.
    pub fn on_timeout(&mut self, now: u64) -> (r: Vec<Action>)
        ensures
            final(self)@ == udp_timeout(old(self)@, now).0,
            action_views(r@) == udp_timeout(old(self)@, now).1,
    {
        let index = self.index();
        let mut due = self.expire(now);
        let ghost all = expired_views(due@);
        let ghost f = |e: ExpiredView| expired_action(index, e);
        let mut out: Vec<Action> = Vec::new();
        assert(all.take(0).map_values(f) == action_views(out@));
        assert(all.skip(0) == all);
        while due.len() > 0
            invariant
                f == |e: ExpiredView| expired_action(index, e),
                out.len() + due.len() == all.len(),
                action_views(out@) == all.take(out.len() as int).map_values(f),
                expired_views(due@) == all.skip(out.len() as int),
            decreases due.len(),
        {
            let ghost k = out.len() as int;
            let ghost before = action_views(out@);
            let ghost rest = expired_views(due@);
            let e = due.remove(0);
            assert(e@ == all[k]) by {
                assert(rest[0] == all.skip(k)[0]);
            }
            assert(expired_views(due@) == all.skip(k + 1)) by {
                assert(expired_views(due@) == rest.remove(0));
            }
            let action = match e {
                Expired::Retry(query) => Action::Post {
                    to: Address::Dispatcher,
                    mail: Mail::Retry { query, after: index },
                },
                Expired::Deliver(d) => Action::Deliver(d),
            };
            assert(action@ == f(all[k]));
            out.push(action);
            proof {
                assert(action_views(out@) == before.push(f(all[k])));
                all.lemma_take_succ_push(k);
                all.take(k).lemma_push_map_commute(f, all[k]);
            }
        }
        assert(all.take(all.len() as int) == all);
        out
    }
}

impl TcpTransport {
    /// Frames every waiting query that can go out.
    pub fn send_all(&mut self, now: u64)
        ensures
            final(self)@ == tcp_send_all(old(self)@, now),
    {
        let ghost start = self@;
        loop
            invariant
                tcp_send_all(start, now) == tcp_send_all(self@, now),
            ensures
                tcp_send_all(start, now) == self@,
            decreases self@.queue.len(),
        {
            if !self.send_next(now) {
                break ;
            }
        }
    }

    /// The machine has mail.
    pub fn on_wakeup(&mut self, mail: Vec<Mail>, now: u64) -> (r: Vec<Action>)
        ensures
            final(self)@ == tcp_wakeup(old(self)@, mail_views(mail@), now).0,
            action_views(r@) == tcp_wakeup(old(self)@, mail_views(mail@), now).1,
    {
        let mut mail = mail;
        let ghost start = self@;
        let ghost all = mail_views(mail@);
        let mut out: Vec<Action> = Vec::new();
        assert(action_views(out@) == Seq::<ActionView>::empty());
        assert(all.skip(0) == all);
        while mail.len() > 0
            invariant
                mail.len() <= all.len(),
                (self@, action_views(out@)) == tcp_mails(start, all, all.len() - mail.len()),
                mail_views(mail@) == all.skip(all.len() - mail.len()),
            decreases mail.len(),
        {
            let ghost k = all.len() - mail.len();
            let ghost rest = mail_views(mail@);
            let m = mail.remove(0);
            assert(m@ == all[k]) by {
                assert(rest[0] == all.skip(k)[0]);
            }
            assert(mail_views(mail@) == all.skip(k + 1)) by {
                assert(mail_views(mail@) == rest.remove(0));
            }
            let ghost before = action_views(out@);
            match m {
                Mail::Query(q) => {
                    self.accept(q);
                    assert(before + Seq::<ActionView>::empty() == before);
                },
                Mail::Accepted { id } => {
                    assert(before + Seq::<ActionView>::empty() == before);
                },
                Mail::Rejected { id, query } => {
                    let action = Action::Deliver(query.fail(Error::Dispatch));
                    push_action(&mut out, action);
                    assert(before.push(action@) == before + seq![action@]);
                },
                Mail::Retry { query, after } => {
                    let action = Action::Deliver(query.fail(Error::Dispatch));
                    push_action(&mut out, action);
                    assert(before.push(action@) == before + seq![action@]);
                },
                Mail::Escalate { query, server, id } => {
                    let action = Action::Deliver(query.fail(Error::Dispatch));
                    push_action(&mut out, action);
                    assert(before.push(action@) == before + seq![action@]);
                },
                Mail::Closed(t) => {
                    assert(before + Seq::<ActionView>::empty() == before);
                },
            }
        }
        self.send_all(now);
        out
    }

    /// The socket is ready. The machine comes back unless the connection
    /// is lost.
    pub fn on_ready(
        self,
        ready: Readiness,
        stream: &Vec<u8>,
        written: usize,
        closed: bool,
        now: u64,
    ) -> (r: (Option<TcpTransport>, Vec<Action>))
        ensures
            match r.0 {
                Some(m) => tcp_ready(self@, ready, stream@, written, closed, now).0 == Some(m@),
                None => tcp_ready(self@, ready, stream@, written, closed, now).0 is None,
            },
            action_views(r.1@) == tcp_ready(self@, ready, stream@, written, closed, now).1,
    {
        let mut machine = self;
        let index = machine.index();
        machine.wrote(written);
        let answers = machine.feed(stream);
        let mut out = deliver_all(answers);
        if closed || ready.lost() {
            let ghost first = action_views(out@);
            let failures = deliver_all(machine.connection_lost());
            append_actions(&mut out, failures);
            let notice = Action::Post {
                to: Address::Dispatcher,
                mail: Mail::Closed(TransportId { server: index, protocol: Protocol::Tcp }),
            };
            let ghost second = action_views(out@);
            push_action(&mut out, notice);
            assert(notice@ == closed_notice(index));
            assert(second.push(notice@) == first + deliveries(
                tcp_lost(tcp_feed(tcp_wrote(self@, written), stream@).0),
            ).push(notice@));
            (None, out)
        } else {
            machine.send_all(now);
            (Some(machine), out)
        }
    }

    /// The deadline has passed.
    pub fn on_timeout(&mut self, now: u64) -> (r: Vec<Action>)
        ensures
            final(self)@ == tcp_timeout(old(self)@, now).0,
            action_views(r@) == tcp_timeout(old(self)@, now).1,
    {
        let due = self.expire(now);
        deliver_all(due)
    }
}

impl Dispatcher {
    /// The dispatcher has mail.
    pub fn on_wakeup(&mut self, mail: Vec<Mail>) -> (r: Vec<Action>)
        ensures
            final(self)@ == dispatch_all(old(self)@, mail_views(mail@), mail@.len() as int).0,
            action_views(r@) == dispatch_all(old(self)@, mail_views(mail@), mail@.len() as int).1,
    {
        let mut mail = mail;
        let ghost start = self@;
        let ghost all = mail_views(mail@);
        let mut out: Vec<Action> = Vec::new();
        assert(action_views(out@) == Seq::<ActionView>::empty());
        assert(all.skip(0) == all);
        while mail.len() > 0
            invariant
                mail.len() <= all.len(),
                (self@, action_views(out@)) == dispatch_all(start, all, all.len() - mail.len()),
                mail_views(mail@) == all.skip(all.len() - mail.len()),
            decreases mail.len(),
        {
            let ghost k = all.len() - mail.len();
            let ghost rest = mail_views(mail@);
            let m = mail.remove(0);
            assert(m@ == all[k]) by {
                assert(rest[0] == all.skip(k)[0]);
            }
            assert(mail_views(mail@) == all.skip(k + 1)) by {
                assert(mail_views(mail@) == rest.remove(0));
            }
            let actions = self.dispatch(m);
            append_actions(&mut out, actions);
        }
        out
    }
}

/// When the connection of a stream transport is lost, the machine ends
/// and every query it holds fails with `Error::Connection`, each exactly
/// once: behind the answers that still arrived stand, in the order of the
/// table, one failure for every query on the wire, then one for every
/// query that waited, and last the notice to the dispatcher.
pub proof fn lemma_connection_loss_fails_all(
    s: TcpView,
    ready: Readiness,
    stream: Seq<u8>,
    written: usize,
    closed: bool,
    now: u64,
)
    requires
        connection_is_lost(ready, closed),
    ensures
        tcp_ready(s, ready, stream, written, closed, now).0 is None,
        ({
            let (last, answers) = tcp_feed(tcp_wrote(s, written), stream);
            let actions = tcp_ready(s, ready, stream, written, closed, now).1;
            let k = answers.len() as int;
            let n = last.pending.len() as int;
            &&& actions.len() == k + n + last.queue.len() + 1
            &&& forall|i: int|
                0 <= i < n ==> #[trigger] actions[k + i] == ActionView::Deliver(
                    failed(last.pending[i].query, Error::Connection),
                )
            &&& forall|j: int|
                0 <= j < last.queue.len() ==> #[trigger] actions[k + n + j] == ActionView::Deliver(
                    failed(last.queue[j], Error::Connection),
                )
            &&& actions.last() == closed_notice(s.index)
        }),
{
}

/// A query whose response was truncated goes to the stream transport of
/// the same server if that transport is there, and nothing is delivered;
/// if it is not there, the query goes back to where it came from, and
/// again nothing is delivered by the dispatcher.
pub proof fn lemma_truncated_goes_to_stream(
    s: DispatcherView,
    query: crate::query::QueryView,
    server: usize,
    id: u16,
)
    ensures
        ({
            let actions = dispatch(s, MailView::Escalate { query, server, id }).1;
            let up = server < s.tcp_up.len() && s.tcp_up[server as int];
            &&& forall|i: int| 0 <= i < actions.len() ==> !(#[trigger] actions[i] is Deliver)
            &&& up ==> actions[0] == ActionView::Post {
                to: Address::Transport(TransportId { server, protocol: Protocol::Tcp }),
                mail: MailView::Query(query),
            }
            &&& !up ==> actions == seq![
                ActionView::Post {
                    to: Address::Transport(TransportId { server, protocol: Protocol::Udp }),
                    mail: MailView::Rejected { id, query },
                },
            ]
        }),
{
}

} // verus!
