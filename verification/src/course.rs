//! The course of one query, from the machine that sends it to the outcome
//! that its task gets.
//!
//! Each machine says in its own module what it does on each event. Here
//! the events are put in a row, for any query and any server: the answer
//! that comes back, the deadline that passes twice, the answer that is cut
//! short and asked for again over the stream.

use vstd::prelude::*;
use crate::action::ActionView;
use crate::action::Address;
use crate::action::MailView;
use crate::conf::Protocol;
use crate::conf::TransportId;
use crate::dispatcher::dispatch;
use crate::dispatcher::dispatcher_wf;
use crate::dispatcher::DispatcherView;
use crate::error::Error;
use crate::events::Readiness;
use crate::lifecycle::tcp_wakeup;
use crate::lifecycle::udp_mails;
use crate::lifecycle::udp_ready;
use crate::lifecycle::udp_timeout;
use crate::lifecycle::ReceivedView;
use crate::message::lemma_with_id_keeps_the_rest;
use crate::message::wire_answers;
use crate::message::wire_id;
use crate::message::wire_is_truncated;
use crate::message::wire_ok;
use crate::message::wire_with_id;
use crate::message::QuestionView;
use crate::pending::find_id;
use crate::pending::free_id;
use crate::pending::ids_distinct;
use crate::pending::lemma_find_from;
use crate::pending::PendingView;
use crate::query::answered;
use crate::query::sent_as;
use crate::query::ChannelId;
use crate::query::QueryView;
use crate::resolver::is_step;
use crate::resolver::ResolverMachine;
use crate::task::Progress;
use crate::task::Task;
use crate::tcp::frame;
use crate::tcp::TcpView;
use crate::timeout::deadline_at;
use crate::timeout::lemma_filter_all;
use crate::timeout::lemma_filter_none;
use crate::udp::udp_accept;
use crate::udp::udp_match;
use crate::udp::udp_receive;
use crate::udp::udp_send;
use crate::udp::DatagramView;
use crate::udp::UdpEventView;
use crate::udp::UdpView;

verus! {

/// Whether the datagram transport `u` has nothing waiting and nothing on
/// the wire.
pub open spec fn idle(u: UdpView) -> bool {
    u.queue.len() == 0 && u.pending.len() == 0
}

/// The entry under which the query `q` stands in the table once the idle
/// machine `u` has sent it at the time `now`.
pub open spec fn entry_for(u: UdpView, q: QueryView, now: u64) -> PendingView {
    PendingView {
        id: u.next_id,
        query: sent_as(q, u.next_id),
        deadline: deadline_at(now, u.timeout_ms),
        escalating: false,
    }
}

/// An idle machine that takes a query in and is ready to send puts it on
/// the wire to its server, under its next identifier, and has it as the
/// one entry of its table.
pub proof fn lemma_idle_machine_sends(u: UdpView, q: QueryView, now: u64)
    requires
        idle(u),
    ensures
        udp_send(udp_accept(u, q), now).1 == Some(
            DatagramView { to: u.server, bytes: sent_as(q, u.next_id).message },
        ),
        udp_send(udp_accept(u, q), now).0.pending == seq![entry_for(u, q, now)],
        udp_send(udp_accept(u, q), now).0.queue.len() == 0,
        udp_send(udp_accept(u, q), now).0.index == u.index,
        udp_send(udp_accept(u, q), now).0.server == u.server,
        udp_send(udp_accept(u, q), now).0.attempts == u.attempts,
        udp_send(udp_accept(u, q), now).0.timeout_ms == u.timeout_ms,
{
    let a = udp_accept(u, q);
    assert(a.queue[0] == q);
    assert(crate::pending::candidate(u.next_id, 0) == u.next_id);
    assert(find_id(u.pending, u.next_id) is None);
    assert(free_id(a.pending, a.next_id) == Some(u.next_id));
    assert(a.queue.drop_first().len() == 0);
    assert(a.pending.push(entry_for(u, q, now)) == seq![entry_for(u, q, now)]);
}

/// The course of an answer. An idle machine sends the query `q`; the
/// server answers with `response`, which is whole, not cut short, and
/// answers what was sent. Then the response is delivered, as it is, to the
/// queue that `q` names, the table is empty again, and nothing else
/// happens.
pub proof fn lemma_answer_is_delivered(
    u: UdpView,
    q: QueryView,
    response: Seq<u8>,
    sent_at: u64,
    now: u64,
)
    requires
        idle(u),
        wire_ok(response),
        !wire_is_truncated(response),
        wire_answers(response, sent_as(q, u.next_id).message),
        wire_ok(q.message),
    ensures
        ({
            let on_wire = udp_send(udp_accept(u, q), sent_at).0;
            let quiet = Readiness { readable: true, writable: false, error: false, hup: false };
            let (after, actions) = udp_ready(
                on_wire,
                quiet,
                seq![ReceivedView { from: u.server, bytes: response }],
                now,
            );
            &&& actions == seq![
                ActionView::Deliver(
                    crate::query::DeliveryView { to: q.reply_to, outcome: Ok(response) },
                ),
            ]
            &&& after.pending.len() == 0
            &&& after.queue.len() == 0
        }),
{
    lemma_idle_machine_sends(u, q, sent_at);
    let on_wire = udp_send(udp_accept(u, q), sent_at).0;
    let e = entry_for(u, q, sent_at);
    lemma_with_id_keeps_the_rest(q.message, u.next_id);
    assert(on_wire.pending[0] == e);
    lemma_find_from(on_wire.pending, u.next_id, 0);
    assert(find_id(on_wire.pending, wire_id(response)) == Some(0int));
    assert(udp_match(on_wire, u.server, response) == Some(0int));
    let ds = seq![ReceivedView { from: u.server, bytes: response }];
    reveal_with_fuel(crate::lifecycle::udp_datagrams, 2);
    let (s2, ev) = udp_receive(on_wire, u.server, response);
    assert(ev == UdpEventView::Deliver(answered(e.query, response)));
    assert(on_wire.pending.remove(0).len() == 0);
    let acts = crate::lifecycle::udp_event_actions(on_wire.index, ev);
    assert(Seq::<ActionView>::empty() + acts == acts);
}

/// What an answer that has been delivered does at the task: a step of the
/// machine that drives the task hands the answer to the task, and if the
/// task succeeds with it and asks nothing more, the step is the success of
/// the task.
pub proof fn lemma_success_is_passed_on<T: Task>(
    requests: Address,
    receiver: ChannelId,
    task: T,
    response: Result<Seq<u8>, Error>,
    value: T::Success,
    outcome: Progress<ResolverMachine<T>, T::Success>,
    actions: Seq<ActionView>,
)
    requires
        task.after_progress(response) == (
            Progress::<T, T::Success>::Success(value),
            Seq::<QuestionView>::empty(),
        ),
        is_step(
            requests,
            receiver,
            task.after_progress(response).0,
            task.after_progress(response).1,
            outcome,
            actions,
        ),
    ensures
        outcome == Progress::<ResolverMachine<T>, T::Success>::Success(value),
        actions == Seq::<ActionView>::empty(),
{
    let none = Seq::<QuestionView>::empty();
    assert(crate::resolver::queries_from(none, 0, receiver).map_values(
        |q: QueryView| crate::resolver::submission(requests, q),
    ) == Seq::<ActionView>::empty());
}

/// What a failure that has been delivered does at the task: if the task
/// answers the failure with that failure and asks nothing more, the step
/// is that failure.
pub proof fn lemma_failure_is_passed_on<T: Task>(
    requests: Address,
    receiver: ChannelId,
    task: T,
    error: Error,
    outcome: Progress<ResolverMachine<T>, T::Success>,
    actions: Seq<ActionView>,
)
    requires
        task.after_progress(Err(error)) == (
            Progress::<T, T::Success>::Error(error),
            Seq::<QuestionView>::empty(),
        ),
        is_step(
            requests,
            receiver,
            task.after_progress(Err(error)).0,
            task.after_progress(Err(error)).1,
            outcome,
            actions,
        ),
    ensures
        outcome == Progress::<ResolverMachine<T>, T::Success>::Error(error),
        actions == Seq::<ActionView>::empty(),
{
    let none = Seq::<QuestionView>::empty();
    assert(crate::resolver::queries_from(none, 0, receiver).map_values(
        |q: QueryView| crate::resolver::submission(requests, q),
    ) == Seq::<ActionView>::empty());
}

/// The course of one question that is answered, from the start of the task
/// to its success, with one server whose datagram transport is there and
/// idle.
///
/// The task asks one question at its start. The start gives the machine
/// that drives the task, and submits one query for the question to the
/// dispatcher. The dispatcher hands it to the datagram transport, which
/// puts it on the wire. The server's response is whole, not cut short, and
/// answers what was sent: it is delivered to the queue of the task. The
/// task succeeds with it and asks nothing more: the step that hands it the
/// response is that success.
pub proof fn lemma_asked_and_answered<T: Task>(
    task: T,
    receiver: ChannelId,
    d: DispatcherView,
    u: UdpView,
    question: QuestionView,
    response: Seq<u8>,
    value: T::Success,
    sent_at: u64,
    now: u64,
    start_outcome: Result<ResolverMachine<T>, Error>,
    start_actions: Seq<ActionView>,
    step_outcome: Progress<ResolverMachine<T>, T::Success>,
    step_actions: Seq<ActionView>,
)
    requires
        task.after_start().1 == seq![question],
        crate::message::compose_error(question) is None,
        dispatcher_wf(d),
        d.servers.len() == 1,
        d.udp_up[0],
        idle(u),
        wire_ok(response),
        !wire_is_truncated(response),
        wire_answers(
            response,
            sent_as(crate::resolver::fresh_query(question, receiver), u.next_id).message,
        ),
        task.after_start().0.after_progress(Ok(response)) == (
            Progress::<T, T::Success>::Success(value),
            Seq::<QuestionView>::empty(),
        ),
        crate::resolver::is_start(
            Address::Dispatcher,
            receiver,
            task.after_start().0,
            task.after_start().1,
            start_outcome,
            start_actions,
        ),
        is_step(
            Address::Dispatcher,
            receiver,
            task.after_start().0.after_progress(Ok(response)).0,
            task.after_start().0.after_progress(Ok(response)).1,
            step_outcome,
            step_actions,
        ),
    ensures
        ({
            let query = crate::resolver::fresh_query(question, receiver);
            let on_wire = udp_send(udp_accept(u, query), sent_at);
            let quiet = Readiness { readable: true, writable: false, error: false, hup: false };
            &&& start_outcome == Ok::<ResolverMachine<T>, Error>(
                ResolverMachine {
                    requests: Address::Dispatcher,
                    receiver,
                    task: task.after_start().0,
                },
            )
            &&& start_actions == seq![
                ActionView::Post { to: Address::Dispatcher, mail: MailView::Query(query) },
            ]
            &&& dispatch(d, MailView::Query(query)).1 == seq![
                ActionView::Post {
                    to: Address::Transport(TransportId { server: 0, protocol: Protocol::Udp }),
                    mail: MailView::Query(query),
                },
            ]
            &&& on_wire.1 == Some(
                DatagramView { to: u.server, bytes: sent_as(query, u.next_id).message },
            )
            &&& udp_ready(
                on_wire.0,
                quiet,
                seq![ReceivedView { from: u.server, bytes: response }],
                now,
            ).1 == seq![
                ActionView::Deliver(
                    crate::query::DeliveryView { to: receiver, outcome: Ok(response) },
                ),
            ]
            &&& step_outcome == Progress::<ResolverMachine<T>, T::Success>::Success(value)
            &&& step_actions == Seq::<ActionView>::empty()
        }),
{
    let query = crate::resolver::fresh_query(question, receiver);
    let asked = seq![question];
    reveal_with_fuel(crate::resolver::queries_from, 2);
    reveal_with_fuel(crate::resolver::last_fault, 2);
    assert(asked[0] == question);
    let queries = crate::resolver::queries_from(asked, 1, receiver);
    assert(queries == seq![query]);
    assert(queries.map_values(
        |q: QueryView| crate::resolver::submission(Address::Dispatcher, q),
    ) == seq![crate::resolver::submission(Address::Dispatcher, query)]);
    assert(crate::dispatcher::wrap(0, 0, 1) == 0);
    assert(crate::dispatcher::first_up(d.udp_up, 0, 0) == Some(0int));
    crate::message::lemma_query_wire_ok(question);
    lemma_idle_machine_sends(u, query, sent_at);
    lemma_answer_is_delivered(u, query, response, sent_at, now);
    lemma_success_is_passed_on(
        Address::Dispatcher,
        receiver,
        task.after_start().0,
        Ok(response),
        value,
        step_outcome,
        step_actions,
    );
}

/// What a call for a passed deadline does to a machine that has one query
/// on the wire and nothing waiting, when the deadline of the query has
/// come: the table is empty afterwards, and the one action that follows is
/// what `expiry_of` makes of the entry.
proof fn lemma_single_expiry(u: UdpView, e: PendingView, now: u64)
    requires
        u.pending == seq![e],
        !e.escalating,
        e.deadline <= now,
    ensures
        udp_timeout(u, now).0.pending.len() == 0,
        udp_timeout(u, now).0.queue == u.queue,
        udp_timeout(u, now).0.next_id == u.next_id,
        udp_timeout(u, now).0.index == u.index,
        udp_timeout(u, now).0.server == u.server,
        udp_timeout(u, now).0.attempts == u.attempts,
        udp_timeout(u, now).0.timeout_ms == u.timeout_ms,
        udp_timeout(u, now).1 == seq![
            crate::lifecycle::expired_action(u.index, crate::udp::expiry_of(e, u.attempts)),
        ],
{
    let p = |e: PendingView| crate::timeout::is_due(e, now);
    let q = |e: PendingView| !crate::timeout::is_due(e, now);
    assert(u.pending[0] == e);
    assert forall|i: int| 0 <= i < u.pending.len() implies p(#[trigger] u.pending[i]) by {}
    lemma_filter_all(u.pending, p);
    assert forall|i: int| 0 <= i < u.pending.len() implies !q(#[trigger] u.pending[i]) by {}
    lemma_filter_none(u.pending, q);
    let due = crate::timeout::due_entries(u.pending, now);
    assert(due == seq![e]);
    let g1 = |e: PendingView| crate::udp::expiry_of(e, u.attempts);
    let g2 = |x: crate::udp::ExpiredView| crate::lifecycle::expired_action(u.index, x);
    assert(due.map_values(g1) == seq![g1(e)]);
    assert(seq![g1(e)].map_values(g2) == seq![g2(g1(e))]);
}

/// The course of a query that gets no response, where a query may be sent
/// twice and there is one server.
///
/// An idle machine sends the query. When its deadline has come, nothing is
/// delivered: the query goes back to the dispatcher for another try, and
/// the dispatcher hands it to the same machine again, which sends it a
/// second time. When the second deadline has come, the query ends with
/// `Error::Timeout` at the queue it names, the table is empty, and nothing
/// is left to send: there were two datagrams and one outcome.
pub proof fn lemma_two_attempts_then_timeout(
    u: UdpView,
    d: DispatcherView,
    q: QueryView,
    first_sent: u64,
    first_call: u64,
    second_call: u64,
)
    requires
        idle(u),
        u.attempts == 2,
        u.index == 0,
        q.attempts == 0,
        dispatcher_wf(d),
        d.servers.len() == 1,
        d.udp_up[0],
        deadline_at(first_sent, u.timeout_ms) <= first_call,
        deadline_at(first_call, u.timeout_ms) <= second_call,
    ensures
        ({
            let (u1, first) = udp_send(udp_accept(u, q), first_sent);
            let (u2, at_first) = udp_timeout(u1, first_call);
            let tried = sent_as(q, u.next_id);
            let retry = MailView::Retry { query: tried, after: 0 };
            let routed = dispatch(d, retry).1;
            let (u3, second) = udp_send(udp_accept(u2, tried), first_call);
            let (u4, at_second) = udp_timeout(u3, second_call);
            &&& first is Some
            &&& at_first == seq![ActionView::Post { to: Address::Dispatcher, mail: retry }]
            &&& routed == seq![
                ActionView::Post {
                    to: Address::Transport(TransportId { server: 0, protocol: Protocol::Udp }),
                    mail: MailView::Query(tried),
                },
            ]
            &&& second is Some
            &&& at_second == seq![
                ActionView::Deliver(
                    crate::query::DeliveryView { to: q.reply_to, outcome: Err(Error::Timeout) },
                ),
            ]
            &&& idle(u4)
            &&& udp_send(u4, second_call).1 is None
        }),
{
    lemma_idle_machine_sends(u, q, first_sent);
    let (u1, first) = udp_send(udp_accept(u, q), first_sent);
    let e1 = entry_for(u, q, first_sent);
    lemma_single_expiry(u1, e1, first_call);
    let (u2, at_first) = udp_timeout(u1, first_call);
    let tried = sent_as(q, u.next_id);
    assert(tried.attempts == 1);
    assert(u2.queue.len() == 0);
    assert(crate::dispatcher::wrap(0, 0, 1) == 0);
    assert(crate::dispatcher::first_up(d.udp_up, 0, 0) == Some(0int));
    lemma_idle_machine_sends(u2, tried, first_call);
    let (u3, second) = udp_send(udp_accept(u2, tried), first_call);
    let e2 = entry_for(u2, tried, first_call);
    lemma_single_expiry(u3, e2, second_call);
    assert(e2.query.attempts == 2);
    assert(e2.query.reply_to == q.reply_to);
}

/// The course of an answer that is cut short. The datagram transport `u`
/// has a query on the wire that the truncated `response` matches, and the
/// stream transport of the same server is there. Then:
///
/// - the datagram transport delivers nothing, and the first thing it asks
///   for is that the query of the matching entry goes to the dispatcher,
///   for the stream to its own server;
/// - the dispatcher delivers nothing either: it hands that very query to
///   the stream transport of that server, and tells the datagram
///   transport, which then lets go of its entry without an outcome;
/// - the stream transport, if it has nothing else waiting and an
///   identifier free, frames the query at once: what stands at the end of
///   what is to leave is the same message but for its identifier, so the
///   same question, and the answer is still to go where the query says.
pub proof fn lemma_truncated_reaches_the_stream(
    u: UdpView,
    d: DispatcherView,
    t: TcpView,
    from: crate::conf::ServerAddr,
    response: Seq<u8>,
    ready: Readiness,
    now: u64,
)
    requires
        ids_distinct(u.pending),
        udp_match(u, from, response) is Some,
        wire_is_truncated(response),
        u.index < d.tcp_up.len() && d.tcp_up[u.index as int],
        t.queue.len() == 0,
        free_id(t.pending, t.next_id) is Some,
    ensures
        ({
            let i = udp_match(u, from, response)->0;
            let q = u.pending[i].query;
            let id = u.pending[i].id;
            let handing_over = MailView::Escalate { query: q, server: u.index, id };
            let (u1, asked) = udp_ready(
                u,
                ready,
                seq![ReceivedView { from, bytes: response }],
                now,
            );
            let routed = dispatch(d, handing_over).1;
            let (t1, at_stream) = tcp_wakeup(t, seq![MailView::Query(q)], now);
            let (u2, at_datagram) = udp_mails(u1, seq![MailView::Accepted { id }], 1);
            let new_id = free_id(t.pending, t.next_id)->0;
            &&& 0 <= i < u.pending.len()
            &&& asked.len() >= 1
            &&& asked[0] == ActionView::Post { to: Address::Dispatcher, mail: handing_over }
            &&& forall|k: int| 0 <= k < asked.len() ==> !(#[trigger] asked[k] is Deliver)
            &&& routed == seq![
                ActionView::Post {
                    to: Address::Transport(
                        TransportId { server: u.index, protocol: Protocol::Tcp },
                    ),
                    mail: MailView::Query(q),
                },
                ActionView::Post {
                    to: Address::Transport(
                        TransportId { server: u.index, protocol: Protocol::Udp },
                    ),
                    mail: MailView::Accepted { id },
                },
            ]
            &&& at_stream.len() == 0
            &&& t1.outbuf == t.outbuf + frame(wire_with_id(q.message, new_id))
            &&& t1.pending.last().query.reply_to == q.reply_to
            &&& (q.message.len() >= 2 ==> wire_with_id(q.message, new_id).skip(2)
                == q.message.skip(2))
            &&& at_datagram.len() == 0
            &&& find_id(u2.pending, id) is None
        }),
{
    let i = udp_match(u, from, response)->0;
    lemma_find_from(u.pending, wire_id(response), 0);
    let q = u.pending[i].query;
    let id = u.pending[i].id;
    let ds = seq![ReceivedView { from, bytes: response }];
    reveal_with_fuel(crate::lifecycle::udp_datagrams, 2);
    let (s1, ev) = udp_receive(u, from, response);
    let acts = crate::lifecycle::udp_event_actions(u.index, ev);
    assert(Seq::<ActionView>::empty() + acts == acts);
    let (u1, asked) = udp_ready(u, ready, ds, now);
    assert(asked[0] == acts[0]);
    assert forall|k: int| 0 <= k < asked.len() implies !(#[trigger] asked[k] is Deliver) by {
        if ready.writable {
            let sent = crate::lifecycle::transmission(udp_send(s1, now).1);
            if k >= 1 {
                assert(asked[k] == sent[k - 1]);
            }
        }
    }
    // The stream transport.
    reveal_with_fuel(crate::lifecycle::tcp_mails, 2);
    reveal_with_fuel(crate::lifecycle::tcp_send_all, 2);
    let mails = seq![MailView::Query(q)];
    let taken = crate::tcp::tcp_accept(t, q);
    assert(crate::lifecycle::tcp_mails(t, mails, 1).0 == taken);
    assert(taken.queue[0] == q);
    assert(crate::tcp::tcp_can_send(taken));
    let framed = crate::tcp::tcp_send(taken, now);
    assert(framed.queue.len() == 0);
    assert(!crate::tcp::tcp_can_send(framed));
    assert(Seq::<ActionView>::empty() + Seq::<ActionView>::empty() == Seq::<
        ActionView,
    >::empty());
    if q.message.len() >= 2 {
        lemma_with_id_keeps_the_rest(q.message, free_id(t.pending, t.next_id)->0);
    }
    // The datagram transport lets go of its entry.
    reveal_with_fuel(crate::lifecycle::udp_mails, 2);
    lemma_udp_keeps_table_on_send(s1, now);
    let marked = PendingView { escalating: true, ..u.pending[i] };
    assert(s1.pending[i] == marked);
    assert(ids_distinct(s1.pending)) by {
        assert forall|a: int, b: int| 0 <= a < b < s1.pending.len() implies s1.pending[a].id
            != s1.pending[b].id by {
            assert(s1.pending[a].id == u.pending[a].id && s1.pending[b].id == u.pending[b].id);
        }
    }
    lemma_entry_goes_when_handed_over(u1, i, id);
}

/// Sending leaves the entries that are in the table as they are, and the
/// entry it adds has an identifier that none of them has.
proof fn lemma_udp_keeps_table_on_send(s: UdpView, now: u64)
    requires
        ids_distinct(s.pending),
    ensures
        ids_distinct(udp_send(s, now).0.pending),
        forall|i: int|
            0 <= i < s.pending.len() ==> #[trigger] udp_send(s, now).0.pending[i] == s.pending[i],
        udp_send(s, now).0.pending.len() >= s.pending.len(),
{
    let after = udp_send(s, now).0.pending;
    if s.queue.len() > 0 && free_id(s.pending, s.next_id) is Some {
        crate::pending::lemma_free_id_is_free(s.pending, s.next_id);
        let id = free_id(s.pending, s.next_id)->0;
        lemma_find_from(s.pending, id, 0);
        assert forall|a: int, b: int| 0 <= a < b < after.len() implies after[a].id
            != after[b].id by {
            if b < s.pending.len() {
                assert(after[a] == s.pending[a] && after[b] == s.pending[b]);
            } else {
                assert(after[a] == s.pending[a]);
            }
        }
    }
}

/// The news that a query has been taken over removes the entry that was
/// being handed over under that identifier.
proof fn lemma_entry_goes_when_handed_over(s: UdpView, i: int, id: u16)
    requires
        ids_distinct(s.pending),
        0 <= i < s.pending.len(),
        s.pending[i].id == id,
        s.pending[i].escalating,
    ensures
        crate::lifecycle::udp_mails(s, seq![MailView::Accepted { id }], 1).1.len() == 0,
        find_id(crate::lifecycle::udp_mails(s, seq![MailView::Accepted { id }], 1).0.pending, id)
            is None,
{
    reveal_with_fuel(crate::lifecycle::udp_mails, 2);
    lemma_find_from(s.pending, id, 0);
    let found = find_id(s.pending, id)->0;
    assert(found == i) by {
        if found < i {
            assert(s.pending[found].id != s.pending[i].id);
        } else if i < found {
            assert(s.pending[i].id != s.pending[found].id);
        }
    }
    crate::pending::lemma_find_after_remove(s.pending, i, id);
    assert(Seq::<ActionView>::empty() + Seq::<ActionView>::empty() == Seq::<
        ActionView,
    >::empty());
}

} // verus!
