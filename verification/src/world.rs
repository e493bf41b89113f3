//! The whole of a resolver over a whole run.
//!
//! A world is every machine there is, the queues between them, and a
//! record of what tasks have asked and what has been settled. A run is
//! any sequence of events: a task asks, the event loop makes a machine or
//! calls one, a queue is taken away. Whatever the run, every query that
//! was asked is at every moment in exactly one place: held by a machine,
//! waiting in a queue, or settled by the one outcome that was handed out
//! for it. None is lost and none is there twice.

use vstd::multiset::Multiset;
use vstd::prelude::*;
use crate::account::effects_tokens;
use crate::account::lemma_attach_keeps_count;
use crate::account::lemma_call_keeps_count;
use crate::account::lemma_detach_keeps_count;
use crate::account::lemma_post_keeps_count;
use crate::account::lemma_round_keeps_count;
use crate::account::lemma_total_push;
use crate::account::lemma_total_update;
use crate::account::machine_held;
use crate::account::one;
use crate::account::room_tokens;
use crate::account::total;
use crate::action::Address;
use crate::action::MailView;
use crate::dispatcher::BootstrapItem;
use crate::events::Readiness;
use crate::lifecycle::SocketInputView;
use crate::mailroom::room_attach;
use crate::mailroom::room_detach;
use crate::mailroom::room_perform;
use crate::mailroom::room_post;
use crate::mailroom::room_take;
use crate::mailroom::MailboxView;
use crate::query::ChannelId;
use crate::query::QueryView;
use crate::transport::machine_of;
use crate::transport::transport_create;
use crate::transport::transport_ready;
use crate::transport::transport_spawned;
use crate::transport::transport_timeout;
use crate::transport::transport_wakeup;
use crate::transport::MachineView;
use crate::transport::Response;

verus! {

/// Everything there is at one moment of a run.
pub struct WorldView {
    /// The machines that the event loop has made, in the order of making;
    /// `None` in the place of one that has ended.
    pub machines: Seq<Option<MachineView>>,
    /// The queues of the machines.
    pub room: Seq<MailboxView>,
    /// For every query that a task has asked so far, the queue its outcome
    /// is to go to.
    pub asked: Multiset<ChannelId>,
    /// For every outcome that has been handed out so far, the queue it
    /// went to.
    pub settled: Multiset<ChannelId>,
}

/// What can happen in a run.
pub enum Event {
    /// A task submits a query to the machine at `requests`.
    Ask { requests: Address, query: QueryView },
    /// The event loop makes a machine from a seed and gives it a queue.
    Create { seed: BootstrapItem, address: Address },
    /// The machine in the place `slot` takes its mail from the queue at
    /// `address` and is called for it.
    Wakeup { slot: int, address: Address, now: u64 },
    /// The machine in the place `slot` is called for its socket.
    Ready { slot: int, ready: Readiness, input: SocketInputView, now: u64 },
    /// The machine in the place `slot` is called for its deadline.
    Timeout { slot: int, now: u64 },
    /// The machine in the place `slot` is told that the machine it asked
    /// for has been made.
    Spawned { slot: int },
    /// The queue at `address` is taken away.
    Detach { address: Address },
}

/// The world in which a run starts: no machine, no queue, nothing asked.
pub open spec fn world_initial() -> WorldView {
    WorldView {
        machines: Seq::empty(),
        room: Seq::empty(),
        asked: Multiset::empty(),
        settled: Multiset::empty(),
    }
}

/// The machine in the place `slot`, if that place has one.
pub open spec fn machine_at(w: WorldView, slot: int) -> Option<MachineView> {
    if 0 <= slot < w.machines.len() {
        w.machines[slot]
    } else {
        None
    }
}

/// The world after the machine in the place `slot` has answered a call
/// with `answer`: the machine that goes on stands in its place, its
/// actions have been carried out, and what they settle is on record.
pub open spec fn after_call(
    w: WorldView,
    room: Seq<MailboxView>,
    slot: int,
    answer: (Response<MachineView, BootstrapItem>, Seq<crate::action::ActionView>),
) -> WorldView {
    let (after, effects) = room_perform(room, answer.1, answer.1.len() as int);
    WorldView {
        machines: w.machines.update(slot, machine_of(answer.0)),
        room: after,
        settled: w.settled.add(effects_tokens(effects)),
        ..w
    }
}

/// The world after one event. A call for a place that has no machine
/// changes nothing.
pub open spec fn world_step(w: WorldView, e: Event) -> WorldView {
    match e {
        Event::Ask { requests, query } => {
            let (after, effects) = room_post(w.room, requests, MailView::Query(query));
            WorldView {
                room: after,
                asked: w.asked.add(one(query)),
                settled: w.settled.add(effects_tokens(effects)),
                ..w
            }
        },
        Event::Create { seed, address } => WorldView {
            machines: w.machines.push(Some(transport_create(seed))),
            room: room_attach(w.room, address),
            ..w
        },
        Event::Wakeup { slot, address, now } => match machine_at(w, slot) {
            Some(m) => {
                let (emptied, mail) = room_take(w.room, address);
                after_call(w, emptied, slot, transport_wakeup(m, mail, now))
            },
            None => w,
        },
        Event::Ready { slot, ready, input, now } => match machine_at(w, slot) {
            Some(m) => after_call(w, w.room, slot, transport_ready(m, ready, input, now)),
            None => w,
        },
        Event::Timeout { slot, now } => match machine_at(w, slot) {
            Some(m) => after_call(w, w.room, slot, transport_timeout(m, now)),
            None => w,
        },
        Event::Spawned { slot } => match machine_at(w, slot) {
            Some(m) => after_call(w, w.room, slot, transport_spawned(m)),
            None => w,
        },
        Event::Detach { address } => {
            let (after, effects) = room_detach(w.room, address);
            WorldView { room: after, settled: w.settled.add(effects_tokens(effects)), ..w }
        },
    }
}

/// The world after the first `n` of `events`, in order.
pub open spec fn world_run(w: WorldView, events: Seq<Event>, n: int) -> WorldView
    decreases n,
{
    if n <= 0 {
        w
    } else {
        world_step(world_run(w, events, n - 1), events[n - 1])
    }
}

/// The queries that the machine in a place holds; none where the machine
/// has ended.
pub open spec fn slot_held(m: Option<MachineView>) -> Multiset<ChannelId> {
    match m {
        Some(m) => machine_held(m),
        None => Multiset::empty(),
    }
}

/// The queries that are under way in the world: held by a machine or
/// waiting in a queue.
pub open spec fn world_held(w: WorldView) -> Multiset<ChannelId> {
    total(w.machines, |m: Option<MachineView>| slot_held(m)).add(room_tokens(w.room))
}

/// Whether every query that was asked is in exactly one place: under way,
/// or settled by one outcome.
pub open spec fn balanced(w: WorldView) -> bool {
    w.asked == world_held(w).add(w.settled)
}

proof fn lemma_exchange(
    asked: Multiset<ChannelId>,
    t: Multiset<ChannelId>,
    t1: Multiset<ChannelId>,
    h: Multiset<ChannelId>,
    h1: Multiset<ChannelId>,
    r: Multiset<ChannelId>,
    r1: Multiset<ChannelId>,
    s: Multiset<ChannelId>,
    e: Multiset<ChannelId>,
)
    requires
        asked == t.add(r).add(s),
        t1.add(h) == t.add(h1),
        h.add(r) == h1.add(r1).add(e),
    ensures
        asked == t1.add(r1).add(s.add(e)),
{
    broadcast use vstd::multiset::group_multiset_axioms;

    assert forall|x: ChannelId| asked.count(x) == t1.add(r1).add(s.add(e)).count(x) by {
        assert(t1.add(h).count(x) == t1.count(x) + h.count(x));
        assert(t.add(h1).count(x) == t.count(x) + h1.count(x));
        assert(h.add(r).count(x) == h.count(x) + r.count(x));
        assert(h1.add(r1).add(e).count(x) == h1.count(x) + r1.count(x) + e.count(x));
        assert(t.add(r).add(s).count(x) == t.count(x) + r.count(x) + s.count(x));
        assert(t1.add(r1).add(s.add(e)).count(x) == t1.count(x) + r1.count(x) + s.count(x)
            + e.count(x));
    }
    assert(asked =~= t1.add(r1).add(s.add(e)));
}

proof fn lemma_call_keeps_balance(
    w: WorldView,
    slot: int,
    m: MachineView,
    answer: (Response<MachineView, BootstrapItem>, Seq<crate::action::ActionView>),
)
    requires
        balanced(w),
        machine_at(w, slot) == Some(m),
        ({
            let (after, effects) = room_perform(w.room, answer.1, answer.1.len() as int);
            machine_held(m).add(room_tokens(w.room)) == slot_held(machine_of(answer.0)).add(
                room_tokens(after),
            ).add(effects_tokens(effects))
        }),
    ensures
        balanced(after_call(w, w.room, slot, answer)),
{
    let f = |m: Option<MachineView>| slot_held(m);
    let (after, effects) = room_perform(w.room, answer.1, answer.1.len() as int);
    lemma_total_update(w.machines, slot, machine_of(answer.0), f);
    let next = after_call(w, w.room, slot, answer);
    let r = room_tokens(w.room);
    lemma_exchange(
        w.asked,
        total(w.machines, f),
        total(next.machines, f),
        machine_held(m),
        slot_held(machine_of(answer.0)),
        r,
        room_tokens(after),
        w.settled,
        effects_tokens(effects),
    );
}

/// No event loses a query or makes two of one: a world in which every
/// query asked is in exactly one place is such a world after the event.
pub proof fn lemma_step_keeps_balance(w: WorldView, e: Event)
    requires
        balanced(w),
    ensures
        balanced(world_step(w, e)),
{
    let f = |m: Option<MachineView>| slot_held(m);
    let t = total(w.machines, f);
    match e {
        Event::Ask { requests, query } => {
            lemma_post_keeps_count(w.room, requests, MailView::Query(query));
            let (after, effects) = room_post(w.room, requests, MailView::Query(query));
            let next = world_step(w, e);
            assert forall|x: ChannelId| next.asked.count(x) == world_held(next).add(
                next.settled,
            ).count(x) by {
                assert(room_tokens(w.room).add(one(query)).count(x) == room_tokens(after).add(
                    effects_tokens(effects),
                ).count(x));
                assert(w.asked.count(x) == world_held(w).add(w.settled).count(x));
            }
            assert(next.asked =~= world_held(next).add(next.settled));
        },
        Event::Create { seed, address } => {
            lemma_attach_keeps_count(w.room, address);
            lemma_total_push(w.machines, Some(transport_create(seed)), f);
            lemma_created_holds_nothing(seed);
            let next = world_step(w, e);
            assert(world_held(next) =~= world_held(w));
        },
        Event::Wakeup { slot, address, now } => {
            match machine_at(w, slot) {
                Some(m) => {
                    let (emptied, mail) = room_take(w.room, address);
                    let answer = transport_wakeup(m, mail, now);
                    let (after, effects) = room_perform(emptied, answer.1, answer.1.len() as int);
                    lemma_round_keeps_count(m, w.room, address, now);
                    lemma_total_update(w.machines, slot, machine_of(answer.0), f);
                    let next = after_call(w, emptied, slot, answer);
                    let r = room_tokens(w.room);
                    lemma_exchange(
                        w.asked,
                        t,
                        total(next.machines, f),
                        machine_held(m),
                        slot_held(machine_of(answer.0)),
                        r,
                        room_tokens(after),
                        w.settled,
                        effects_tokens(effects),
                    );
                },
                None => {},
            }
        },
        Event::Ready { slot, ready, input, now } => {
            match machine_at(w, slot) {
                Some(m) => {
                    lemma_call_keeps_count(m, w.room, ready, input, now);
                    lemma_call_keeps_balance(w, slot, m, transport_ready(m, ready, input, now));
                },
                None => {},
            }
        },
        Event::Timeout { slot, now } => {
            match machine_at(w, slot) {
                Some(m) => {
                    let ready = Readiness {
                        readable: false,
                        writable: false,
                        error: false,
                        hup: false,
                    };
                    let input = SocketInputView {
                        datagrams: Seq::empty(),
                        stream: Seq::empty(),
                        written: 0,
                        closed: false,
                    };
                    lemma_call_keeps_count(m, w.room, ready, input, now);
                    lemma_call_keeps_balance(w, slot, m, transport_timeout(m, now));
                },
                None => {},
            }
        },
        Event::Spawned { slot } => {
            match machine_at(w, slot) {
                Some(m) => {
                    let ready = Readiness {
                        readable: false,
                        writable: false,
                        error: false,
                        hup: false,
                    };
                    let input = SocketInputView {
                        datagrams: Seq::empty(),
                        stream: Seq::empty(),
                        written: 0,
                        closed: false,
                    };
                    lemma_call_keeps_count(m, w.room, ready, input, 0);
                    lemma_call_keeps_balance(w, slot, m, transport_spawned(m));
                },
                None => {},
            }
        },
        Event::Detach { address } => {
            lemma_detach_keeps_count(w.room, address);
            let (after, effects) = room_detach(w.room, address);
            let next = world_step(w, e);
            assert forall|x: ChannelId| next.asked.count(x) == world_held(next).add(
                next.settled,
            ).count(x) by {
                assert(room_tokens(w.room).count(x) == room_tokens(after).add(
                    effects_tokens(effects),
                ).count(x));
                assert(w.asked.count(x) == world_held(w).add(w.settled).count(x));
            }
            assert(next.asked =~= world_held(next).add(next.settled));
        },
    }
}

proof fn lemma_created_holds_nothing(seed: BootstrapItem)
    ensures
        machine_held(transport_create(seed)) == Multiset::<ChannelId>::empty(),
{
    assert(Multiset::<ChannelId>::empty().add(Multiset::empty()) =~= Multiset::<
        ChannelId,
    >::empty());
}

/// Over a whole run no query is lost and none is answered twice: from a
/// world in which every query asked is in exactly one place, every run
/// leads to such a world.
pub proof fn lemma_run_keeps_balance(w: WorldView, events: Seq<Event>, n: int)
    requires
        balanced(w),
        0 <= n <= events.len(),
    ensures
        balanced(world_run(w, events, n)),
    decreases n,
{
    if n > 0 {
        lemma_run_keeps_balance(w, events, n - 1);
        lemma_step_keeps_balance(world_run(w, events, n - 1), events[n - 1]);
    }
}

/// From the start of a run on, whatever happens: what has been asked is
/// what is under way and what has been settled, query for query. So no
/// queue gets more outcomes than queries were asked for it, and once
/// nothing is under way any more, every query has had its one outcome.
pub proof fn lemma_every_query_one_outcome(events: Seq<Event>, receiver: ChannelId)
    ensures
        balanced(world_run(world_initial(), events, events.len() as int)),
        ({
            let end = world_run(world_initial(), events, events.len() as int);
            &&& end.settled.count(receiver) <= end.asked.count(receiver)
            &&& world_held(end).count(receiver) == 0 ==> end.settled.count(receiver)
                == end.asked.count(receiver)
        }),
{
    let start = world_initial();
    assert(world_held(start).add(start.settled) =~= Multiset::<ChannelId>::empty());
    lemma_run_keeps_balance(start, events, events.len() as int);
}

} // verus!
