//! The queues of the machines, and the carrying out of actions.
//!
//! Every machine that is there has a queue under its address. An item for
//! a machine that is not there is not dropped: if it carries a query, the
//! query fails with `Error::Dispatch`, and the dispatcher is told that the
//! transport is gone.

use vstd::prelude::*;
use crate::action::action_views;
use crate::action::mail_views;
use crate::action::Action;
use crate::action::ActionView;
use crate::action::Address;
use crate::action::Mail;
use crate::action::MailView;
use crate::error::Error;
use crate::query::failed;
use crate::query::Delivery;
use crate::query::DeliveryView;
use crate::udp::Datagram;
use crate::udp::DatagramView;

verus! {

/// What is left to do outside the machines after an action has been
/// carried out.
#[derive(Debug)]
pub enum Effect {
    /// Hand the outcome to the task that waits for it.
    Deliver(Delivery),
    /// Put the datagram on the wire.
    Transmit(Datagram),
    /// Wake the machine at the address: it has mail.
    Wake(Address),
}

/// An `Effect` as a mathematical value.
pub enum EffectView {
    Deliver(DeliveryView),
    Transmit(DatagramView),
    Wake(Address),
}

impl View for Effect {
    type V = EffectView;

    open spec fn view(&self) -> EffectView {
        match self {
            Effect::Deliver(d) => EffectView::Deliver(d@),
            Effect::Transmit(d) => EffectView::Transmit(d@),
            Effect::Wake(a) => EffectView::Wake(*a),
        }
    }
}

/// The views of the effects in `v`, in order.
pub open spec fn effect_views(v: Seq<Effect>) -> Seq<EffectView> {
    v.map_values(|e: Effect| e@)
}

/// The queue of one machine.
#[derive(Debug)]
pub struct Mailbox {
    pub address: Address,
    pub queue: Vec<Mail>,
}

/// A `Mailbox` as a mathematical value.
pub struct MailboxView {
    pub address: Address,
    pub queue: Seq<MailView>,
}

impl View for Mailbox {
    type V = MailboxView;

    open spec fn view(&self) -> MailboxView {
        MailboxView { address: self.address, queue: mail_views(self.queue@) }
    }
}

/// The queues of all machines that are there.
#[derive(Debug)]
pub struct Mailroom {
    boxes: Vec<Mailbox>,
}

impl View for Mailroom {
    type V = Seq<MailboxView>;

    closed spec fn view(&self) -> Seq<MailboxView> {
        self.boxes@.map_values(|b: Mailbox| b@)
    }
}

/// The place of the first queue at or behind `k` that has the address
/// `to`.
pub open spec fn box_from(boxes: Seq<MailboxView>, to: Address, k: int) -> Option<int>
    decreases boxes.len() - k,
{
    if k < 0 || k >= boxes.len() {
        None
    } else if boxes[k].address == to {
        Some(k)
    } else {
        box_from(boxes, to, k + 1)
    }
}

/// The place of the queue of the machine at `to`, if that machine is
/// there.
pub open spec fn box_of(boxes: Seq<MailboxView>, to: Address) -> Option<int> {
    box_from(boxes, to, 0)
}

/// What `box_from` finds is a queue with the address, and a place within
/// the room.
pub proof fn lemma_box_from(boxes: Seq<MailboxView>, to: Address, k: int)
    requires
        0 <= k,
    ensures
        box_from(boxes, to, k) matches Some(i) ==> k <= i < boxes.len() && boxes[i].address == to,
    decreases boxes.len() - k,
{
    if k < boxes.len() && boxes[k].address != to {
        lemma_box_from(boxes, to, k + 1);
    }
}

/// The failure of the query that travels with `mail`, if one does.
pub open spec fn failure_of(mail: MailView) -> Option<DeliveryView> {
    match mail {
        MailView::Query(q) => Some(failed(q, Error::Dispatch)),
        MailView::Retry { query, after } => Some(failed(query, Error::Dispatch)),
        MailView::Escalate { query, server, id } => Some(failed(query, Error::Dispatch)),
        MailView::Rejected { id, query } => Some(failed(query, Error::Dispatch)),
        MailView::Closed(t) => None,
        MailView::Accepted { id } => None,
    }
}

/// The room with `mail` at the end of the queue at the place `i`.
pub open spec fn put(boxes: Seq<MailboxView>, i: int, mail: MailView) -> Seq<MailboxView> {
    boxes.update(i, MailboxView { queue: boxes[i].queue.push(mail), ..boxes[i] })
}

/// The room after the dispatcher has been told that the machine at `gone`
/// is not there, and the waking of the dispatcher that follows. Only the
/// absence of a transport is reported, and only if the dispatcher is
/// there.
pub open spec fn report(boxes: Seq<MailboxView>, gone: Address) -> (
    Seq<MailboxView>,
    Seq<EffectView>,
) {
    match gone {
        Address::Transport(t) => match box_of(boxes, Address::Dispatcher) {
            Some(i) => (put(boxes, i, MailView::Closed(t)), seq![EffectView::Wake(Address::Dispatcher)]),
            None => (boxes, Seq::empty()),
        },
        Address::Dispatcher => (boxes, Seq::empty()),
    }
}

/// The effect that lets the query that travels with `mail` fail, if one
/// does.
pub open spec fn failure_effect(mail: MailView) -> Seq<EffectView> {
    match failure_of(mail) {
        Some(d) => seq![EffectView::Deliver(d)],
        None => Seq::empty(),
    }
}

/// The room after `mail` has been posted to the machine at `to`, and the
/// effects that follow. If the machine is there, the item stands at the
/// end of its queue and the machine is woken. If it is not, the query
/// that travels with the item fails, and the dispatcher is told.
pub open spec fn room_post(boxes: Seq<MailboxView>, to: Address, mail: MailView) -> (
    Seq<MailboxView>,
    Seq<EffectView>,
) {
    match box_of(boxes, to) {
        Some(i) => (put(boxes, i, mail), seq![EffectView::Wake(to)]),
        None => {
            let (after, woken) = report(boxes, to);
            (after, failure_effect(mail) + woken)
        },
    }
}

/// The room after the action `a` has been carried out, and the effects
/// that follow.
pub open spec fn room_act(boxes: Seq<MailboxView>, a: ActionView) -> (
    Seq<MailboxView>,
    Seq<EffectView>,
) {
    match a {
        ActionView::Deliver(d) => (boxes, seq![EffectView::Deliver(d)]),
        ActionView::Transmit(d) => (boxes, seq![EffectView::Transmit(d)]),
        ActionView::Post { to, mail } => room_post(boxes, to, mail),
    }
}

/// The room after the first `n` of `actions` have been carried out, in
/// order, and the effects that follow.
pub open spec fn room_perform(boxes: Seq<MailboxView>, actions: Seq<ActionView>, n: int) -> (
    Seq<MailboxView>,
    Seq<EffectView>,
)
    decreases n,
{
    if n <= 0 {
        (boxes, Seq::empty())
    } else {
        let (b1, e1) = room_perform(boxes, actions, n - 1);
        let (b2, e2) = room_act(b1, actions[n - 1]);
        (b2, e1 + e2)
    }
}

/// The room after the machine at `address` has got a queue. A machine
/// that has one keeps it.
pub open spec fn room_attach(boxes: Seq<MailboxView>, address: Address) -> Seq<MailboxView> {
    if box_of(boxes, address) is Some {
        boxes
    } else {
        boxes.push(MailboxView { address, queue: Seq::empty() })
    }
}

/// The room after the queue of the machine at `address` has been emptied,
/// and what was on it, oldest first.
pub open spec fn room_take(boxes: Seq<MailboxView>, address: Address) -> (
    Seq<MailboxView>,
    Seq<MailView>,
) {
    match box_of(boxes, address) {
        Some(i) => (
            boxes.update(i, MailboxView { queue: Seq::empty(), ..boxes[i] }),
            boxes[i].queue,
        ),
        None => (boxes, Seq::empty()),
    }
}

/// The failures of the queries that travel with the first `n` items of
/// `mail`, in order.
pub open spec fn failures(mail: Seq<MailView>, n: int) -> Seq<EffectView>
    decreases n,
{
    if n <= 0 {
        Seq::empty()
    } else {
        failures(mail, n - 1) + failure_effect(mail[n - 1])
    }
}

/// The room after the queue of the machine at `address` has been taken
/// away, and the effects that follow: every query that still waited on it
/// fails.
pub open spec fn room_detach(boxes: Seq<MailboxView>, address: Address) -> (
    Seq<MailboxView>,
    Seq<EffectView>,
) {
    match box_of(boxes, address) {
        Some(i) => (boxes.remove(i), failures(boxes[i].queue, boxes[i].queue.len() as int)),
        None => (boxes, Seq::empty()),
    }
}

impl Mail {
    /// Lets the query that travels with this item fail with
    /// `Error::Dispatch`, if one does.
    pub fn fail(self) -> (r: Option<Delivery>)
        ensures
            match r {
                Some(d) => failure_of(self@) == Some(d@),
                None => failure_of(self@) is None,
            },
    {
        match self {
            Mail::Query(q) => Some(q.fail(Error::Dispatch)),
            Mail::Retry { query, after } => Some(query.fail(Error::Dispatch)),
            Mail::Escalate { query, server, id } => Some(query.fail(Error::Dispatch)),
            Mail::Rejected { id, query } => Some(query.fail(Error::Dispatch)),
            Mail::Closed(t) => None,
            Mail::Accepted { id } => None,
        }
    }
}

/// Puts `effect` behind the effects in `out`.
fn push_effect(out: &mut Vec<Effect>, effect: Effect)
    ensures
        effect_views(final(out)@) == effect_views(old(out)@).push(effect@),
{
    out.push(effect);
    assert(effect_views(out@) == effect_views(old(out)@).push(effect@));
}

impl Mailroom {
    /// A room without queues.
    pub fn new() -> (r: Mailroom)
        ensures
            r@ == Seq::<MailboxView>::empty(),
    {
        let r = Mailroom { boxes: Vec::new() };
        assert(r@ == Seq::<MailboxView>::empty());
        r
    }

    /// Where the queue of the machine at `to` stands.
    pub fn find(&self, to: Address) -> (r: Option<usize>)
        ensures
            match r {
                Some(i) => i < self@.len() && box_of(self@, to) == Some(i as int),
                None => box_of(self@, to) is None,
            },
    {
        let mut i: usize = 0;
        while i < self.boxes.len()
            invariant
                i <= self.boxes.len(),
                box_of(self@, to) == box_from(self@, to, i as int),
            decreases self.boxes.len() - i,
        {
            if self.boxes[i].address == to {
                return Some(i);
            }
            i += 1;
        }
        None
    }

    /// Whether the machine at `to` has a queue.
    pub fn has(&self, to: Address) -> (b: bool)
        ensures
            b == box_of(self@, to) is Some,
    {
        self.find(to).is_some()
    }

    /// Gives the machine at `address` a queue.
    pub fn attach(&mut self, address: Address)
        ensures
            final(self)@ == room_attach(old(self)@, address),
    {
        if self.find(address).is_none() {
            let b = Mailbox { address, queue: Vec::new() };
            assert(b@.queue == Seq::<MailView>::empty());
            self.boxes.push(b);
            assert(self@ == old(self)@.push(b@));
        }
    }

    fn put(&mut self, i: usize, mail: Mail)
        requires
            i < old(self)@.len(),
        ensures
            final(self)@ == put(old(self)@, i as int, mail@),
    {
        let mut b = self.boxes.remove(i);
        let ghost before = b@;
        b.queue.push(mail);
        assert(b@.queue == before.queue.push(mail@));
        self.boxes.insert(i, b);
        assert(self@ == put(old(self)@, i as int, mail@));
    }

    /// Posts `mail` to the machine at `to`.
    pub fn post(&mut self, to: Address, mail: Mail) -> (r: Vec<Effect>)
        ensures
            final(self)@ == room_post(old(self)@, to, mail@).0,
            effect_views(r@) == room_post(old(self)@, to, mail@).1,
    {
        let mut out: Vec<Effect> = Vec::new();
        assert(effect_views(out@) == Seq::<EffectView>::empty());
        match self.find(to) {
            Some(i) => {
                self.put(i, mail);
                push_effect(&mut out, Effect::Wake(to));
                assert(effect_views(out@) == seq![EffectView::Wake(to)]);
            },
            None => {
                match mail.fail() {
                    Some(d) => {
                        push_effect(&mut out, Effect::Deliver(d));
                        assert(effect_views(out@) == failure_effect(mail@));
                    },
                    None => {
                        assert(effect_views(out@) == failure_effect(mail@));
                    },
                }
                let ghost first = effect_views(out@);
                match to {
                    Address::Transport(t) => {
                        match self.find(Address::Dispatcher) {
                            Some(i) => {
                                self.put(i, Mail::Closed(t));
                                push_effect(&mut out, Effect::Wake(Address::Dispatcher));
                                assert(effect_views(out@) == first + seq![
                                    EffectView::Wake(Address::Dispatcher),
                                ]);
                            },
                            None => {
                                assert(first + Seq::<EffectView>::empty() == first);
                            },
                        }
                    },
                    Address::Dispatcher => {
                        assert(first + Seq::<EffectView>::empty() == first);
                    },
                }
            },
        }
        out
    }

    /// Carries out `actions`, in order.
    pub fn perform(&mut self, actions: Vec<Action>) -> (r: Vec<Effect>)
        ensures
            final(self)@ == room_perform(old(self)@, action_views(actions@), actions@.len() as int).0,
            effect_views(r@) == room_perform(
                old(self)@,
                action_views(actions@),
                actions@.len() as int,
            ).1,
    {
        let mut actions = actions;
        let ghost start = self@;
        let ghost all = action_views(actions@);
        let mut out: Vec<Effect> = Vec::new();
        assert(effect_views(out@) == Seq::<EffectView>::empty());
        assert(all.skip(0) == all);
        while actions.len() > 0
            invariant
                actions.len() <= all.len(),
                (self@, effect_views(out@)) == room_perform(start, all, all.len() - actions.len()),
                action_views(actions@) == all.skip(all.len() - actions.len()),
            decreases actions.len(),
        {
            let ghost k = all.len() - actions.len();
            let ghost rest = action_views(actions@);
            let a = actions.remove(0);
            assert(a@ == all[k]) by {
                assert(rest[0] == all.skip(k)[0]);
            }
            assert(action_views(actions@) == all.skip(k + 1)) by {
                assert(action_views(actions@) == rest.remove(0));
            }
            let ghost before = effect_views(out@);
            match a {
                Action::Deliver(d) => {
                    push_effect(&mut out, Effect::Deliver(d));
                    assert(before.push(EffectView::Deliver(d@)) == before + seq![
                        EffectView::Deliver(d@),
                    ]);
                },
                Action::Transmit(d) => {
                    push_effect(&mut out, Effect::Transmit(d));
                    assert(before.push(EffectView::Transmit(d@)) == before + seq![
                        EffectView::Transmit(d@),
                    ]);
                },
                Action::Post { to, mail } => {
                    let mut more = self.post(to, mail);
                    let ghost second = effect_views(more@);
                    out.append(&mut more);
                    assert(effect_views(out@) == before + second);
                },
            }
        }
        out
    }

    /// Takes everything off the queue of the machine at `address`.
    pub fn take(&mut self, address: Address) -> (r: Vec<Mail>)
        ensures
            final(self)@ == room_take(old(self)@, address).0,
            mail_views(r@) == room_take(old(self)@, address).1,
    {
        match self.find(address) {
            Some(i) => {
                let mut b = self.boxes.remove(i);
                let ghost before = b@;
                let mut taken: Vec<Mail> = Vec::new();
                std::mem::swap(&mut taken, &mut b.queue);
                assert(b@.queue == Seq::<MailView>::empty());
                self.boxes.insert(i, b);
                assert(self@ == old(self)@.update(
                    i as int,
                    MailboxView { queue: Seq::empty(), ..before },
                ));
                taken
            },
            None => {
                let taken: Vec<Mail> = Vec::new();
                assert(mail_views(taken@) == Seq::<MailView>::empty());
                taken
            },
        }
    }

    /// Takes the queue of the machine at `address` away.
    pub fn detach(&mut self, address: Address) -> (r: Vec<Effect>)
        ensures
            final(self)@ == room_detach(old(self)@, address).0,
            effect_views(r@) == room_detach(old(self)@, address).1,
    {
        let mut out: Vec<Effect> = Vec::new();
        assert(effect_views(out@) == Seq::<EffectView>::empty());
        match self.find(address) {
            Some(i) => {
                let b = self.boxes.remove(i);
                assert(self@ == old(self)@.remove(i as int));
                let mut queue = b.queue;
                let ghost all = mail_views(queue@);
                assert(all.skip(0) == all);
                while queue.len() > 0
                    invariant
                        queue.len() <= all.len(),
                        effect_views(out@) == failures(all, all.len() - queue.len()),
                        mail_views(queue@) == all.skip(all.len() - queue.len()),
                    decreases queue.len(),
                {
                    let ghost k = all.len() - queue.len();
                    let ghost rest = mail_views(queue@);
                    let m = queue.remove(0);
                    assert(m@ == all[k]) by {
                        assert(rest[0] == all.skip(k)[0]);
                    }
                    assert(mail_views(queue@) == all.skip(k + 1)) by {
                        assert(mail_views(queue@) == rest.remove(0));
                    }
                    let ghost before = effect_views(out@);
                    match m.fail() {
                        Some(d) => {
                            push_effect(&mut out, Effect::Deliver(d));
                            assert(before.push(EffectView::Deliver(d@)) == before + seq![
                                EffectView::Deliver(d@),
                            ]);
                        },
                        None => {
                            assert(before + Seq::<EffectView>::empty() == before);
                        },
                    }
                }
            },
            None => {},
        }
        out
    }
}

} // verus!
