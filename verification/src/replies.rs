//! The queues on which tasks wait for the outcomes of their queries.
//!
//! A task opens a queue and gets its name. Every query of the task carries
//! that name, and every outcome for such a query ends up on that queue, in
//! the order of arrival. When the task is gone, its queue is closed, and
//! an outcome that arrives for it later is dropped: that is no fault.

use vstd::prelude::*;
use crate::error::Error;
use crate::message::MessageBuf;
use crate::query::ChannelId;
use crate::query::Delivery;
use crate::sync::channel_head;
use crate::sync::channel_initial;
use crate::sync::channel_recv;
use crate::sync::channel_send;
use crate::sync::Channel;
use crate::sync::ChannelView;
use crate::sync::RecvError;
use crate::sync::TryRecvError;

verus! {

/// What a task receives for a query.
pub type Outcome = Result<MessageBuf, Error>;

/// The queue of one task.
#[derive(Debug)]
pub struct ReplyBox {
    id: ChannelId,
    queue: Channel<Outcome>,
}

/// A `ReplyBox` as a mathematical value.
pub struct ReplyBoxView {
    pub id: ChannelId,
    pub queue: ChannelView<Outcome>,
}

impl View for ReplyBox {
    type V = ReplyBoxView;

    closed spec fn view(&self) -> ReplyBoxView {
        ReplyBoxView { id: self.id, queue: self.queue@ }
    }
}

/// The queues of all tasks that wait.
#[derive(Debug)]
pub struct Replies {
    boxes: Vec<ReplyBox>,
    next: u64,
}

/// The state of a `Replies` as a mathematical value.
pub struct RepliesView {
    /// The queues that are open, in the order of opening.
    pub boxes: Seq<ReplyBoxView>,
    /// The name that the next queue gets.
    pub next: u64,
}

impl View for Replies {
    type V = RepliesView;

    closed spec fn view(&self) -> RepliesView {
        RepliesView { boxes: box_views(self.boxes@), next: self.next }
    }
}

/// The views of the queues in `v`, in order.
pub closed spec fn box_views(v: Seq<ReplyBox>) -> Seq<ReplyBoxView> {
    v.map_values(|b: ReplyBox| b@)
}

/// Whether `s` is a state that the queues can be in: every open queue has
/// a name that was given out before, and no two have the same.
pub open spec fn replies_wf(s: RepliesView) -> bool {
    &&& forall|i: int| 0 <= i < s.boxes.len() ==> (#[trigger] s.boxes[i]).id.0 < s.next
    &&& forall|i: int, j: int|
        0 <= i < j < s.boxes.len() ==> (#[trigger] s.boxes[i]).id != (#[trigger] s.boxes[j]).id
}

/// The place of the first queue at or behind `k` that has the name `id`.
pub open spec fn reply_from(boxes: Seq<ReplyBoxView>, id: ChannelId, k: int) -> Option<int>
    decreases boxes.len() - k,
{
    if k < 0 || k >= boxes.len() {
        None
    } else if boxes[k].id == id {
        Some(k)
    } else {
        reply_from(boxes, id, k + 1)
    }
}

/// The place of the queue with the name `id`, if it is open.
pub open spec fn reply_of(boxes: Seq<ReplyBoxView>, id: ChannelId) -> Option<int> {
    reply_from(boxes, id, 0)
}

/// What `reply_from` finds is a queue with the name; what it does not
/// find is not open.
pub proof fn lemma_reply_from(boxes: Seq<ReplyBoxView>, id: ChannelId, k: int)
    requires
        0 <= k,
    ensures
        match reply_from(boxes, id, k) {
            Some(i) => k <= i < boxes.len() && boxes[i].id == id,
            None => forall|j: int| k <= j < boxes.len() ==> (#[trigger] boxes[j]).id != id,
        },
    decreases boxes.len() - k,
{
    if k < boxes.len() && boxes[k].id != id {
        lemma_reply_from(boxes, id, k + 1);
    }
}

/// The state in which the queues start: none is open.
pub open spec fn replies_initial() -> RepliesView {
    RepliesView { boxes: Seq::empty(), next: 1 }
}

/// The queue that a task gets when it opens one: empty, with its
/// receiving end and one sending end.
pub open spec fn opened(notify: bool) -> ChannelView<Outcome> {
    ChannelView { senders: 1, ..channel_initial::<Outcome>(notify) }
}

/// The state after a task has opened a queue, and the name of the queue.
/// No queue is opened when the names have run out.
pub open spec fn replies_open(s: RepliesView, notify: bool) -> (RepliesView, Option<ChannelId>) {
    if s.next == u64::MAX {
        (s, None)
    } else {
        (
            RepliesView {
                boxes: s.boxes.push(ReplyBoxView { id: ChannelId(s.next), queue: opened(notify) }),
                next: (s.next + 1) as u64,
            },
            Some(ChannelId(s.next)),
        )
    }
}

/// The state with the queue at the place `i` replaced by `queue`.
pub open spec fn with_queue(s: RepliesView, i: int, queue: ChannelView<Outcome>) -> RepliesView {
    RepliesView { boxes: s.boxes.update(i, ReplyBoxView { queue, ..s.boxes[i] }), ..s }
}

/// The state after `outcome` has arrived for the queue `to`, and whether
/// the task is to be woken: `None` if the outcome was dropped because the
/// queue is not open.
pub open spec fn replies_deliver(s: RepliesView, to: ChannelId, outcome: Outcome) -> (
    RepliesView,
    Option<bool>,
) {
    match reply_of(s.boxes, to) {
        Some(i) => (
            with_queue(s, i, channel_send(s.boxes[i].queue, outcome)),
            Some(s.boxes[i].queue.notify),
        ),
        None => (s, None),
    }
}

/// The state after the task has looked at its queue `id`, and what it
/// found there. A queue that is not open looks like one that no outcome
/// can reach any more.
pub open spec fn replies_recv(s: RepliesView, id: ChannelId) -> (
    RepliesView,
    Result<Outcome, TryRecvError>,
) {
    match reply_of(s.boxes, id) {
        Some(i) => (
            with_queue(s, i, channel_recv(s.boxes[i].queue)),
            channel_head(s.boxes[i].queue),
        ),
        None => (s, Err(TryRecvError::Disconnected)),
    }
}

/// The state after the queue `id` has been closed.
pub open spec fn replies_close(s: RepliesView, id: ChannelId) -> RepliesView {
    match reply_of(s.boxes, id) {
        Some(i) => RepliesView { boxes: s.boxes.remove(i), ..s },
        None => s,
    }
}

/// The queue `q` after its sending end has gone.
pub open spec fn cut_off(b: ReplyBoxView) -> ReplyBoxView {
    ReplyBoxView { queue: ChannelView { senders: 0, ..b.queue }, ..b }
}

/// The state after the machines have ended: no outcome can reach any
/// queue any more.
pub open spec fn replies_shut_down(s: RepliesView) -> RepliesView {
    RepliesView { boxes: s.boxes.map_values(|b: ReplyBoxView| cut_off(b)), ..s }
}

/// An outcome for a queue that is not open is dropped, and nothing
/// changes: a response that comes after its task has gone does no harm.
pub proof fn lemma_late_outcome_is_dropped(s: RepliesView, to: ChannelId, outcome: Outcome)
    requires
        reply_of(s.boxes, to) is None,
    ensures
        replies_deliver(s, to, outcome) == (s, None::<bool>),
{
}

/// An outcome that arrives for an open queue is what the task finds there
/// once it has taken what arrived before: outcomes reach a task in the
/// order of their arrival, each once.
pub proof fn lemma_outcome_reaches_its_task(s: RepliesView, to: ChannelId, outcome: Outcome)
    requires
        reply_of(s.boxes, to) matches Some(i) && s.boxes[i].queue.receiver
            && s.boxes[i].queue.queue.len() == 0,
    ensures
        replies_recv(replies_deliver(s, to, outcome).0, to).1 == Ok::<Outcome, TryRecvError>(
            outcome,
        ),
        reply_of(replies_deliver(s, to, outcome).0.boxes, to) == reply_of(s.boxes, to),
{
    lemma_reply_from(s.boxes, to, 0);
    let i = reply_of(s.boxes, to)->0;
    let after = replies_deliver(s, to, outcome).0;
    lemma_same_names(s.boxes, after.boxes, to, 0);
}

proof fn lemma_same_names(a: Seq<ReplyBoxView>, b: Seq<ReplyBoxView>, id: ChannelId, k: int)
    requires
        0 <= k,
        a.len() == b.len(),
        forall|i: int| 0 <= i < a.len() ==> (#[trigger] a[i]).id == (#[trigger] b[i]).id,
    ensures
        reply_from(a, id, k) == reply_from(b, id, k),
    decreases a.len() - k,
{
    if k < a.len() {
        assert(a[k].id == b[k].id);
        if a[k].id != id {
            lemma_same_names(a, b, id, k + 1);
        }
    }
}

/// The name that a new queue gets is one that no open queue has.
pub proof fn lemma_opened_name_is_new(s: RepliesView, notify: bool)
    requires
        replies_wf(s),
    ensures
        replies_wf(replies_open(s, notify).0),
        replies_open(s, notify).1 matches Some(id) ==> reply_of(s.boxes, id) is None,
{
    if s.next != u64::MAX {
        lemma_reply_from(s.boxes, ChannelId(s.next), 0);
        let after = replies_open(s, notify).0;
        assert forall|i: int, j: int| 0 <= i < j < after.boxes.len() implies (
        #[trigger] after.boxes[i]).id != (#[trigger] after.boxes[j]).id by {
            if j == after.boxes.len() - 1 {
                assert(after.boxes[i] == s.boxes[i]);
                assert(s.boxes[i].id.0 < s.next);
            } else {
                assert(after.boxes[i] == s.boxes[i] && after.boxes[j] == s.boxes[j]);
            }
        }
        assert forall|i: int| 0 <= i < after.boxes.len() implies (
        #[trigger] after.boxes[i]).id.0 < after.next by {
            if i < s.boxes.len() {
                assert(after.boxes[i] == s.boxes[i]);
            }
        }
    }
}

impl Replies {
    #[verifier::type_invariant]
    spec fn well_formed(self) -> bool {
        replies_wf(self@)
    }

    /// The queues are always in a state that `replies_wf` accepts.
    pub fn is_well_formed(&self)
        ensures
            replies_wf(self@),
    {
        proof {
            use_type_invariant(self);
        }
    }

    /// No queue is open.
    pub fn new() -> (r: Replies)
        ensures
            r@ == replies_initial(),
    {
        let r = Replies { boxes: Vec::new(), next: 1 };
        assert(r@.boxes == Seq::<ReplyBoxView>::empty());
        r
    }

    /// Where the queue with the name `id` stands.
    pub fn find(&self, id: ChannelId) -> (r: Option<usize>)
        ensures
            match r {
                Some(i) => i < self@.boxes.len() && reply_of(self@.boxes, id) == Some(i as int),
                None => reply_of(self@.boxes, id) is None,
            },
    {
        let mut i: usize = 0;
        while i < self.boxes.len()
            invariant
                i <= self.boxes.len(),
                reply_of(self@.boxes, id) == reply_from(self@.boxes, id, i as int),
            decreases self.boxes.len() - i,
        {
            if self.boxes[i].id.0 == id.0 {
                return Some(i);
            }
            i += 1;
        }
        None
    }

    /// Whether the queue with the name `id` is open.
    pub fn is_open(&self, id: ChannelId) -> (b: bool)
        ensures
            b == reply_of(self@.boxes, id) is Some,
    {
        self.find(id).is_some()
    }

    /// Opens a queue for a task and gives out its name. With `notify` set,
    /// the task is to be woken for every outcome.
    pub fn open(&mut self, notify: bool) -> (r: Option<ChannelId>)
        ensures
            final(self)@ == replies_open(old(self)@, notify).0,
            r == replies_open(old(self)@, notify).1,
    {
        proof {
            use_type_invariant(&*self);
            lemma_opened_name_is_new(self@, notify);
        }
        if self.next == u64::MAX {
            return None;
        }
        let id = ChannelId(self.next);
        let mut queue: Channel<Outcome> = Channel::new(notify);
        let _ = queue.add_sender();
        let b = ReplyBox { id, queue };
        assert(b@ == (ReplyBoxView { id, queue: opened(notify) }));
        let mut boxes: Vec<ReplyBox> = Vec::new();
        std::mem::swap(&mut boxes, &mut self.boxes);
        assert(box_views(self.boxes@) == Seq::<ReplyBoxView>::empty());
        self.next = self.next + 1;
        boxes.push(b);
        assert(box_views(boxes@) == old(self)@.boxes.push(b@));
        self.boxes = boxes;
        Some(id)
    }

    /// Puts the outcome of `delivery` on the queue it is for. Says whether
    /// the task is to be woken, or `None` if the outcome was dropped.
    pub fn deliver(&mut self, delivery: Delivery) -> (r: Option<bool>)
        ensures
            final(self)@ == replies_deliver(old(self)@, delivery.to, delivery.outcome).0,
            r == replies_deliver(old(self)@, delivery.to, delivery.outcome).1,
    {
        proof {
            use_type_invariant(&*self);
        }
        match self.find(delivery.to) {
            Some(i) => {
                let mut boxes: Vec<ReplyBox> = Vec::new();
                std::mem::swap(&mut boxes, &mut self.boxes);
                assert(box_views(self.boxes@) == Seq::<ReplyBoxView>::empty());
                let mut b = boxes.remove(i);
                let ghost before = b@;
                let sent = b.queue.send(delivery.outcome);
                let wake = match sent {
                    Ok(wake) => wake,
                    Err(_) => b.queue.wakes(),
                };
                assert(b@ == (ReplyBoxView {
                    queue: channel_send(before.queue, delivery.outcome),
                    ..before
                }));
                boxes.insert(i, b);
                assert(box_views(boxes@) == old(self)@.boxes.update(i as int, b@));
                proof {
                    lemma_update_keeps_wf(old(self)@, i as int, b@.queue);
                }
                self.boxes = boxes;
                Some(wake)
            },
            None => None,
        }
    }

    /// Takes the oldest outcome off the queue `id`, if one waits.
    pub fn try_recv(&mut self, id: ChannelId) -> (r: Result<Outcome, TryRecvError>)
        ensures
            final(self)@ == replies_recv(old(self)@, id).0,
            r == replies_recv(old(self)@, id).1,
    {
        proof {
            use_type_invariant(&*self);
        }
        match self.find(id) {
            Some(i) => {
                let mut boxes: Vec<ReplyBox> = Vec::new();
                std::mem::swap(&mut boxes, &mut self.boxes);
                assert(box_views(self.boxes@) == Seq::<ReplyBoxView>::empty());
                let mut b = boxes.remove(i);
                let ghost before = b@;
                let r = b.queue.try_recv();
                assert(b@ == (ReplyBoxView { queue: channel_recv(before.queue), ..before }));
                boxes.insert(i, b);
                assert(box_views(boxes@) == old(self)@.boxes.update(i as int, b@));
                proof {
                    lemma_update_keeps_wf(old(self)@, i as int, b@.queue);
                }
                self.boxes = boxes;
                r
            },
            None => Err(TryRecvError::Disconnected),
        }
    }

    /// One look of a receive that waits: the oldest outcome if one is
    /// there, the failure if none can come any more, and `None` if the
    /// caller has to wait and look again.
    pub fn recv_now(&mut self, id: ChannelId) -> (r: Option<Result<Outcome, RecvError>>)
        ensures
            final(self)@ == replies_recv(old(self)@, id).0,
            r == match replies_recv(old(self)@, id).1 {
                Ok(outcome) => Some(Ok::<Outcome, RecvError>(outcome)),
                Err(TryRecvError::Disconnected) => Some(Err::<Outcome, RecvError>(RecvError)),
                Err(TryRecvError::Empty) => None,
            },
    {
        match self.try_recv(id) {
            Ok(outcome) => Some(Ok(outcome)),
            Err(TryRecvError::Disconnected) => Some(Err(RecvError)),
            Err(TryRecvError::Empty) => None,
        }
    }

    /// Closes the queue `id`. What waits on it is dropped with it.
    pub fn close(&mut self, id: ChannelId)
        ensures
            final(self)@ == replies_close(old(self)@, id),
    {
        proof {
            use_type_invariant(&*self);
        }
        match self.find(id) {
            Some(i) => {
                let mut boxes: Vec<ReplyBox> = Vec::new();
                std::mem::swap(&mut boxes, &mut self.boxes);
                assert(box_views(self.boxes@) == Seq::<ReplyBoxView>::empty());
                let _ = boxes.remove(i);
                assert(box_views(boxes@) == old(self)@.boxes.remove(i as int));
                proof {
                    let before = old(self)@.boxes;
                    let after = before.remove(i as int);
                    assert forall|a: int, b: int| 0 <= a < b < after.len() implies (
                    #[trigger] after[a]).id != (#[trigger] after[b]).id by {
                        let a0 = if a < i { a } else { a + 1 };
                        let b0 = if b < i { b } else { b + 1 };
                        assert(after[a] == before[a0] && after[b] == before[b0]);
                    }
                    assert forall|a: int| 0 <= a < after.len() implies (#[trigger] after[a]).id.0
                        < self.next by {
                        let a0 = if a < i { a } else { a + 1 };
                        assert(after[a] == before[a0]);
                    }
                }
                self.boxes = boxes;
            },
            None => {},
        }
    }

    /// Takes the sending end of every queue away: the machines have ended,
    /// and no outcome will come any more.
    pub fn shut_down(&mut self)
        ensures
            final(self)@ == replies_shut_down(old(self)@),
    {
        proof {
            use_type_invariant(&*self);
        }
        let ghost all = self@.boxes;
        let ghost f = |b: ReplyBoxView| cut_off(b);
        let mut boxes: Vec<ReplyBox> = Vec::new();
        std::mem::swap(&mut boxes, &mut self.boxes);
        assert(box_views(self.boxes@) == Seq::<ReplyBoxView>::empty());
        let mut i: usize = 0;
        assert(box_views(boxes@).take(0) == all.take(0).map_values(f));
        while i < boxes.len()
            invariant
                i <= boxes.len(),
                f == |b: ReplyBoxView| cut_off(b),
                box_views(boxes@).len() == all.len(),
                box_views(boxes@).take(i as int) == all.take(i as int).map_values(f),
                box_views(boxes@).skip(i as int) == all.skip(i as int),
            decreases boxes.len() - i,
        {
            let ghost cur = box_views(boxes@);
            let mut b = boxes.remove(i);
            assert(b@ == all[i as int]) by {
                assert(cur.skip(i as int)[0] == all.skip(i as int)[0]);
            }
            b.queue.drop_all_senders();
            assert(b@ == cut_off(all[i as int]));
            boxes.insert(i, b);
            proof {
                let next = box_views(boxes@);
                assert(next == cur.update(i as int, cut_off(all[i as int])));
                assert(next.take(i as int + 1) == cur.take(i as int).push(cut_off(all[i as int])));
                all.lemma_take_succ_push(i as int);
                all.take(i as int).lemma_push_map_commute(f, all[i as int]);
                assert(next.skip(i as int + 1) == cur.skip(i as int).skip(1));
                assert(all.skip(i as int + 1) == all.skip(i as int).skip(1));
            }
            i += 1;
        }
        assert(box_views(boxes@).take(i as int) == box_views(boxes@));
        assert(all.take(i as int) == all);
        proof {
            let after = all.map_values(f);
            assert forall|a: int, b: int| 0 <= a < b < after.len() implies (#[trigger] after[a]).id
                != (#[trigger] after[b]).id by {
                assert(after[a].id == all[a].id && after[b].id == all[b].id);
            }
            assert forall|a: int| 0 <= a < after.len() implies (#[trigger] after[a]).id.0
                < self.next by {
                assert(after[a].id == all[a].id);
            }
        }
        self.boxes = boxes;
    }
}

proof fn lemma_update_keeps_wf(s: RepliesView, i: int, queue: ChannelView<Outcome>)
    requires
        replies_wf(s),
        0 <= i < s.boxes.len(),
    ensures
        replies_wf(with_queue(s, i, queue)),
{
    let after = with_queue(s, i, queue).boxes;
    assert forall|a: int, b: int| 0 <= a < b < after.len() implies (#[trigger] after[a]).id != (
    #[trigger] after[b]).id by {
        assert(after[a].id == s.boxes[a].id && after[b].id == s.boxes[b].id);
    }
    assert forall|a: int| 0 <= a < after.len() implies (#[trigger] after[a]).id.0 < s.next by {
        assert(after[a].id == s.boxes[a].id);
    }
}

} // verus!
