//! The queue that carries messages from any thread to the one thread that
//! owns the receiving end.
//!
//! `Channel` is the state of such a queue. The program that shares it
//! between threads puts it behind a lock; every operation here is one
//! critical section. Waiting is the program's part: `recv_now` says
//! whether there is anything to wait for.

use vstd::prelude::*;

verus! {

/// Why `try_recv` handed out no message.
#[derive(Clone, Copy, Debug, PartialEq, Eq, Structural)]
pub enum TryRecvError {
    /// No message is waiting, but one may still come.
    Empty,
    /// No message is waiting and every sender is gone.
    Disconnected,
}

/// `recv` gave up: no message is waiting and every sender is gone.
#[derive(Clone, Copy, Debug, PartialEq, Eq, Structural)]
pub struct RecvError;

/// The state of a queue between threads.
#[derive(Debug)]
pub struct Channel<T> {
    queue: Vec<T>,
    senders: usize,
    receiver: bool,
    notify: bool,
}

/// The state of a `Channel` as a mathematical value.
pub struct ChannelView<T> {
    /// The messages sent and not received yet, oldest first.
    pub queue: Seq<T>,
    /// The number of sending ends.
    pub senders: nat,
    /// Whether the receiving end is there.
    pub receiver: bool,
    /// Whether the owner of the receiving end is to be woken up for every
    /// message.
    pub notify: bool,
}

impl<T> View for Channel<T> {
    type V = ChannelView<T>;

    closed spec fn view(&self) -> ChannelView<T> {
        ChannelView {
            queue: self.queue@,
            senders: self.senders as nat,
            receiver: self.receiver,
            notify: self.notify,
        }
    }
}

/// The state in which a channel starts: empty, with its receiving end and
/// no sending end.
pub open spec fn channel_initial<T>(notify: bool) -> ChannelView<T> {
    ChannelView { queue: Seq::empty(), senders: 0, receiver: true, notify }
}

/// The state after `msg` has been sent: it stands behind the messages that
/// wait already, unless the receiving end is gone.
pub open spec fn channel_send<T>(s: ChannelView<T>, msg: T) -> ChannelView<T> {
    if s.receiver {
        ChannelView { queue: s.queue.push(msg), ..s }
    } else {
        s
    }
}

/// The state after a message has been received: the oldest message has
/// left, if one was waiting.
pub open spec fn channel_recv<T>(s: ChannelView<T>) -> ChannelView<T> {
    if s.queue.len() > 0 {
        ChannelView { queue: s.queue.drop_first(), ..s }
    } else {
        s
    }
}

/// What `try_recv` hands out in the state `s`.
pub open spec fn channel_head<T>(s: ChannelView<T>) -> Result<T, TryRecvError> {
    if s.queue.len() > 0 {
        Ok(s.queue[0])
    } else if s.senders == 0 {
        Err(TryRecvError::Disconnected)
    } else {
        Err(TryRecvError::Empty)
    }
}

/// The state after the messages `msgs` have been sent in order.
pub open spec fn channel_send_all<T>(s: ChannelView<T>, msgs: Seq<T>) -> ChannelView<T>
    decreases msgs.len(),
{
    if msgs.len() == 0 {
        s
    } else {
        channel_send(channel_send_all(s, msgs.drop_last()), msgs.last())
    }
}

/// The messages that `n` receives hand out in the state `s`, in order.
pub open spec fn channel_recv_n<T>(s: ChannelView<T>, n: nat) -> Seq<T>
    decreases n,
{
    if n == 0 || s.queue.len() == 0 {
        Seq::empty()
    } else {
        seq![s.queue[0]] + channel_recv_n(channel_recv(s), (n - 1) as nat)
    }
}

/// Sending adds to the end of the queue and changes nothing else.
pub proof fn lemma_send_all<T>(s: ChannelView<T>, msgs: Seq<T>)
    requires
        s.receiver,
    ensures
        channel_send_all(s, msgs) == (ChannelView { queue: s.queue + msgs, ..s }),
    decreases msgs.len(),
{
    if msgs.len() == 0 {
        assert(s.queue + msgs == s.queue);
    } else {
        lemma_send_all(s, msgs.drop_last());
        assert((s.queue + msgs.drop_last()).push(msgs.last()) == s.queue + msgs);
    }
}

/// As many receives as messages wait hand out the whole queue, oldest
/// first.
pub proof fn lemma_recv_all<T>(s: ChannelView<T>)
    ensures
        channel_recv_n(s, s.queue.len()) == s.queue,
    decreases s.queue.len(),
{
    if s.queue.len() > 0 {
        lemma_recv_all(channel_recv(s));
        assert(seq![s.queue[0]] + s.queue.drop_first() == s.queue);
    }
}

/// What is sent to an empty channel whose receiving end is there comes
/// out as it went in: every message once, in the order of sending.
pub proof fn lemma_channel_keeps_order<T>(notify: bool, senders: nat, msgs: Seq<T>)
    ensures
        channel_recv_n(
            channel_send_all(
                ChannelView { senders, ..channel_initial::<T>(notify) },
                msgs,
            ),
            msgs.len(),
        ) == msgs,
{
    let s = ChannelView { senders, ..channel_initial::<T>(notify) };
    lemma_send_all(s, msgs);
    assert(s.queue + msgs == msgs);
    lemma_recv_all(channel_send_all(s, msgs));
}

impl<T> Channel<T> {
    /// A channel with nothing in it. With `notify` set, the owner of the
    /// receiving end is to be woken up for every message.
    pub fn new(notify: bool) -> (c: Channel<T>)
        ensures
            c@ == channel_initial::<T>(notify),
    {
        Channel { queue: Vec::new(), senders: 0, receiver: true, notify }
    }

    /// Counts one more sending end. Says `false`, and counts none, if the
    /// count is at its limit.
    pub fn add_sender(&mut self) -> (added: bool)
        ensures
            added == (old(self)@.senders < usize::MAX),
            final(self)@ == (ChannelView {
                senders: if added {
                    old(self)@.senders + 1
                } else {
                    old(self)@.senders
                },
                ..old(self)@
            }),
    {
        if self.senders < usize::MAX {
            self.senders = self.senders + 1;
            true
        } else {
            false
        }
    }

    /// Counts one sending end less.
    pub fn drop_sender(&mut self)
        ensures
            final(self)@ == (ChannelView {
                senders: if old(self)@.senders > 0 {
                    (old(self)@.senders - 1) as nat
                } else {
                    0
                },
                ..old(self)@
            }),
    {
        if self.senders > 0 {
            self.senders = self.senders - 1;
        }
    }

    /// Counts no sending end any more.
    pub fn drop_all_senders(&mut self)
        ensures
            final(self)@ == (ChannelView { senders: 0, ..old(self)@ }),
    {
        self.senders = 0;
    }

    /// Whether the owner of the receiving end is to be woken up for every
    /// message.
    pub fn wakes(&self) -> (b: bool)
        ensures
            b == self@.notify,
    {
        self.notify
    }

    /// Takes the receiving end away. What was waiting is dropped.
    pub fn drop_receiver(&mut self)
        ensures
            final(self)@ == (ChannelView {
                queue: Seq::empty(),
                receiver: false,
                ..old(self)@
            }),
    {
        self.queue = Vec::new();
        self.receiver = false;
    }

    /// The number of messages that wait.
    pub fn len(&self) -> (n: usize)
        ensures
            n == self@.queue.len(),
    {
        self.queue.len()
    }

    /// Sends `msg`. Fails, and hands `msg` back, exactly when the
    /// receiving end is gone. On success it says whether the owner of the
    /// receiving end is to be woken up: it is, for every message, if the
    /// channel was made so.
    pub fn send(&mut self, msg: T) -> (r: Result<bool, T>)
        ensures
            final(self)@ == channel_send(old(self)@, msg),
            match r {
                Ok(wake) => old(self)@.receiver && wake == old(self)@.notify,
                Err(back) => !old(self)@.receiver && back == msg,
            },
    {
        if self.receiver {
            self.queue.push(msg);
            Ok(self.notify)
        } else {
            Err(msg)
        }
    }

    /// Takes the oldest message, if one waits. With none there, says
    /// whether one may still come.
    pub fn try_recv(&mut self) -> (r: Result<T, TryRecvError>)
        ensures
            final(self)@ == channel_recv(old(self)@),
            r == channel_head(old(self)@),
    {
        if self.queue.len() > 0 {
            let head = self.queue.remove(0);
            assert(self.queue@ == old(self).queue@.drop_first());
            Ok(head)
        } else if self.senders == 0 {
            Err(TryRecvError::Disconnected)
        } else {
            Err(TryRecvError::Empty)
        }
    }

    /// One look of a receive that waits: the oldest message if one is
    /// there, the failure if none can come any more, and `None` if the
    /// caller has to wait and look again.
    pub fn recv_now(&mut self) -> (r: Option<Result<T, RecvError>>)
        ensures
            final(self)@ == channel_recv(old(self)@),
            r == match channel_head(old(self)@) {
                Ok(msg) => Some(Ok::<T, RecvError>(msg)),
                Err(TryRecvError::Disconnected) => Some(Err::<T, RecvError>(RecvError)),
                Err(TryRecvError::Empty) => None,
            },
    {
        match self.try_recv() {
            Ok(msg) => Some(Ok(msg)),
            Err(TryRecvError::Disconnected) => Some(Err(RecvError)),
            Err(TryRecvError::Empty) => None,
        }
    }
}

} // verus!
