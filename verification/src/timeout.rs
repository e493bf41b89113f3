//! Deadlines.
//!
//! Every query on the wire has a deadline, which is part of its entry in
//! the pending table: taking the entry out cancels the deadline, and there
//! is nothing else to undo. A machine asks to be called at its earliest
//! deadline; when it is called, the entries that are due leave the table,
//! whatever the state of the socket.

use vstd::prelude::*;
use crate::pending::PendingView;

verus! {

/// The time at which a wait of `timeout_ms` that starts at `now` ends; the
/// last moment there is if the sum does not fit.
pub open spec fn deadline_at(now: u64, timeout_ms: u64) -> u64 {
    if now + timeout_ms > u64::MAX {
        u64::MAX
    } else {
        (now + timeout_ms) as u64
    }
}

/// The time at which a wait of `timeout_ms` that starts at `now` ends.
pub fn deadline(now: u64, timeout_ms: u64) -> (at: u64)
    ensures
        at == deadline_at(now, timeout_ms),
{
    if now > u64::MAX - timeout_ms {
        u64::MAX
    } else {
        now + timeout_ms
    }
}

/// Whether the wait for `e` has ended at the time `now`.
pub open spec fn is_due(e: PendingView, now: u64) -> bool {
    !e.escalating && e.deadline <= now
}

/// The entries of `t` that are due at `now`, in the order of the table.
pub open spec fn due_entries(t: Seq<PendingView>, now: u64) -> Seq<PendingView> {
    t.filter(|e: PendingView| is_due(e, now))
}

/// The entries of `t` that are not due at `now`, in the order of the table.
pub open spec fn live_entries(t: Seq<PendingView>, now: u64) -> Seq<PendingView> {
    t.filter(|e: PendingView| !is_due(e, now))
}

/// The earliest deadline among the first `n` entries of `t` that still
/// count.
pub open spec fn earliest_of(t: Seq<PendingView>, n: int) -> Option<u64>
    decreases n,
{
    if n <= 0 {
        None
    } else if t[n - 1].escalating {
        earliest_of(t, n - 1)
    } else {
        match earliest_of(t, n - 1) {
            Some(d) => if d <= t[n - 1].deadline {
                Some(d)
            } else {
                Some(t[n - 1].deadline)
            },
            None => Some(t[n - 1].deadline),
        }
    }
}

/// The earliest deadline in `t` that still counts.
pub open spec fn earliest(t: Seq<PendingView>) -> Option<u64> {
    earliest_of(t, t.len() as int)
}

/// The earliest deadline is the deadline of an entry that counts, and no
/// entry that counts has an earlier one. There is none exactly when no
/// entry counts.
pub proof fn lemma_earliest_is_least(t: Seq<PendingView>, n: int)
    requires
        0 <= n <= t.len(),
    ensures
        match earliest_of(t, n) {
            Some(d) => {
                &&& exists|i: int| 0 <= i < n && !t[i].escalating && #[trigger] t[i].deadline == d
                &&& forall|i: int| 0 <= i < n && !t[i].escalating ==> d <= #[trigger] t[i].deadline
            },
            None => forall|i: int| 0 <= i < n ==> (#[trigger] t[i]).escalating,
        },
    decreases n,
{
    if n > 0 {
        lemma_earliest_is_least(t, n - 1);
        match earliest_of(t, n - 1) {
            Some(d) => {
                let i = choose|i: int|
                    0 <= i < n - 1 && !t[i].escalating && #[trigger] t[i].deadline == d;
                assert(0 <= i < n && !t[i].escalating && t[i].deadline == d);
            },
            None => {},
        }
        if !t[n - 1].escalating {
            assert(t[n - 1].deadline == t[n - 1].deadline);
        }
    }
}

/// Before the earliest deadline nothing is due: a call for a passed
/// deadline then takes nothing out.
pub proof fn lemma_nothing_due_before(t: Seq<PendingView>, now: u64)
    requires
        earliest(t) matches Some(d) ==> now < d,
    ensures
        due_entries(t, now) == Seq::<PendingView>::empty(),
        live_entries(t, now) == t,
{
    lemma_earliest_is_least(t, t.len() as int);
    let p = |e: PendingView| is_due(e, now);
    let q = |e: PendingView| !is_due(e, now);
    assert forall|i: int| 0 <= i < t.len() implies !p(#[trigger] t[i]) by {}
    lemma_filter_none(t, p);
    assert forall|i: int| 0 <= i < t.len() implies q(#[trigger] t[i]) by {}
    lemma_filter_all(t, q);
}

/// From the earliest deadline on something is due: a call for a passed
/// deadline then takes at least one entry out.
pub proof fn lemma_something_due_at(t: Seq<PendingView>, now: u64)
    requires
        earliest(t) matches Some(d) && d <= now,
    ensures
        due_entries(t, now).len() > 0,
{
    lemma_earliest_is_least(t, t.len() as int);
    let d = earliest(t)->0;
    let i = choose|i: int| 0 <= i < t.len() && !t[i].escalating && #[trigger] t[i].deadline == d;
    let p = |e: PendingView| is_due(e, now);
    t.lemma_filter_contains(p, i);
}

/// When the deadlines up to `now` have passed, nothing that was due is
/// left: an entry whose deadline has come does not outlast the call.
pub proof fn lemma_expiry_takes_all_due(t: Seq<PendingView>, now: u64)
    ensures
        due_entries(live_entries(t, now), now) == Seq::<PendingView>::empty(),
{
    let p = |e: PendingView| is_due(e, now);
    let q = |e: PendingView| !is_due(e, now);
    let live = live_entries(t, now);
    assert forall|i: int| 0 <= i < live.len() implies !p(#[trigger] live[i]) by {
        t.lemma_filter_pred(q, i);
    }
    lemma_filter_none(live, p);
}

/// A sequence of which no item meets a condition has no selection.
pub proof fn lemma_filter_none<A>(s: Seq<A>, p: spec_fn(A) -> bool)
    requires
        forall|i: int| 0 <= i < s.len() ==> !p(#[trigger] s[i]),
    ensures
        s.filter(p) == Seq::<A>::empty(),
    decreases s.len(),
{
    reveal(Seq::filter);
    if s.len() > 0 {
        assert forall|i: int| 0 <= i < s.drop_last().len() implies !p(
            #[trigger] s.drop_last()[i],
        ) by {
            assert(s.drop_last()[i] == s[i]);
        }
        lemma_filter_none(s.drop_last(), p);
        assert(s.last() == s[s.len() - 1]);
    }
}

/// A sequence of which every item meets a condition is its own selection.
pub proof fn lemma_filter_all<A>(s: Seq<A>, p: spec_fn(A) -> bool)
    requires
        forall|i: int| 0 <= i < s.len() ==> p(#[trigger] s[i]),
    ensures
        s.filter(p) == s,
    decreases s.len(),
{
    reveal(Seq::filter);
    if s.len() > 0 {
        assert forall|i: int| 0 <= i < s.drop_last().len() implies p(
            #[trigger] s.drop_last()[i],
        ) by {
            assert(s.drop_last()[i] == s[i]);
        }
        lemma_filter_all(s.drop_last(), p);
        assert(s.last() == s[s.len() - 1]);
        assert(s.drop_last().push(s.last()) == s);
    }
}

} // verus!
