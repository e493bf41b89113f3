//! The table of queries that are on the wire.
//!
//! An entry is added when a query is sent and leaves exactly once: with the
//! response that matches it, or when its deadline has passed.

use vstd::prelude::*;
use crate::message::wire_answers;
use crate::message::wire_id;
use crate::message::wire_is_response;
use crate::message::MessageBuf;
use crate::query::Query;
use crate::query::QueryView;
use crate::timeout::due_entries;
use crate::timeout::earliest;
use crate::timeout::earliest_of;
use crate::timeout::is_due;
use crate::timeout::live_entries;

verus! {

/// The number of message identifiers.
pub const ID_SPACE: u32 = 65536;

/// A query on the wire.
#[derive(Debug)]
pub struct Pending {
    /// The identifier under which the query was sent.
    pub id: u16,
    pub query: Query,
    /// The time, in milliseconds, at which the wait for a response ends.
    pub deadline: u64,
    /// Set while the query is being handed over to another transport: its
    /// deadline no longer counts, and no further response matches it.
    pub escalating: bool,
}

/// A pending entry as a mathematical value.
pub struct PendingView {
    pub id: u16,
    pub query: QueryView,
    pub deadline: u64,
    pub escalating: bool,
}

impl View for Pending {
    type V = PendingView;

    open spec fn view(&self) -> PendingView {
        PendingView {
            id: self.id,
            query: self.query@,
            deadline: self.deadline,
            escalating: self.escalating,
        }
    }
}

/// The views of the entries in `v`, in order.
pub open spec fn pending_views(v: Seq<Pending>) -> Seq<PendingView> {
    v.map_values(|e: Pending| e@)
}

/// Whether no two entries of `t` share an identifier.
pub open spec fn ids_distinct(t: Seq<PendingView>) -> bool {
    forall|i: int, j: int| 0 <= i < j < t.len() ==> t[i].id != t[j].id
}

/// The index of the first entry at or behind `k` that has the identifier
/// `id`.
pub open spec fn find_from(t: Seq<PendingView>, id: u16, k: int) -> Option<int>
    decreases t.len() - k,
{
    if k < 0 || k >= t.len() {
        None
    } else if t[k].id == id {
        Some(k)
    } else {
        find_from(t, id, k + 1)
    }
}

/// The index of the entry that has the identifier `id`.
pub open spec fn find_id(t: Seq<PendingView>, id: u16) -> Option<int> {
    find_from(t, id, 0)
}

/// The `k`-th identifier counted from `start`, wrapping around.
pub open spec fn candidate(start: u16, k: int) -> u16 {
    ((start + k) % (ID_SPACE as int)) as u16
}

/// The first identifier, tried from `candidate(start, k)` on and once
/// around at most, that no entry of `t` has.
pub open spec fn free_from(t: Seq<PendingView>, start: u16, k: int) -> Option<u16>
    decreases ID_SPACE - k,
{
    if k < 0 || k >= ID_SPACE {
        None
    } else if find_id(t, candidate(start, k)) is None {
        Some(candidate(start, k))
    } else {
        free_from(t, start, k + 1)
    }
}

/// The first identifier at or behind `start`, wrapping around, that no
/// entry of `t` has; `None` if every identifier is taken.
pub open spec fn free_id(t: Seq<PendingView>, start: u16) -> Option<u16> {
    free_from(t, start, 0)
}

/// The entry of `t` that the message `response` matches: the message is a
/// response, an entry has its identifier and is not being handed over, and
/// the message answers that entry's query.
pub open spec fn matching(t: Seq<PendingView>, response: Seq<u8>) -> Option<int> {
    if wire_is_response(response) {
        match find_id(t, wire_id(response)) {
            Some(i) => if !t[i].escalating && wire_answers(response, t[i].query.message) {
                Some(i)
            } else {
                None
            },
            None => None,
        }
    } else {
        None
    }
}

/// What `find_from` finds is the first entry with the identifier; what it
/// does not find is not there.
pub proof fn lemma_find_from(t: Seq<PendingView>, id: u16, k: int)
    requires
        0 <= k,
    ensures
        match find_from(t, id, k) {
            Some(i) => k <= i < t.len() && t[i].id == id && forall|j: int|
                k <= j < i ==> t[j].id != id,
            None => forall|j: int| k <= j < t.len() ==> t[j].id != id,
        },
    decreases t.len() - k,
{
    if k < t.len() && t[k].id != id {
        lemma_find_from(t, id, k + 1);
    }
}

/// The identifier that `free_id` gives is one that no entry has.
pub proof fn lemma_free_id_is_free(t: Seq<PendingView>, start: u16)
    ensures
        free_id(t, start) matches Some(id) ==> find_id(t, id) is None,
{
    lemma_free_from_is_free(t, start, 0);
}

proof fn lemma_free_from_is_free(t: Seq<PendingView>, start: u16, k: int)
    requires
        0 <= k,
    ensures
        free_from(t, start, k) matches Some(id) ==> find_id(t, id) is None,
    decreases ID_SPACE - k,
{
    if k < ID_SPACE && find_id(t, candidate(start, k)) is Some {
        lemma_free_from_is_free(t, start, k + 1);
    }
}

/// Taking an entry out leaves every other identifier where it was found,
/// one place down behind the gap, and the identifier taken out is gone.
pub proof fn lemma_find_after_remove(t: Seq<PendingView>, i: int, id: u16)
    requires
        ids_distinct(t),
        0 <= i < t.len(),
    ensures
        ids_distinct(t.remove(i)),
        id == t[i].id ==> find_id(t.remove(i), id) is None,
        id != t[i].id ==> find_id(t.remove(i), id) == match find_id(t, id) {
            Some(j) => if j < i {
                Some(j)
            } else {
                Some(j - 1)
            },
            None => None,
        },
{
    let r = t.remove(i);
    assert forall|a: int, b: int| 0 <= a < b < r.len() implies r[a].id != r[b].id by {
        let a0 = if a < i { a } else { a + 1 };
        let b0 = if b < i { b } else { b + 1 };
        assert(r[a] == t[a0] && r[b] == t[b0]);
    }
    lemma_find_from(t, id, 0);
    lemma_find_from(r, id, 0);
    match find_id(r, id) {
        Some(j) => {
            let j0 = if j < i { j } else { j + 1 };
            assert(r[j] == t[j0]);
            match find_id(t, id) {
                Some(k) => {
                    assert(k == j0) by {
                        if k < j0 {
                            assert(t[k].id != t[j0].id);
                        } else if j0 < k {
                            assert(t[j0].id != t[k].id);
                        }
                    }
                },
                None => {
                    assert(t[j0].id != id);
                },
            }
        },
        None => {
            match find_id(t, id) {
                Some(k) => {
                    if k != i {
                        let k1 = if k < i { k } else { k - 1 };
                        assert(r[k1] == t[k]);
                    }
                },
                None => {},
            }
        },
    }
}

/// The pending-query table of one transport.
#[derive(Debug)]
pub struct PendingTable {
    entries: Vec<Pending>,
}

impl View for PendingTable {
    type V = Seq<PendingView>;

    closed spec fn view(&self) -> Seq<PendingView> {
        pending_views(self.entries@)
    }
}

impl PendingTable {
    /// The invariant of the table: no identifier occurs twice.
    #[verifier::type_invariant]
    spec fn distinct(self) -> bool {
        ids_distinct(pending_views(self.entries@))
    }

    /// No identifier occurs twice in a table.
    pub fn ids_are_distinct(&self)
        ensures
            ids_distinct(self@),
    {
        proof {
            use_type_invariant(self);
        }
    }

    /// An empty table.
    pub fn new() -> (t: PendingTable)
        ensures
            t@ == Seq::<PendingView>::empty(),
    {
        PendingTable { entries: Vec::new() }
    }

    /// The number of entries.
    pub fn len(&self) -> (n: usize)
        ensures
            n == self@.len(),
    {
        self.entries.len()
    }

    /// The entry at `i`.
    pub(crate) fn get(&self, i: usize) -> (e: &Pending)
        requires
            i < self@.len(),
        ensures
            e@ == self@[i as int],
    {
        &self.entries[i]
    }

    /// Where the entry with the identifier `id` stands.
    pub fn find(&self, id: u16) -> (r: Option<usize>)
        ensures
            match r {
                Some(i) => i < self@.len() && find_id(self@, id) == Some(i as int),
                None => find_id(self@, id) is None,
            },
    {
        let mut i: usize = 0;
        while i < self.entries.len()
            invariant
                i <= self.entries.len(),
                find_id(self@, id) == find_from(self@, id, i as int),
            decreases self.entries.len() - i,
        {
            if self.entries[i].id == id {
                return Some(i);
            }
            i += 1;
        }
        None
    }

    /// Where the entry stands that `response` matches.
    pub fn match_response(&self, response: &MessageBuf) -> (r: Option<usize>)
        ensures
            match r {
                Some(i) => i < self@.len() && matching(self@, response@) == Some(i as int),
                None => matching(self@, response@) is None,
            },
    {
        if !response.is_response() {
            return None;
        }
        let id = response.id();
        match self.find(id) {
            None => None,
            Some(i) => {
                proof {
                    lemma_find_from(self@, id, 0);
                }
                let e = &self.entries[i];
                if !e.escalating && response.answers(&e.query.message) {
                    Some(i)
                } else {
                    None
                }
            },
        }
    }

    /// An identifier that no entry has, looked for from `start` on.
    pub fn free_id(&self, start: u16) -> (r: Option<u16>)
        ensures
            r == free_id(self@, start),
    {
        let mut k: u32 = 0;
        while k < ID_SPACE
            invariant
                k <= ID_SPACE,
                free_id(self@, start) == free_from(self@, start, k as int),
            decreases ID_SPACE - k,
        {
            let c: u16 = ((start as u32 + k) % ID_SPACE) as u16;
            if self.find(c).is_none() {
                return Some(c);
            }
            k += 1;
        }
        None
    }

    /// Adds the entry for a query sent under the identifier `id`.
    pub(crate) fn insert(&mut self, id: u16, query: Query, deadline: u64)
        requires
            find_id(old(self)@, id) is None,
        ensures
            final(self)@ == old(self)@.push(
                PendingView { id, query: query@, deadline, escalating: false },
            ),
    {
        proof {
            use_type_invariant(&*self);
            lemma_find_from(self@, id, 0);
        }
        let mut entries: Vec<Pending> = Vec::new();
        std::mem::swap(&mut entries, &mut self.entries);
        entries.push(Pending { id, query, deadline, escalating: false });
        assert(pending_views(entries@) == old(self)@.push(
            PendingView { id, query: query@, deadline, escalating: false },
        ));
        self.entries = entries;
    }

    /// Takes the entry at `i` out of the table.
    pub(crate) fn remove(&mut self, i: usize) -> (e: Pending)
        requires
            i < old(self)@.len(),
        ensures
            e@ == old(self)@[i as int],
            final(self)@ == old(self)@.remove(i as int),
    {
        proof {
            use_type_invariant(&*self);
            lemma_find_after_remove(self@, i as int, 0);
        }
        let mut entries: Vec<Pending> = Vec::new();
        std::mem::swap(&mut entries, &mut self.entries);
        let e = entries.remove(i);
        assert(pending_views(entries@) == old(self)@.remove(i as int));
        self.entries = entries;
        e
    }

    /// Marks the entry at `i` as being handed over.
    pub(crate) fn mark_escalating(&mut self, i: usize)
        requires
            i < old(self)@.len(),
        ensures
            final(self)@ == old(self)@.update(
                i as int,
                PendingView { escalating: true, ..old(self)@[i as int] },
            ),
    {
        proof {
            use_type_invariant(&*self);
        }
        let mut entries: Vec<Pending> = Vec::new();
        std::mem::swap(&mut entries, &mut self.entries);
        let mut e = entries.remove(i);
        e.escalating = true;
        entries.insert(i, e);
        assert(pending_views(entries@) == old(self)@.update(
            i as int,
            PendingView { escalating: true, ..old(self)@[i as int] },
        ));
        self.entries = entries;
    }

    /// Takes out the entries that are due at `now`.
    pub fn take_expired(&mut self, now: u64) -> (due: Vec<Pending>)
        ensures
            pending_views(due@) == due_entries(old(self)@, now),
            final(self)@ == live_entries(old(self)@, now),
    {
        proof {
            use_type_invariant(&*self);
        }
        let ghost t = self@;
        let ghost is_due_f = |e: PendingView| is_due(e, now);
        let ghost is_live_f = |e: PendingView| !is_due(e, now);
        let mut entries: Vec<Pending> = Vec::new();
        std::mem::swap(&mut entries, &mut self.entries);
        let mut due: Vec<Pending> = Vec::new();
        let mut i: usize = 0;
        proof {
            assert(t.take(0) == Seq::<PendingView>::empty());
            assert(pending_views(entries@).take(0) == t.take(0).filter(is_live_f));
            assert(pending_views(due@) == t.take(0).filter(is_due_f));
            assert(pending_views(entries@).skip(0) == t.skip(0));
        }
        while i < entries.len()
            invariant
                i <= entries.len(),
                i + due.len() <= t.len(),
                is_due_f == |e: PendingView| is_due(e, now),
                is_live_f == |e: PendingView| !is_due(e, now),
                pending_views(entries@).take(i as int) == t.take(i + due.len()).filter(is_live_f),
                pending_views(entries@).skip(i as int) == t.skip(i + due.len()),
                pending_views(due@) == t.take(i + due.len()).filter(is_due_f),
            decreases entries.len() - i,
        {
            let ghost k = i + due.len();
            let ghost cur = pending_views(entries@);
            proof {
                assert(cur.skip(i as int).len() > 0);
                assert(t.skip(k).len() > 0);
                assert(k < t.len());
                assert(cur.skip(i as int)[0] == t.skip(k)[0]);
                assert(cur[i as int] == t[k]);
                t.lemma_take_succ_push(k);
                t.take(k).lemma_filter_push(t[k], is_due_f);
                t.take(k).lemma_filter_push(t[k], is_live_f);
            }
            let e = &entries[i];
            if !e.escalating && e.deadline <= now {
                let taken = entries.remove(i);
                let ghost before = pending_views(due@);
                due.push(taken);
                proof {
                    let next = pending_views(entries@);
                    assert(pending_views(due@) == before.push(t[k]));
                    assert(next == cur.remove(i as int));
                    assert(next.take(i as int) == cur.take(i as int));
                    assert(next.skip(i as int) == cur.skip(i as int).skip(1));
                    assert(t.skip(k).skip(1) == t.skip(k + 1));
                }
            } else {
                proof {
                    cur.lemma_take_succ_push(i as int);
                    assert(cur.skip(i as int + 1) == cur.skip(i as int).skip(1));
                    assert(t.skip(k).skip(1) == t.skip(k + 1));
                }
                i += 1;
            }
        }
        proof {
            let last = pending_views(entries@);
            let k = i + due.len();
            assert(last.skip(i as int).len() == 0);
            assert(k == t.len());
            assert(t.take(k) == t);
            assert(last.take(i as int) == last);
            lemma_filter_keeps_distinct(t, is_live_f);
        }
        self.entries = entries;
        due
    }

    /// Takes every entry out of the table.
    pub fn take_all(&mut self) -> (all: Vec<Pending>)
        ensures
            pending_views(all@) == old(self)@,
            final(self)@ == Seq::<PendingView>::empty(),
    {
        let mut all: Vec<Pending> = Vec::new();
        std::mem::swap(&mut all, &mut self.entries);
        all
    }

    /// The earliest deadline that still counts.
    pub fn next_deadline(&self) -> (r: Option<u64>)
        ensures
            r == earliest(self@),
    {
        let mut best: Option<u64> = None;
        let mut i: usize = 0;
        while i < self.entries.len()
            invariant
                i <= self.entries.len(),
                best == earliest_of(self@, i as int),
            decreases self.entries.len() - i,
        {
            let e = &self.entries[i];
            if !e.escalating {
                best = match best {
                    Some(d) => if d <= e.deadline {
                        Some(d)
                    } else {
                        Some(e.deadline)
                    },
                    None => Some(e.deadline),
                };
            }
            i += 1;
        }
        best
    }
}

/// A selection from a table of distinct identifiers has distinct
/// identifiers.
pub proof fn lemma_filter_keeps_distinct(t: Seq<PendingView>, keep: spec_fn(PendingView) -> bool)
    requires
        ids_distinct(t),
    ensures
        ids_distinct(t.filter(keep)),
    decreases t.len(),
{
    reveal(Seq::filter);
    if t.len() > 0 {
        let head = t.drop_last();
        lemma_filter_keeps_distinct(head, keep);
        let f = t.filter(keep);
        if keep(t.last()) {
            assert(f == head.filter(keep).push(t.last()));
            assert forall|i: int, j: int| 0 <= i < j < f.len() implies f[i].id != f[j].id by {
                if j == f.len() - 1 {
                    let hf = head.filter(keep);
                    assert(hf[i] == f[i]);
                    assert(hf.contains(f[i]));
                    head.lemma_filter_contains_rev(keep, f[i]);
                    let k = choose|k: int| 0 <= k < head.len() && head[k] == f[i];
                    assert(t[k].id != t[t.len() - 1].id);
                } else {
                    assert(head.filter(keep)[i] == f[i] && head.filter(keep)[j] == f[j]);
                }
            }
        } else {
            assert(f == head.filter(keep));
        }
    }
}

} // verus!
