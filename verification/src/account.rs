//! Keeping count of the queries.
//!
//! Every query that a machine has taken in and not yet let go of is owed
//! one outcome. This module says where the queries are (in a machine, in
//! an item of mail, in an action) and shows that no call of the event loop
//! loses one or makes two of one: what a machine held and was handed
//! before a call is what it holds, passes on and delivers after it.

use vstd::multiset::Multiset;
use vstd::prelude::*;
use crate::action::ActionView;
use crate::action::MailView;
use crate::dispatcher::dispatch;
use crate::dispatcher::BootstrapItem;
use crate::dispatcher::DispatcherView;
use crate::events::Readiness;
use crate::lifecycle::deliveries;
use crate::lifecycle::dispatch_all;
use crate::lifecycle::expired_action;
use crate::lifecycle::tcp_mail;
use crate::lifecycle::tcp_mails;
use crate::lifecycle::tcp_ready;
use crate::lifecycle::tcp_send_all;
use crate::lifecycle::tcp_timeout;
use crate::lifecycle::udp_datagrams;
use crate::lifecycle::udp_event_actions;
use crate::lifecycle::udp_mail;
use crate::lifecycle::udp_mails;
use crate::lifecycle::udp_ready;
use crate::lifecycle::udp_timeout;
use crate::lifecycle::ReceivedView;
use crate::lifecycle::SocketInputView;
use crate::mailroom::box_of;
use crate::mailroom::failure_effect;
use crate::mailroom::failures;
use crate::mailroom::lemma_box_from;
use crate::mailroom::put;
use crate::mailroom::report;
use crate::mailroom::room_act;
use crate::mailroom::room_attach;
use crate::mailroom::room_detach;
use crate::mailroom::room_perform;
use crate::mailroom::room_post;
use crate::mailroom::room_take;
use crate::mailroom::EffectView;
use crate::mailroom::MailboxView;
use crate::timeout::due_entries;
use crate::pending::find_id;
use crate::timeout::is_due;
use crate::pending::lemma_find_from;
use crate::timeout::live_entries;
use crate::pending::PendingView;
use crate::query::ChannelId;
use crate::query::DeliveryView;
use crate::query::QueryView;
use crate::tcp::tcp_drain;
use crate::tcp::tcp_expire;
use crate::tcp::tcp_feed;
use crate::tcp::tcp_lost;
use crate::tcp::tcp_read;
use crate::tcp::tcp_receive;
use crate::tcp::tcp_send;
use crate::tcp::tcp_wrote;
use crate::tcp::TcpView;
use crate::transport::machine_of;
use crate::transport::transport_ready;
use crate::transport::transport_spawned;
use crate::transport::transport_timeout;
use crate::transport::transport_wakeup;
use crate::transport::MachineView;
use crate::transport::Response;
use crate::udp::expiry_of;
use crate::udp::udp_handed_over;
use crate::udp::udp_receive;
use crate::udp::udp_send;
use crate::udp::ExpiredView;
use crate::udp::UdpView;

verus! {

/// The sum of what `f` gives for the items of `s`.
pub open spec fn total<A>(s: Seq<A>, f: spec_fn(A) -> Multiset<ChannelId>) -> Multiset<ChannelId>
    decreases s.len(),
{
    if s.len() == 0 {
        Multiset::empty()
    } else {
        total(s.drop_last(), f).add(f(s.last()))
    }
}

/// One more item adds what `f` gives for it.
pub proof fn lemma_total_push<A>(s: Seq<A>, x: A, f: spec_fn(A) -> Multiset<ChannelId>)
    ensures
        total(s.push(x), f) == total(s, f).add(f(x)),
{
    assert(s.push(x).drop_last() == s);
}

/// The total of one item is what `f` gives for it.
pub proof fn lemma_total_one<A>(x: A, f: spec_fn(A) -> Multiset<ChannelId>)
    ensures
        total(seq![x], f) == f(x),
{
    assert(seq![x] == Seq::<A>::empty().push(x));
    lemma_total_push(Seq::<A>::empty(), x, f);
    assert(Multiset::<ChannelId>::empty().add(f(x)) =~= f(x));
}

/// The total of two sequences in a row is the sum of their totals.
pub proof fn lemma_total_add<A>(a: Seq<A>, b: Seq<A>, f: spec_fn(A) -> Multiset<ChannelId>)
    ensures
        total(a + b, f) == total(a, f).add(total(b, f)),
    decreases b.len(),
{
    if b.len() == 0 {
        assert(a + b == a);
        assert(total(a, f).add(Multiset::empty()) =~= total(a, f));
    } else {
        lemma_total_add(a, b.drop_last(), f);
        assert((a + b).drop_last() == a + b.drop_last());
        assert(total(a, f).add(total(b.drop_last(), f)).add(f(b.last())) =~= total(a, f).add(
            total(b.drop_last(), f).add(f(b.last())),
        ));
    }
}

/// Taking an item out takes out what `f` gives for it.
pub proof fn lemma_total_remove<A>(s: Seq<A>, i: int, f: spec_fn(A) -> Multiset<ChannelId>)
    requires
        0 <= i < s.len(),
    ensures
        total(s, f) == total(s.remove(i), f).add(f(s[i])),
{
    let a = s.take(i);
    let b = s.skip(i + 1);
    assert(s == a + seq![s[i]] + b);
    assert(s.remove(i) == a + b);
    lemma_total_add(a + seq![s[i]], b, f);
    lemma_total_add(a, seq![s[i]], f);
    lemma_total_one(s[i], f);
    lemma_total_add(a, b, f);
    assert(total(a, f).add(f(s[i])).add(total(b, f)) =~= total(a, f).add(total(b, f)).add(
        f(s[i]),
    ));
}

/// Putting another item in the place of one changes the total by the
/// difference of what `f` gives for the two.
pub proof fn lemma_total_update<A>(s: Seq<A>, i: int, x: A, f: spec_fn(A) -> Multiset<ChannelId>)
    requires
        0 <= i < s.len(),
    ensures
        total(s.update(i, x), f).add(f(s[i])) == total(s, f).add(f(x)),
{
    let u = s.update(i, x);
    lemma_total_remove(s, i, f);
    lemma_total_remove(u, i, f);
    assert(u.remove(i) == s.remove(i));
    assert(total(u.remove(i), f).add(f(x)).add(f(s[i])) =~= total(s.remove(i), f).add(f(s[i])).add(
        f(x),
    ));
}

/// Without its first item, a sequence totals what `f` gives for that item
/// less.
pub proof fn lemma_total_drop_first<A>(s: Seq<A>, f: spec_fn(A) -> Multiset<ChannelId>)
    requires
        s.len() > 0,
    ensures
        total(s, f) == total(s.drop_first(), f).add(f(s[0])),
{
    lemma_total_remove(s, 0, f);
    assert(s.remove(0) == s.drop_first());
}

/// The items that meet a condition and those that do not total, together,
/// what all the items total.
pub proof fn lemma_total_split<A>(
    s: Seq<A>,
    p: spec_fn(A) -> bool,
    q: spec_fn(A) -> bool,
    f: spec_fn(A) -> Multiset<ChannelId>,
)
    requires
        forall|x: A| #[trigger] q(x) == !p(x),
    ensures
        total(s, f) == total(s.filter(p), f).add(total(s.filter(q), f)),
    decreases s.len(),
{
    reveal(Seq::filter);
    if s.len() == 0 {
        assert(Multiset::<ChannelId>::empty().add(Multiset::empty()) =~= Multiset::<
            ChannelId,
        >::empty());
    } else {
        let head = s.drop_last();
        let x = s.last();
        lemma_total_split(head, p, q, f);
        if p(x) {
            assert(s.filter(p) == head.filter(p).push(x));
            assert(s.filter(q) == head.filter(q));
            lemma_total_push(head.filter(p), x, f);
            assert(total(head.filter(p), f).add(total(head.filter(q), f)).add(f(x)) =~= total(
                head.filter(p),
                f,
            ).add(f(x)).add(total(head.filter(q), f)));
        } else {
            assert(s.filter(p) == head.filter(p));
            assert(s.filter(q) == head.filter(q).push(x));
            lemma_total_push(head.filter(q), x, f);
            assert(total(head.filter(p), f).add(total(head.filter(q), f)).add(f(x)) =~= total(
                head.filter(p),
                f,
            ).add(total(head.filter(q), f).add(f(x))));
        }
    }
}

/// If `g` gives for the image of every item what `f` gives for the item,
/// the images total under `g` what the items total under `f`.
pub proof fn lemma_total_map<A, B>(
    s: Seq<A>,
    m: spec_fn(A) -> B,
    f: spec_fn(A) -> Multiset<ChannelId>,
    g: spec_fn(B) -> Multiset<ChannelId>,
)
    requires
        forall|i: int| 0 <= i < s.len() ==> g(m(#[trigger] s[i])) == f(s[i]),
    ensures
        total(s.map_values(m), g) == total(s, f),
    decreases s.len(),
{
    if s.len() > 0 {
        let head = s.drop_last();
        assert forall|i: int| 0 <= i < head.len() implies g(m(#[trigger] head[i])) == f(
            head[i],
        ) by {
            assert(head[i] == s[i]);
        }
        lemma_total_map(head, m, f, g);
        assert(s.map_values(m).drop_last() == head.map_values(m));
        assert(s.map_values(m).last() == m(s.last()));
        assert(s.last() == s[s.len() - 1]);
    } else {
        assert(s.map_values(m) == Seq::<B>::empty());
    }
}

/// The query `q`, counted once for the channel its outcome goes to.
pub open spec fn one(q: QueryView) -> Multiset<ChannelId> {
    Multiset::singleton(q.reply_to)
}

/// The queries in `qs`.
pub open spec fn query_tokens(qs: Seq<QueryView>) -> Multiset<ChannelId> {
    total(qs, |q: QueryView| one(q))
}

/// The query that the entry `e` holds. An entry that is being handed over
/// holds none: its query travels with the mail.
pub open spec fn entry_tokens(e: PendingView) -> Multiset<ChannelId> {
    if e.escalating {
        Multiset::empty()
    } else {
        one(e.query)
    }
}

/// The queries that the entries of `t` hold.
pub open spec fn pending_tokens(t: Seq<PendingView>) -> Multiset<ChannelId> {
    total(t, |e: PendingView| entry_tokens(e))
}

/// The query that travels with the item `m`.
pub open spec fn mail_tokens(m: MailView) -> Multiset<ChannelId> {
    match m {
        MailView::Query(q) => one(q),
        MailView::Retry { query, after } => one(query),
        MailView::Escalate { query, server, id } => one(query),
        MailView::Rejected { id, query } => one(query),
        MailView::Closed(t) => Multiset::empty(),
        MailView::Accepted { id } => Multiset::empty(),
    }
}

/// The queries that travel with the items of `mail`.
pub open spec fn mails_tokens(mail: Seq<MailView>) -> Multiset<ChannelId> {
    total(mail, |m: MailView| mail_tokens(m))
}

/// The query that the action `a` settles or passes on.
pub open spec fn action_tokens(a: ActionView) -> Multiset<ChannelId> {
    match a {
        ActionView::Deliver(d) => Multiset::singleton(d.to),
        ActionView::Transmit(d) => Multiset::empty(),
        ActionView::Post { to, mail } => mail_tokens(mail),
    }
}

/// The queries that the actions in `actions` settle or pass on.
pub open spec fn actions_tokens(actions: Seq<ActionView>) -> Multiset<ChannelId> {
    total(actions, |a: ActionView| action_tokens(a))
}

/// The channels that the deliveries in `ds` go to.
pub open spec fn delivery_tokens(ds: Seq<DeliveryView>) -> Multiset<ChannelId> {
    total(ds, |d: DeliveryView| Multiset::singleton(d.to))
}

/// The queries that a datagram transport in the state `s` holds: those
/// that wait, and those on the wire that are not being handed over.
pub open spec fn udp_held(s: UdpView) -> Multiset<ChannelId> {
    query_tokens(s.queue).add(pending_tokens(s.pending))
}

/// The queries on the wire of a stream transport.
pub open spec fn stream_tokens(t: Seq<PendingView>) -> Multiset<ChannelId> {
    total(t, |e: PendingView| one(e.query))
}

/// The queries that a stream transport in the state `s` holds: those that
/// wait and those on the wire.
pub open spec fn tcp_held(s: TcpView) -> Multiset<ChannelId> {
    query_tokens(s.queue).add(stream_tokens(s.pending))
}

/// The queries that the machine `m` holds. A dispatcher holds none: what
/// it takes it passes on or lets fail in the same call.
pub open spec fn machine_held(m: MachineView) -> Multiset<ChannelId> {
    match m {
        MachineView::Dispatcher(_) => Multiset::empty(),
        MachineView::Udp(s) => udp_held(s),
        MachineView::Tcp(s) => tcp_held(s),
    }
}

/// The queries that the machine holds which goes on after the response
/// `r`; none if the machine has ended.
pub open spec fn response_held(r: Response<MachineView, BootstrapItem>) -> Multiset<ChannelId> {
    match machine_of(r) {
        Some(m) => machine_held(m),
        None => Multiset::empty(),
    }
}

proof fn lemma_actions_one(a: ActionView)
    ensures
        actions_tokens(seq![a]) == action_tokens(a),
{
    lemma_total_one(a, |a: ActionView| action_tokens(a));
}

proof fn lemma_actions_add(a: Seq<ActionView>, b: Seq<ActionView>)
    ensures
        actions_tokens(a + b) == actions_tokens(a).add(actions_tokens(b)),
{
    lemma_total_add(a, b, |a: ActionView| action_tokens(a));
}

proof fn lemma_deliveries_tokens(ds: Seq<DeliveryView>)
    ensures
        actions_tokens(deliveries(ds)) == delivery_tokens(ds),
{
    lemma_total_map(
        ds,
        |d: DeliveryView| ActionView::Deliver(d),
        |d: DeliveryView| Multiset::singleton(d.to),
        |a: ActionView| action_tokens(a),
    );
}

proof fn lemma_udp_receive_keeps(s: UdpView, from: crate::conf::ServerAddr, bytes: Seq<u8>)
    ensures
        udp_held(s) == udp_held(udp_receive(s, from, bytes).0).add(
            actions_tokens(udp_event_actions(s.index, udp_receive(s, from, bytes).1)),
        ),
{
    let (s1, e) = udp_receive(s, from, bytes);
    let f = |e: PendingView| entry_tokens(e);
    match crate::udp::udp_match(s, from, bytes) {
        None => {
            assert(udp_held(s).add(Multiset::empty()) =~= udp_held(s));
        },
        Some(i) => {
            lemma_find_from(s.pending, crate::message::wire_id(bytes), 0);
            let q = s.pending[i].query;
            assert(f(s.pending[i]) == one(q));
            if crate::message::wire_is_truncated(bytes) {
                let marked = PendingView { escalating: true, ..s.pending[i] };
                lemma_total_update(s.pending, i, marked, f);
                assert(f(marked) == Multiset::<ChannelId>::empty());
                lemma_actions_one(udp_event_actions(s.index, e)[0]);
                assert(udp_event_actions(s.index, e) == seq![udp_event_actions(s.index, e)[0]]);
                assert(pending_tokens(s.pending) =~= pending_tokens(s1.pending).add(one(q)));
                assert(udp_held(s) =~= udp_held(s1).add(one(q)));
            } else {
                lemma_total_remove(s.pending, i, f);
                lemma_actions_one(udp_event_actions(s.index, e)[0]);
                assert(udp_event_actions(s.index, e) == seq![udp_event_actions(s.index, e)[0]]);
                assert(udp_held(s) =~= udp_held(s1).add(one(q)));
            }
        },
    }
}

proof fn lemma_udp_send_keeps(s: UdpView, now: u64)
    ensures
        udp_held(udp_send(s, now).0) == udp_held(s),
        actions_tokens(crate::lifecycle::transmission(udp_send(s, now).1)) == Multiset::<
            ChannelId,
        >::empty(),
{
    let (s1, d) = udp_send(s, now);
    if s.queue.len() > 0 && crate::pending::free_id(s.pending, s.next_id) is Some {
        let q = s.queue[0];
        lemma_total_drop_first(s.queue, |q: QueryView| one(q));
        lemma_total_push(s.pending, s1.pending.last(), |e: PendingView| entry_tokens(e));
        assert(s1.pending == s.pending.push(s1.pending.last()));
        assert(entry_tokens(s1.pending.last()) == one(q));
        assert(udp_held(s1) =~= udp_held(s));
        lemma_actions_one(crate::lifecycle::transmission(d)[0]);
        assert(crate::lifecycle::transmission(d) == seq![crate::lifecycle::transmission(d)[0]]);
    }
}

proof fn lemma_udp_handed_over_keeps(s: UdpView, id: u16)
    ensures
        udp_held(udp_handed_over(s, id)) == udp_held(s),
{
    lemma_find_from(s.pending, id, 0);
    match find_id(s.pending, id) {
        Some(i) => {
            if s.pending[i].escalating {
                lemma_total_remove(s.pending, i, |e: PendingView| entry_tokens(e));
                assert(udp_held(udp_handed_over(s, id)) =~= udp_held(s));
            }
        },
        None => {},
    }
}

proof fn lemma_udp_datagrams_keeps(s: UdpView, ds: Seq<ReceivedView>, n: int)
    ensures
        udp_held(s) == udp_held(udp_datagrams(s, ds, n).0).add(
            actions_tokens(udp_datagrams(s, ds, n).1),
        ),
    decreases n,
{
    if n <= 0 {
        assert(udp_held(s).add(Multiset::empty()) =~= udp_held(s));
    } else {
        lemma_udp_datagrams_keeps(s, ds, n - 1);
        let (s1, a1) = udp_datagrams(s, ds, n - 1);
        let (s2, e) = udp_receive(s1, ds[n - 1].from, ds[n - 1].bytes);
        lemma_udp_receive_keeps(s1, ds[n - 1].from, ds[n - 1].bytes);
        lemma_udp_datagrams_index(s, ds, n - 1);
        let a2 = udp_event_actions(s.index, e);
        lemma_actions_add(a1, a2);
        assert(udp_held(s2).add(actions_tokens(a2)).add(actions_tokens(a1)) =~= udp_held(s2).add(
            actions_tokens(a1).add(actions_tokens(a2)),
        ));
    }
}

proof fn lemma_udp_datagrams_index(s: UdpView, ds: Seq<ReceivedView>, n: int)
    ensures
        udp_datagrams(s, ds, n).0.index == s.index,
    decreases n,
{
    if n > 0 {
        lemma_udp_datagrams_index(s, ds, n - 1);
    }
}

proof fn lemma_udp_ready_keeps(s: UdpView, ready: Readiness, ds: Seq<ReceivedView>, now: u64)
    ensures
        udp_held(s) == udp_held(udp_ready(s, ready, ds, now).0).add(
            actions_tokens(udp_ready(s, ready, ds, now).1),
        ),
{
    let (s1, a1) = udp_datagrams(s, ds, ds.len() as int);
    lemma_udp_datagrams_keeps(s, ds, ds.len() as int);
    if ready.writable {
        lemma_udp_send_keeps(s1, now);
        lemma_actions_add(a1, crate::lifecycle::transmission(udp_send(s1, now).1));
        assert(actions_tokens(a1).add(Multiset::empty()) =~= actions_tokens(a1));
    }
}

proof fn lemma_udp_mail_keeps(s: UdpView, m: MailView)
    ensures
        udp_held(s).add(mail_tokens(m)) == udp_held(udp_mail(s, m).0).add(
            actions_tokens(udp_mail(s, m).1),
        ),
{
    let (s1, a) = udp_mail(s, m);
    match m {
        MailView::Query(q) => {
            lemma_total_push(s.queue, q, |q: QueryView| one(q));
            assert(udp_held(s).add(one(q)) =~= udp_held(s1).add(Multiset::empty()));
        },
        MailView::Accepted { id } => {
            lemma_udp_handed_over_keeps(s, id);
        },
        MailView::Rejected { id, query } => {
            lemma_udp_handed_over_keeps(s, id);
            lemma_actions_one(a[0]);
            assert(a == seq![a[0]]);
        },
        MailView::Retry { query, after } => {
            lemma_actions_one(a[0]);
            assert(a == seq![a[0]]);
        },
        MailView::Escalate { query, server, id } => {
            lemma_actions_one(a[0]);
            assert(a == seq![a[0]]);
        },
        MailView::Closed(t) => {},
    }
}

proof fn lemma_udp_mails_keeps(s: UdpView, mail: Seq<MailView>, n: int)
    requires
        0 <= n <= mail.len(),
    ensures
        udp_held(s).add(mails_tokens(mail.take(n))) == udp_held(udp_mails(s, mail, n).0).add(
            actions_tokens(udp_mails(s, mail, n).1),
        ),
    decreases n,
{
    if n <= 0 {
        assert(mail.take(0) == Seq::<MailView>::empty());
    } else {
        lemma_udp_mails_keeps(s, mail, n - 1);
        let (s1, a1) = udp_mails(s, mail, n - 1);
        let (s2, a2) = udp_mail(s1, mail[n - 1]);
        lemma_udp_mail_keeps(s1, mail[n - 1]);
        lemma_actions_add(a1, a2);
        assert(mail.take(n) == mail.take(n - 1).push(mail[n - 1]));
        lemma_total_push(mail.take(n - 1), mail[n - 1], |m: MailView| mail_tokens(m));
        assert(udp_held(s).add(mails_tokens(mail.take(n - 1)).add(mail_tokens(mail[n - 1])))
            =~= udp_held(s).add(mails_tokens(mail.take(n - 1))).add(mail_tokens(mail[n - 1])));
        assert(udp_held(s1).add(actions_tokens(a1)).add(mail_tokens(mail[n - 1])) =~= udp_held(
            s1,
        ).add(mail_tokens(mail[n - 1])).add(actions_tokens(a1)));
        assert(udp_held(s2).add(actions_tokens(a2)).add(actions_tokens(a1)) =~= udp_held(s2).add(
            actions_tokens(a1).add(actions_tokens(a2)),
        ));
    }
}

proof fn lemma_udp_timeout_keeps(s: UdpView, now: u64)
    ensures
        udp_held(s) == udp_held(udp_timeout(s, now).0).add(
            actions_tokens(udp_timeout(s, now).1),
        ),
{
    let due = due_entries(s.pending, now);
    let live = live_entries(s.pending, now);
    let f = |e: PendingView| entry_tokens(e);
    let p = |e: PendingView| is_due(e, now);
    let q = |e: PendingView| !is_due(e, now);
    lemma_total_split(s.pending, p, q, f);
    let g1 = |e: PendingView| expiry_of(e, s.attempts);
    let g2 = |e: ExpiredView| expired_action(s.index, e);
    let mid = |e: ExpiredView|
        match e {
            ExpiredView::Retry(q) => one(q),
            ExpiredView::Deliver(d) => Multiset::singleton(d.to),
        };
    let ex = due.map_values(g1);
    assert forall|i: int| 0 <= i < due.len() implies mid(g1(#[trigger] due[i])) == f(due[i]) by {
        s.pending.lemma_filter_pred(p, i);
    }
    lemma_total_map(due, g1, f, mid);
    assert forall|i: int| 0 <= i < ex.len() implies action_tokens(g2(#[trigger] ex[i])) == mid(
        ex[i],
    ) by {}
    lemma_total_map(ex, g2, mid, |a: ActionView| action_tokens(a));
    assert(udp_held(s) =~= udp_held(udp_timeout(s, now).0).add(
        actions_tokens(udp_timeout(s, now).1),
    ));
}

proof fn lemma_tcp_send_keeps(s: TcpView, now: u64)
    ensures
        tcp_held(tcp_send(s, now)) == tcp_held(s),
{
    let s1 = tcp_send(s, now);
    if crate::tcp::tcp_can_send(s) {
        let q = s.queue[0];
        lemma_total_drop_first(s.queue, |q: QueryView| one(q));
        lemma_total_push(s.pending, s1.pending.last(), |e: PendingView| one(e.query));
        assert(s1.pending == s.pending.push(s1.pending.last()));
        assert(tcp_held(s1) =~= tcp_held(s));
    }
}

proof fn lemma_tcp_send_all_keeps(s: TcpView, now: u64)
    ensures
        tcp_held(tcp_send_all(s, now)) == tcp_held(s),
    decreases s.queue.len(),
{
    if crate::tcp::tcp_can_send(s) {
        lemma_tcp_send_keeps(s, now);
        lemma_tcp_send_all_keeps(tcp_send(s, now), now);
    }
}

proof fn lemma_tcp_receive_keeps(s: TcpView, bytes: Seq<u8>)
    ensures
        tcp_held(s) == tcp_held(tcp_receive(s, bytes).0).add(
            delivery_tokens(crate::tcp::with_event(tcp_receive(s, bytes).1, Seq::empty())),
        ),
{
    let (s1, e) = tcp_receive(s, bytes);
    let g = |d: DeliveryView| Multiset::singleton(d.to);
    match e {
        crate::tcp::TcpEventView::Discard => {
            assert(tcp_held(s).add(Multiset::empty()) =~= tcp_held(s));
        },
        crate::tcp::TcpEventView::Deliver(d) => {
            let i = crate::pending::matching(s.pending, bytes)->0;
            lemma_find_from(s.pending, crate::message::wire_id(bytes), 0);
            lemma_total_remove(s.pending, i, |e: PendingView| one(e.query));
            assert(seq![d] + Seq::<DeliveryView>::empty() == seq![d]);
            lemma_total_one(d, g);
            assert(tcp_held(s) =~= tcp_held(s1).add(Multiset::singleton(d.to)));
        },
    }
}

proof fn lemma_tcp_drain_keeps(s: TcpView)
    ensures
        tcp_held(s) == tcp_held(tcp_drain(s).0).add(delivery_tokens(tcp_drain(s).1)),
    decreases s.inbuf.len(),
{
    let g = |d: DeliveryView| Multiset::singleton(d.to);
    match crate::tcp::deframe(s.inbuf) {
        None => {
            assert(tcp_held(s).add(Multiset::empty()) =~= tcp_held(s));
        },
        Some((m, rest)) => {
            if rest.len() < s.inbuf.len() {
                let s0 = TcpView { inbuf: rest, ..s };
                let (s1, e) = tcp_receive(s0, m);
                let (s2, ds) = tcp_drain(s1);
                lemma_tcp_receive_keeps(s0, m);
                lemma_tcp_drain_keeps(s1);
                let first = crate::tcp::with_event(e, Seq::empty());
                assert(crate::tcp::with_event(e, ds) == first + ds);
                lemma_total_add(first, ds, g);
                assert(tcp_held(s2).add(delivery_tokens(ds)).add(delivery_tokens(first))
                    =~= tcp_held(s2).add(delivery_tokens(first).add(delivery_tokens(ds))));
            } else {
                assert(tcp_held(s).add(Multiset::empty()) =~= tcp_held(s));
            }
        },
    }
}

proof fn lemma_tcp_lost_tokens(s: TcpView)
    ensures
        delivery_tokens(tcp_lost(s)) == tcp_held(s),
{
    let g = |d: DeliveryView| Multiset::singleton(d.to);
    let m1 = |e: PendingView| crate::query::failed(e.query, crate::error::Error::Connection);
    let m2 = |q: QueryView| crate::query::failed(q, crate::error::Error::Connection);
    lemma_total_map(s.pending, m1, |e: PendingView| one(e.query), g);
    lemma_total_map(s.queue, m2, |q: QueryView| one(q), g);
    lemma_total_add(s.pending.map_values(m1), s.queue.map_values(m2), g);
    assert(stream_tokens(s.pending).add(query_tokens(s.queue)) =~= tcp_held(s));
}

proof fn lemma_tcp_ready_keeps(
    s: TcpView,
    ready: Readiness,
    stream: Seq<u8>,
    written: usize,
    closed: bool,
    now: u64,
)
    ensures
        tcp_held(s) == (match tcp_ready(s, ready, stream, written, closed, now).0 {
            Some(s1) => tcp_held(s1),
            None => Multiset::empty(),
        }).add(actions_tokens(tcp_ready(s, ready, stream, written, closed, now).1)),
{
    let s0 = tcp_read(tcp_wrote(s, written), stream);
    let (s1, ds) = tcp_feed(tcp_wrote(s, written), stream);
    assert(tcp_held(s0) == tcp_held(s));
    lemma_tcp_drain_keeps(s0);
    lemma_deliveries_tokens(ds);
    if crate::lifecycle::connection_is_lost(ready, closed) {
        let lost = deliveries(tcp_lost(s1));
        let notice = crate::lifecycle::closed_notice(s.index);
        lemma_tcp_lost_tokens(s1);
        lemma_deliveries_tokens(tcp_lost(s1));
        lemma_total_push(lost, notice, |a: ActionView| action_tokens(a));
        lemma_actions_add(deliveries(ds), lost.push(notice));
        assert(tcp_held(s) =~= Multiset::<ChannelId>::empty().add(
            actions_tokens(deliveries(ds) + lost.push(notice)),
        ));
    } else {
        lemma_tcp_send_all_keeps(s1, now);
    }
}

proof fn lemma_tcp_timeout_keeps(s: TcpView, now: u64)
    ensures
        tcp_held(s) == tcp_held(tcp_timeout(s, now).0).add(
            actions_tokens(tcp_timeout(s, now).1),
        ),
{
    let due = due_entries(s.pending, now);
    let f = |e: PendingView| one(e.query);
    let p = |e: PendingView| is_due(e, now);
    let q = |e: PendingView| !is_due(e, now);
    lemma_total_split(s.pending, p, q, f);
    let g1 = |e: PendingView| crate::query::failed(e.query, crate::error::Error::Timeout);
    lemma_total_map(due, g1, f, |d: DeliveryView| Multiset::singleton(d.to));
    lemma_deliveries_tokens(tcp_expire(s, now).1);
    assert(tcp_held(s) =~= tcp_held(tcp_timeout(s, now).0).add(
        actions_tokens(tcp_timeout(s, now).1),
    ));
}

proof fn lemma_tcp_mail_keeps(s: TcpView, m: MailView)
    ensures
        tcp_held(s).add(mail_tokens(m)) == tcp_held(tcp_mail(s, m).0).add(
            actions_tokens(tcp_mail(s, m).1),
        ),
{
    let (s1, a) = tcp_mail(s, m);
    match m {
        MailView::Query(q) => {
            lemma_total_push(s.queue, q, |q: QueryView| one(q));
            assert(tcp_held(s).add(one(q)) =~= tcp_held(s1).add(Multiset::empty()));
        },
        MailView::Accepted { id } => {},
        MailView::Rejected { id, query } => {
            lemma_actions_one(a[0]);
            assert(a == seq![a[0]]);
        },
        MailView::Retry { query, after } => {
            lemma_actions_one(a[0]);
            assert(a == seq![a[0]]);
        },
        MailView::Escalate { query, server, id } => {
            lemma_actions_one(a[0]);
            assert(a == seq![a[0]]);
        },
        MailView::Closed(t) => {},
    }
}

proof fn lemma_tcp_mails_keeps(s: TcpView, mail: Seq<MailView>, n: int)
    requires
        0 <= n <= mail.len(),
    ensures
        tcp_held(s).add(mails_tokens(mail.take(n))) == tcp_held(tcp_mails(s, mail, n).0).add(
            actions_tokens(tcp_mails(s, mail, n).1),
        ),
    decreases n,
{
    if n <= 0 {
        assert(mail.take(0) == Seq::<MailView>::empty());
    } else {
        lemma_tcp_mails_keeps(s, mail, n - 1);
        let (s1, a1) = tcp_mails(s, mail, n - 1);
        let (s2, a2) = tcp_mail(s1, mail[n - 1]);
        lemma_tcp_mail_keeps(s1, mail[n - 1]);
        lemma_actions_add(a1, a2);
        assert(mail.take(n) == mail.take(n - 1).push(mail[n - 1]));
        lemma_total_push(mail.take(n - 1), mail[n - 1], |m: MailView| mail_tokens(m));
        assert(tcp_held(s).add(mails_tokens(mail.take(n - 1)).add(mail_tokens(mail[n - 1])))
            =~= tcp_held(s).add(mails_tokens(mail.take(n - 1))).add(mail_tokens(mail[n - 1])));
        assert(tcp_held(s1).add(actions_tokens(a1)).add(mail_tokens(mail[n - 1])) =~= tcp_held(
            s1,
        ).add(mail_tokens(mail[n - 1])).add(actions_tokens(a1)));
        assert(tcp_held(s2).add(actions_tokens(a2)).add(actions_tokens(a1)) =~= tcp_held(s2).add(
            actions_tokens(a1).add(actions_tokens(a2)),
        ));
    }
}

proof fn lemma_dispatch_keeps(s: DispatcherView, m: MailView)
    ensures
        mail_tokens(m) == actions_tokens(dispatch(s, m).1),
{
    let a = dispatch(s, m).1;
    match m {
        MailView::Query(q) => {
            lemma_actions_one(a[0]);
            assert(a == seq![a[0]]);
        },
        MailView::Retry { query, after } => {
            lemma_actions_one(a[0]);
            assert(a == seq![a[0]]);
        },
        MailView::Escalate { query, server, id } => {
            if server < s.tcp_up.len() && s.tcp_up[server as int] {
                assert(a == seq![a[0]] + seq![a[1]]);
                lemma_actions_add(seq![a[0]], seq![a[1]]);
                lemma_actions_one(a[0]);
                lemma_actions_one(a[1]);
                assert(one(query).add(Multiset::empty()) =~= one(query));
            } else {
                lemma_actions_one(a[0]);
                assert(a == seq![a[0]]);
            }
        },
        MailView::Closed(t) => {},
        MailView::Accepted { id } => {},
        MailView::Rejected { id, query } => {
            lemma_actions_one(a[0]);
            assert(a == seq![a[0]]);
        },
    }
}

proof fn lemma_dispatch_all_keeps(s: DispatcherView, mail: Seq<MailView>, n: int)
    requires
        0 <= n <= mail.len(),
    ensures
        mails_tokens(mail.take(n)) == actions_tokens(dispatch_all(s, mail, n).1),
    decreases n,
{
    if n <= 0 {
        assert(mail.take(0) == Seq::<MailView>::empty());
    } else {
        lemma_dispatch_all_keeps(s, mail, n - 1);
        let (s1, a1) = dispatch_all(s, mail, n - 1);
        let (s2, a2) = dispatch(s1, mail[n - 1]);
        lemma_dispatch_keeps(s1, mail[n - 1]);
        lemma_actions_add(a1, a2);
        assert(mail.take(n) == mail.take(n - 1).push(mail[n - 1]));
        lemma_total_push(mail.take(n - 1), mail[n - 1], |m: MailView| mail_tokens(m));
    }
}

/// A call for a ready socket loses no query and makes two of none: what
/// the machine held before is what it holds after, passes on and
/// delivers. What arrives on a socket brings no query with it.
pub proof fn lemma_ready_keeps_count(
    m: MachineView,
    ready: Readiness,
    input: SocketInputView,
    now: u64,
)
    ensures
        machine_held(m) == response_held(transport_ready(m, ready, input, now).0).add(
            actions_tokens(transport_ready(m, ready, input, now).1),
        ),
{
    match m {
        MachineView::Dispatcher(s) => {
            assert(Multiset::<ChannelId>::empty().add(Multiset::empty()) =~= Multiset::<
                ChannelId,
            >::empty());
        },
        MachineView::Udp(s) => {
            lemma_udp_ready_keeps(s, ready, input.datagrams, now);
        },
        MachineView::Tcp(s) => {
            lemma_tcp_ready_keeps(s, ready, input.stream, input.written, input.closed, now);
        },
    }
}

/// A call after a machine has been made changes nothing about the
/// queries: the machine holds what it held, and no action carries one.
pub proof fn lemma_spawned_keeps_count(m: MachineView)
    ensures
        machine_held(m) == response_held(transport_spawned(m).0).add(
            actions_tokens(transport_spawned(m).1),
        ),
{
    assert(machine_held(m).add(Multiset::empty()) =~= machine_held(m));
}

/// A call for a passed deadline loses no query and makes two of none: a
/// query that was due is passed on for another try or ends with its
/// failure, and every other query stays where it was.
pub proof fn lemma_timeout_keeps_count(m: MachineView, now: u64)
    ensures
        machine_held(m) == response_held(transport_timeout(m, now).0).add(
            actions_tokens(transport_timeout(m, now).1),
        ),
{
    match m {
        MachineView::Dispatcher(s) => {
            assert(Multiset::<ChannelId>::empty().add(Multiset::empty()) =~= Multiset::<
                ChannelId,
            >::empty());
        },
        MachineView::Udp(s) => {
            lemma_udp_timeout_keeps(s, now);
        },
        MachineView::Tcp(s) => {
            lemma_tcp_timeout_keeps(s, now);
        },
    }
}

/// A call for mail loses no query and makes two of none: what the machine
/// held and what came with the mail is what the machine holds after,
/// passes on and delivers.
pub proof fn lemma_wakeup_keeps_count(m: MachineView, mail: Seq<MailView>, now: u64)
    ensures
        machine_held(m).add(mails_tokens(mail)) == response_held(
            transport_wakeup(m, mail, now).0,
        ).add(actions_tokens(transport_wakeup(m, mail, now).1)),
{
    assert(mail.take(mail.len() as int) == mail);
    match m {
        MachineView::Dispatcher(s) => {
            lemma_dispatch_all_keeps(s, mail, mail.len() as int);
            assert(Multiset::<ChannelId>::empty().add(mails_tokens(mail)) =~= Multiset::<
                ChannelId,
            >::empty().add(actions_tokens(dispatch_all(s, mail, mail.len() as int).1)));
        },
        MachineView::Udp(s) => {
            lemma_udp_mails_keeps(s, mail, mail.len() as int);
        },
        MachineView::Tcp(s) => {
            lemma_tcp_mails_keeps(s, mail, mail.len() as int);
            lemma_tcp_send_all_keeps(tcp_mails(s, mail, mail.len() as int).0, now);
        },
    }
}

/// The queries that wait in the queues of the room.
pub open spec fn room_tokens(boxes: Seq<MailboxView>) -> Multiset<ChannelId> {
    total(boxes, |b: MailboxView| mails_tokens(b.queue))
}

/// The query that the effect `e` settles.
pub open spec fn effect_tokens(e: EffectView) -> Multiset<ChannelId> {
    match e {
        EffectView::Deliver(d) => Multiset::singleton(d.to),
        EffectView::Transmit(d) => Multiset::empty(),
        EffectView::Wake(a) => Multiset::empty(),
    }
}

/// The queries that the effects in `effects` settle.
pub open spec fn effects_tokens(effects: Seq<EffectView>) -> Multiset<ChannelId> {
    total(effects, |e: EffectView| effect_tokens(e))
}

proof fn lemma_effects_one(e: EffectView)
    ensures
        effects_tokens(seq![e]) == effect_tokens(e),
{
    lemma_total_one(e, |e: EffectView| effect_tokens(e));
}

proof fn lemma_effects_add(a: Seq<EffectView>, b: Seq<EffectView>)
    ensures
        effects_tokens(a + b) == effects_tokens(a).add(effects_tokens(b)),
{
    lemma_total_add(a, b, |e: EffectView| effect_tokens(e));
}

proof fn lemma_failure_effect_tokens(m: MailView)
    ensures
        effects_tokens(failure_effect(m)) == mail_tokens(m),
{
    if crate::mailroom::failure_of(m) is Some {
        lemma_effects_one(failure_effect(m)[0]);
        assert(failure_effect(m) == seq![failure_effect(m)[0]]);
    }
}

proof fn lemma_put_tokens(boxes: Seq<MailboxView>, i: int, m: MailView)
    requires
        0 <= i < boxes.len(),
    ensures
        room_tokens(put(boxes, i, m)) == room_tokens(boxes).add(mail_tokens(m)),
{
    let f = |b: MailboxView| mails_tokens(b.queue);
    let after = MailboxView { queue: boxes[i].queue.push(m), ..boxes[i] };
    lemma_total_update(boxes, i, after, f);
    lemma_total_push(boxes[i].queue, m, |m: MailView| mail_tokens(m));
    lemma_total_remove(boxes, i, f);
    assert(room_tokens(put(boxes, i, m)).add(f(boxes[i])) == room_tokens(boxes).add(
        f(boxes[i]).add(mail_tokens(m)),
    ));
    assert(room_tokens(put(boxes, i, m)) =~= room_tokens(boxes).add(mail_tokens(m))) by {
        let a = room_tokens(put(boxes, i, m));
        let b = room_tokens(boxes).add(mail_tokens(m));
        let c = f(boxes[i]);
        assert(a.add(c) =~= b.add(c));
        assert forall|x: ChannelId| a.count(x) == b.count(x) by {
            assert(a.add(c).count(x) == b.add(c).count(x));
        }
    }
}

proof fn lemma_report_tokens(boxes: Seq<MailboxView>, gone: crate::action::Address)
    ensures
        room_tokens(report(boxes, gone).0) == room_tokens(boxes),
        effects_tokens(report(boxes, gone).1) == Multiset::<ChannelId>::empty(),
{
    match gone {
        crate::action::Address::Transport(t) => {
            lemma_box_from(boxes, crate::action::Address::Dispatcher, 0);
            match box_of(boxes, crate::action::Address::Dispatcher) {
                Some(i) => {
                    lemma_put_tokens(boxes, i, MailView::Closed(t));
                    lemma_effects_one(report(boxes, gone).1[0]);
                    assert(report(boxes, gone).1 == seq![report(boxes, gone).1[0]]);
                    assert(room_tokens(boxes).add(Multiset::empty()) =~= room_tokens(boxes));
                },
                None => {},
            }
        },
        crate::action::Address::Dispatcher => {},
    }
}

/// Posting an item keeps the count: the query that travels with it waits
/// in a queue afterwards, or has failed.
pub proof fn lemma_post_keeps_count(
    boxes: Seq<MailboxView>,
    to: crate::action::Address,
    mail: MailView,
)
    ensures
        room_tokens(boxes).add(mail_tokens(mail)) == room_tokens(room_post(boxes, to, mail).0).add(
            effects_tokens(room_post(boxes, to, mail).1),
        ),
{
    lemma_box_from(boxes, to, 0);
    match box_of(boxes, to) {
        Some(i) => {
            lemma_put_tokens(boxes, i, mail);
            lemma_effects_one(room_post(boxes, to, mail).1[0]);
            assert(room_post(boxes, to, mail).1 == seq![room_post(boxes, to, mail).1[0]]);
            assert(room_tokens(boxes).add(mail_tokens(mail)).add(Multiset::empty())
                =~= room_tokens(boxes).add(mail_tokens(mail)));
        },
        None => {
            lemma_report_tokens(boxes, to);
            lemma_failure_effect_tokens(mail);
            lemma_effects_add(failure_effect(mail), report(boxes, to).1);
            assert(mail_tokens(mail).add(Multiset::empty()) =~= mail_tokens(mail));
        },
    }
}

proof fn lemma_act_keeps_count(boxes: Seq<MailboxView>, a: ActionView)
    ensures
        room_tokens(boxes).add(action_tokens(a)) == room_tokens(room_act(boxes, a).0).add(
            effects_tokens(room_act(boxes, a).1),
        ),
{
    match a {
        ActionView::Deliver(d) => {
            lemma_effects_one(EffectView::Deliver(d));
        },
        ActionView::Transmit(d) => {
            lemma_effects_one(EffectView::Transmit(d));
        },
        ActionView::Post { to, mail } => {
            lemma_post_keeps_count(boxes, to, mail);
        },
    }
}

/// Carrying out actions keeps the count: every query that an action
/// settles or passes on is, afterwards, settled by an effect or waits in a
/// queue, and what waited in the queues before still does.
pub proof fn lemma_perform_keeps_count(boxes: Seq<MailboxView>, actions: Seq<ActionView>, n: int)
    requires
        0 <= n <= actions.len(),
    ensures
        room_tokens(boxes).add(actions_tokens(actions.take(n))) == room_tokens(
            room_perform(boxes, actions, n).0,
        ).add(effects_tokens(room_perform(boxes, actions, n).1)),
    decreases n,
{
    if n <= 0 {
        assert(actions.take(0) == Seq::<ActionView>::empty());
    } else {
        lemma_perform_keeps_count(boxes, actions, n - 1);
        let (b1, e1) = room_perform(boxes, actions, n - 1);
        let (b2, e2) = room_act(b1, actions[n - 1]);
        lemma_act_keeps_count(b1, actions[n - 1]);
        lemma_effects_add(e1, e2);
        assert(actions.take(n) == actions.take(n - 1).push(actions[n - 1]));
        lemma_total_push(actions.take(n - 1), actions[n - 1], |a: ActionView| action_tokens(a));
        let t0 = room_tokens(boxes);
        let a0 = actions_tokens(actions.take(n - 1));
        let a1 = action_tokens(actions[n - 1]);
        assert(t0.add(a0.add(a1)) =~= t0.add(a0).add(a1));
        assert(room_tokens(b1).add(effects_tokens(e1)).add(a1) =~= room_tokens(b1).add(a1).add(
            effects_tokens(e1),
        ));
        assert(room_tokens(b2).add(effects_tokens(e2)).add(effects_tokens(e1)) =~= room_tokens(
            b2,
        ).add(effects_tokens(e1).add(effects_tokens(e2))));
    }
}

/// Emptying a queue keeps the count: what waited there is what is handed
/// out.
pub proof fn lemma_take_keeps_count(boxes: Seq<MailboxView>, address: crate::action::Address)
    ensures
        room_tokens(boxes) == room_tokens(room_take(boxes, address).0).add(
            mails_tokens(room_take(boxes, address).1),
        ),
{
    lemma_box_from(boxes, address, 0);
    let f = |b: MailboxView| mails_tokens(b.queue);
    match box_of(boxes, address) {
        Some(i) => {
            let emptied = MailboxView { queue: Seq::empty(), ..boxes[i] };
            lemma_total_update(boxes, i, emptied, f);
            assert(f(emptied) == Multiset::<ChannelId>::empty());
            assert(room_tokens(room_take(boxes, address).0).add(f(boxes[i])) =~= room_tokens(
                boxes,
            ));
        },
        None => {
            assert(room_tokens(boxes).add(Multiset::empty()) =~= room_tokens(boxes));
        },
    }
}

proof fn lemma_failures_tokens(mail: Seq<MailView>, n: int)
    requires
        0 <= n <= mail.len(),
    ensures
        effects_tokens(failures(mail, n)) == mails_tokens(mail.take(n)),
    decreases n,
{
    if n <= 0 {
        assert(mail.take(0) == Seq::<MailView>::empty());
    } else {
        lemma_failures_tokens(mail, n - 1);
        lemma_failure_effect_tokens(mail[n - 1]);
        lemma_effects_add(failures(mail, n - 1), failure_effect(mail[n - 1]));
        assert(mail.take(n) == mail.take(n - 1).push(mail[n - 1]));
        lemma_total_push(mail.take(n - 1), mail[n - 1], |m: MailView| mail_tokens(m));
    }
}

/// Taking a queue away keeps the count: every query that waited on it
/// fails.
pub proof fn lemma_detach_keeps_count(boxes: Seq<MailboxView>, address: crate::action::Address)
    ensures
        room_tokens(boxes) == room_tokens(room_detach(boxes, address).0).add(
            effects_tokens(room_detach(boxes, address).1),
        ),
{
    lemma_box_from(boxes, address, 0);
    match box_of(boxes, address) {
        Some(i) => {
            lemma_total_remove(boxes, i, |b: MailboxView| mails_tokens(b.queue));
            lemma_failures_tokens(boxes[i].queue, boxes[i].queue.len() as int);
            assert(boxes[i].queue.take(boxes[i].queue.len() as int) == boxes[i].queue);
        },
        None => {
            assert(room_tokens(boxes).add(Multiset::empty()) =~= room_tokens(boxes));
        },
    }
}

/// A new queue is empty: giving a machine a queue keeps the count.
pub proof fn lemma_attach_keeps_count(boxes: Seq<MailboxView>, address: crate::action::Address)
    ensures
        room_tokens(room_attach(boxes, address)) == room_tokens(boxes),
{
    if box_of(boxes, address) is None {
        let b = MailboxView { address, queue: Seq::empty() };
        lemma_total_push(boxes, b, |b: MailboxView| mails_tokens(b.queue));
        assert(room_tokens(boxes).add(Multiset::empty()) =~= room_tokens(boxes));
    }
}

/// One round of a machine that has mail keeps the count of the whole: the
/// machine takes its mail, answers the call, and its actions are carried
/// out. What the machine held and what waited in all the queues before is
/// what the machine holds, what waits in the queues and what is settled
/// after. No query is lost, and none is there twice.
pub proof fn lemma_round_keeps_count(
    m: MachineView,
    boxes: Seq<MailboxView>,
    address: crate::action::Address,
    now: u64,
)
    ensures
        ({
            let (emptied, mail) = room_take(boxes, address);
            let (response, actions) = transport_wakeup(m, mail, now);
            let (after, effects) = room_perform(emptied, actions, actions.len() as int);
            machine_held(m).add(room_tokens(boxes)) == response_held(response).add(
                room_tokens(after),
            ).add(effects_tokens(effects))
        }),
{
    let (emptied, mail) = room_take(boxes, address);
    let (response, actions) = transport_wakeup(m, mail, now);
    let (after, effects) = room_perform(emptied, actions, actions.len() as int);
    lemma_take_keeps_count(boxes, address);
    lemma_wakeup_keeps_count(m, mail, now);
    lemma_perform_keeps_count(emptied, actions, actions.len() as int);
    assert(actions.take(actions.len() as int) == actions);
    let h = machine_held(m);
    let h1 = response_held(response);
    assert(h.add(room_tokens(emptied).add(mails_tokens(mail))) =~= h.add(mails_tokens(mail)).add(
        room_tokens(emptied),
    ));
    assert(h1.add(actions_tokens(actions)).add(room_tokens(emptied)) =~= h1.add(
        room_tokens(emptied).add(actions_tokens(actions)),
    ));
    assert(h1.add(room_tokens(after).add(effects_tokens(effects))) =~= h1.add(
        room_tokens(after),
    ).add(effects_tokens(effects)));
}

/// Carrying out what a machine asks for after a call for a ready socket, a
/// passed deadline or a made machine keeps the count of the whole.
pub proof fn lemma_call_keeps_count(
    m: MachineView,
    boxes: Seq<MailboxView>,
    ready: Readiness,
    input: SocketInputView,
    now: u64,
)
    ensures
        ({
            let (response, actions) = transport_ready(m, ready, input, now);
            let (after, effects) = room_perform(boxes, actions, actions.len() as int);
            machine_held(m).add(room_tokens(boxes)) == response_held(response).add(
                room_tokens(after),
            ).add(effects_tokens(effects))
        }),
        ({
            let (response, actions) = transport_timeout(m, now);
            let (after, effects) = room_perform(boxes, actions, actions.len() as int);
            machine_held(m).add(room_tokens(boxes)) == response_held(response).add(
                room_tokens(after),
            ).add(effects_tokens(effects))
        }),
        ({
            let (response, actions) = transport_spawned(m);
            let (after, effects) = room_perform(boxes, actions, actions.len() as int);
            machine_held(m).add(room_tokens(boxes)) == response_held(response).add(
                room_tokens(after),
            ).add(effects_tokens(effects))
        }),
{
    let h = machine_held(m);
    let t = room_tokens(boxes);
    {
        let (response, actions) = transport_ready(m, ready, input, now);
        let (after, effects) = room_perform(boxes, actions, actions.len() as int);
        lemma_ready_keeps_count(m, ready, input, now);
        lemma_perform_keeps_count(boxes, actions, actions.len() as int);
        assert(actions.take(actions.len() as int) == actions);
        let h1 = response_held(response);
        assert(h1.add(actions_tokens(actions)).add(t) =~= h1.add(t.add(actions_tokens(actions))));
        assert(h1.add(room_tokens(after).add(effects_tokens(effects))) =~= h1.add(
            room_tokens(after),
        ).add(effects_tokens(effects)));
    }
    {
        let (response, actions) = transport_timeout(m, now);
        let (after, effects) = room_perform(boxes, actions, actions.len() as int);
        lemma_timeout_keeps_count(m, now);
        lemma_perform_keeps_count(boxes, actions, actions.len() as int);
        assert(actions.take(actions.len() as int) == actions);
        let h1 = response_held(response);
        assert(h1.add(actions_tokens(actions)).add(t) =~= h1.add(t.add(actions_tokens(actions))));
        assert(h1.add(room_tokens(after).add(effects_tokens(effects))) =~= h1.add(
            room_tokens(after),
        ).add(effects_tokens(effects)));
    }
    {
        let (response, actions) = transport_spawned(m);
        let (after, effects) = room_perform(boxes, actions, actions.len() as int);
        lemma_spawned_keeps_count(m);
        lemma_perform_keeps_count(boxes, actions, actions.len() as int);
        assert(actions.take(actions.len() as int) == actions);
        let h1 = response_held(response);
        assert(h1.add(actions_tokens(actions)).add(t) =~= h1.add(t.add(actions_tokens(actions))));
        assert(h1.add(room_tokens(after).add(effects_tokens(effects))) =~= h1.add(
            room_tokens(after),
        ).add(effects_tokens(effects)));
    }
}

} // verus!
