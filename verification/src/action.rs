//! What the machines say to each other and to the program that drives
//! them.

use vstd::prelude::*;
use crate::conf::TransportId;
use crate::query::Delivery;
use crate::query::DeliveryView;
use crate::query::Query;
use crate::query::QueryView;
use crate::udp::Datagram;
use crate::udp::DatagramView;

verus! {

/// An item on the queue of a machine.
#[derive(Debug)]
pub enum Mail {
    /// A query to take in: for the dispatcher to route, for a transport to
    /// send.
    Query(Query),
    /// For the dispatcher: the query got no response from the server at
    /// `after` and is to go to the next one.
    Retry { query: Query, after: usize },
    /// For the dispatcher: the response to the query from the server at
    /// `server` was truncated, and the query is to go to that server over a
    /// stream. The datagram transport keeps its entry under `id`.
    Escalate { query: Query, server: usize, id: u16 },
    /// For the dispatcher: the transport has ended.
    Closed(TransportId),
    /// For a datagram transport: the query that it handed over under `id`
    /// has been taken by the stream transport.
    Accepted { id: u16 },
    /// For a datagram transport: the query that it handed over under `id`
    /// could not be taken, and comes back.
    Rejected { id: u16, query: Query },
}

/// A `Mail` as a mathematical value.
pub enum MailView {
    Query(QueryView),
    Retry { query: QueryView, after: usize },
    Escalate { query: QueryView, server: usize, id: u16 },
    Closed(TransportId),
    Accepted { id: u16 },
    Rejected { id: u16, query: QueryView },
}

impl View for Mail {
    type V = MailView;

    open spec fn view(&self) -> MailView {
        match self {
            Mail::Query(q) => MailView::Query(q@),
            Mail::Retry { query, after } => MailView::Retry { query: query@, after: *after },
            Mail::Escalate { query, server, id } => MailView::Escalate {
                query: query@,
                server: *server,
                id: *id,
            },
            Mail::Closed(t) => MailView::Closed(*t),
            Mail::Accepted { id } => MailView::Accepted { id: *id },
            Mail::Rejected { id, query } => MailView::Rejected { id: *id, query: query@ },
        }
    }
}

/// The views of the items in `v`, in order.
pub open spec fn mail_views(v: Seq<Mail>) -> Seq<MailView> {
    v.map_values(|m: Mail| m@)
}

/// Whose queue an item goes to.
#[derive(Clone, Copy, Debug, PartialEq, Eq, Hash, Structural)]
pub enum Address {
    Dispatcher,
    Transport(TransportId),
}

/// What the program that drives a machine is to do after a step.
#[derive(Debug)]
pub enum Action {
    /// Hand the outcome to the task that waits for it.
    Deliver(Delivery),
    /// Put the datagram on the wire.
    Transmit(Datagram),
    /// Put the item on the queue of another machine.
    Post { to: Address, mail: Mail },
}

/// An `Action` as a mathematical value.
pub enum ActionView {
    Deliver(DeliveryView),
    Transmit(DatagramView),
    Post { to: Address, mail: MailView },
}

impl View for Action {
    type V = ActionView;

    open spec fn view(&self) -> ActionView {
        match self {
            Action::Deliver(d) => ActionView::Deliver(d@),
            Action::Transmit(d) => ActionView::Transmit(d@),
            Action::Post { to, mail } => ActionView::Post { to: *to, mail: mail@ },
        }
    }
}

/// The views of the actions in `v`, in order.
pub open spec fn action_views(v: Seq<Action>) -> Seq<ActionView> {
    v.map_values(|a: Action| a@)
}

/// Puts `action` behind the actions in `out`.
pub fn push_action(out: &mut Vec<Action>, action: Action)
    ensures
        action_views(final(out)@) == action_views(old(out)@).push(action@),
{
    out.push(action);
    assert(action_views(out@) == action_views(old(out)@).push(action@));
}

/// Puts the actions in `more` behind the actions in `out`.
pub fn append_actions(out: &mut Vec<Action>, more: Vec<Action>)
    ensures
        action_views(final(out)@) == action_views(old(out)@) + action_views(more@),
{
    let mut more = more;
    let ghost first = action_views(out@);
    let ghost second = action_views(more@);
    out.append(&mut more);
    assert(action_views(out@) == first + second);
}

} // verus!
