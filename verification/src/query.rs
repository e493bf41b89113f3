//! A query: one outgoing message and where its single answer goes.

use vstd::prelude::*;
use crate::error::Error;
use crate::message::MessageBuf;

verus! {

/// Names the receiving end of a queue between threads.
#[derive(Clone, Copy, Debug, PartialEq, Eq, Hash, Structural)]
pub struct ChannelId(pub u64);

/// One outstanding request. It is used up by the one delivery it gives rise
/// to: `answer` and `fail` take it by value.
#[derive(Debug)]
pub struct Query {
    pub message: MessageBuf,
    pub reply_to: ChannelId,
    /// How often the message has been put on the wire so far.
    pub attempts: u32,
}

/// A query as a mathematical value.
pub struct QueryView {
    pub message: Seq<u8>,
    pub reply_to: ChannelId,
    pub attempts: nat,
}

impl View for Query {
    type V = QueryView;

    open spec fn view(&self) -> QueryView {
        QueryView {
            message: self.message@,
            reply_to: self.reply_to,
            attempts: self.attempts as nat,
        }
    }
}

/// What a waiting task receives for a query.
#[derive(Debug)]
pub struct Delivery {
    pub to: ChannelId,
    pub outcome: Result<MessageBuf, Error>,
}

/// A delivery as a mathematical value.
pub struct DeliveryView {
    pub to: ChannelId,
    pub outcome: Result<Seq<u8>, Error>,
}

/// The outcome `outcome` with the bytes of its message in place of the
/// message.
pub open spec fn outcome_view(outcome: Result<MessageBuf, Error>) -> Result<Seq<u8>, Error> {
    match outcome {
        Ok(m) => Ok(m@),
        Err(e) => Err(e),
    }
}

impl View for Delivery {
    type V = DeliveryView;

    open spec fn view(&self) -> DeliveryView {
        DeliveryView { to: self.to, outcome: outcome_view(self.outcome) }
    }
}

/// The delivery of the answer `response` to the sender of `q`.
pub open spec fn answered(q: QueryView, response: Seq<u8>) -> DeliveryView {
    DeliveryView { to: q.reply_to, outcome: Ok(response) }
}

/// The delivery of the failure `error` to the sender of `q`.
pub open spec fn failed(q: QueryView, error: Error) -> DeliveryView {
    DeliveryView { to: q.reply_to, outcome: Err(error) }
}

/// The number of sends after one more, which stays at the greatest number
/// that can be counted.
pub open spec fn one_more(attempts: nat) -> nat {
    if attempts < u32::MAX {
        attempts + 1
    } else {
        attempts
    }
}

/// The query `q` as it goes on the wire under the identifier `id`: one more
/// send is counted.
pub open spec fn sent_as(q: QueryView, id: u16) -> QueryView {
    QueryView {
        message: crate::message::wire_with_id(q.message, id),
        reply_to: q.reply_to,
        attempts: one_more(q.attempts),
    }
}

impl Query {
    /// A second handle on the same query, for handing it over while the
    /// first stays where it is.
    pub(crate) fn duplicate(&self) -> (q: Query)
        ensures
            q@ == self@,
    {
        Query { message: self.message.clone(), reply_to: self.reply_to, attempts: self.attempts }
    }

    /// The query as it goes on the wire under the identifier `id`.
    pub fn stamped(self, id: u16) -> (q: Query)
        ensures
            q@ == sent_as(self@, id),
    {
        let attempts = if self.attempts < u32::MAX {
            self.attempts + 1
        } else {
            self.attempts
        };
        Query { message: self.message.with_id(id), reply_to: self.reply_to, attempts }
    }

    /// A query that has not been sent yet.
    pub fn new(message: MessageBuf, reply_to: ChannelId) -> (q: Query)
        ensures
            q@ == (QueryView { message: message@, reply_to, attempts: 0 }),
    {
        Query { message, reply_to, attempts: 0 }
    }

    /// Ends the query with `response` as its answer.
    pub fn answer(self, response: MessageBuf) -> (d: Delivery)
        ensures
            d@ == answered(self@, response@),
    {
        Delivery { to: self.reply_to, outcome: Ok(response) }
    }

    /// Ends the query with `error`.
    pub fn fail(self, error: Error) -> (d: Delivery)
        ensures
            d@ == failed(self@, error),
    {
        Delivery { to: self.reply_to, outcome: Err(error) }
    }
}

/// The views of the queries in `v`, in order.
pub open spec fn query_views(v: Seq<Query>) -> Seq<QueryView> {
    Seq::new(v.len(), |i: int| v[i]@)
}

/// The views of the deliveries in `v`, in order.
pub open spec fn delivery_views(v: Seq<Delivery>) -> Seq<DeliveryView> {
    Seq::new(v.len(), |i: int| v[i]@)
}

} // verus!
