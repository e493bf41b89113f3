//! The transport core of a DNS stub resolver, as state machines without I/O.
//!
//! Every machine here is a value: an event goes in, the next state and the
//! actions to perform come out. Sockets, threads and the event loop belong to
//! the program that drives the machines.
//!
//! From the caller's side: a [`resolver::Resolver`] starts a task and gets a
//! [`resolver::ResolverMachine`], which turns the questions of the task into
//! queries and its answers into progress. The answers wait for the task in
//! [`replies`], on a queue of the kind that [`sync`] describes.
//!
//! From the side of the event loop: a [`transport::DnsTransport`] is a
//! dispatcher ([`dispatcher`]), a datagram transport ([`udp`]) or a stream
//! transport ([`tcp`]). What each does on a call of the event loop stands in
//! [`lifecycle`], what the machines say to each other in [`action`], and how
//! that is carried between them in [`mailroom`]. The queries on the wire are
//! kept in [`pending`], with the deadlines of [`timeout`].
//!
//! That no query is lost and none is answered twice is shown call by call
//! in [`account`] and for whole runs in [`world`]. [`course`] follows one
//! query through the machines: answered, timed out, cut short.

pub mod error;
pub mod conf;
pub mod message;
pub mod query;
pub mod task;
pub mod sync;
pub mod replies;
pub mod resolver;
pub mod timeout;
pub mod pending;
pub mod udp;
pub mod tcp;
pub mod action;
pub mod mailroom;
pub mod dispatcher;
pub mod events;
pub mod lifecycle;
pub mod transport;
pub mod account;
pub mod world;
pub mod course;
