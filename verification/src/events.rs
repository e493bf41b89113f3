//! What the event loop reports about a socket.
//!
//! The event loop hands a machine a `rotor::EventSet`. Nothing here looks
//! into such a set: it is asked four questions through its own methods,
//! and their answers are taken on trust. Everything else works on
//! `Readiness`, which holds the four answers as plain values.

use vstd::prelude::*;

verus! {

/// `rotor::EventSet`, the set of readiness kinds that the event loop hands
/// to a machine. Its content is not visible here.
#[verifier::external_type_specification]
#[verifier::external_body]
pub struct ExEventSet(rotor::EventSet);

/// A kind of readiness.
#[derive(Clone, Copy, Debug, PartialEq, Eq, Structural)]
pub enum EventKind {
    /// The socket has something to read.
    Readable,
    /// The socket takes something to write.
    Writable,
    /// The socket is in an error state.
    Error,
    /// The peer has hung up.
    Hup,
}

/// The kinds of readiness that a set of events holds. This is a name for
/// what the methods `is_readable`, `is_writable`, `is_error` and `is_hup`
/// of `rotor::EventSet` report, and has no definition of its own: all that
/// is assumed is that each method answers the same for the same set.
pub uninterp spec fn event_kinds(events: rotor::EventSet) -> Set<EventKind>;

/// Calls `rotor::EventSet::is_readable`. Taken on trust: the answer is whether
/// the set holds the readable kind.
#[verifier::external_body]
fn is_readable(events: &rotor::EventSet) -> (b: bool)
    ensures
        b == event_kinds(*events).contains(EventKind::Readable),
{
    events.is_readable()
}

/// Calls `rotor::EventSet::is_writable`. Taken on trust: the answer is whether
/// the set holds the writable kind.
#[verifier::external_body]
fn is_writable(events: &rotor::EventSet) -> (b: bool)
    ensures
        b == event_kinds(*events).contains(EventKind::Writable),
{
    events.is_writable()
}

/// Calls `rotor::EventSet::is_error`. Taken on trust: the answer is whether
/// the set holds the error kind.
#[verifier::external_body]
fn is_error(events: &rotor::EventSet) -> (b: bool)
    ensures
        b == event_kinds(*events).contains(EventKind::Error),
{
    events.is_error()
}

/// Calls `rotor::EventSet::is_hup`. Taken on trust: the answer is whether
/// the set holds the hang-up kind.
#[verifier::external_body]
fn is_hup(events: &rotor::EventSet) -> (b: bool)
    ensures
        b == event_kinds(*events).contains(EventKind::Hup),
{
    events.is_hup()
}

/// What a machine reads from a set of events.
#[derive(Clone, Copy, Debug, PartialEq, Eq, Structural)]
pub struct Readiness {
    pub readable: bool,
    pub writable: bool,
    pub error: bool,
    pub hup: bool,
}

/// The readiness that the kinds in `kinds` amount to.
pub open spec fn readiness_of(kinds: Set<EventKind>) -> Readiness {
    Readiness {
        readable: kinds.contains(EventKind::Readable),
        writable: kinds.contains(EventKind::Writable),
        error: kinds.contains(EventKind::Error),
        hup: kinds.contains(EventKind::Hup),
    }
}

impl Readiness {
    /// Reads the four kinds out of `events`.
    pub fn of(events: &rotor::EventSet) -> (r: Readiness)
        ensures
            r == readiness_of(event_kinds(*events)),
    {
        Readiness {
            readable: is_readable(events),
            writable: is_writable(events),
            error: is_error(events),
            hup: is_hup(events),
        }
    }

    /// Whether the connection behind the socket is gone.
    pub open spec fn is_lost(self) -> bool {
        self.error || self.hup
    }

    /// Whether the connection behind the socket is gone.
    pub fn lost(&self) -> (b: bool)
        ensures
            b == self.is_lost(),
    {
        self.error || self.hup
    }
}

} // verus!
