//! The ways in which a question or a lookup can fail.

use vstd::prelude::*;

verus! {

/// Why a question cannot be written as a wire message.
#[derive(Clone, Copy, Debug, PartialEq, Eq, Structural)]
pub enum ComposeError {
    /// A label of the name is empty.
    EmptyLabel,
    /// A label of the name is longer than 63 bytes.
    LongLabel,
    /// The encoded name is longer than 255 bytes.
    LongName,
}

/// Why a query did not produce an answer.
#[derive(Clone, Copy, Debug, PartialEq, Eq)]
pub enum Error {
    /// The question could not be written as a wire message.
    Encode(ComposeError),
    /// No transport is available for the server the query was routed to.
    Dispatch,
    /// No response arrived within the attempt budget, or the channel on
    /// which the response would have arrived is gone.
    Timeout,
    /// The stream to the server failed while the query was pending on it.
    Connection,
    /// The bytes received are not a message.
    Decode,
}

impl Error {
    /// A short description of the error.
    pub fn describe(&self) -> (text: &'static str)
        ensures
            text@ == describe_spec(*self)@,
    {
        match self {
            Error::Encode(ComposeError::EmptyLabel) => "question has an empty label",
            Error::Encode(ComposeError::LongLabel) => "question has a label of more than 63 bytes",
            Error::Encode(ComposeError::LongName) => "question name is longer than 255 bytes",
            Error::Dispatch => "no transport available",
            Error::Timeout => "timed out",
            Error::Connection => "connection lost",
            Error::Decode => "malformed message",
        }
    }
}

/// The text that `Error::describe` gives for each error.
pub open spec fn describe_spec(e: Error) -> &'static str {
    match e {
        Error::Encode(ComposeError::EmptyLabel) => "question has an empty label",
        Error::Encode(ComposeError::LongLabel) => "question has a label of more than 63 bytes",
        Error::Encode(ComposeError::LongName) => "question name is longer than 255 bytes",
        Error::Dispatch => "no transport available",
        Error::Timeout => "timed out",
        Error::Connection => "connection lost",
        Error::Decode => "malformed message",
    }
}

impl From<ComposeError> for Error {
    fn from(e: ComposeError) -> (r: Error) {
        Error::Encode(e)
    }
}

impl vstd::std_specs::convert::FromSpecImpl<ComposeError> for Error {
    open spec fn obeys_from_spec() -> bool {
        true
    }

    open spec fn from_spec(e: ComposeError) -> Error {
        Error::Encode(e)
    }
}

} // verus!
