//! The contract between the engine and a lookup policy.

use vstd::prelude::*;
use crate::error::Error;
use crate::message::MessageBuf;
use crate::message::Question;
use crate::message::QuestionView;
use crate::query::outcome_view;

verus! {

/// Where a task stands after a step.
#[derive(Debug)]
pub enum Progress<T, S> {
    /// The task goes on in the given state.
    Continue(T),
    /// The task is done and this is its result.
    Success(S),
    /// The task has failed.
    Error(Error),
}

/// Collects the questions that a task asks during one step.
#[derive(Debug)]
pub struct Emitter {
    questions: Vec<Question>,
}

/// The views of the questions in `v`, in order.
pub open spec fn question_views(v: Seq<Question>) -> Seq<QuestionView> {
    Seq::new(v.len(), |i: int| v[i]@)
}

impl View for Emitter {
    type V = Seq<QuestionView>;

    closed spec fn view(&self) -> Seq<QuestionView> {
        question_views(self.questions@)
    }
}

impl Emitter {
    /// An emitter that holds no question.
    pub fn new() -> (e: Emitter)
        ensures
            e@ == Seq::<QuestionView>::empty(),
    {
        Emitter { questions: Vec::new() }
    }

    /// Asks for a lookup of `name` with the given type and class.
    pub fn emit(&mut self, name: Vec<Vec<u8>>, qtype: u16, qclass: u16)
        ensures
            final(self)@ == old(self)@.push(Question { name, qtype, qclass }@),
    {
        self.questions.push(Question::new(name, qtype, qclass));
    }

    /// The questions asked so far, in the order in which they were asked.
    pub fn into_questions(self) -> (questions: Vec<Question>)
        ensures
            question_views(questions@) == self@,
    {
        self.questions
    }
}

/// Holds of everything: a function picked by it is one of which nothing is
/// known.
pub open spec fn unknown<A>(a: A) -> bool {
    true
}

/// A lookup policy of one or more steps. The engine calls `start` once and
/// then `progress` for every response, or failure to get one, that arrives
/// for a question the task has asked.
///
/// A task says what it does in two functions of its own, `after_start` and
/// `after_progress`: how it goes on, and the questions it asks, in order.
/// Its `start` and `progress` are held to them, so that what the engine
/// does with a task can be said in terms of the task.
pub trait Task: Sized {
    /// What the task produces when it succeeds.
    type Success;

    /// The task as it is after its start, and the questions it asks at its
    /// start. A task that does not say otherwise is taken to go by some
    /// function of its state, of which nothing else is known.
    open spec fn after_start(self) -> (Self, Seq<QuestionView>) {
        (choose|f: spec_fn(Self) -> (Self, Seq<QuestionView>)| #[trigger] unknown(f))(self)
    }

    /// Begins the task. Every question handed to `emit` becomes a query.
    fn start(self, emit: &mut Emitter) -> (next: Self)
        ensures
            next == self.after_start().0,
            final(emit)@ == old(emit)@ + self.after_start().1,
    ;

    /// How the task goes on when it is given `response`, and the questions
    /// it asks then. A task that does not say otherwise is taken to go by
    /// some function of its state and the response, of which nothing else
    /// is known.
    open spec fn after_progress(self, response: Result<Seq<u8>, Error>) -> (
        Progress<Self, Self::Success>,
        Seq<QuestionView>,
    ) {
        (choose|f: spec_fn(Self, Result<Seq<u8>, Error>) -> (
            Progress<Self, Self::Success>,
            Seq<QuestionView>,
        )| #[trigger] unknown(f))(self, response)
    }

    /// Takes one response and says how the task goes on. Every question
    /// handed to `emit` becomes a query.
    fn progress(self, response: Result<MessageBuf, Error>, emit: &mut Emitter) -> (next: Progress<
        Self,
        Self::Success,
    >)
        ensures
            next == self.after_progress(outcome_view(response)).0,
            final(emit)@ == old(emit)@ + self.after_progress(outcome_view(response)).1,
    ;
}

} // verus!
