//! The handle through which tasks are started, and the machine that drives
//! one task.

use vstd::prelude::*;
use crate::action::action_views;
use crate::action::Action;
use crate::action::ActionView;
use crate::action::Address;
use crate::action::Mail;
use crate::action::MailView;
use crate::error::ComposeError;
use crate::error::Error;
use crate::mailroom::box_of;
use crate::mailroom::effect_views;
use crate::mailroom::room_perform;
use crate::mailroom::Effect;
use crate::mailroom::EffectView;
use crate::mailroom::Mailroom;
use crate::mailroom::MailboxView;
use crate::message::compose_error;
use crate::message::query_wire;
use crate::message::MessageBuf;
use crate::message::Question;
use crate::message::QuestionView;
use crate::query::outcome_view;
use crate::query::query_views;
use crate::query::ChannelId;
use crate::query::Query;
use crate::query::QueryView;
use crate::sync::RecvError;
use crate::sync::TryRecvError;
use crate::task::question_views;
use crate::task::Emitter;
use crate::task::Progress;
use crate::task::Task;

verus! {

/// The query that a task's question `q` becomes when its answer is to go to
/// `reply_to`.
pub open spec fn fresh_query(q: QuestionView, reply_to: ChannelId) -> QueryView {
    QueryView { message: query_wire(q), reply_to, attempts: 0 }
}

/// The queries that the first `n` of `questions` become: one for each
/// question that can be encoded, in the order of the questions.
pub open spec fn queries_from(questions: Seq<QuestionView>, n: int, reply_to: ChannelId) -> Seq<
    QueryView,
>
    decreases n,
{
    if n <= 0 {
        Seq::<QueryView>::empty()
    } else if compose_error(questions[n - 1]) is None {
        queries_from(questions, n - 1, reply_to).push(fresh_query(questions[n - 1], reply_to))
    } else {
        queries_from(questions, n - 1, reply_to)
    }
}

/// The action that puts the query `q` on the queue of the machine at
/// `requests`.
pub open spec fn submission(requests: Address, q: QueryView) -> ActionView {
    ActionView::Post { to: requests, mail: MailView::Query(q) }
}

/// The actions that submit the queries that `questions` become: one for
/// each question that can be encoded, in the order of the questions. Each
/// puts the query on the queue of the machine at `requests`; the answer is
/// to go to `receiver`.
pub open spec fn submissions(requests: Address, receiver: ChannelId, questions: Seq<QuestionView>)
    -> Seq<ActionView> {
    queries_from(questions, questions.len() as int, receiver).map_values(
        |q: QueryView| submission(requests, q),
    )
}

/// The fault of the last of the first `n` of `questions` that cannot be
/// encoded, or `None` if all of them can.
pub open spec fn last_fault(questions: Seq<QuestionView>, n: int) -> Option<ComposeError>
    decreases n,
{
    if n <= 0 {
        None
    } else if compose_error(questions[n - 1]) is Some {
        compose_error(questions[n - 1])
    } else {
        last_fault(questions, n - 1)
    }
}

/// How a step ends when the task has answered `progress` and has asked
/// questions of which the last fault is `fault`.
pub open spec fn step_outcome<T: Task>(
    requests: Address,
    receiver: ChannelId,
    progress: Progress<T, T::Success>,
    fault: Option<ComposeError>,
) -> Progress<ResolverMachine<T>, T::Success> {
    match fault {
        Some(f) => Progress::Error(Error::Encode(f)),
        None => match progress {
            Progress::Continue(task) => Progress::Continue(
                ResolverMachine { requests, receiver, task },
            ),
            Progress::Success(s) => Progress::Success(s),
            Progress::Error(e) => Progress::Error(e),
        },
    }
}

/// How a start ends when the task has become `task` and has asked
/// questions of which the last fault is `fault`.
pub open spec fn start_outcome<T: Task>(
    requests: Address,
    receiver: ChannelId,
    task: T,
    fault: Option<ComposeError>,
) -> Result<ResolverMachine<T>, Error> {
    match fault {
        Some(f) => Err(Error::Encode(f)),
        None => Ok(ResolverMachine { requests, receiver, task }),
    }
}

/// Whether `outcome` and `actions` are what a step of the machine with the
/// given channels makes of the task's answer `progress` and its `questions`.
pub open spec fn is_step<T: Task>(
    requests: Address,
    receiver: ChannelId,
    progress: Progress<T, T::Success>,
    questions: Seq<QuestionView>,
    outcome: Progress<ResolverMachine<T>, T::Success>,
    actions: Seq<ActionView>,
) -> bool {
    &&& outcome == step_outcome(
        requests,
        receiver,
        progress,
        last_fault(questions, questions.len() as int),
    )
    &&& actions == submissions(requests, receiver, questions)
}

/// Whether `outcome` and `actions` are what a start with the given channels
/// makes of the started `task` and its `questions`.
pub open spec fn is_start<T: Task>(
    requests: Address,
    receiver: ChannelId,
    task: T,
    questions: Seq<QuestionView>,
    outcome: Result<ResolverMachine<T>, Error>,
    actions: Seq<ActionView>,
) -> bool {
    &&& outcome == start_outcome(
        requests,
        receiver,
        task,
        last_fault(questions, questions.len() as int),
    )
    &&& actions == submissions(requests, receiver, questions)
}

/// How a step ends once it is known whether the queue that its queries go
/// to is there. A step that has queries to submit and no queue to put them
/// on fails with `Error::Dispatch` and submits nothing; any other step
/// stands as it is.
pub open spec fn step_checked<T: Task>(
    outcome: Progress<ResolverMachine<T>, T::Success>,
    actions: Seq<ActionView>,
    queue_there: bool,
) -> (Progress<ResolverMachine<T>, T::Success>, Seq<ActionView>) {
    if actions.len() > 0 && !queue_there {
        (Progress::Error(Error::Dispatch), Seq::empty())
    } else {
        (outcome, actions)
    }
}

/// How a start ends once it is known whether the queue that its queries go
/// to is there. A start that has queries to submit and no queue to put
/// them on fails with `Error::Dispatch` and submits nothing; any other
/// start stands as it is.
pub open spec fn start_checked<T: Task>(
    outcome: Result<ResolverMachine<T>, Error>,
    actions: Seq<ActionView>,
    queue_there: bool,
) -> (Result<ResolverMachine<T>, Error>, Seq<ActionView>) {
    if actions.len() > 0 && !queue_there {
        (Err(Error::Dispatch), Seq::empty())
    } else {
        (outcome, actions)
    }
}

/// How a step ends when its queries are submitted in the room `room`, the
/// room after it, and the effects that follow: the step as `step_checked`
/// has it for whether the machine at `requests` has a queue, with its
/// actions carried out.
pub open spec fn step_submitted<T: Task>(
    requests: Address,
    outcome: Progress<ResolverMachine<T>, T::Success>,
    actions: Seq<ActionView>,
    room: Seq<MailboxView>,
) -> (Progress<ResolverMachine<T>, T::Success>, Seq<MailboxView>, Seq<EffectView>) {
    let (checked, left) = step_checked(outcome, actions, box_of(room, requests) is Some);
    let (after, effects) = room_perform(room, left, left.len() as int);
    (checked, after, effects)
}

/// How a start ends when its queries are submitted in the room `room`, the
/// room after it, and the effects that follow.
pub open spec fn start_submitted<T: Task>(
    requests: Address,
    outcome: Result<ResolverMachine<T>, Error>,
    actions: Seq<ActionView>,
    room: Seq<MailboxView>,
) -> (Result<ResolverMachine<T>, Error>, Seq<MailboxView>, Seq<EffectView>) {
    let (checked, left) = start_checked(outcome, actions, box_of(room, requests) is Some);
    let (after, effects) = room_perform(room, left, left.len() as int);
    (checked, after, effects)
}

/// Turns questions into queries. Every question that can be encoded gives
/// a query, also behind one that cannot; the fault reported is that of the
/// last question that has one.
pub fn encode_questions(questions: Vec<Question>, reply_to: ChannelId) -> (r: (
    Vec<Query>,
    Option<ComposeError>,
))
    ensures
        query_views(r.0@) == queries_from(
            question_views(questions@),
            questions@.len() as int,
            reply_to,
        ),
        r.1 == last_fault(question_views(questions@), questions@.len() as int),
{
    let ghost qs = question_views(questions@);
    let mut queries: Vec<Query> = Vec::new();
    let mut fault: Option<ComposeError> = None;
    let mut i: usize = 0;
    while i < questions.len()
        invariant
            i <= questions.len(),
            qs == question_views(questions@),
            query_views(queries@) == queries_from(qs, i as int, reply_to),
            fault == last_fault(qs, i as int),
        decreases questions.len() - i,
    {
        assert(qs[i as int] == questions@[i as int]@);
        match MessageBuf::query_from_question(&questions[i]) {
            Ok(message) => {
                let ghost before = query_views(queries@);
                let query = Query::new(message, reply_to);
                queries.push(query);
                assert(query_views(queries@) == before.push(fresh_query(qs[i as int], reply_to)));
            },
            Err(e) => {
                fault = Some(e);
            },
        }
        i += 1;
    }
    (queries, fault)
}

/// The actions that put `queries` on the queue of the machine at
/// `requests`, in order.
pub fn submit_all(requests: Address, queries: Vec<Query>) -> (r: Vec<Action>)
    ensures
        action_views(r@) == query_views(queries@).map_values(
            |q: QueryView| submission(requests, q),
        ),
{
    let mut queries = queries;
    let ghost all = query_views(queries@);
    let ghost f = |q: QueryView| submission(requests, q);
    let mut out: Vec<Action> = Vec::new();
    assert(all.take(0).map_values(f) == action_views(out@));
    assert(all.skip(0) == all);
    while queries.len() > 0
        invariant
            f == |q: QueryView| submission(requests, q),
            out.len() + queries.len() == all.len(),
            action_views(out@) == all.take(out.len() as int).map_values(f),
            query_views(queries@) == all.skip(out.len() as int),
        decreases queries.len(),
    {
        let ghost k = out.len() as int;
        let ghost before = action_views(out@);
        let ghost rest = query_views(queries@);
        let query = queries.remove(0);
        assert(query@ == all[k]) by {
            assert(rest[0] == all.skip(k)[0]);
        }
        assert(query_views(queries@) == all.skip(k + 1)) by {
            assert(query_views(queries@) == rest.remove(0));
        }
        out.push(Action::Post { to: requests, mail: Mail::Query(query) });
        proof {
            assert(action_views(out@) == before.push(f(all[k])));
            all.lemma_take_succ_push(k);
            all.take(k).lemma_push_map_commute(f, all[k]);
        }
    }
    assert(all.take(all.len() as int) == all);
    out
}

/// The handle through which tasks are started. It names the queue on which
/// the dispatcher takes queries, and nothing else.
#[derive(Clone, Copy, Debug)]
pub struct Resolver {
    requests: Address,
}

impl Resolver {
    /// A resolver whose queries go to the queue `requests`.
    pub fn new(requests: Address) -> (r: Resolver)
        ensures
            r.requests() == requests,
    {
        Resolver { requests }
    }

    /// The queue on which the dispatcher takes the queries.
    pub closed spec fn requests(&self) -> Address {
        self.requests
    }

    /// The queue on which the dispatcher takes the queries.
    pub fn request_queue(&self) -> (a: Address)
        ensures
            a == self.requests(),
    {
        self.requests
    }

    /// Starts `task` and returns the machine that drives it, together with
    /// the actions that submit its queries. The responses are to arrive on
    /// `receiver`.
    ///
    /// The task is started once. The result is what
    /// `ResolverMachine::started` makes of the task as it is after its
    /// start and of the questions it asked.
    pub fn task<T: Task>(&self, task: T, receiver: ChannelId) -> (r: (
        Result<ResolverMachine<T>, Error>,
        Vec<Action>,
    ))
        ensures
            is_start(
                self.requests(),
                receiver,
                task.after_start().0,
                task.after_start().1,
                r.0,
                action_views(r.1@),
            ),
    {
        ResolverMachine::new(self, task, receiver)
    }
}

/// Drives one task: feeds it the responses to its questions and turns the
/// questions it asks into queries.
pub struct ResolverMachine<T: Task> {
    pub requests: Address,
    pub receiver: ChannelId,
    pub task: T,
}

impl<T: Task> ResolverMachine<T> {
    fn new(resolver: &Resolver, task: T, receiver: ChannelId) -> (r: (
        Result<ResolverMachine<T>, Error>,
        Vec<Action>,
    ))
        ensures
            is_start(
                resolver.requests(),
                receiver,
                task.after_start().0,
                task.after_start().1,
                r.0,
                action_views(r.1@),
            ),
    {
        let mut emitter = Emitter::new();
        let started = task.start(&mut emitter);
        assert(emitter@ == task.after_start().1) by {
            assert(Seq::<QuestionView>::empty() + task.after_start().1 == task.after_start().1);
        }
        let questions = emitter.into_questions();
        Self::started(resolver.requests, receiver, started, questions)
    }

    /// What a start makes of the started `task` and the `questions` it has
    /// asked: the queries for the questions that can be encoded, and the
    /// machine, unless a question could not be encoded.
    pub fn started(requests: Address, receiver: ChannelId, task: T, questions: Vec<Question>) -> (r:
        (Result<ResolverMachine<T>, Error>, Vec<Action>))
        ensures
            is_start(
                requests,
                receiver,
                task,
                question_views(questions@),
                r.0,
                action_views(r.1@),
            ),
    {
        let (queries, fault) = encode_questions(questions, receiver);
        let actions = submit_all(requests, queries);
        match fault {
            Some(f) => (Err(Error::from(f)), actions),
            None => (Ok(ResolverMachine { requests, receiver, task }), actions),
        }
    }

    /// Settles a start once it is known whether the queue that its queries
    /// go to is there: with queries to submit and no queue, the start fails
    /// with `Error::Dispatch`.
    pub fn check_start(turn: (Result<ResolverMachine<T>, Error>, Vec<Action>), queue_there: bool)
        -> (r: (Result<ResolverMachine<T>, Error>, Vec<Action>))
        ensures
            (r.0, action_views(r.1@)) == start_checked(turn.0, action_views(turn.1@), queue_there),
    {
        let (outcome, actions) = turn;
        if actions.len() > 0 && !queue_there {
            let none: Vec<Action> = Vec::new();
            assert(action_views(none@) == Seq::<ActionView>::empty());
            (Err(Error::Dispatch), none)
        } else {
            (outcome, actions)
        }
    }

    /// Settles a step once it is known whether the queue that its queries
    /// go to is there: with queries to submit and no queue, the step fails
    /// with `Error::Dispatch`.
    pub fn check_step(
        turn: (Progress<ResolverMachine<T>, T::Success>, Vec<Action>),
        queue_there: bool,
    ) -> (r: (Progress<ResolverMachine<T>, T::Success>, Vec<Action>))
        ensures
            (r.0, action_views(r.1@)) == step_checked(turn.0, action_views(turn.1@), queue_there),
    {
        let (outcome, actions) = turn;
        if actions.len() > 0 && !queue_there {
            let none: Vec<Action> = Vec::new();
            assert(action_views(none@) == Seq::<ActionView>::empty());
            (Progress::Error(Error::Dispatch), none)
        } else {
            (outcome, actions)
        }
    }

    /// Submits the queries of a start in `room`. If the machine at
    /// `requests` has no queue there, and there is a query to submit, the
    /// start fails with `Error::Dispatch` and the room stays as it is.
    pub fn submit_start(
        requests: Address,
        turn: (Result<ResolverMachine<T>, Error>, Vec<Action>),
        room: &mut Mailroom,
    ) -> (r: (Result<ResolverMachine<T>, Error>, Vec<Effect>))
        ensures
            (r.0, final(room)@, effect_views(r.1@)) == start_submitted(
                requests,
                turn.0,
                action_views(turn.1@),
                old(room)@,
            ),
    {
        let there = room.has(requests);
        let (outcome, actions) = Self::check_start(turn, there);
        let effects = room.perform(actions);
        (outcome, effects)
    }

    /// Submits the queries of a step in `room`. If the machine at
    /// `requests` has no queue there, and there is a query to submit, the
    /// step fails with `Error::Dispatch` and the room stays as it is.
    pub fn submit_step(
        requests: Address,
        turn: (Progress<ResolverMachine<T>, T::Success>, Vec<Action>),
        room: &mut Mailroom,
    ) -> (r: (Progress<ResolverMachine<T>, T::Success>, Vec<Effect>))
        ensures
            (r.0, final(room)@, effect_views(r.1@)) == step_submitted(
                requests,
                turn.0,
                action_views(turn.1@),
                old(room)@,
            ),
    {
        let there = room.has(requests);
        let (outcome, actions) = Self::check_step(turn, there);
        let effects = room.perform(actions);
        (outcome, effects)
    }

    /// One step without waiting. `received` is what a `try_recv` on the
    /// machine's receiver gave: with nothing there the machine stays as it
    /// is; with the senders gone the task fails with `Error::Timeout`;
    /// a response goes to the task, as in `progress`.
    pub fn wakeup(self, received: Result<Result<MessageBuf, Error>, TryRecvError>) -> (r: (
        Progress<ResolverMachine<T>, T::Success>,
        Vec<Action>,
    ))
        ensures
            received == Err::<Result<MessageBuf, Error>, TryRecvError>(TryRecvError::Empty) ==> r.0
                == Progress::<ResolverMachine<T>, T::Success>::Continue(self) && r.1@.len() == 0,
            received == Err::<Result<MessageBuf, Error>, TryRecvError>(TryRecvError::Disconnected)
                ==> r.0 == Progress::<ResolverMachine<T>, T::Success>::Error(Error::Timeout)
                && r.1@.len() == 0,
            received matches Ok(response) ==> is_step(
                self.requests,
                self.receiver,
                self.task.after_progress(outcome_view(response)).0,
                self.task.after_progress(outcome_view(response)).1,
                r.0,
                action_views(r.1@),
            ),
    {
        match received {
            Ok(response) => self.progress(response),
            Err(TryRecvError::Empty) => (Progress::Continue(self), Vec::new()),
            Err(TryRecvError::Disconnected) => (Progress::Error(Error::Timeout), Vec::new()),
        }
    }

    /// One step after waiting. `received` is what a blocking `recv` on the
    /// machine's receiver gave: if it gave up the task fails with
    /// `Error::Timeout`; a response goes to the task, as in `progress`.
    pub fn step(self, received: Result<Result<MessageBuf, Error>, RecvError>) -> (r: (
        Progress<ResolverMachine<T>, T::Success>,
        Vec<Action>,
    ))
        ensures
            received is Err ==> r.0 == Progress::<ResolverMachine<T>, T::Success>::Error(
                Error::Timeout,
            ) && r.1@.len() == 0,
            received matches Ok(response) ==> is_step(
                self.requests,
                self.receiver,
                self.task.after_progress(outcome_view(response)).0,
                self.task.after_progress(outcome_view(response)).1,
                r.0,
                action_views(r.1@),
            ),
    {
        match received {
            Ok(response) => self.progress(response),
            Err(_) => (Progress::Error(Error::Timeout), Vec::new()),
        }
    }

    /// Hands `response` to the task, as it is, once: a failure goes to the
    /// task like an answer. The result is what `advanced` makes of how
    /// the task goes on and of the questions it asked.
    pub fn progress(self, response: Result<MessageBuf, Error>) -> (r: (
        Progress<ResolverMachine<T>, T::Success>,
        Vec<Action>,
    ))
        ensures
            is_step(
                self.requests,
                self.receiver,
                self.task.after_progress(outcome_view(response)).0,
                self.task.after_progress(outcome_view(response)).1,
                r.0,
                action_views(r.1@),
            ),
    {
        let requests = self.requests;
        let receiver = self.receiver;
        let ghost asked = self.task.after_progress(outcome_view(response)).1;
        let mut emitter = Emitter::new();
        let progress = self.task.progress(response, &mut emitter);
        assert(emitter@ == asked) by {
            assert(Seq::<QuestionView>::empty() + asked == asked);
        }
        let questions = emitter.into_questions();
        Self::advanced(requests, receiver, progress, questions)
    }

    /// What a step makes of the task's answer `progress` and the
    /// `questions` it has asked: the queries for the questions that can be
    /// encoded; and the failure of the step if a question could not be
    /// encoded, else the task's answer with the machine around the task
    /// that goes on.
    pub fn advanced(
        requests: Address,
        receiver: ChannelId,
        progress: Progress<T, T::Success>,
        questions: Vec<Question>,
    ) -> (r: (Progress<ResolverMachine<T>, T::Success>, Vec<Action>))
        ensures
            is_step(
                requests,
                receiver,
                progress,
                question_views(questions@),
                r.0,
                action_views(r.1@),
            ),
    {
        let (queries, fault) = encode_questions(questions, receiver);
        let actions = submit_all(requests, queries);
        match fault {
            Some(f) => (Progress::Error(Error::from(f)), actions),
            None => match progress {
                Progress::Continue(task) => (
                    Progress::Continue(ResolverMachine { requests, receiver, task }),
                    actions,
                ),
                Progress::Success(s) => (Progress::Success(s), actions),
                Progress::Error(e) => (Progress::Error(e), actions),
            },
        }
    }
}

/// Whether `q` is the fresh query for one of the first `n` of `questions`
/// that can be encoded.
pub open spec fn asks_one_of(
    q: QueryView,
    questions: Seq<QuestionView>,
    n: int,
    reply_to: ChannelId,
) -> bool {
    exists|k: int|
        0 <= k < n && compose_error(#[trigger] questions[k]) is None && q == fresh_query(
            questions[k],
            reply_to,
        )
}

/// Every query that the first `n` of `questions` become is fresh: it has
/// not been sent, its answer goes to `reply_to`, and it asks one of the
/// questions that can be encoded. There are no more queries than
/// questions.
pub proof fn lemma_queries_are_fresh(questions: Seq<QuestionView>, n: int, reply_to: ChannelId)
    requires
        0 <= n <= questions.len(),
    ensures
        queries_from(questions, n, reply_to).len() <= n,
        forall|i: int|
            0 <= i < queries_from(questions, n, reply_to).len() ==> asks_one_of(
                #[trigger] queries_from(questions, n, reply_to)[i],
                questions,
                n,
                reply_to,
            ),
    decreases n,
{
    if n > 0 {
        lemma_queries_are_fresh(questions, n - 1, reply_to);
        let before = queries_from(questions, n - 1, reply_to);
        let all = queries_from(questions, n, reply_to);
        assert forall|i: int| 0 <= i < all.len() implies asks_one_of(
            #[trigger] all[i],
            questions,
            n,
            reply_to,
        ) by {
            if i < before.len() {
                assert(all[i] == before[i]);
                assert(asks_one_of(before[i], questions, n - 1, reply_to));
                let k = choose|k: int|
                    0 <= k < n - 1 && compose_error(#[trigger] questions[k]) is None && before[i]
                        == fresh_query(questions[k], reply_to);
                assert(0 <= k < n && compose_error(questions[k]) is None);
            } else {
                assert(compose_error(questions[n - 1]) is None);
                assert(all[i] == fresh_query(questions[n - 1], reply_to));
            }
        }
    }
}

/// Everything that a start or a step submits goes to the queue of the
/// machine at `requests`, and the answer to it is to come back to
/// `receiver`: a task is answered on its own queue and on no other.
pub proof fn lemma_submissions_come_back(
    requests: Address,
    receiver: ChannelId,
    questions: Seq<QuestionView>,
    i: int,
)
    requires
        0 <= i < submissions(requests, receiver, questions).len(),
    ensures
        submissions(requests, receiver, questions)[i] matches ActionView::Post {
            to,
            mail: MailView::Query(q),
        } && to == requests && q.reply_to == receiver && q.attempts == 0,
{
    lemma_queries_are_fresh(questions, questions.len() as int, receiver);
    let queries = queries_from(questions, questions.len() as int, receiver);
    assert(asks_one_of(queries[i], questions, questions.len() as int, receiver));
}

/// A step that has a query to submit when the queue of the machine at
/// `requests` is gone fails with `Error::Dispatch`, whatever the task
/// answered; nothing is submitted, and the room stays as it is.
pub proof fn lemma_step_fails_without_queue<T: Task>(
    requests: Address,
    outcome: Progress<ResolverMachine<T>, T::Success>,
    actions: Seq<ActionView>,
    room: Seq<MailboxView>,
)
    requires
        actions.len() > 0,
        box_of(room, requests) is None,
    ensures
        step_submitted(requests, outcome, actions, room) == (
            Progress::<ResolverMachine<T>, T::Success>::Error(Error::Dispatch),
            room,
            Seq::<EffectView>::empty(),
        ),
{
}

/// A step whose queue is there, or which has nothing to submit, ends as
/// the task and the encoding of its questions have it.
pub proof fn lemma_step_stands_with_queue<T: Task>(
    requests: Address,
    outcome: Progress<ResolverMachine<T>, T::Success>,
    actions: Seq<ActionView>,
    room: Seq<MailboxView>,
)
    requires
        actions.len() == 0 || box_of(room, requests) is Some,
    ensures
        step_submitted(requests, outcome, actions, room).0 == outcome,
{
}

} // verus!
