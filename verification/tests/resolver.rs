use stub_resolver::action::Action;
use stub_resolver::action::Address;
use stub_resolver::action::Mail;
use stub_resolver::error::ComposeError;
use stub_resolver::error::Error;
use stub_resolver::message::MessageBuf;
use stub_resolver::message::Question;
use stub_resolver::query::ChannelId;
use stub_resolver::query::Query;
use stub_resolver::resolver::Resolver;
use stub_resolver::resolver::ResolverMachine;
use stub_resolver::sync::RecvError;
use stub_resolver::sync::TryRecvError;
use stub_resolver::task::Emitter;
use stub_resolver::task::Progress;
use stub_resolver::task::Task;

fn name(text: &str) -> Vec<Vec<u8>> {
    text.split('.').map(|label| label.as_bytes().to_vec()).collect()
}

/// The queries that `actions` submit to the dispatcher.
fn submitted(actions: Vec<Action>) -> Vec<Query> {
    actions
        .into_iter()
        .map(|a| match a {
            Action::Post { to: Address::Dispatcher, mail: Mail::Query(q) } => q,
            other => panic!("expected a query for the dispatcher, got {:?}", other),
        })
        .collect()
}

/// Asks one question and succeeds with the identifier of the first answer.
struct Lookup {
    name: Vec<Vec<u8>>,
}

impl Task for Lookup {
    type Success = u16;

    fn start(self, emit: &mut Emitter) -> Self {
        emit.emit(self.name.clone(), 1, 1);
        self
    }

    fn progress(self, response: Result<MessageBuf, Error>, _emit: &mut Emitter) -> Progress<Self, u16> {
        match response {
            Ok(message) => Progress::Success(message.id()),
            Err(e) => Progress::Error(e),
        }
    }
}

#[test]
fn start_emits_one_query() {
    let resolver = Resolver::new(Address::Dispatcher);
    let (machine, actions) = resolver.task(Lookup { name: name("www.example.com") }, ChannelId(9));
    let queries = submitted(actions);
    let machine = machine.ok().expect("the question can be encoded");
    assert_eq!(machine.requests, Address::Dispatcher);
    assert_eq!(machine.receiver, ChannelId(9));
    assert_eq!(queries.len(), 1);
    assert_eq!(queries[0].reply_to, ChannelId(9));
    assert_eq!(queries[0].attempts, 0);
    let mut expected = vec![0u8, 0, 1, 0, 0, 1, 0, 0, 0, 0, 0, 0];
    expected.extend_from_slice(b"\x03www\x07example\x03com\x00");
    expected.extend_from_slice(&[0, 1, 0, 1]);
    assert_eq!(queries[0].message.as_bytes(), &expected);
}

#[test]
fn start_fails_on_empty_label() {
    let resolver = Resolver::new(Address::Dispatcher);
    let (machine, actions) = resolver.task(Lookup { name: name("www..com") }, ChannelId(9));
    let queries = submitted(actions);
    assert!(matches!(machine, Err(Error::Encode(ComposeError::EmptyLabel))));
    assert!(queries.is_empty());
}

#[test]
fn wakeup_with_nothing_waiting_keeps_the_machine() {
    let resolver = Resolver::new(Address::Dispatcher);
    let (machine, _) = resolver.task(Lookup { name: name("a") }, ChannelId(2));
    let (progress, actions) = machine.ok().unwrap().wakeup(Err(TryRecvError::Empty));
    let queries = submitted(actions);
    assert!(matches!(progress, Progress::Continue(_)));
    assert!(queries.is_empty());
}

#[test]
fn wakeup_with_senders_gone_is_a_timeout() {
    let resolver = Resolver::new(Address::Dispatcher);
    let (machine, _) = resolver.task(Lookup { name: name("a") }, ChannelId(2));
    let (progress, _) = machine.ok().unwrap().wakeup(Err(TryRecvError::Disconnected));
    assert!(matches!(progress, Progress::Error(Error::Timeout)));
}

#[test]
fn step_with_receive_failure_is_a_timeout() {
    let resolver = Resolver::new(Address::Dispatcher);
    let (machine, _) = resolver.task(Lookup { name: name("a") }, ChannelId(2));
    let (progress, _) = machine.ok().unwrap().step(Err(RecvError));
    assert!(matches!(progress, Progress::Error(Error::Timeout)));
}

#[test]
fn question_fields() {
    let q = Question::new(name("a.b"), 28, 1);
    assert_eq!(q.name.len(), 2);
    assert_eq!(q.qtype, 28);
    assert_eq!(q.qclass, 1);
}

#[test]
fn machine_type_is_nameable() {
    fn takes(_: Option<ResolverMachine<Lookup>>) {}
    takes(None);
}

/// Asks the questions it is given at the start, and with every answer asks
/// the follow-up questions; succeeds with the number of answers after the
/// given number of them.
struct Chain {
    first: Vec<Vec<Vec<u8>>>,
    follow_up: Vec<Vec<Vec<u8>>>,
    wanted: usize,
    seen: usize,
}

impl Task for Chain {
    type Success = usize;

    fn start(self, emit: &mut Emitter) -> Self {
        for name in self.first.iter() {
            emit.emit(name.clone(), 1, 1);
        }
        self
    }

    fn progress(mut self, response: Result<MessageBuf, Error>, emit: &mut Emitter) -> Progress<Self, usize> {
        if let Err(e) = response {
            return Progress::Error(e);
        }
        self.seen += 1;
        for name in self.follow_up.iter() {
            emit.emit(name.clone(), 28, 1);
        }
        if self.seen == self.wanted {
            Progress::Success(self.seen)
        } else {
            Progress::Continue(self)
        }
    }
}

fn answer() -> Result<MessageBuf, Error> {
    Ok(MessageBuf::from_bytes(vec![0, 0, 0x80, 0, 0, 0, 0, 0, 0, 0, 0, 0]).unwrap())
}

#[test]
fn start_without_questions_gives_a_machine_and_no_query() {
    let resolver = Resolver::new(Address::Dispatcher);
    let task = Chain { first: Vec::new(), follow_up: Vec::new(), wanted: 1, seen: 0 };
    let (machine, actions) = resolver.task(task, ChannelId(2));
    let queries = submitted(actions);
    assert!(machine.is_ok());
    assert!(queries.is_empty());
}

#[test]
fn every_encodable_question_becomes_a_query_in_order() {
    let resolver = Resolver::new(Address::Dispatcher);
    let task = Chain {
        first: vec![name("a"), name("b.c"), name("d")],
        follow_up: Vec::new(),
        wanted: 1,
        seen: 0,
    };
    let (machine, actions) = resolver.task(task, ChannelId(2));
    let queries = submitted(actions);
    assert!(machine.is_ok());
    let firsts: Vec<u8> = queries.iter().map(|q| q.message.as_bytes()[13]).collect();
    assert_eq!(firsts, vec![b'a', b'b', b'd']);
    assert!(queries.iter().all(|q| q.reply_to == ChannelId(2) && q.attempts == 0));
    assert!(queries.iter().all(|q| q.message.id() == 0));
}

#[test]
fn start_reports_the_last_fault_and_still_hands_out_the_other_queries() {
    let resolver = Resolver::new(Address::Dispatcher);
    let task = Chain {
        first: vec![name("a"), name("x..y"), name("b"), vec![vec![b'z'; 64]], name("c")],
        follow_up: Vec::new(),
        wanted: 1,
        seen: 0,
    };
    let (machine, actions) = resolver.task(task, ChannelId(2));
    let queries = submitted(actions);
    assert!(matches!(machine, Err(Error::Encode(ComposeError::LongLabel))));
    let firsts: Vec<u8> = queries.iter().map(|q| q.message.as_bytes()[13]).collect();
    assert_eq!(firsts, vec![b'a', b'b', b'c']);
}

#[test]
fn progress_wraps_the_task_that_goes_on() {
    let resolver = Resolver::new(Address::Dispatcher);
    let task = Chain { first: vec![name("a")], follow_up: vec![name("b")], wanted: 2, seen: 0 };
    let (machine, _) = resolver.task(task, ChannelId(2));
    let (progress, actions) = machine.ok().unwrap().progress(answer());
    let queries = submitted(actions);
    assert_eq!(queries.len(), 1);
    assert_eq!(queries[0].message.as_bytes()[13], b'b');
    assert_eq!(&queries[0].message.as_bytes()[15..], &[0, 28, 0, 1]);
    let machine = match progress {
        Progress::Continue(m) => m,
        _ => panic!("expected the task to go on"),
    };
    assert_eq!(machine.requests, Address::Dispatcher);
    assert_eq!(machine.receiver, ChannelId(2));
    assert_eq!(machine.task.seen, 1);
    let (progress, actions) = machine.wakeup(Ok(answer()));
    let queries = submitted(actions);
    assert_eq!(queries.len(), 1);
    assert!(matches!(progress, Progress::Success(2)));
}

#[test]
fn progress_fails_the_step_when_a_question_cannot_be_encoded() {
    let resolver = Resolver::new(Address::Dispatcher);
    let task =
        Chain { first: vec![name("a")], follow_up: vec![name("b"), name("")], wanted: 1, seen: 0 };
    let (machine, _) = resolver.task(task, ChannelId(2));
    // The task itself would succeed; the fault in its question wins.
    let (progress, actions) = machine.ok().unwrap().step(Ok(answer()));
    let queries = submitted(actions);
    assert!(matches!(progress, Progress::Error(Error::Encode(ComposeError::EmptyLabel))));
    assert_eq!(queries.len(), 1);
}

#[test]
fn failure_of_a_query_reaches_the_task() {
    let resolver = Resolver::new(Address::Dispatcher);
    let task = Chain { first: vec![name("a")], follow_up: Vec::new(), wanted: 1, seen: 0 };
    let (machine, _) = resolver.task(task, ChannelId(2));
    let (progress, actions) = machine.ok().unwrap().step(Ok(Err(Error::Connection)));
    let queries = submitted(actions);
    assert!(queries.is_empty());
    assert!(matches!(progress, Progress::Error(Error::Connection)));
}

#[test]
fn started_and_advanced_take_the_answer_of_the_task_as_given() {
    let q = |label: &str| Question::new(name(label), 1, 1);
    let to = Address::Transport(stub_resolver::conf::TransportId {
        server: 1,
        protocol: stub_resolver::conf::Protocol::Udp,
    });
    let (machine, actions) =
        ResolverMachine::started(to, ChannelId(4), Lookup { name: name("n") }, vec![q("a")]);
    assert!(matches!(&actions[0], Action::Post { to: t, mail: Mail::Query(_) } if *t == to));
    let queries = actions;
    let machine = machine.ok().unwrap();
    assert_eq!((machine.requests, machine.receiver), (to, ChannelId(4)));
    assert_eq!(queries.len(), 1);
    let (progress, actions) = ResolverMachine::<Lookup>::advanced(
        Address::Dispatcher,
        ChannelId(4),
        Progress::Success(9),
        vec![q("b"), q("c")],
    );
    let queries = submitted(actions);
    assert!(matches!(progress, Progress::Success(9)));
    assert_eq!(queries.len(), 2);
    let (progress, _) = ResolverMachine::<Lookup>::advanced(
        Address::Dispatcher,
        ChannelId(4),
        Progress::Error(Error::Timeout),
        Vec::new(),
    );
    assert!(matches!(progress, Progress::Error(Error::Timeout)));
    let (progress, _) = ResolverMachine::<Lookup>::advanced(
        Address::Dispatcher,
        ChannelId(4),
        Progress::Success(9),
        vec![q("")],
    );
    assert!(matches!(progress, Progress::Error(Error::Encode(ComposeError::EmptyLabel))));
}

#[test]
fn step_with_a_query_and_no_queue_fails_with_dispatch_error() {
    let resolver = Resolver::new(Address::Dispatcher);
    let task = Chain { first: vec![name("a")], follow_up: vec![name("b")], wanted: 1, seen: 0 };
    let (machine, _) = resolver.task(task, ChannelId(2));
    // The task succeeds and asks one more question.
    let turn = machine.ok().unwrap().step(Ok(answer()));
    assert!(matches!(turn.0, Progress::Success(1)));
    assert_eq!(turn.1.len(), 1);
    let (progress, actions) = ResolverMachine::check_step(turn, false);
    assert!(matches!(progress, Progress::Error(Error::Dispatch)));
    assert!(actions.is_empty());
}

#[test]
fn step_with_a_queue_or_without_queries_stands() {
    let resolver = Resolver::new(Address::Dispatcher);
    let task = Chain { first: vec![name("a")], follow_up: vec![name("b")], wanted: 1, seen: 0 };
    let (machine, _) = resolver.task(task, ChannelId(2));
    let turn = machine.ok().unwrap().step(Ok(answer()));
    let (progress, actions) = ResolverMachine::check_step(turn, true);
    assert!(matches!(progress, Progress::Success(1)));
    assert_eq!(actions.len(), 1);
    // Nothing to submit: the missing queue does not matter.
    let task = Chain { first: vec![name("a")], follow_up: Vec::new(), wanted: 1, seen: 0 };
    let (machine, _) = resolver.task(task, ChannelId(2));
    let turn = machine.ok().unwrap().step(Ok(answer()));
    let (progress, actions) = ResolverMachine::check_step(turn, false);
    assert!(matches!(progress, Progress::Success(1)));
    assert!(actions.is_empty());
}

#[test]
fn start_with_a_query_and_no_queue_fails_with_dispatch_error() {
    let resolver = Resolver::new(Address::Dispatcher);
    let turn = resolver.task(Lookup { name: name("a") }, ChannelId(2));
    let (machine, actions) = ResolverMachine::check_start(turn, false);
    assert!(matches!(machine, Err(Error::Dispatch)));
    assert!(actions.is_empty());
    let turn = resolver.task(Lookup { name: name("a") }, ChannelId(2));
    let (machine, actions) = ResolverMachine::check_start(turn, true);
    assert!(machine.is_ok());
    assert_eq!(actions.len(), 1);
    // A start that failed on its own keeps its error when nothing is to be submitted.
    let turn = resolver.task(Lookup { name: name("") }, ChannelId(2));
    let (machine, _) = ResolverMachine::check_start(turn, false);
    assert!(matches!(machine, Err(Error::Encode(ComposeError::EmptyLabel))));
}

#[test]
fn submitting_in_a_room_puts_the_queries_on_the_dispatcher_queue() {
    let resolver = Resolver::new(Address::Dispatcher);
    let mut room = stub_resolver::mailroom::Mailroom::new();
    // No dispatcher: the start fails, and nothing is delivered or queued.
    let turn = resolver.task(Lookup { name: name("a") }, ChannelId(2));
    let (machine, effects) = ResolverMachine::submit_start(Address::Dispatcher, turn, &mut room);
    assert!(matches!(machine, Err(Error::Dispatch)));
    assert!(effects.is_empty());
    // With the dispatcher there, the query waits on its queue.
    room.attach(Address::Dispatcher);
    let turn = resolver.task(Lookup { name: name("a") }, ChannelId(2));
    let (machine, effects) = ResolverMachine::submit_start(Address::Dispatcher, turn, &mut room);
    assert_eq!(effects.len(), 1);
    assert!(matches!(effects[0], stub_resolver::mailroom::Effect::Wake(Address::Dispatcher)));
    let turn = machine.ok().unwrap().step(Ok(answer()));
    let (progress, effects) = ResolverMachine::submit_step(Address::Dispatcher, turn, &mut room);
    assert!(matches!(progress, Progress::Success(_)));
    assert!(effects.is_empty());
    let mail = room.take(Address::Dispatcher);
    assert_eq!(mail.len(), 1);
    assert!(matches!(&mail[0], Mail::Query(q) if q.reply_to == ChannelId(2)));
}

#[test]
fn failure_is_handed_to_the_task_as_it_is() {
    /// Turns a timeout into a success and passes every other failure on.
    struct Forgiving;
    impl Task for Forgiving {
        type Success = &'static str;
        fn start(self, _emit: &mut Emitter) -> Self {
            self
        }
        fn progress(
            self,
            response: Result<MessageBuf, Error>,
            _emit: &mut Emitter,
        ) -> Progress<Self, &'static str> {
            match response {
                Err(Error::Timeout) => Progress::Success("forgiven"),
                Err(e) => Progress::Error(e),
                Ok(_) => Progress::Success("answered"),
            }
        }
    }
    let resolver = Resolver::new(Address::Dispatcher);
    let (machine, _) = resolver.task(Forgiving, ChannelId(2));
    let (progress, _) = machine.ok().unwrap().progress(Err(Error::Timeout));
    assert!(matches!(progress, Progress::Success("forgiven")));
    let (machine, _) = resolver.task(Forgiving, ChannelId(2));
    let (progress, _) = machine.ok().unwrap().step(Ok(Err(Error::Connection)));
    assert!(matches!(progress, Progress::Error(Error::Connection)));
    let (machine, _) = resolver.task(Forgiving, ChannelId(2));
    let (progress, _) = machine.ok().unwrap().wakeup(Ok(answer()));
    assert!(matches!(progress, Progress::Success("answered")));
}
