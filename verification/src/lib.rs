//! Concurrent directory-tree copy, as a set of verified decision procedures.
//!
//! Every part of the program that touches the file system or a thread is
//! written here as a state machine: the machine says which operation it needs
//! next, the driver performs it and hands back what happened. All decisions
//! (which directory to create, which entry becomes a copy job, when a
//! destination file is replaced, when the run ends) are taken here.
//!
//! This file holds the run as a whole: the arguments are checked, the
//! traversal is launched, and the results of the copy jobs are gathered
//! until every job has reported or one has failed.

pub mod cli;
pub mod directory_traversal;
pub mod mirror_laws;
pub mod once_laws;
pub mod path;
pub mod pool_laws;
pub mod run_laws;
pub mod sync;
pub mod sync_laws;
pub mod thread_pool;
pub mod traversal_laws;

pub use crate::cli::Cli;
use crate::cli::{
    validate_args, Answer, AnswerView, ArgError, CliView, Probe, ProbeView, Validation,
    ValidationView, Verdict, VerdictView,
};
use crate::directory_traversal::{WalkError, WalkErrorView};
use crate::sync::{SyncError, SyncErrorView};
use vstd::prelude::*;

verus! {

/// What the tasks of a run report to the one who gathers the results.
#[derive(Debug, PartialEq, Eq)]
pub enum Message<E> {
    /// A job is done, with this many bytes copied.
    Copied(u64),
    /// The traversal has yielded its last job.
    Traversed,
    /// The traversal failed.
    WalkFailed(WalkError<E>),
    /// A job failed.
    CopyFailed(SyncError<E>),
}

/// The mathematical value of a [`Message`].
pub enum MessageView<E> {
    Copied(u64),
    Traversed,
    WalkFailed(WalkErrorView<E>),
    CopyFailed(SyncErrorView<E>),
}

impl<E> View for Message<E> {
    type V = MessageView<E>;

    open spec fn view(&self) -> MessageView<E> {
        match self {
            Message::Copied(n) => MessageView::Copied(*n),
            Message::Traversed => MessageView::Traversed,
            Message::WalkFailed(e) => MessageView::WalkFailed(e@),
            Message::CopyFailed(e) => MessageView::CopyFailed(e@),
        }
    }
}

impl<E> Message<E> {
    /// The message that reports how a job ended.
    pub fn of_job(result: Result<u64, SyncError<E>>) -> (message: Message<E>)
        ensures
            message@ == (match result {
                Ok(bytes) => MessageView::Copied(bytes),
                Err(error) => MessageView::CopyFailed(error@),
            }),
    {
        match result {
            Ok(bytes) => Message::Copied(bytes),
            Err(error) => Message::CopyFailed(error),
        }
    }
}

/// Why a run failed.
#[derive(Debug, PartialEq, Eq)]
pub enum RunError<E> {
    /// The arguments were turned down.
    Argument(ArgError),
    /// The traversal failed.
    Walk(WalkError<E>),
    /// A job failed.
    Copy(SyncError<E>),
    /// More bytes were copied than can be counted.
    Overflow,
    /// The driver handed over an event that does not fit the state of the run.
    Unexpected,
}

/// The mathematical value of a [`RunError`].
pub enum RunErrorView<E> {
    Argument(ArgError),
    Walk(WalkErrorView<E>),
    Copy(SyncErrorView<E>),
    Overflow,
    Unexpected,
}

impl<E> View for RunError<E> {
    type V = RunErrorView<E>;

    open spec fn view(&self) -> RunErrorView<E> {
        match self {
            RunError::Argument(e) => RunErrorView::Argument(*e),
            RunError::Walk(e) => RunErrorView::Walk(e@),
            RunError::Copy(e) => RunErrorView::Copy(e@),
            RunError::Overflow => RunErrorView::Overflow,
            RunError::Unexpected => RunErrorView::Unexpected,
        }
    }
}

/// What happened since the last call.
#[derive(Debug, PartialEq, Eq)]
pub enum Event<E> {
    /// The answer to the question asked by [`Action::Probe`].
    Answer(Answer),
    /// The workers are running and the traversal has been handed to them.
    Launched,
    /// A task has reported.
    Message(Message<E>),
    /// Every task has ended: no message will come any more.
    Closed,
}

/// The mathematical value of an [`Event`].
pub enum EventView<E> {
    Answer(AnswerView),
    Launched,
    Message(MessageView<E>),
    Closed,
}

impl<E> View for Event<E> {
    type V = EventView<E>;

    open spec fn view(&self) -> EventView<E> {
        match self {
            Event::Answer(a) => EventView::Answer(a@),
            Event::Launched => EventView::Launched,
            Event::Message(m) => EventView::Message(m@),
            Event::Closed => EventView::Closed,
        }
    }
}

/// What the driver of a run is to do next.
#[derive(Debug, PartialEq, Eq)]
pub enum Action<E> {
    /// Answer this question about the arguments.
    Probe(Probe),
    /// Start the workers and hand them the traversal of `src` into `dest`, as
    /// these arguments name them.
    Launch(Cli),
    /// Wait for the next message of a task, or for the end of all tasks.
    Receive,
    /// The run is over: the number of bytes copied, or the error that ended
    /// it.
    Finish(Result<u64, RunError<E>>),
    /// The run was over before this call.
    Stopped,
}

/// The mathematical value of an [`Action`].
pub enum ActionView<E> {
    Probe(ProbeView),
    Launch(CliView),
    Receive,
    Finished(u64),
    Failed(RunErrorView<E>),
    Stopped,
}

impl<E> View for Action<E> {
    type V = ActionView<E>;

    open spec fn view(&self) -> ActionView<E> {
        match self {
            Action::Probe(p) => ActionView::Probe(p@),
            Action::Launch(c) => ActionView::Launch(c@),
            Action::Receive => ActionView::Receive,
            Action::Finish(Ok(n)) => ActionView::Finished(*n),
            Action::Finish(Err(e)) => ActionView::Failed(e@),
            Action::Stopped => ActionView::Stopped,
        }
    }
}

/// How far a run has come.
#[derive(Clone, Copy, Debug, PartialEq, Eq, Structural)]
pub enum Phase {
    /// No work has started: the arguments are being checked.
    Idle,
    /// The arguments have passed; the workers are being started.
    Launching,
    /// The tree is being traversed and jobs are being carried out.
    Running,
    /// The traversal is over; jobs are still being carried out.
    Draining,
    /// Every task has ended and none has failed.
    Done,
    /// The run has failed.
    Failed,
}

/// The mathematical value of a [`Run`].
pub struct RunView {
    pub validation: ValidationView,
    pub phase: Phase,
    /// The bytes copied by the jobs that have reported so far.
    pub total: u64,
}

impl RunView {
    /// The run in the phase `phase`.
    pub open spec fn at(self, phase: Phase) -> RunView {
        RunView { phase, ..self }
    }

    /// The run failing with `error`.
    pub open spec fn fail<E>(self, error: RunErrorView<E>) -> (RunView, ActionView<E>) {
        (self.at(Phase::Failed), ActionView::Failed(error))
    }

    /// What a verdict on the arguments leads to.
    pub open spec fn judged<E>(self, judged: (ValidationView, VerdictView)) -> (
        RunView,
        ActionView<E>,
    ) {
        let run = RunView { validation: judged.0, ..self };
        match judged.1 {
            VerdictView::Ask(probe) => (run.at(Phase::Idle), ActionView::Probe(probe)),
            VerdictView::Accept(args) => (run.at(Phase::Launching), ActionView::Launch(args)),
            VerdictView::Reject(error) => run.fail(RunErrorView::Argument(error)),
        }
    }

    /// How the run with the arguments `args` begins.
    pub open spec fn begin<E>(args: CliView) -> (RunView, ActionView<E>) {
        let start = ValidationView::begin(args);
        RunView { validation: start.0, phase: Phase::Idle, total: 0 }.judged(start)
    }

    /// What a message of a task leads to while the run gathers results.
    pub open spec fn on_message<E>(self, message: MessageView<E>) -> (RunView, ActionView<E>) {
        match message {
            MessageView::Copied(bytes) => if self.total + bytes > u64::MAX {
                self.fail(RunErrorView::Overflow)
            } else {
                (RunView { total: (self.total + bytes) as u64, ..self }, ActionView::Receive)
            },
            MessageView::Traversed => (self.at(Phase::Draining), ActionView::Receive),
            MessageView::WalkFailed(error) => self.fail(RunErrorView::Walk(error)),
            MessageView::CopyFailed(error) => self.fail(RunErrorView::Copy(error)),
        }
    }

    /// The transition function of a run: the state and the action that
    /// follow from the state `self` and the event `event`.
    pub open spec fn next<E>(self, event: EventView<E>) -> (RunView, ActionView<E>) {
        match self.phase {
            Phase::Idle => match event {
                EventView::Answer(answer) => self.judged(self.validation.next(answer)),
                _ => self.fail(RunErrorView::Unexpected),
            },
            Phase::Launching => match event {
                EventView::Launched => (self.at(Phase::Running), ActionView::Receive),
                _ => self.fail(RunErrorView::Unexpected),
            },
            Phase::Running | Phase::Draining => match event {
                EventView::Message(message) => self.on_message(message),
                EventView::Closed => (self.at(Phase::Done), ActionView::Finished(self.total)),
                _ => self.fail(RunErrorView::Unexpected),
            },
            Phase::Done | Phase::Failed => (self, ActionView::Stopped),
        }
    }

    /// The state reached from `self` by the events `events`, in order.
    pub open spec fn after<E>(self, events: Seq<EventView<E>>) -> RunView
        decreases events.len(),
    {
        if events.len() == 0 {
            self
        } else {
            self.after(events.drop_last()).next(events.last()).0
        }
    }

    /// What the run answers to the event at position `k` of `events`.
    pub open spec fn action_at<E>(self, events: Seq<EventView<E>>, k: int) -> ActionView<E> {
        self.after(events.take(k)).next(events[k]).1
    }
}

/// A run: the checks of its arguments, and the results gathered from its
/// tasks.
pub struct Run {
    validation: Validation,
    phase: Phase,
    total: u64,
}

impl View for Run {
    type V = RunView;

    closed spec fn view(&self) -> RunView {
        RunView { validation: self.validation@, phase: self.phase, total: self.total }
    }
}

/// Begins a run with the arguments `args`. The result is the run and the
/// first thing to do: the first question about the arguments, or the end of
/// the run where they are turned down at once.
pub fn run<E>(args: Cli) -> (start: (Run, Action<E>))
    ensures
        start.0@ == RunView::begin::<E>(args@).0,
        start.1@ == RunView::begin::<E>(args@).1,
{
    let (validation, verdict) = validate_args(args);
    let mut run = Run { validation, phase: Phase::Idle, total: 0 };
    let action = run.judged(verdict);
    (run, action)
}

impl Run {
    fn fail<E>(&mut self, error: RunError<E>) -> (action: Action<E>)
        ensures
            (final(self)@, action@) == old(self)@.fail(error@),
    {
        self.phase = Phase::Failed;
        Action::Finish(Err(error))
    }

    fn judged<E>(&mut self, verdict: Verdict) -> (action: Action<E>)
        ensures
            (final(self)@, action@) == old(self)@.judged::<E>((old(self)@.validation, verdict@)),
    {
        match verdict {
            Verdict::Ask(probe) => {
                self.phase = Phase::Idle;
                Action::Probe(probe)
            },
            Verdict::Accept(args) => {
                self.phase = Phase::Launching;
                Action::Launch(args)
            },
            Verdict::Reject(error) => self.fail(RunError::Argument(error)),
        }
    }

    fn on_message<E>(&mut self, message: Message<E>) -> (action: Action<E>)
        ensures
            (final(self)@, action@) == old(self)@.on_message(message@),
    {
        match message {
            Message::Copied(bytes) => match self.total.checked_add(bytes) {
                Some(total) => {
                    self.total = total;
                    Action::Receive
                },
                None => self.fail(RunError::Overflow),
            },
            Message::Traversed => {
                self.phase = Phase::Draining;
                Action::Receive
            },
            Message::WalkFailed(error) => self.fail(RunError::Walk(error)),
            Message::CopyFailed(error) => self.fail(RunError::Copy(error)),
        }
    }

    /// Advances the run by what happened since the last call. The result is
    /// what to do next. On the first failure the run ends with its error;
    /// when every task has ended, it ends with the bytes copied.
    pub fn next<E>(&mut self, event: Event<E>) -> (action: Action<E>)
        ensures
            (final(self)@, action@) == old(self)@.next(event@),
    {
        match self.phase {
            Phase::Idle => match event {
                Event::Answer(answer) => {
                    let verdict = self.validation.next(answer);
                    self.judged(verdict)
                },
                _ => self.fail(RunError::Unexpected),
            },
            Phase::Launching => match event {
                Event::Launched => {
                    self.phase = Phase::Running;
                    Action::Receive
                },
                _ => self.fail(RunError::Unexpected),
            },
            Phase::Running | Phase::Draining => match event {
                Event::Message(message) => self.on_message(message),
                Event::Closed => {
                    self.phase = Phase::Done;
                    Action::Finish(Ok(self.total))
                },
                _ => self.fail(RunError::Unexpected),
            },
            Phase::Done | Phase::Failed => Action::Stopped,
        }
    }

    /// How far the run has come.
    pub fn phase(&self) -> (phase: Phase)
        ensures
            phase == self@.phase,
    {
        self.phase
    }

    /// The bytes copied by the jobs that have reported so far.
    pub fn total(&self) -> (total: u64)
        ensures
            total == self@.total,
    {
        self.total
    }
}

} // verus!
