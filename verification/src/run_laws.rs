//! What holds of every run, and of the checks of its arguments.

use crate::cli::{AnswerView, ArgError, CheckStageView, CliView, ValidationView, VerdictView};
use crate::{ActionView, EventView, MessageView, Phase, RunErrorView, RunView};
use vstd::prelude::*;

verus! {

/// The state after the first `k + 1` events is the state after the first `k`,
/// advanced by the event at position `k`.
pub proof fn lemma_after_take<E>(run: RunView, events: Seq<EventView<E>>, k: int)
    requires
        0 <= k < events.len(),
    ensures
        run.after(events.take(k + 1)) == run.after(events.take(k)).next(events[k]).0,
{
    assert(events.take(k + 1).drop_last() =~= events.take(k));
}

/// A run that is over stays as it is.
proof fn lemma_over_stays<E>(run: RunView, events: Seq<EventView<E>>, i: int, j: int)
    requires
        0 <= i <= j <= events.len(),
        run.after(events.take(i)).phase is Done || run.after(events.take(i)).phase is Failed,
    ensures
        run.after(events.take(j)) == run.after(events.take(i)),
    decreases j - i,
{
    if i < j {
        lemma_over_stays(run, events, i, j - 1);
        lemma_after_take(run, events, j - 1);
    }
}

/// The first failure ends the run: once the run has ended, with an error or
/// with its total, whatever is reported later changes nothing and is
/// answered by [`ActionView::Stopped`].
pub proof fn lemma_first_end_is_final<E>(run: RunView, events: Seq<EventView<E>>, i: int, j: int)
    requires
        0 <= i < j < events.len(),
        run.action_at(events, i) is Failed || run.action_at(events, i) is Finished,
    ensures
        run.action_at(events, j) == ActionView::<E>::Stopped,
        run.after(events.take(j)) == run.after(events.take(i + 1)),
{
    lemma_after_take(run, events, i);
    lemma_over_stays(run, events, i + 1, j);
}

/// A failure reported by a task ends the run at once with that failure.
pub proof fn lemma_failure_ends_run<E>(run: RunView, message: MessageView<E>)
    requires
        run.phase is Running || run.phase is Draining,
    ensures
        message matches MessageView::WalkFailed(error) ==> run.next(EventView::Message(message))
            == (run.at(Phase::Failed), ActionView::Failed(RunErrorView::Walk(error))),
        message matches MessageView::CopyFailed(error) ==> run.next(EventView::Message(message))
            == (run.at(Phase::Failed), ActionView::Failed(RunErrorView::Copy(error))),
{
}

/// The bytes that the events `events` report as copied.
pub open spec fn copied_sum<E>(events: Seq<EventView<E>>) -> int
    decreases events.len(),
{
    if events.len() == 0 {
        0
    } else {
        copied_sum(events.drop_last()) + (match events.last() {
            EventView::Message(MessageView::Copied(bytes)) => bytes as int,
            _ => 0,
        })
    }
}

/// Each of `events` reports a finished job or the end of the traversal.
pub open spec fn all_progress<E>(events: Seq<EventView<E>>) -> bool {
    forall|k: int|
        0 <= k < events.len() ==> (#[trigger] events[k] matches EventView::Message(
            MessageView::Copied(_),
        )) || events[k] == EventView::<E>::Message(MessageView::Traversed)
}

/// The total of a run is the sum of what its jobs report: a run that gathers
/// results and is told of nothing but finished jobs and the end of the
/// traversal has counted their bytes, all of them, and ends with that count
/// when every task has ended.
pub proof fn lemma_total_is_sum<E>(run: RunView, events: Seq<EventView<E>>)
    requires
        run.phase is Running || run.phase is Draining,
        all_progress(events),
        run.total + copied_sum(events) <= u64::MAX,
    ensures
        run.after(events).total == run.total + copied_sum(events),
        run.after(events).phase is Running || run.after(events).phase is Draining,
        run.after(events).next(EventView::<E>::Closed).1 == ActionView::<E>::Finished(
            (run.total + copied_sum(events)) as u64,
        ),
    decreases events.len(),
{
    if events.len() > 0 {
        let before = events.drop_last();
        assert(all_progress(before)) by {
            assert forall|k: int| 0 <= k < before.len() implies (#[trigger] before[k] matches EventView::Message(
                MessageView::Copied(_),
            )) || before[k] == EventView::<E>::Message(MessageView::Traversed) by {
                assert(before[k] == events[k]);
            }
        }
        lemma_sum_nonnegative(before);
        assert(events.last() == events[events.len() - 1]);
        lemma_total_is_sum(run, before);
    }
}

/// A count of copied bytes is never negative.
pub proof fn lemma_sum_nonnegative<E>(events: Seq<EventView<E>>)
    ensures
        copied_sum(events) >= 0,
    decreases events.len(),
{
    if events.len() > 0 {
        lemma_sum_nonnegative(events.drop_last());
    }
}

/// Without a worker thread nothing is asked and nothing is done: the run
/// ends at once.
pub proof fn lemma_no_threads<E>(args: CliView)
    requires
        args.threads == 0,
    ensures
        RunView::begin::<E>(args).1 == ActionView::<E>::Failed(
            RunErrorView::Argument(ArgError::NoThreads),
        ),
        RunView::begin::<E>(args).0.phase is Failed,
{
}

/// What the checks keep of the arguments `args` they began with.
pub open spec fn keeps(v: ValidationView, args: CliView) -> bool {
    &&& v.args.src == args.src
    &&& v.args.threads == args.threads
    &&& v.args.stats == args.stats
    &&& v.args.sync ==> args.sync
    &&& !(v.stage is Finished) ==> args.threads > 0
    &&& (v.stage is SourceExists || v.stage is SourceIsDir || v.stage is SourceName
        || v.stage is DestExists) ==> v.args.dest == args.dest && v.args.sync == args.sync
    &&& v.stage is NestedExists ==> v.args.sync == args.sync && exists|name: Seq<u8>|
        v.args.dest == #[trigger] args.dest.child(name)
    &&& v.stage is Creating ==> !v.args.sync && (v.args.dest == args.dest || exists|
        name: Seq<u8>,
    |
        v.args.dest == #[trigger] args.dest.child(name))
}

/// One step of the checks keeps what they keep of the arguments, and
/// arguments that pass are the arguments kept.
pub proof fn lemma_keeps_step(v: ValidationView, args: CliView, answer: AnswerView)
    requires
        keeps(v, args),
    ensures
        keeps(v.next(answer).0, args),
        v.next(answer).1 matches VerdictView::Accept(accepted) ==> {
            &&& accepted == v.args
            &&& args.threads >= 1
            &&& v.stage is NestedExists || v.stage is Creating
        },
{
    match v.stage {
        CheckStageView::DestExists { name } => {
            if answer == AnswerView::Flag(true) {
                assert(v.next(answer).0.args.dest == args.dest.child(name));
            }
        },
        CheckStageView::NestedExists => {
            let name = choose|name: Seq<u8>| v.args.dest == #[trigger] args.dest.child(name);
            assert(v.args.dest == args.dest.child(name));
        },
        _ => {},
    }
}

proof fn lemma_keeps(args: CliView, answers: Seq<AnswerView>, k: int)
    requires
        0 <= k <= answers.len(),
    ensures
        keeps(ValidationView::begin(args).0.after(answers.take(k)), args),
    decreases k,
{
    let start = ValidationView::begin(args).0;
    if k > 0 {
        lemma_keeps(args, answers, k - 1);
        assert(answers.take(k).drop_last() =~= answers.take(k - 1));
        assert(answers.take(k).last() == answers[k - 1]);
        lemma_keeps_step(start.after(answers.take(k - 1)), args, answers[k - 1]);
    } else {
        assert(answers.take(0) =~= Seq::<AnswerView>::empty());
    }
}

/// What arguments a run is launched with. They pass only with at least one
/// worker thread. The source is the one given. The destination is the one
/// given where it did not exist, else the source's name inside it. They ask
/// for merging only where merging was asked for and the destination was
/// found to exist: a destination that had to be created is never merged
/// into.
pub proof fn lemma_accepted_arguments(args: CliView, answers: Seq<AnswerView>, k: int)
    requires
        0 <= k < answers.len(),
        ValidationView::begin(args).0.verdict_at(answers, k) is Accept,
    ensures
        ({
            let accepted = ValidationView::begin(args).0.verdict_at(answers, k)->Accept_0;
            let before = ValidationView::begin(args).0.after(answers.take(k));
            &&& accepted.threads >= 1
            &&& accepted.threads == args.threads
            &&& accepted.src == args.src
            &&& accepted.stats == args.stats
            &&& accepted.dest == args.dest || exists|name: Seq<u8>|
                accepted.dest == #[trigger] args.dest.child(name)
            &&& accepted.sync ==> args.sync && before.stage is NestedExists && answers[k]
                == AnswerView::Flag(true)
            &&& before.stage is Creating ==> !accepted.sync
        }),
{
    lemma_keeps(args, answers, k);
    let before = ValidationView::begin(args).0.after(answers.take(k));
    if before.stage is NestedExists {
        let name = choose|name: Seq<u8>| before.args.dest == #[trigger] args.dest.child(name);
        assert(before.args.dest == args.dest.child(name));
    }
}

/// A destination that exists is not written into unless merging was asked
/// for.
pub proof fn lemma_existing_destination_refused(v: ValidationView)
    requires
        v.stage is NestedExists,
        !v.args.sync,
    ensures
        v.next(AnswerView::Flag(true)).1 == VerdictView::Reject(ArgError::DestinationExists),
{
}

proof fn lemma_run_keeps<E>(args: CliView, events: Seq<EventView<E>>, k: int)
    requires
        0 <= k <= events.len(),
    ensures
        keeps(RunView::begin::<E>(args).0.after(events.take(k)).validation, args),
    decreases k,
{
    let start = RunView::begin::<E>(args).0;
    if k > 0 {
        lemma_run_keeps(args, events, k - 1);
        lemma_after_take(start, events, k - 1);
        let run = start.after(events.take(k - 1));
        match events[k - 1] {
            EventView::Answer(answer) => {
                lemma_keeps_step(run.validation, args, answer);
            },
            _ => {},
        }
    } else {
        assert(events.take(0) =~= Seq::<EventView<E>>::empty());
    }
}

/// Workers are started only for arguments that have passed: whenever a run
/// says to launch, it names at least one worker thread, as many as were asked
/// for, and the source that was given.
pub proof fn lemma_launch_has_workers<E>(args: CliView, events: Seq<EventView<E>>, k: int)
    requires
        0 <= k < events.len(),
        RunView::begin::<E>(args).0.action_at(events, k) is Launch,
    ensures
        ({
            let launched = RunView::begin::<E>(args).0.action_at(events, k)->Launch_0;
            &&& launched.threads >= 1
            &&& launched.threads == args.threads
            &&& launched.src == args.src
            &&& launched.sync ==> args.sync
        }),
{
    lemma_run_keeps(args, events, k);
    let run = RunView::begin::<E>(args).0.after(events.take(k));
    match events[k] {
        EventView::Answer(answer) => {
            lemma_keeps_step(run.validation, args, answer);
        },
        _ => {},
    }
}

/// No message is waited for before the workers are started, and none after
/// the run is over: a run says to receive only while it gathers results.
pub proof fn lemma_receives_while_running<E>(run: RunView, event: EventView<E>)
    requires
        run.next(event).1 is Receive,
    ensures
        run.next(event).0.phase is Running || run.next(event).0.phase is Draining,
{
}

} // verus!
