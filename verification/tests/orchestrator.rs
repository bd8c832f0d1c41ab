use psync::cli::{validate_args, Answer, ArgError, Cli, Probe, Validation, Verdict};
use psync::directory_traversal::WalkError;
use psync::path::TreePath;
use psync::sync::SyncError;
use psync::{run, Action, Event, Message, Phase, Run, RunError};

fn path(root: &str, names: &[&str]) -> TreePath {
    TreePath {
        root: root.as_bytes().to_vec(),
        rel: names.iter().map(|n| n.as_bytes().to_vec()).collect(),
    }
}

fn args(threads: u8, sync: bool) -> Cli {
    Cli { src: path("/data/src", &[]), dest: path("/backup", &[]), threads, stats: true, sync }
}

fn name(text: &str) -> Answer {
    Answer::Name(Some(text.as_bytes().to_vec()))
}

/// The checks of `args`, answered up to the question whether the destination
/// exists.
fn at_destination(args: Cli) -> Validation {
    let (mut checks, first) = validate_args(args);
    assert_eq!(first, Verdict::Ask(Probe::Exists(path("/data/src", &[]))));
    assert_eq!(
        checks.next(Answer::Flag(true)),
        Verdict::Ask(Probe::IsDir(path("/data/src", &[])))
    );
    assert_eq!(
        checks.next(Answer::Flag(true)),
        Verdict::Ask(Probe::FileName(path("/data/src", &[])))
    );
    assert_eq!(checks.next(name("src")), Verdict::Ask(Probe::Exists(path("/backup", &[]))));
    checks
}

/// A run that has been launched and waits for its first message.
fn launched() -> Run {
    let (mut run, first) = run::<&'static str>(args(2, false));
    assert_eq!(first, Action::Probe(Probe::Exists(path("/data/src", &[]))));
    run.next::<&'static str>(Event::Answer(Answer::Flag(true)));
    run.next::<&'static str>(Event::Answer(Answer::Flag(true)));
    run.next::<&'static str>(Event::Answer(name("src")));
    run.next::<&'static str>(Event::Answer(Answer::Flag(false)));
    assert_eq!(
        run.next::<&'static str>(Event::Answer(Answer::Flag(true))),
        Action::Launch(Cli {
            src: path("/data/src", &[]),
            dest: path("/backup", &[]),
            threads: 2,
            stats: true,
            sync: false,
        })
    );
    assert_eq!(run.phase(), Phase::Launching);
    assert_eq!(run.next::<&'static str>(Event::Launched), Action::Receive);
    assert_eq!(run.phase(), Phase::Running);
    run
}

#[test]
fn zero_threads_are_turned_down_at_once() {
    let (_, first) = validate_args(args(0, false));
    assert_eq!(first, Verdict::Reject(ArgError::NoThreads));
    let (run, first) = run::<&'static str>(args(0, true));
    assert_eq!(first, Action::Finish(Err(RunError::Argument(ArgError::NoThreads))));
    assert_eq!(run.phase(), Phase::Failed);
}

#[test]
fn missing_source_is_turned_down() {
    let (mut checks, _) = validate_args(args(1, false));
    assert_eq!(checks.next(Answer::Flag(false)), Verdict::Reject(ArgError::SourceMissing));
}

#[test]
fn source_that_is_no_directory_is_turned_down() {
    let (mut checks, _) = validate_args(args(1, false));
    checks.next(Answer::Flag(true));
    assert_eq!(checks.next(Answer::Flag(false)), Verdict::Reject(ArgError::SourceNotDirectory));
}

#[test]
fn source_without_a_name_is_turned_down() {
    let (mut checks, _) = validate_args(args(1, false));
    checks.next(Answer::Flag(true));
    checks.next(Answer::Flag(true));
    assert_eq!(checks.next(Answer::Name(None)), Verdict::Reject(ArgError::SourceUnnamed));
}

#[test]
fn missing_destination_is_created_and_not_merged_into() {
    let mut checks = at_destination(args(3, true));
    assert_eq!(
        checks.next(Answer::Flag(false)),
        Verdict::Ask(Probe::CreateDir(path("/backup", &[])))
    );
    assert_eq!(
        checks.next(Answer::Flag(true)),
        Verdict::Accept(Cli {
            src: path("/data/src", &[]),
            dest: path("/backup", &[]),
            threads: 3,
            stats: true,
            sync: false,
        })
    );
}

#[test]
fn destination_that_cannot_be_created_is_turned_down() {
    let mut checks = at_destination(args(1, false));
    checks.next(Answer::Flag(false));
    assert_eq!(checks.next(Answer::Flag(false)), Verdict::Reject(ArgError::CreateFailed));
}

#[test]
fn existing_destination_takes_the_copy_under_the_source_name() {
    let mut checks = at_destination(args(1, false));
    assert_eq!(
        checks.next(Answer::Flag(true)),
        Verdict::Ask(Probe::Exists(path("/backup", &["src"])))
    );
    assert_eq!(
        checks.next(Answer::Flag(false)),
        Verdict::Ask(Probe::CreateDir(path("/backup", &["src"])))
    );
    assert_eq!(
        checks.next(Answer::Flag(true)),
        Verdict::Accept(Cli {
            src: path("/data/src", &[]),
            dest: path("/backup", &["src"]),
            threads: 1,
            stats: true,
            sync: false,
        })
    );
}

#[test]
fn existing_copy_is_turned_down_without_sync() {
    let mut checks = at_destination(args(1, false));
    checks.next(Answer::Flag(true));
    assert_eq!(checks.next(Answer::Flag(true)), Verdict::Reject(ArgError::DestinationExists));
}

#[test]
fn existing_copy_is_merged_into_with_sync() {
    let mut checks = at_destination(args(1, true));
    checks.next(Answer::Flag(true));
    assert_eq!(
        checks.next(Answer::Flag(true)),
        Verdict::Accept(Cli {
            src: path("/data/src", &[]),
            dest: path("/backup", &["src"]),
            threads: 1,
            stats: true,
            sync: true,
        })
    );
}

#[test]
fn answer_that_fits_no_question_is_turned_down() {
    let (mut checks, _) = validate_args(args(1, false));
    assert_eq!(checks.next(name("src")), Verdict::Reject(ArgError::Unexpected));
    assert_eq!(checks.next(Answer::Flag(true)), Verdict::Reject(ArgError::Unexpected));
    let (mut checks, _) = validate_args(args(1, false));
    checks.next(Answer::Flag(true));
    checks.next(Answer::Flag(true));
    assert_eq!(checks.next(Answer::Flag(true)), Verdict::Reject(ArgError::Unexpected));
}

#[test]
fn messages_of_argument_errors() {
    assert_eq!(ArgError::NoThreads.message(), "At least one thread needed");
    assert_eq!(ArgError::SourceMissing.message(), "Source directory not accessible");
    assert_eq!(ArgError::SourceNotDirectory.message(), "Source directory not a valid directory");
    assert_eq!(ArgError::SourceUnnamed.message(), "Can't copy from .. (yet)");
    assert_eq!(ArgError::CreateFailed.message(), "Couldn't create destination directory");
    assert_eq!(
        ArgError::DestinationExists.message(),
        "Destination directory already exists. Consider --sync"
    );
    assert_eq!(
        ArgError::Unexpected.message(),
        "Unexpected answer to a question about the arguments"
    );
}

#[test]
fn run_turns_down_what_the_checks_turn_down() {
    let (mut run, _) = run::<&'static str>(args(1, false));
    assert_eq!(run.phase(), Phase::Idle);
    assert_eq!(
        run.next::<&'static str>(Event::Answer(Answer::Flag(false))),
        Action::Finish(Err(RunError::Argument(ArgError::SourceMissing)))
    );
    assert_eq!(run.phase(), Phase::Failed);
    assert_eq!(run.next::<&'static str>(Event::Launched), Action::Stopped);
}

#[test]
fn total_is_the_sum_of_the_bytes_reported() {
    let mut run = launched();
    assert_eq!(run.next::<&'static str>(Event::Message(Message::Copied(10))), Action::Receive);
    assert_eq!(run.total(), 10);
    assert_eq!(run.next::<&'static str>(Event::Message(Message::Copied(5000))), Action::Receive);
    assert_eq!(run.next::<&'static str>(Event::Message(Message::Traversed)), Action::Receive);
    assert_eq!(run.phase(), Phase::Draining);
    assert_eq!(run.next::<&'static str>(Event::Message(Message::Copied(0))), Action::Receive);
    assert_eq!(run.total(), 5010);
    assert_eq!(run.next::<&'static str>(Event::Closed), Action::Finish(Ok(5010)));
    assert_eq!(run.phase(), Phase::Done);
    assert_eq!(run.next::<&'static str>(Event::Closed), Action::Stopped);
}

#[test]
fn run_without_jobs_copies_nothing() {
    let mut run = launched();
    assert_eq!(run.next::<&'static str>(Event::Closed), Action::Finish(Ok(0)));
}

#[test]
fn first_failure_ends_the_run() {
    let mut run = launched();
    run.next::<&'static str>(Event::Message(Message::Copied(10)));
    let conflict = SyncError::Conflict(path("/backup", &["src", "c.txt"]));
    assert_eq!(
        run.next::<&'static str>(Event::Message(Message::CopyFailed(SyncError::Conflict(path(
            "/backup",
            &["src", "c.txt"]
        ))))),
        Action::Finish(Err(RunError::Copy(conflict)))
    );
    assert_eq!(run.phase(), Phase::Failed);
    // what still comes in is dropped
    assert_eq!(run.next::<&'static str>(Event::Message(Message::Copied(99))), Action::Stopped);
    assert_eq!(
        run.next(Event::Message(Message::WalkFailed(WalkError::Io("late")))),
        Action::Stopped
    );
    assert_eq!(run.next::<&'static str>(Event::Closed), Action::Stopped);
    assert_eq!(run.total(), 10);
}

#[test]
fn failure_of_the_traversal_ends_the_run() {
    let mut run = launched();
    assert_eq!(
        run.next(Event::Message(Message::WalkFailed(WalkError::Open("denied")))),
        Action::Finish(Err(RunError::Walk(WalkError::Open("denied"))))
    );
}

#[test]
fn failure_while_draining_ends_the_run() {
    let mut run = launched();
    run.next::<&'static str>(Event::Message(Message::Traversed));
    assert_eq!(
        run.next(Event::Message(Message::CopyFailed(SyncError::Io {
            cause: "io",
            src: path("s", &[]),
            dest: path("d", &[]),
        }))),
        Action::Finish(Err(RunError::Copy(SyncError::Io {
            cause: "io",
            src: path("s", &[]),
            dest: path("d", &[]),
        })))
    );
}

#[test]
fn total_that_cannot_be_counted_fails_the_run() {
    let mut run = launched();
    run.next::<&'static str>(Event::Message(Message::Copied(u64::MAX)));
    assert_eq!(run.total(), u64::MAX);
    assert_eq!(
        run.next::<&'static str>(Event::Message(Message::Copied(1))),
        Action::Finish(Err(RunError::Overflow))
    );
}

#[test]
fn event_that_does_not_fit_fails_the_run() {
    let (mut run, _) = run::<&'static str>(args(1, false));
    assert_eq!(
        run.next::<&'static str>(Event::Closed),
        Action::Finish(Err(RunError::Unexpected))
    );
    let mut run = launched();
    assert_eq!(
        run.next::<&'static str>(Event::Launched),
        Action::Finish(Err(RunError::Unexpected))
    );
}

#[test]
fn job_results_become_messages() {
    assert_eq!(Message::<&'static str>::of_job(Ok(42)), Message::Copied(42));
    assert_eq!(
        Message::of_job(Err(SyncError::Io { cause: "io", src: path("s", &[]), dest: path("d", &[]) })),
        Message::CopyFailed(SyncError::Io { cause: "io", src: path("s", &[]), dest: path("d", &[]) })
    );
}
