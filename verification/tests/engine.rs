use psync::directory_traversal::CopyJob;
use psync::path::TreePath;
use psync::sync::{sync, FileOp, Outcome, SyncError, SyncStep, SyncTask, MIN_BYTES_FOR_SYNC};

fn path(root: &str, names: &[&str]) -> TreePath {
    TreePath {
        root: root.as_bytes().to_vec(),
        rel: names.iter().map(|n| n.as_bytes().to_vec()).collect(),
    }
}

fn src() -> TreePath {
    path("src", &["a", "f"])
}

fn dest() -> TreePath {
    path("dest", &["a", "f"])
}

fn job(symlink: bool, may_exist: bool) -> CopyJob {
    CopyJob { src: src(), dest: dest(), symlink, may_exist }
}

fn found(is_symlink: bool, len: u64) -> Outcome<&'static str> {
    Outcome::Found { is_dir: false, is_symlink, len }
}

/// A merge of a file that has looked at the destination and found `outcome`.
fn merged(symlink: bool, outcome: Outcome<&'static str>) -> (SyncTask, SyncStep<&'static str>) {
    let (mut task, first) = sync(job(symlink, true));
    assert_eq!(first, FileOp::Inspect(dest()));
    let step = task.next(outcome);
    (task, step)
}

#[test]
fn threshold_is_one_kibibyte() {
    assert_eq!(MIN_BYTES_FOR_SYNC, 1024);
}

#[test]
fn blind_file_copy_reports_the_bytes_copied() {
    let (mut task, first) = sync(job(false, false));
    assert_eq!(first, FileOp::CopyFile { src: src(), dest: dest() });
    assert_eq!(task.next::<&'static str>(Outcome::Copied(5000)), SyncStep::Done(Ok(5000)));
}

#[test]
fn blind_symlink_is_made_with_the_target_read() {
    let (mut task, first) = sync(job(true, false));
    assert_eq!(first, FileOp::ReadLink(src()));
    assert_eq!(
        task.next::<&'static str>(Outcome::Target(b"../target".to_vec())),
        SyncStep::Ask(FileOp::Symlink { target: b"../target".to_vec(), dest: dest() })
    );
    assert_eq!(task.next::<&'static str>(Outcome::Linked), SyncStep::Done(Ok(0)));
}

#[test]
fn absolute_target_stays_absolute() {
    let (mut task, _) = sync(job(true, false));
    assert_eq!(
        task.next::<&'static str>(Outcome::Target(b"/etc/hosts".to_vec())),
        SyncStep::Ask(FileOp::Symlink { target: b"/etc/hosts".to_vec(), dest: dest() })
    );
}

#[test]
fn blind_copy_onto_something_fails_and_overwrites_nothing() {
    let (mut task, _) = sync(job(false, false));
    assert_eq!(
        task.next(Outcome::Failed("exists")),
        SyncStep::Done(Err(SyncError::Io { cause: "exists", src: src(), dest: dest() }))
    );
    let (mut task, _) = sync(job(true, false));
    task.next::<&'static str>(Outcome::Target(b"t".to_vec()));
    assert_eq!(
        task.next(Outcome::Failed("exists")),
        SyncStep::Done(Err(SyncError::Io { cause: "exists", src: src(), dest: dest() }))
    );
}

#[test]
fn unreadable_link_fails_the_job() {
    let (mut task, _) = sync(job(true, false));
    assert_eq!(
        task.next(Outcome::Failed("not a link")),
        SyncStep::Done(Err(SyncError::Io { cause: "not a link", src: src(), dest: dest() }))
    );
}

#[test]
fn merge_into_nothing_creates_blindly() {
    let (mut task, step) = merged(false, Outcome::Failed("not found"));
    assert_eq!(step, SyncStep::Ask(FileOp::CopyFile { src: src(), dest: dest() }));
    assert_eq!(task.next::<&'static str>(Outcome::Copied(7)), SyncStep::Done(Ok(7)));

    let (_, step) = merged(true, Outcome::Failed("not found"));
    assert_eq!(step, SyncStep::Ask(FileOp::ReadLink(src())));
}

#[test]
fn directory_at_destination_is_a_conflict() {
    let (mut task, step) =
        merged(false, Outcome::Found { is_dir: true, is_symlink: false, len: 4096 });
    assert_eq!(step, SyncStep::Done(Err(SyncError::Conflict(dest()))));
    // nothing is asked for afterwards
    assert_eq!(
        task.next::<&'static str>(Outcome::Removed),
        SyncStep::Done(Err(SyncError::Unexpected))
    );

    let (_, step) = merged(true, Outcome::Found { is_dir: true, is_symlink: false, len: 0 });
    assert_eq!(step, SyncStep::Done(Err(SyncError::Conflict(dest()))));
}

#[test]
fn small_destination_is_replaced_without_comparing() {
    let (mut task, step) = merged(false, found(false, 1023));
    assert_eq!(step, SyncStep::Ask(FileOp::Remove(dest())));
    assert_eq!(
        task.next::<&'static str>(Outcome::Removed),
        SyncStep::Ask(FileOp::CopyFile { src: src(), dest: dest() })
    );
    assert_eq!(task.next::<&'static str>(Outcome::Copied(12)), SyncStep::Done(Ok(12)));

    let (mut task, step) = merged(false, found(false, 0));
    assert_eq!(step, SyncStep::Ask(FileOp::Remove(dest())));
    task.next::<&'static str>(Outcome::Removed);

    // a small link where a file is to stand, and a small file where a link is
    let (_, step) = merged(false, found(true, 9));
    assert_eq!(step, SyncStep::Ask(FileOp::Remove(dest())));
    let (mut task, step) = merged(true, found(false, 9));
    assert_eq!(step, SyncStep::Ask(FileOp::Remove(dest())));
    assert_eq!(task.next::<&'static str>(Outcome::Removed), SyncStep::Ask(FileOp::ReadLink(src())));
}

#[test]
fn destination_at_the_threshold_is_compared() {
    let (_, step) = merged(false, found(false, 1024));
    assert_eq!(step, SyncStep::Ask(FileOp::Compare { src: src(), dest: dest() }));
}

#[test]
fn equal_file_is_kept() {
    let (mut task, step) = merged(false, found(false, 5000));
    assert_eq!(step, SyncStep::Ask(FileOp::Compare { src: src(), dest: dest() }));
    assert_eq!(task.next::<&'static str>(Outcome::Compared(true)), SyncStep::Done(Ok(0)));
}

#[test]
fn differing_file_is_replaced() {
    let (mut task, _) = merged(false, found(false, 5000));
    assert_eq!(
        task.next::<&'static str>(Outcome::Compared(false)),
        SyncStep::Ask(FileOp::Remove(dest()))
    );
    assert_eq!(
        task.next::<&'static str>(Outcome::Removed),
        SyncStep::Ask(FileOp::CopyFile { src: src(), dest: dest() })
    );
    assert_eq!(task.next::<&'static str>(Outcome::Copied(4999)), SyncStep::Done(Ok(4999)));
}

#[test]
fn large_link_with_the_same_target_is_kept() {
    let (mut task, step) = merged(true, found(true, 2000));
    assert_eq!(step, SyncStep::Ask(FileOp::ReadLink(src())));
    assert_eq!(
        task.next::<&'static str>(Outcome::Target(b"long/target".to_vec())),
        SyncStep::Ask(FileOp::ReadLink(dest()))
    );
    assert_eq!(
        task.next::<&'static str>(Outcome::Target(b"long/target".to_vec())),
        SyncStep::Done(Ok(0))
    );
}

#[test]
fn large_link_with_another_target_is_replaced() {
    let (mut task, _) = merged(true, found(true, 2000));
    task.next::<&'static str>(Outcome::Target(b"long/target".to_vec()));
    assert_eq!(
        task.next::<&'static str>(Outcome::Target(b"long/targeT".to_vec())),
        SyncStep::Ask(FileOp::Remove(dest()))
    );
    assert_eq!(task.next::<&'static str>(Outcome::Removed), SyncStep::Ask(FileOp::ReadLink(src())));
    assert_eq!(
        task.next::<&'static str>(Outcome::Target(b"long/target".to_vec())),
        SyncStep::Ask(FileOp::Symlink { target: b"long/target".to_vec(), dest: dest() })
    );
    assert_eq!(task.next::<&'static str>(Outcome::Linked), SyncStep::Done(Ok(0)));

    // a shorter target is another target
    let (mut task, _) = merged(true, found(true, 2000));
    task.next::<&'static str>(Outcome::Target(b"long/target".to_vec()));
    assert_eq!(
        task.next::<&'static str>(Outcome::Target(b"long".to_vec())),
        SyncStep::Ask(FileOp::Remove(dest()))
    );
}

#[test]
fn large_destination_of_the_other_kind_is_replaced() {
    let (_, step) = merged(false, found(true, 2000));
    assert_eq!(step, SyncStep::Ask(FileOp::Remove(dest())));
    let (_, step) = merged(true, found(false, 2000));
    assert_eq!(step, SyncStep::Ask(FileOp::Remove(dest())));
}

#[test]
fn failure_while_merging_names_both_paths() {
    let failed = SyncStep::Done(Err(SyncError::Io { cause: "io", src: src(), dest: dest() }));
    let (mut task, _) = merged(false, found(false, 10));
    assert_eq!(task.next(Outcome::Failed("io")), failed);
    let (mut task, _) = merged(false, found(false, 5000));
    assert_eq!(task.next(Outcome::Failed("io")), failed);
    let (mut task, _) = merged(true, found(true, 5000));
    assert_eq!(task.next(Outcome::Failed("io")), failed);
    let (mut task, _) = merged(true, found(true, 5000));
    task.next::<&'static str>(Outcome::Target(b"t".to_vec()));
    assert_eq!(task.next(Outcome::Failed("io")), failed);
}

#[test]
fn outcome_that_answers_nothing_asked_is_refused() {
    let (mut task, _) = sync(job(false, false));
    assert_eq!(
        task.next::<&'static str>(Outcome::Linked),
        SyncStep::Done(Err(SyncError::Unexpected))
    );
    let (mut task, _) = sync(job(false, true));
    assert_eq!(
        task.next::<&'static str>(Outcome::Copied(3)),
        SyncStep::Done(Err(SyncError::Unexpected))
    );
    let (mut task, _) = sync(job(false, false));
    task.next::<&'static str>(Outcome::Copied(3));
    assert_eq!(
        task.next::<&'static str>(Outcome::Copied(3)),
        SyncStep::Done(Err(SyncError::Unexpected))
    );
}
