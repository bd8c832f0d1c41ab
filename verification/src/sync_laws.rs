//! What holds of every job that the sync engine works on.

use crate::directory_traversal::JobView;
use crate::path::PathView;
use crate::sync::{
    FileOpView, OutcomeView, SyncErrorView, SyncStageView, SyncStepView, SyncView,
    MIN_BYTES_FOR_SYNC,
};
use vstd::prelude::*;

verus! {

/// The operation `op` changes nothing on the file system.
pub open spec fn reads_only(op: FileOpView) -> bool {
    op is Inspect || op is ReadLink || op is Compare
}

/// The operation `op` changes nothing but what stands at `dest`.
pub open spec fn changes_only(op: FileOpView, dest: PathView) -> bool {
    match op {
        FileOpView::Remove(path) => path == dest,
        FileOpView::CopyFile { dest: to, .. } => to == dest,
        FileOpView::Symlink { dest: at, .. } => at == dest,
        _ => true,
    }
}

/// The state after the first `k + 1` outcomes is the state after the first
/// `k`, advanced by the outcome at position `k`.
pub proof fn lemma_after_take<E>(task: SyncView, outcomes: Seq<OutcomeView<E>>, k: int)
    requires
        0 <= k < outcomes.len(),
    ensures
        task.after(outcomes.take(k + 1)) == task.after(outcomes.take(k)).next(outcomes[k]).0,
{
    assert(outcomes.take(k + 1).drop_last() =~= outcomes.take(k));
}

/// A job that is over asks for nothing more: every further call fails
/// without an operation.
pub proof fn lemma_finished_asks_nothing<E>(
    task: SyncView,
    outcomes: Seq<OutcomeView<E>>,
    k: int,
)
    requires
        task.stage is Finished,
        0 <= k < outcomes.len(),
    ensures
        task.after(outcomes.take(k)).stage is Finished,
        task.step_at(outcomes, k) == SyncStepView::<E>::Failed(SyncErrorView::Unexpected),
    decreases k,
{
    if k > 0 {
        lemma_finished_asks_nothing(task, outcomes, k - 1);
        lemma_after_take(task, outcomes, k - 1);
    } else {
        assert(outcomes.take(0) =~= Seq::<OutcomeView<E>>::empty());
    }
}

/// Merge threshold, small destination: a file or symbolic link of fewer than
/// [`MIN_BYTES_FOR_SYNC`] bytes at the destination is replaced without
/// comparing. It is removed, and what follows is the creation of the
/// destination as if nothing had been there.
pub proof fn lemma_small_destination_replaced<E>(job: JobView, is_symlink: bool, len: u64)
    requires
        job.may_exist,
        len < MIN_BYTES_FOR_SYNC,
    ensures
        ({
            let start = SyncView::begin(job);
            let found = start.0.next::<E>(OutcomeView::Found { is_dir: false, is_symlink, len });
            let removed = found.0.next::<E>(OutcomeView::Removed);
            &&& start.1 == FileOpView::Inspect(job.dest)
            &&& found.1 == SyncStepView::<E>::Ask(FileOpView::Remove(job.dest))
            &&& removed.1 == SyncStepView::<E>::Ask(SyncView::create(job).1)
            &&& removed.0 == SyncView::create(job).0
        }),
{
}

/// Merge threshold, directory: where a directory stands at the destination
/// of a file or symbolic link, the job fails with a conflict and the
/// directory is left untouched. The one operation asked for is a look at the
/// destination, and nothing is asked for afterwards, whatever the driver
/// hands over.
pub proof fn lemma_directory_conflict<E>(
    job: JobView,
    is_symlink: bool,
    len: u64,
    later: Seq<OutcomeView<E>>,
    k: int,
)
    requires
        job.may_exist,
        0 <= k < later.len(),
    ensures
        ({
            let start = SyncView::begin(job);
            let found = start.0.next::<E>(OutcomeView::Found { is_dir: true, is_symlink, len });
            &&& start.1 == FileOpView::Inspect(job.dest)
            &&& found.1 == SyncStepView::<E>::Failed(SyncErrorView::Conflict(job.dest))
            &&& !(found.0.step_at(later, k) is Ask)
        }),
{
    let start = SyncView::begin(job);
    let found = start.0.next::<E>(OutcomeView::Found { is_dir: true, is_symlink, len });
    lemma_finished_asks_nothing(found.0, later, k);
}

/// A destination that equals the source is not copied again: when the
/// comparison says that the files are equal, the job ends with no byte
/// copied and no further operation.
pub proof fn lemma_equal_file_kept<E>(task: SyncView)
    requires
        task.stage is Comparing,
    ensures
        task.next::<E>(OutcomeView::Compared(true)) == (
            task.at(SyncStageView::Finished),
            SyncStepView::<E>::Copied(0),
        ),
{
}

/// A link at the destination that has the target of the source link is not
/// made again.
pub proof fn lemma_equal_link_kept<E>(task: SyncView, target: Seq<u8>)
    requires
        task.stage is SourceTarget,
    ensures
        task.next::<E>(OutcomeView::Target(target)).0.next::<E>(OutcomeView::Target(target)) == (
            task.at(SyncStageView::Finished),
            SyncStepView::<E>::Copied(0),
        ),
{
}

/// The positions that a job passes through once it creates its destination.
pub open spec fn creating(stage: SyncStageView) -> bool {
    stage is Copying || stage is ReadingLink || stage is Linking || stage is Finished
}

/// Blind creation never looks and never removes: a job whose destination
/// cannot exist asks only to copy the file, or to read the link and make
/// it. If something stands at the destination after all, the operation
/// fails and the job fails with it; nothing is overwritten.
pub proof fn lemma_blind_create<E>(job: JobView, outcomes: Seq<OutcomeView<E>>, k: int)
    requires
        !job.may_exist,
        0 <= k < outcomes.len(),
    ensures
        ({
            let start = SyncView::begin(job);
            &&& start.1 == if job.symlink {
                FileOpView::ReadLink(job.src)
            } else {
                FileOpView::CopyFile { src: job.src, dest: job.dest }
            }
            &&& creating(start.0.after(outcomes.take(k)).stage)
            &&& start.0.step_at(outcomes, k) matches SyncStepView::Ask(op) ==> op is Symlink
            &&& outcomes[k] matches OutcomeView::Failed(cause) ==> (start.0.after(
                outcomes.take(k),
            ).stage is Finished || start.0.step_at(outcomes, k) == SyncStepView::Failed(
                SyncErrorView::Io { cause, src: job.src, dest: job.dest },
            ))
        }),
{
    lemma_blind_stays(job, outcomes, k);
}

proof fn lemma_blind_stays<E>(job: JobView, outcomes: Seq<OutcomeView<E>>, k: int)
    requires
        !job.may_exist,
        0 <= k <= outcomes.len(),
    ensures
        creating(SyncView::begin(job).0.after(outcomes.take(k)).stage),
        SyncView::begin(job).0.after(outcomes.take(k)).job == job,
    decreases k,
{
    if k > 0 {
        lemma_blind_stays(job, outcomes, k - 1);
        lemma_after_take(SyncView::begin(job).0, outcomes, k - 1);
    } else {
        assert(outcomes.take(0) =~= Seq::<OutcomeView<E>>::empty());
    }
}

/// A link is made with the target that was read, byte for byte.
pub proof fn lemma_target_verbatim<E>(task: SyncView, target: Seq<u8>)
    requires
        task.stage is ReadingLink,
    ensures
        task.next::<E>(OutcomeView::Target(target)).1 == SyncStepView::<E>::Ask(
            FileOpView::Symlink { target, dest: task.job.dest },
        ),
{
}

/// A job changes nothing but its own destination: whatever it is handed,
/// every operation it asks for either only reads, or acts on the job's
/// destination path.
pub proof fn lemma_only_destination_changed<E>(
    job: JobView,
    outcomes: Seq<OutcomeView<E>>,
    k: int,
)
    requires
        0 <= k < outcomes.len(),
    ensures
        changes_only(SyncView::begin(job).1, job.dest),
        SyncView::begin(job).0.step_at(outcomes, k) matches SyncStepView::Ask(op) ==> changes_only(
            op,
            job.dest,
        ),
{
    lemma_job_kept(job, outcomes, k);
}

proof fn lemma_job_kept<E>(job: JobView, outcomes: Seq<OutcomeView<E>>, k: int)
    requires
        0 <= k <= outcomes.len(),
    ensures
        SyncView::begin(job).0.after(outcomes.take(k)).job == job,
    decreases k,
{
    if k > 0 {
        lemma_job_kept(job, outcomes, k - 1);
        lemma_after_take(SyncView::begin(job).0, outcomes, k - 1);
    } else {
        assert(outcomes.take(0) =~= Seq::<OutcomeView<E>>::empty());
    }
}

/// The bytes that a job reports are those that the copy reported; a link,
/// and a destination that was kept, count for none.
pub proof fn lemma_bytes_reported<E>(task: SyncView, outcome: OutcomeView<E>)
    requires
        task.next(outcome).1 is Copied,
    ensures
        task.next(outcome).1->Copied_0 == (match outcome {
            OutcomeView::Copied(bytes) => bytes,
            _ => 0,
        }),
{
}

/// What stands at a path.
pub enum Content {
    Directory,
    /// A regular file with these bytes.
    File(Seq<u8>),
    /// A symbolic link with this target.
    Link(Seq<u8>),
}

/// The outcome `outcome` of the operation `op` is true of the file system
/// `disk`, which says what stands at each path at which something stands.
/// Any operation may fail. One that does not fail reports what is there.
pub open spec fn true_of<E>(
    op: FileOpView,
    outcome: OutcomeView<E>,
    disk: Map<PathView, Content>,
) -> bool {
    outcome is Failed || match (op, outcome) {
        (FileOpView::Inspect(path), OutcomeView::Found { is_dir, is_symlink, len }) => {
            &&& disk.dom().contains(path)
            &&& is_dir == (disk[path] is Directory)
            &&& is_symlink == (disk[path] is Link)
        },
        (FileOpView::Remove(path), OutcomeView::Removed) => disk.dom().contains(path),
        (FileOpView::CopyFile { src, dest }, OutcomeView::Copied(bytes)) => {
            &&& disk.dom().contains(src)
            &&& disk[src] matches Content::File(held)
            &&& bytes == held.len()
        },
        (FileOpView::ReadLink(path), OutcomeView::Target(target)) => {
            &&& disk.dom().contains(path)
            &&& disk[path] == Content::Link(target)
        },
        (FileOpView::Symlink { .. }, OutcomeView::Linked) => true,
        (FileOpView::Compare { src, dest }, OutcomeView::Compared(same)) => {
            &&& disk.dom().contains(src)
            &&& disk.dom().contains(dest)
            &&& disk[src] is File
            &&& disk[dest] is File
            &&& same == (disk[src] == disk[dest])
        },
        _ => false,
    }
}

/// The file system after the operation `op` had the outcome `outcome`.
pub open spec fn disk_after<E>(
    op: FileOpView,
    outcome: OutcomeView<E>,
    disk: Map<PathView, Content>,
) -> Map<PathView, Content> {
    match (op, outcome) {
        (FileOpView::Remove(path), OutcomeView::Removed) => disk.remove(path),
        (FileOpView::CopyFile { src, dest }, OutcomeView::Copied(_)) => disk.insert(
            dest,
            disk[src],
        ),
        (FileOpView::Symlink { target, dest }, OutcomeView::Linked) => disk.insert(
            dest,
            Content::Link(target),
        ),
        _ => disk,
    }
}

/// The operation that the job `job` waits for when the outcome at position
/// `k` of `outcomes` arrives, if it waits for one.
pub open spec fn asked_at<E>(job: JobView, outcomes: Seq<OutcomeView<E>>, k: int) -> Option<
    FileOpView,
> {
    if k == 0 {
        Some(SyncView::begin(job).1)
    } else {
        match SyncView::begin(job).0.step_at(outcomes, k - 1) {
            SyncStepView::Ask(op) => Some(op),
            _ => None,
        }
    }
}

/// The file system when the outcome at position `k` of `outcomes` arrives,
/// when it was `disk` as the job began.
pub open spec fn disk_at<E>(
    job: JobView,
    outcomes: Seq<OutcomeView<E>>,
    disk: Map<PathView, Content>,
    k: int,
) -> Map<PathView, Content>
    decreases k,
{
    if k <= 0 {
        disk
    } else {
        match asked_at(job, outcomes, k - 1) {
            Some(op) => disk_after(op, outcomes[k - 1], disk_at(job, outcomes, disk, k - 1)),
            None => disk_at(job, outcomes, disk, k - 1),
        }
    }
}

/// Each of `outcomes` is true of the file system at its moment.
pub open spec fn all_true<E>(
    job: JobView,
    outcomes: Seq<OutcomeView<E>>,
    disk: Map<PathView, Content>,
) -> bool {
    forall|k: int|
        0 <= k < outcomes.len() ==> (asked_at(job, outcomes, k) matches Some(op) ==> true_of(
            op,
            #[trigger] outcomes[k],
            disk_at(job, outcomes, disk, k),
        ))
}

/// The same stands at `path` in `a` and in `b`, or nothing in both.
pub open spec fn same_at(a: Map<PathView, Content>, b: Map<PathView, Content>, path: PathView) -> bool {
    &&& a.dom().contains(path) == b.dom().contains(path)
    &&& a.dom().contains(path) ==> a[path] == b[path]
}

/// The file system `now` is the file system `begun` but for what stands at
/// the destination of the job.
pub open spec fn only_dest_differs(
    job: JobView,
    begun: Map<PathView, Content>,
    now: Map<PathView, Content>,
) -> bool {
    forall|path: PathView| path != job.dest ==> #[trigger] same_at(begun, now, path)
}

/// What the job in the state `task` knows of the file system `now` while it
/// waits for the operation `op`.
#[verifier::opaque]
pub open spec fn on_course(
    task: SyncView,
    op: Option<FileOpView>,
    job: JobView,
    begun: Map<PathView, Content>,
    now: Map<PathView, Content>,
) -> bool {
    &&& task.job == job
    &&& only_dest_differs(job, begun, now)
    &&& match task.stage {
        SyncStageView::Inspecting => op == Some(FileOpView::Inspect(job.dest)),
        SyncStageView::Comparing => {
            &&& op == Some(FileOpView::Compare { src: job.src, dest: job.dest })
            &&& !job.symlink
        },
        SyncStageView::SourceTarget => {
            &&& op == Some(FileOpView::ReadLink(job.src))
            &&& job.symlink
        },
        SyncStageView::DestTarget { source } => {
            &&& op == Some(FileOpView::ReadLink(job.dest))
            &&& job.symlink
            &&& now.dom().contains(job.src)
            &&& now[job.src] == Content::Link(source)
        },
        SyncStageView::Removing => op == Some(FileOpView::Remove(job.dest)),
        SyncStageView::Copying => {
            &&& op == Some(FileOpView::CopyFile { src: job.src, dest: job.dest })
            &&& !job.symlink
        },
        SyncStageView::ReadingLink => {
            &&& op == Some(FileOpView::ReadLink(job.src))
            &&& job.symlink
        },
        SyncStageView::Linking => {
            &&& op matches Some(FileOpView::Symlink { target, dest })
            &&& dest == job.dest
            &&& job.symlink
            &&& now.dom().contains(job.src)
            &&& now[job.src] == Content::Link(target)
        },
        SyncStageView::Finished => op is None,
    }
}

/// The operation that a step leaves the job waiting for.
pub open spec fn asked_by<E>(step: SyncStepView<E>) -> Option<FileOpView> {
    match step {
        SyncStepView::Ask(op) => Some(op),
        _ => None,
    }
}

/// One step of a job on a file system: the job stays on course, and when it
/// ends well, the destination holds what the source holds.
pub proof fn lemma_step_on_course<E>(
    task: SyncView,
    op: FileOpView,
    job: JobView,
    begun: Map<PathView, Content>,
    now: Map<PathView, Content>,
    outcome: OutcomeView<E>,
)
    requires
        job.src != job.dest,
        on_course(task, Some(op), job, begun, now),
        true_of(op, outcome, now),
    ensures
        on_course(
            task.next(outcome).0,
            asked_by(task.next(outcome).1),
            job,
            begun,
            disk_after(op, outcome, now),
        ),
        task.next(outcome).1 is Copied ==> mirrored(job, begun, disk_after(op, outcome, now)),
{
    reveal(on_course);
    let after = disk_after(op, outcome, now);
    assert forall|path: PathView| path != job.dest implies #[trigger] same_at(
        begun,
        after,
        path,
    ) by {
        assert(same_at(begun, now, path));
    }
    assert(same_at(begun, now, job.src));
}

/// A job begins on course.
proof fn lemma_begins_on_course(job: JobView, disk: Map<PathView, Content>)
    ensures
        on_course(SyncView::begin(job).0, Some(SyncView::begin(job).1), job, disk, disk),
{
    reveal(on_course);
    assert forall|path: PathView| path != job.dest implies #[trigger] same_at(
        disk,
        disk,
        path,
    ) by {}
}

/// A job that waits for nothing is over, and stays so.
proof fn lemma_idle_on_course<E>(
    task: SyncView,
    job: JobView,
    begun: Map<PathView, Content>,
    now: Map<PathView, Content>,
    outcome: OutcomeView<E>,
)
    requires
        on_course(task, None, job, begun, now),
    ensures
        on_course(task.next(outcome).0, asked_by(task.next(outcome).1), job, begun, now),
        !(task.next(outcome).1 is Copied),
{
    reveal(on_course);
}

/// The destination of the job holds what its source held as the job began:
/// a file with the same bytes where the job is for a file, a link with the
/// same target where it is for a link. Nothing else has changed.
pub open spec fn mirrored(
    job: JobView,
    begun: Map<PathView, Content>,
    now: Map<PathView, Content>,
) -> bool {
    &&& begun.dom().contains(job.src)
    &&& now.dom().contains(job.dest)
    &&& now[job.dest] == begun[job.src]
    &&& if job.symlink {
        begun[job.src] is Link
    } else {
        begun[job.src] is File
    }
    &&& only_dest_differs(job, begun, now)
}

proof fn lemma_on_course_at<E>(
    job: JobView,
    outcomes: Seq<OutcomeView<E>>,
    disk: Map<PathView, Content>,
    k: int,
)
    requires
        job.src != job.dest,
        all_true(job, outcomes, disk),
        0 <= k <= outcomes.len(),
    ensures
        on_course(
            SyncView::begin(job).0.after(outcomes.take(k)),
            asked_at(job, outcomes, k),
            job,
            disk,
            disk_at(job, outcomes, disk, k),
        ),
        k > 0 && SyncView::begin(job).0.step_at(outcomes, k - 1) is Copied ==> mirrored(
            job,
            disk,
            disk_at(job, outcomes, disk, k),
        ),
    decreases k,
{
    let start = SyncView::begin(job).0;
    if k == 0 {
        assert(outcomes.take(0) =~= Seq::<OutcomeView<E>>::empty());
        assert(start.after(outcomes.take(0)) == start);
        lemma_begins_on_course(job, disk);
    } else {
        lemma_on_course_at(job, outcomes, disk, k - 1);
        lemma_after_take(start, outcomes, k - 1);
        let task = start.after(outcomes.take(k - 1));
        let outcome = outcomes[k - 1];
        let now = disk_at(job, outcomes, disk, k - 1);
        assert(start.after(outcomes.take(k)) == task.next(outcome).0);
        assert(start.step_at(outcomes, k - 1) == task.next(outcome).1);
        assert(asked_at(job, outcomes, k) == asked_by(task.next(outcome).1));
        match asked_at(job, outcomes, k - 1) {
            Some(op) => {
                assert(true_of(op, outcome, now));
                assert(disk_at(job, outcomes, disk, k) == disk_after(op, outcome, now));
                lemma_step_on_course(task, op, job, disk, now, outcome);
            },
            None => {
                assert(disk_at(job, outcomes, disk, k) == now);
                lemma_idle_on_course(task, job, disk, now, outcome);
            },
        }
    }
}

/// Mirroring, job by job: when a job ends well on a file system that answers
/// truly, its destination holds what its source holds, bytes for a file and
/// target for a link, and nothing else on the file system has changed.
///
/// `disk` is the file system as the job begins. The job is for a source and
/// a destination that are two paths.
pub proof fn lemma_job_mirrors<E>(
    job: JobView,
    outcomes: Seq<OutcomeView<E>>,
    disk: Map<PathView, Content>,
    k: int,
)
    requires
        job.src != job.dest,
        all_true(job, outcomes, disk),
        0 <= k < outcomes.len(),
        SyncView::begin(job).0.step_at(outcomes, k) is Copied,
    ensures
        mirrored(job, disk, disk_at(job, outcomes, disk, k + 1)),
{
    lemma_on_course_at(job, outcomes, disk, k + 1);
}


/// `path` is the destination of one of `jobs`.
pub open spec fn is_dest(jobs: Seq<JobView>, path: PathView) -> bool {
    exists|i: int| 0 <= i < jobs.len() && (#[trigger] jobs[i]).dest == path
}

/// Every one of `jobs` is mirrored on the file system `now`, which was
/// `begun` before the first of them: each destination holds what its source
/// held, and nothing has changed but the destinations.
pub open spec fn all_mirrored(
    jobs: Seq<JobView>,
    begun: Map<PathView, Content>,
    now: Map<PathView, Content>,
) -> bool {
    &&& forall|i: int|
        0 <= i < jobs.len() ==> {
            &&& begun.dom().contains((#[trigger] jobs[i]).src)
            &&& now.dom().contains(jobs[i].dest)
            &&& now[jobs[i].dest] == begun[jobs[i].src]
        }
    &&& forall|path: PathView| !is_dest(jobs, path) ==> #[trigger] same_at(begun, now, path)
}

/// Jobs with different destinations do not disturb each other: when `jobs`
/// are mirrored and then one more job ends well, whose destination is not
/// theirs and is the source of none, and whose source is no destination,
/// then all of them are mirrored.
pub proof fn lemma_mirrored_one_more(
    jobs: Seq<JobView>,
    job: JobView,
    begun: Map<PathView, Content>,
    before: Map<PathView, Content>,
    now: Map<PathView, Content>,
)
    requires
        all_mirrored(jobs, begun, before),
        mirrored(job, before, now),
        !is_dest(jobs, job.dest),
        !is_dest(jobs, job.src),
        forall|i: int| 0 <= i < jobs.len() ==> (#[trigger] jobs[i]).src != job.dest,
    ensures
        all_mirrored(jobs.push(job), begun, now),
{
    let more = jobs.push(job);
    assert(same_at(begun, before, job.src));
    assert forall|i: int| 0 <= i < more.len() implies {
        &&& begun.dom().contains((#[trigger] more[i]).src)
        &&& now.dom().contains(more[i].dest)
        &&& now[more[i].dest] == begun[more[i].src]
    } by {
        if i < jobs.len() {
            assert(more[i] == jobs[i]);
            assert(jobs[i].dest != job.dest);
            assert(same_at(before, now, jobs[i].dest));
        }
    }
    assert forall|path: PathView| !is_dest(more, path) implies #[trigger] same_at(
        begun,
        now,
        path,
    ) by {
        assert(more[jobs.len() as int].dest != path);
        if is_dest(jobs, path) {
            let i = choose|i: int| 0 <= i < jobs.len() && (#[trigger] jobs[i]).dest == path;
            assert(more[i].dest == path);
        }
        assert(same_at(begun, before, path));
        assert(same_at(before, now, path));
    }
}

} // verus!
