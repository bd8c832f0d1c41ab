//! The sync engine: what is to be done with one copy job, decided operation
//! by operation.
//!
//! A job whose destination cannot exist is created blindly: a file is copied,
//! a symbolic link is read and made anew with the same target. A job whose
//! destination may exist is merged: what stands at the destination is looked
//! at first, and is kept, replaced or refused.
//!
//! Where the destination holds a file or link of at least
//! [`MIN_BYTES_FOR_SYNC`] bytes, the engine compares before it copies. A file
//! is compared with a file byte by byte, a link with a link by its target; a
//! file never equals a link. What equals the source is left alone. What
//! differs is removed and created from the source: the source wins.

pub use crate::directory_traversal::CopyJob;
use crate::directory_traversal::JobView;
use crate::path::{PathView, TreePath};
use vstd::prelude::*;

verus! {

/// The size in bytes from which on a destination is compared with the source
/// before it is replaced. Anything smaller is replaced at once.
pub const MIN_BYTES_FOR_SYNC: u64 = 1024;

/// An operation on the file system that the engine needs done.
#[derive(Debug, PartialEq, Eq)]
pub enum FileOp {
    /// Look at what stands at this destination path, without following a
    /// symbolic link. A failure of this operation is taken to mean that
    /// nothing stands there.
    Inspect(TreePath),
    /// Remove the file or symbolic link at this destination path.
    Remove(TreePath),
    /// Copy the bytes of the file `src` to the new file `dest`.
    CopyFile { src: TreePath, dest: TreePath },
    /// Read the target of the symbolic link at this path.
    ReadLink(TreePath),
    /// Make a symbolic link at `dest` that points to `target`.
    Symlink { target: Vec<u8>, dest: TreePath },
    /// Tell whether the files `src` and `dest` hold the same bytes.
    Compare { src: TreePath, dest: TreePath },
}

/// The mathematical value of a [`FileOp`].
pub enum FileOpView {
    Inspect(PathView),
    Remove(PathView),
    CopyFile { src: PathView, dest: PathView },
    ReadLink(PathView),
    Symlink { target: Seq<u8>, dest: PathView },
    Compare { src: PathView, dest: PathView },
}

impl View for FileOp {
    type V = FileOpView;

    open spec fn view(&self) -> FileOpView {
        match self {
            FileOp::Inspect(p) => FileOpView::Inspect(p@),
            FileOp::Remove(p) => FileOpView::Remove(p@),
            FileOp::CopyFile { src, dest } => FileOpView::CopyFile { src: src@, dest: dest@ },
            FileOp::ReadLink(p) => FileOpView::ReadLink(p@),
            FileOp::Symlink { target, dest } => FileOpView::Symlink {
                target: target@,
                dest: dest@,
            },
            FileOp::Compare { src, dest } => FileOpView::Compare { src: src@, dest: dest@ },
        }
    }
}

/// What came of the operation that the engine asked for.
#[derive(Debug, PartialEq, Eq)]
pub enum Outcome<E> {
    /// Answers [`FileOp::Inspect`]: something stands there. `len` is its size
    /// as its own metadata gives it.
    Found { is_dir: bool, is_symlink: bool, len: u64 },
    /// Answers [`FileOp::Remove`].
    Removed,
    /// Answers [`FileOp::CopyFile`] with the number of bytes copied.
    Copied(u64),
    /// Answers [`FileOp::ReadLink`] with the target as it is stored.
    Target(Vec<u8>),
    /// Answers [`FileOp::Symlink`].
    Linked,
    /// Answers [`FileOp::Compare`]: whether the two files are equal.
    Compared(bool),
    /// The operation failed.
    Failed(E),
}

/// The mathematical value of an [`Outcome`].
pub enum OutcomeView<E> {
    Found { is_dir: bool, is_symlink: bool, len: u64 },
    Removed,
    Copied(u64),
    Target(Seq<u8>),
    Linked,
    Compared(bool),
    Failed(E),
}

impl<E> View for Outcome<E> {
    type V = OutcomeView<E>;

    open spec fn view(&self) -> OutcomeView<E> {
        match self {
            Outcome::Found { is_dir, is_symlink, len } => OutcomeView::Found {
                is_dir: *is_dir,
                is_symlink: *is_symlink,
                len: *len,
            },
            Outcome::Removed => OutcomeView::Removed,
            Outcome::Copied(n) => OutcomeView::Copied(*n),
            Outcome::Target(t) => OutcomeView::Target(t@),
            Outcome::Linked => OutcomeView::Linked,
            Outcome::Compared(b) => OutcomeView::Compared(*b),
            Outcome::Failed(e) => OutcomeView::Failed(*e),
        }
    }
}

/// Why a job could not be carried out.
#[derive(Debug, PartialEq, Eq)]
pub enum SyncError<E> {
    /// An operation failed while `src` was being brought to `dest`.
    Io { cause: E, src: TreePath, dest: TreePath },
    /// A directory stands at the destination of a file or symbolic link.
    Conflict(TreePath),
    /// The driver handed over an outcome that does not answer what was asked.
    Unexpected,
}

/// The mathematical value of a [`SyncError`].
pub enum SyncErrorView<E> {
    Io { cause: E, src: PathView, dest: PathView },
    Conflict(PathView),
    Unexpected,
}

impl<E> View for SyncError<E> {
    type V = SyncErrorView<E>;

    open spec fn view(&self) -> SyncErrorView<E> {
        match self {
            SyncError::Io { cause, src, dest } => SyncErrorView::Io {
                cause: *cause,
                src: src@,
                dest: dest@,
            },
            SyncError::Conflict(p) => SyncErrorView::Conflict(p@),
            SyncError::Unexpected => SyncErrorView::Unexpected,
        }
    }
}

/// What one call of [`SyncTask::next`] comes back with.
#[derive(Debug, PartialEq, Eq)]
pub enum SyncStep<E> {
    /// Perform this operation and call again with its outcome.
    Ask(FileOp),
    /// The job is over: the number of bytes copied, or why it failed.
    Done(Result<u64, SyncError<E>>),
}

/// The mathematical value of a [`SyncStep`].
pub enum SyncStepView<E> {
    Ask(FileOpView),
    Copied(u64),
    Failed(SyncErrorView<E>),
}

impl<E> View for SyncStep<E> {
    type V = SyncStepView<E>;

    open spec fn view(&self) -> SyncStepView<E> {
        match self {
            SyncStep::Ask(op) => SyncStepView::Ask(op@),
            SyncStep::Done(Ok(n)) => SyncStepView::Copied(*n),
            SyncStep::Done(Err(e)) => SyncStepView::Failed(e@),
        }
    }
}

/// Where a job stands between two calls.
enum SyncStage {
    Inspecting,
    Comparing,
    SourceTarget,
    DestTarget { source: Vec<u8> },
    Removing,
    Copying,
    ReadingLink,
    Linking,
    Finished,
}

/// The mathematical value of a job's position.
pub enum SyncStageView {
    /// Asked what stands at the destination.
    Inspecting,
    /// Asked whether the source file and the destination file are equal.
    Comparing,
    /// Asked for the target of the source link, to compare it.
    SourceTarget,
    /// Asked for the target of the destination link; the source link points
    /// to `source`.
    DestTarget { source: Seq<u8> },
    /// Asked to remove what stands at the destination.
    Removing,
    /// Asked to copy the file.
    Copying,
    /// Asked for the target of the source link, to make the link anew.
    ReadingLink,
    /// Asked to make the link.
    Linking,
    /// The job is over.
    Finished,
}

impl View for SyncStage {
    type V = SyncStageView;

    closed spec fn view(&self) -> SyncStageView {
        match self {
            SyncStage::Inspecting => SyncStageView::Inspecting,
            SyncStage::Comparing => SyncStageView::Comparing,
            SyncStage::SourceTarget => SyncStageView::SourceTarget,
            SyncStage::DestTarget { source } => SyncStageView::DestTarget { source: source@ },
            SyncStage::Removing => SyncStageView::Removing,
            SyncStage::Copying => SyncStageView::Copying,
            SyncStage::ReadingLink => SyncStageView::ReadingLink,
            SyncStage::Linking => SyncStageView::Linking,
            SyncStage::Finished => SyncStageView::Finished,
        }
    }
}

/// The mathematical value of a [`SyncTask`].
pub struct SyncView {
    pub job: JobView,
    pub stage: SyncStageView,
}

impl SyncView {
    /// The task with its position set to `stage`.
    pub open spec fn at(self, stage: SyncStageView) -> SyncView {
        SyncView { stage, ..self }
    }

    /// Creating the destination without looking: the first operation of it,
    /// and the position in which its outcome is awaited.
    pub open spec fn create(job: JobView) -> (SyncView, FileOpView) {
        if job.symlink {
            (SyncView { job, stage: SyncStageView::ReadingLink }, FileOpView::ReadLink(job.src))
        } else {
            (
                SyncView { job, stage: SyncStageView::Copying },
                FileOpView::CopyFile { src: job.src, dest: job.dest },
            )
        }
    }

    /// How the work on `job` begins.
    pub open spec fn begin(job: JobView) -> (SyncView, FileOpView) {
        if job.may_exist {
            (SyncView { job, stage: SyncStageView::Inspecting }, FileOpView::Inspect(job.dest))
        } else {
            Self::create(job)
        }
    }

    /// Going on with the blind creation.
    pub open spec fn recreate<E>(self) -> (SyncView, SyncStepView<E>) {
        (Self::create(self.job).0, SyncStepView::Ask(Self::create(self.job).1))
    }

    /// Removing what stands at the destination, to create it anew.
    pub open spec fn replace<E>(self) -> (SyncView, SyncStepView<E>) {
        (self.at(SyncStageView::Removing), SyncStepView::Ask(FileOpView::Remove(self.job.dest)))
    }

    /// Ending the job with `bytes` copied.
    pub open spec fn finish<E>(self, bytes: u64) -> (SyncView, SyncStepView<E>) {
        (self.at(SyncStageView::Finished), SyncStepView::Copied(bytes))
    }

    /// Ending the job with `error`.
    pub open spec fn fail<E>(self, error: SyncErrorView<E>) -> (SyncView, SyncStepView<E>) {
        (self.at(SyncStageView::Finished), SyncStepView::Failed(error))
    }

    /// Ending the job because the operation failed with `cause`.
    pub open spec fn fail_io<E>(self, cause: E) -> (SyncView, SyncStepView<E>) {
        self.fail(SyncErrorView::Io { cause, src: self.job.src, dest: self.job.dest })
    }

    /// What follows from what was found at the destination.
    pub open spec fn on_found<E>(self, is_dir: bool, is_symlink: bool, len: u64) -> (
        SyncView,
        SyncStepView<E>,
    ) {
        if is_dir {
            self.fail(SyncErrorView::Conflict(self.job.dest))
        } else if len < MIN_BYTES_FOR_SYNC {
            self.replace()
        } else if is_symlink != self.job.symlink {
            self.replace()
        } else if is_symlink {
            (
                self.at(SyncStageView::SourceTarget),
                SyncStepView::Ask(FileOpView::ReadLink(self.job.src)),
            )
        } else {
            (
                self.at(SyncStageView::Comparing),
                SyncStepView::Ask(
                    FileOpView::Compare { src: self.job.src, dest: self.job.dest },
                ),
            )
        }
    }

    /// The state reached from `self` by the outcomes `outcomes`, in order.
    pub open spec fn after<E>(self, outcomes: Seq<OutcomeView<E>>) -> SyncView
        decreases outcomes.len(),
    {
        if outcomes.len() == 0 {
            self
        } else {
            self.after(outcomes.drop_last()).next(outcomes.last()).0
        }
    }

    /// What the task answers to the outcome at position `k` of `outcomes`.
    pub open spec fn step_at<E>(self, outcomes: Seq<OutcomeView<E>>, k: int) -> SyncStepView<E> {
        self.after(outcomes.take(k)).next(outcomes[k]).1
    }

    /// The transition function of a job: the state and the step that follow
    /// from the state `self` and the outcome `outcome`.
    pub open spec fn next<E>(self, outcome: OutcomeView<E>) -> (SyncView, SyncStepView<E>) {
        match self.stage {
            SyncStageView::Inspecting => match outcome {
                OutcomeView::Found { is_dir, is_symlink, len } => self.on_found(
                    is_dir,
                    is_symlink,
                    len,
                ),
                OutcomeView::Failed(_) => self.recreate(),
                _ => self.fail(SyncErrorView::Unexpected),
            },
            SyncStageView::Comparing => match outcome {
                OutcomeView::Compared(true) => self.finish(0),
                OutcomeView::Compared(false) => self.replace(),
                OutcomeView::Failed(e) => self.fail_io(e),
                _ => self.fail(SyncErrorView::Unexpected),
            },
            SyncStageView::SourceTarget => match outcome {
                OutcomeView::Target(source) => (
                    self.at(SyncStageView::DestTarget { source }),
                    SyncStepView::Ask(FileOpView::ReadLink(self.job.dest)),
                ),
                OutcomeView::Failed(e) => self.fail_io(e),
                _ => self.fail(SyncErrorView::Unexpected),
            },
            SyncStageView::DestTarget { source } => match outcome {
                OutcomeView::Target(target) => if target == source {
                    self.finish(0)
                } else {
                    self.replace()
                },
                OutcomeView::Failed(e) => self.fail_io(e),
                _ => self.fail(SyncErrorView::Unexpected),
            },
            SyncStageView::Removing => match outcome {
                OutcomeView::Removed => self.recreate(),
                OutcomeView::Failed(e) => self.fail_io(e),
                _ => self.fail(SyncErrorView::Unexpected),
            },
            SyncStageView::Copying => match outcome {
                OutcomeView::Copied(bytes) => self.finish(bytes),
                OutcomeView::Failed(e) => self.fail_io(e),
                _ => self.fail(SyncErrorView::Unexpected),
            },
            SyncStageView::ReadingLink => match outcome {
                OutcomeView::Target(target) => (
                    self.at(SyncStageView::Linking),
                    SyncStepView::Ask(FileOpView::Symlink { target, dest: self.job.dest }),
                ),
                OutcomeView::Failed(e) => self.fail_io(e),
                _ => self.fail(SyncErrorView::Unexpected),
            },
            SyncStageView::Linking => match outcome {
                OutcomeView::Linked => self.finish(0),
                OutcomeView::Failed(e) => self.fail_io(e),
                _ => self.fail(SyncErrorView::Unexpected),
            },
            SyncStageView::Finished => self.fail(SyncErrorView::Unexpected),
        }
    }
}

/// The work on one copy job, from its first operation to its end.
pub struct SyncTask {
    job: CopyJob,
    stage: SyncStage,
}

impl View for SyncTask {
    type V = SyncView;

    closed spec fn view(&self) -> SyncView {
        SyncView { job: self.job@, stage: self.stage@ }
    }
}

/// Whether `a` and `b` hold the same bytes.
fn same_bytes(a: &Vec<u8>, b: &Vec<u8>) -> (same: bool)
    ensures
        same == (a@ == b@),
{
    if a.len() != b.len() {
        return false;
    }
    let mut i: usize = 0;
    while i < a.len()
        invariant
            i <= a.len(),
            a.len() == b.len(),
            a@.subrange(0, i as int) == b@.subrange(0, i as int),
        decreases a.len() - i,
    {
        if a[i] != b[i] {
            return false;
        }
        proof {
            assert(a@.subrange(0, i + 1) =~= a@.subrange(0, i as int).push(a@[i as int]));
            assert(b@.subrange(0, i + 1) =~= b@.subrange(0, i as int).push(b@[i as int]));
        }
        i += 1;
    }
    proof {
        assert(a@.subrange(0, a@.len() as int) =~= a@);
        assert(b@.subrange(0, b@.len() as int) =~= b@);
    }
    true
}

/// The first operation of a blind creation of `job`, and the position in
/// which its outcome is awaited.
fn create(job: &CopyJob) -> (start: (SyncStage, FileOp))
    ensures
        start.0@ == SyncView::create(job@).0.stage,
        start.1@ == SyncView::create(job@).1,
{
    if job.symlink {
        (SyncStage::ReadingLink, FileOp::ReadLink(job.src.duplicate()))
    } else {
        (
            SyncStage::Copying,
            FileOp::CopyFile { src: job.src.duplicate(), dest: job.dest.duplicate() },
        )
    }
}

/// Takes up the job `job`. The result is the task and the first operation it
/// needs: a look at the destination where something may stand there, else
/// the first operation of creating it.
pub fn sync(job: CopyJob) -> (start: (SyncTask, FileOp))
    ensures
        start.0@ == SyncView::begin(job@).0,
        start.1@ == SyncView::begin(job@).1,
{
    if job.may_exist {
        let op = FileOp::Inspect(job.dest.duplicate());
        (SyncTask { job, stage: SyncStage::Inspecting }, op)
    } else {
        let (stage, op) = create(&job);
        (SyncTask { job, stage }, op)
    }
}

impl SyncTask {
    fn recreate<E>(&mut self) -> (step: SyncStep<E>)
        ensures
            (final(self)@, step@) == old(self)@.recreate::<E>(),
    {
        let (stage, op) = create(&self.job);
        self.stage = stage;
        SyncStep::Ask(op)
    }

    fn replace<E>(&mut self) -> (step: SyncStep<E>)
        ensures
            (final(self)@, step@) == old(self)@.replace::<E>(),
    {
        self.stage = SyncStage::Removing;
        SyncStep::Ask(FileOp::Remove(self.job.dest.duplicate()))
    }

    fn finish<E>(&mut self, bytes: u64) -> (step: SyncStep<E>)
        ensures
            (final(self)@, step@) == old(self)@.finish::<E>(bytes),
    {
        self.stage = SyncStage::Finished;
        SyncStep::Done(Ok(bytes))
    }

    fn fail<E>(&mut self, error: SyncError<E>) -> (step: SyncStep<E>)
        ensures
            (final(self)@, step@) == old(self)@.fail(error@),
    {
        self.stage = SyncStage::Finished;
        SyncStep::Done(Err(error))
    }

    fn fail_io<E>(&mut self, cause: E) -> (step: SyncStep<E>)
        ensures
            (final(self)@, step@) == old(self)@.fail_io(cause),
    {
        let error = SyncError::Io {
            cause,
            src: self.job.src.duplicate(),
            dest: self.job.dest.duplicate(),
        };
        self.fail(error)
    }

    fn on_found<E>(&mut self, is_dir: bool, is_symlink: bool, len: u64) -> (step: SyncStep<E>)
        ensures
            (final(self)@, step@) == old(self)@.on_found::<E>(is_dir, is_symlink, len),
    {
        if is_dir {
            let dest = self.job.dest.duplicate();
            self.fail(SyncError::Conflict(dest))
        } else if len < MIN_BYTES_FOR_SYNC {
            self.replace()
        } else if is_symlink != self.job.symlink {
            self.replace()
        } else if is_symlink {
            self.stage = SyncStage::SourceTarget;
            SyncStep::Ask(FileOp::ReadLink(self.job.src.duplicate()))
        } else {
            self.stage = SyncStage::Comparing;
            SyncStep::Ask(
                FileOp::Compare { src: self.job.src.duplicate(), dest: self.job.dest.duplicate() },
            )
        }
    }

    /// Advances the job. `outcome` is what came of the operation that was
    /// asked for last. The result is the next operation, or the end of the
    /// job with the number of bytes copied or the error.
    pub fn next<E>(&mut self, outcome: Outcome<E>) -> (step: SyncStep<E>)
        ensures
            (final(self)@, step@) == old(self)@.next(outcome@),
    {
        let mut stage = SyncStage::Finished;
        core::mem::swap(&mut self.stage, &mut stage);
        assert(self@ == old(self)@.at(SyncStageView::Finished));
        match stage {
            SyncStage::Inspecting => match outcome {
                Outcome::Found { is_dir, is_symlink, len } => self.on_found(
                    is_dir,
                    is_symlink,
                    len,
                ),
                Outcome::Failed(_) => self.recreate(),
                _ => self.fail(SyncError::Unexpected),
            },
            SyncStage::Comparing => match outcome {
                Outcome::Compared(true) => self.finish(0),
                Outcome::Compared(false) => self.replace(),
                Outcome::Failed(e) => self.fail_io(e),
                _ => self.fail(SyncError::Unexpected),
            },
            SyncStage::SourceTarget => match outcome {
                Outcome::Target(source) => {
                    self.stage = SyncStage::DestTarget { source };
                    SyncStep::Ask(FileOp::ReadLink(self.job.dest.duplicate()))
                },
                Outcome::Failed(e) => self.fail_io(e),
                _ => self.fail(SyncError::Unexpected),
            },
            SyncStage::DestTarget { source } => match outcome {
                Outcome::Target(target) => if same_bytes(&target, &source) {
                    self.finish(0)
                } else {
                    self.replace()
                },
                Outcome::Failed(e) => self.fail_io(e),
                _ => self.fail(SyncError::Unexpected),
            },
            SyncStage::Removing => match outcome {
                Outcome::Removed => self.recreate(),
                Outcome::Failed(e) => self.fail_io(e),
                _ => self.fail(SyncError::Unexpected),
            },
            SyncStage::Copying => match outcome {
                Outcome::Copied(bytes) => self.finish(bytes),
                Outcome::Failed(e) => self.fail_io(e),
                _ => self.fail(SyncError::Unexpected),
            },
            SyncStage::ReadingLink => match outcome {
                Outcome::Target(target) => {
                    self.stage = SyncStage::Linking;
                    SyncStep::Ask(FileOp::Symlink { target, dest: self.job.dest.duplicate() })
                },
                Outcome::Failed(e) => self.fail_io(e),
                _ => self.fail(SyncError::Unexpected),
            },
            SyncStage::Linking => match outcome {
                Outcome::Linked => self.finish(0),
                Outcome::Failed(e) => self.fail_io(e),
                _ => self.fail(SyncError::Unexpected),
            },
            SyncStage::Finished => self.fail(SyncError::Unexpected),
        }
    }
}

} // verus!
