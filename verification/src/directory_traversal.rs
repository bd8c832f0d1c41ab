//! The tree walker: a lazy, depth-first traversal of a source tree that has
//! every destination directory created before it yields a copy job that lies
//! inside it.
//!
//! The walker never touches the file system. It is a state machine: each call
//! of [`CopyJobIterator::next`] takes the outcome of the operation that the
//! walker asked for last and returns what it wants next, a job, or the end.

use crate::path::{
    clone_names, lemma_names_empty, lemma_names_push, names_view, PathView, TreePath,
};
use vstd::prelude::*;

verus! {

/// One entry of the source tree that is not a directory, with the place it is
/// to be copied to.
#[derive(Debug, PartialEq, Eq)]
pub struct CopyJob {
    pub src: TreePath,
    pub dest: TreePath,
    pub symlink: bool,
    /// Whether something may already stand at `dest`. It is `false` exactly
    /// when the directory that holds `dest` was created by this traversal.
    pub may_exist: bool,
}

/// The mathematical value of a [`CopyJob`].
pub struct JobView {
    pub src: PathView,
    pub dest: PathView,
    pub symlink: bool,
    pub may_exist: bool,
}

impl View for CopyJob {
    type V = JobView;

    open spec fn view(&self) -> JobView {
        JobView {
            src: self.src@,
            dest: self.dest@,
            symlink: self.symlink,
            may_exist: self.may_exist,
        }
    }
}

/// What a directory entry is, as its file type says without following links.
#[derive(Clone, Copy, Debug, PartialEq, Eq, Structural)]
pub enum EntryKind {
    Directory,
    File,
    Symlink,
    /// A device node, socket, FIFO or anything else that cannot be copied.
    Other,
}

/// An operation that the walker needs done before it can go on.
#[derive(Debug, PartialEq, Eq)]
pub enum Request {
    /// Does this destination path exist?
    Exists(TreePath),
    /// Create this destination directory.
    CreateDir(TreePath),
    /// Open this source directory for enumeration and name the handle.
    OpenDir(TreePath),
    /// Read the next entry from the directory behind this handle.
    ReadEntry(u64),
}

/// The mathematical value of a [`Request`].
pub enum RequestView {
    Exists(PathView),
    CreateDir(PathView),
    OpenDir(PathView),
    ReadEntry(u64),
}

impl View for Request {
    type V = RequestView;

    open spec fn view(&self) -> RequestView {
        match self {
            Request::Exists(p) => RequestView::Exists(p@),
            Request::CreateDir(p) => RequestView::CreateDir(p@),
            Request::OpenDir(p) => RequestView::OpenDir(p@),
            Request::ReadEntry(h) => RequestView::ReadEntry(*h),
        }
    }
}

/// What the driver hands to the walker: the outcome of the last request.
#[derive(Debug, PartialEq, Eq)]
pub enum Reply<E> {
    /// Nothing was asked: the first call, and the call after each job.
    Resume,
    /// Answers [`Request::Exists`].
    Exists(bool),
    /// Answers [`Request::CreateDir`]: the directory now exists.
    Created,
    /// Answers [`Request::OpenDir`] with the handle of the opened directory.
    Opened(u64),
    /// Answers [`Request::ReadEntry`] with the next entry.
    Entry { name: Vec<u8>, kind: EntryKind },
    /// Answers [`Request::ReadEntry`]: the directory has no further entry.
    Exhausted,
    /// The requested operation failed.
    Failed(E),
}

/// The mathematical value of a [`Reply`].
pub enum ReplyView<E> {
    Resume,
    Exists(bool),
    Created,
    Opened(u64),
    Entry { name: Seq<u8>, kind: EntryKind },
    Exhausted,
    Failed(E),
}

impl<E> View for Reply<E> {
    type V = ReplyView<E>;

    open spec fn view(&self) -> ReplyView<E> {
        match self {
            Reply::Resume => ReplyView::Resume,
            Reply::Exists(b) => ReplyView::Exists(*b),
            Reply::Created => ReplyView::Created,
            Reply::Opened(h) => ReplyView::Opened(*h),
            Reply::Entry { name, kind } => ReplyView::Entry { name: name@, kind: *kind },
            Reply::Exhausted => ReplyView::Exhausted,
            Reply::Failed(e) => ReplyView::Failed(*e),
        }
    }
}

/// Why a traversal ended early.
#[derive(Debug, PartialEq, Eq)]
pub enum WalkError<E> {
    /// The traversal could not begin: the destination root could not be
    /// created, or the source root could not be opened.
    Open(E),
    /// An operation failed while the tree was being walked.
    Io(E),
    /// The source entry at this path is neither a directory, a regular file
    /// nor a symbolic link.
    Unsupported(TreePath),
    /// The driver handed over a reply that does not answer what was asked.
    Unexpected,
}

/// The mathematical value of a [`WalkError`].
pub enum WalkErrorView<E> {
    Open(E),
    Io(E),
    Unsupported(PathView),
    Unexpected,
}

impl<E> View for WalkError<E> {
    type V = WalkErrorView<E>;

    open spec fn view(&self) -> WalkErrorView<E> {
        match self {
            WalkError::Open(e) => WalkErrorView::Open(*e),
            WalkError::Io(e) => WalkErrorView::Io(*e),
            WalkError::Unsupported(p) => WalkErrorView::Unsupported(p@),
            WalkError::Unexpected => WalkErrorView::Unexpected,
        }
    }
}

/// What one call of [`CopyJobIterator::next`] comes back with.
#[derive(Debug, PartialEq, Eq)]
pub enum Step<E> {
    /// Perform this operation and call again with its outcome.
    Ask(Request),
    /// The next job. Call again with [`Reply::Resume`] for more.
    Yield(CopyJob),
    /// The traversal failed. Nothing follows.
    Failed(WalkError<E>),
    /// The traversal is over.
    Done,
}

/// The mathematical value of a [`Step`].
pub enum StepView<E> {
    Ask(RequestView),
    Yield(JobView),
    Failed(WalkErrorView<E>),
    Done,
}

impl<E> View for Step<E> {
    type V = StepView<E>;

    open spec fn view(&self) -> StepView<E> {
        match self {
            Step::Ask(r) => StepView::Ask(r@),
            Step::Yield(j) => StepView::Yield(j@),
            Step::Failed(e) => StepView::Failed(e@),
            Step::Done => StepView::Done,
        }
    }
}

/// One directory that is being enumerated, or waits to be.
struct State {
    /// The names that lead from the roots down to this directory.
    rel: Vec<Vec<u8>>,
    /// The handle under which the driver keeps the open source directory.
    src_entries: u64,
    /// Whether the destination directory was created by this traversal, so
    /// that nothing beneath it can exist yet.
    fresh_parent: bool,
}

/// The mathematical value of a frame of the walker's stack.
pub struct FrameView {
    pub rel: Seq<Seq<u8>>,
    pub handle: u64,
    pub fresh: bool,
}

impl View for State {
    type V = FrameView;

    closed spec fn view(&self) -> FrameView {
        FrameView {
            rel: names_view(self.rel@),
            handle: self.src_entries,
            fresh: self.fresh_parent,
        }
    }
}

/// Where the walker stands between two calls.
enum Stage {
    Start,
    RootExists,
    RootCreate,
    RootOpen { fresh: bool },
    Paused,
    Reading,
    DirExists { name: Vec<u8> },
    DirCreate { name: Vec<u8> },
    DirOpen { name: Vec<u8>, fresh: bool },
    Finished,
    Poisoned,
}

/// The mathematical value of the walker's position.
pub enum StageView {
    /// Nothing has been asked yet.
    Start,
    /// Asked whether the destination root exists.
    RootExists,
    /// Asked to create the destination root.
    RootCreate,
    /// Asked to open the source root.
    RootOpen { fresh: bool },
    /// A job was yielded; the walker waits to be resumed.
    Paused,
    /// Asked for the next entry of the directory on top of the stack.
    Reading,
    /// Found the sub-directory `name`; asked whether its destination exists.
    DirExists { name: Seq<u8> },
    /// Asked to create the destination of the sub-directory `name`.
    DirCreate { name: Seq<u8> },
    /// Asked to open the sub-directory `name` of the source.
    DirOpen { name: Seq<u8>, fresh: bool },
    /// Every directory has been read to its end.
    Finished,
    /// An error was reported. Nothing will be yielded any more.
    Poisoned,
}

impl View for Stage {
    type V = StageView;

    closed spec fn view(&self) -> StageView {
        match self {
            Stage::Start => StageView::Start,
            Stage::RootExists => StageView::RootExists,
            Stage::RootCreate => StageView::RootCreate,
            Stage::RootOpen { fresh } => StageView::RootOpen { fresh: *fresh },
            Stage::Paused => StageView::Paused,
            Stage::Reading => StageView::Reading,
            Stage::DirExists { name } => StageView::DirExists { name: name@ },
            Stage::DirCreate { name } => StageView::DirCreate { name: name@ },
            Stage::DirOpen { name, fresh } => StageView::DirOpen { name: name@, fresh: *fresh },
            Stage::Finished => StageView::Finished,
            Stage::Poisoned => StageView::Poisoned,
        }
    }
}

/// The mathematical value of a [`CopyJobIterator`].
///
/// The last frame of `stack` is the directory that is being read. The frames
/// before it are sub-directories that were found and opened, and wait their
/// turn; the one found last is read first.
pub struct WalkerView {
    pub src: PathView,
    pub dest: PathView,
    pub stack: Seq<FrameView>,
    pub stage: StageView,
}

impl WalkerView {
    /// The traversal of `src` into `dest` before its first step.
    pub open spec fn initial(src: PathView, dest: PathView) -> WalkerView {
        WalkerView { src, dest, stack: Seq::empty(), stage: StageView::Start }
    }

    /// The source path of the entry `name` of the directory `frame`.
    pub open spec fn src_entry(self, frame: FrameView, name: Seq<u8>) -> PathView {
        self.src.descend(frame.rel).child(name)
    }

    /// The destination path of the entry `name` of the directory `frame`.
    pub open spec fn dest_entry(self, frame: FrameView, name: Seq<u8>) -> PathView {
        self.dest.descend(frame.rel).child(name)
    }

    /// The walker after an error: it keeps its frames but the one being read,
    /// and will not yield again.
    pub open spec fn poisoned(self) -> WalkerView {
        WalkerView {
            stack: if self.stack.len() > 0 {
                self.stack.drop_last()
            } else {
                self.stack
            },
            stage: StageView::Poisoned,
            ..self
        }
    }

    /// The walker with its position set to `stage`.
    pub open spec fn at(self, stage: StageView) -> WalkerView {
        WalkerView { stage, ..self }
    }

    /// Failing with `error`.
    pub open spec fn fail<E>(self, error: WalkErrorView<E>) -> (WalkerView, StepView<E>) {
        (self.poisoned(), StepView::Failed(error))
    }

    /// Going on with the directory on top of the stack, or ending when no
    /// directory is left.
    pub open spec fn proceed<E>(self) -> (WalkerView, StepView<E>) {
        if self.stack.len() == 0 {
            (self.at(StageView::Finished), StepView::Done)
        } else {
            (
                self.at(StageView::Reading),
                StepView::Ask(RequestView::ReadEntry(self.stack.last().handle)),
            )
        }
    }

    /// What an entry `name` of kind `kind`, read from the directory on top of
    /// the stack, leads to.
    pub open spec fn on_entry<E>(self, name: Seq<u8>, kind: EntryKind) -> (
        WalkerView,
        StepView<E>,
    ) {
        let top = self.stack.last();
        match kind {
            EntryKind::Directory => if top.fresh {
                (
                    self.at(StageView::DirCreate { name }),
                    StepView::Ask(RequestView::CreateDir(self.dest_entry(top, name))),
                )
            } else {
                (
                    self.at(StageView::DirExists { name }),
                    StepView::Ask(RequestView::Exists(self.dest_entry(top, name))),
                )
            },
            EntryKind::File | EntryKind::Symlink => (
                self.at(StageView::Paused),
                StepView::Yield(
                    JobView {
                        src: self.src_entry(top, name),
                        dest: self.dest_entry(top, name),
                        symlink: kind == EntryKind::Symlink,
                        may_exist: !top.fresh,
                    },
                ),
            ),
            EntryKind::Other => self.fail(WalkErrorView::Unsupported(self.src_entry(top, name))),
        }
    }

    /// The walker after the sub-directory `name` of the directory on top of
    /// the stack was opened under `handle`: the new frame waits just below the
    /// top, and reading goes on above it.
    pub open spec fn entered(self, name: Seq<u8>, handle: u64, fresh: bool) -> WalkerView {
        let top = self.stack.last();
        let found = FrameView { rel: top.rel.push(name), handle, fresh };
        WalkerView {
            stack: self.stack.drop_last().push(found).push(top),
            stage: StageView::Reading,
            ..self
        }
    }

    /// The operation that the walker waits for, if any.
    pub open spec fn pending(self) -> Option<RequestView> {
        match self.stage {
            StageView::RootExists => Some(RequestView::Exists(self.dest)),
            StageView::RootCreate => Some(RequestView::CreateDir(self.dest)),
            StageView::RootOpen { .. } => Some(RequestView::OpenDir(self.src)),
            StageView::Reading => Some(RequestView::ReadEntry(self.stack.last().handle)),
            StageView::DirExists { name } => Some(
                RequestView::Exists(self.dest_entry(self.stack.last(), name)),
            ),
            StageView::DirCreate { name } => Some(
                RequestView::CreateDir(self.dest_entry(self.stack.last(), name)),
            ),
            StageView::DirOpen { name, .. } => Some(
                RequestView::OpenDir(self.src_entry(self.stack.last(), name)),
            ),
            _ => None,
        }
    }

    /// What holds of every state that a traversal reaches: a directory is
    /// being read exactly while one is on the stack, and a sub-directory
    /// found in a fresh directory is taken for fresh itself.
    pub open spec fn wf(self) -> bool {
        match self.stage {
            StageView::Start | StageView::RootExists | StageView::RootCreate | StageView::RootOpen {
                ..
            } => self.stack.len() == 0,
            StageView::Reading => self.stack.len() > 0,
            StageView::DirExists { .. } => self.stack.len() > 0 && !self.stack.last().fresh,
            StageView::DirCreate { .. } => self.stack.len() > 0,
            StageView::DirOpen { fresh, .. } => self.stack.len() > 0 && (self.stack.last().fresh
                ==> fresh),
            StageView::Paused => self.stack.len() > 0,
            StageView::Finished => self.stack.len() == 0,
            StageView::Poisoned => true,
        }
    }

    /// The state reached from `self` by the replies `replies`, in order.
    pub open spec fn after<E>(self, replies: Seq<ReplyView<E>>) -> WalkerView
        decreases replies.len(),
    {
        if replies.len() == 0 {
            self
        } else {
            self.after(replies.drop_last()).next(replies.last()).0
        }
    }

    /// What the walker answers to the reply at position `k` of `replies`.
    pub open spec fn step_at<E>(self, replies: Seq<ReplyView<E>>, k: int) -> StepView<E> {
        self.after(replies.take(k)).next(replies[k]).1
    }

    /// The transition function of the walker: the state and the step that
    /// follow from the state `self` and the reply `reply`.
    pub open spec fn next<E>(self, reply: ReplyView<E>) -> (WalkerView, StepView<E>) {
        match self.stage {
            StageView::Start => match reply {
                ReplyView::Resume => (
                    self.at(StageView::RootExists),
                    StepView::Ask(RequestView::Exists(self.dest)),
                ),
                _ => self.fail(WalkErrorView::Unexpected),
            },
            StageView::RootExists => match reply {
                ReplyView::Exists(true) => (
                    self.at(StageView::RootOpen { fresh: false }),
                    StepView::Ask(RequestView::OpenDir(self.src)),
                ),
                ReplyView::Exists(false) => (
                    self.at(StageView::RootCreate),
                    StepView::Ask(RequestView::CreateDir(self.dest)),
                ),
                ReplyView::Failed(e) => self.fail(WalkErrorView::Open(e)),
                _ => self.fail(WalkErrorView::Unexpected),
            },
            StageView::RootCreate => match reply {
                ReplyView::Created => (
                    self.at(StageView::RootOpen { fresh: true }),
                    StepView::Ask(RequestView::OpenDir(self.src)),
                ),
                ReplyView::Failed(e) => self.fail(WalkErrorView::Open(e)),
                _ => self.fail(WalkErrorView::Unexpected),
            },
            StageView::RootOpen { fresh } => match reply {
                ReplyView::Opened(handle) => (
                    WalkerView {
                        stack: seq![FrameView { rel: Seq::empty(), handle, fresh }],
                        stage: StageView::Reading,
                        ..self
                    },
                    StepView::Ask(RequestView::ReadEntry(handle)),
                ),
                ReplyView::Failed(e) => self.fail(WalkErrorView::Open(e)),
                _ => self.fail(WalkErrorView::Unexpected),
            },
            StageView::Paused => match reply {
                ReplyView::Resume => self.proceed(),
                _ => self.fail(WalkErrorView::Unexpected),
            },
            StageView::Reading => if self.stack.len() == 0 {
                self.fail(WalkErrorView::Unexpected)
            } else {
                match reply {
                    ReplyView::Exhausted => WalkerView {
                        stack: self.stack.drop_last(),
                        ..self
                    }.proceed(),
                    ReplyView::Entry { name, kind } => self.on_entry(name, kind),
                    ReplyView::Failed(e) => self.fail(WalkErrorView::Io(e)),
                    _ => self.fail(WalkErrorView::Unexpected),
                }
            },
            StageView::DirExists { name } => if self.stack.len() == 0 {
                self.fail(WalkErrorView::Unexpected)
            } else {
                match reply {
                    ReplyView::Exists(true) => (
                        self.at(StageView::DirOpen { name, fresh: false }),
                        StepView::Ask(
                            RequestView::OpenDir(self.src_entry(self.stack.last(), name)),
                        ),
                    ),
                    ReplyView::Exists(false) => (
                        self.at(StageView::DirCreate { name }),
                        StepView::Ask(
                            RequestView::CreateDir(self.dest_entry(self.stack.last(), name)),
                        ),
                    ),
                    ReplyView::Failed(e) => self.fail(WalkErrorView::Io(e)),
                    _ => self.fail(WalkErrorView::Unexpected),
                }
            },
            StageView::DirCreate { name } => if self.stack.len() == 0 {
                self.fail(WalkErrorView::Unexpected)
            } else {
                match reply {
                    ReplyView::Created => (
                        self.at(StageView::DirOpen { name, fresh: true }),
                        StepView::Ask(
                            RequestView::OpenDir(self.src_entry(self.stack.last(), name)),
                        ),
                    ),
                    ReplyView::Failed(e) => self.fail(WalkErrorView::Io(e)),
                    _ => self.fail(WalkErrorView::Unexpected),
                }
            },
            StageView::DirOpen { name, fresh } => if self.stack.len() == 0 {
                self.fail(WalkErrorView::Unexpected)
            } else {
                match reply {
                    ReplyView::Opened(handle) => (
                        self.entered(name, handle, fresh),
                        StepView::Ask(RequestView::ReadEntry(self.stack.last().handle)),
                    ),
                    ReplyView::Failed(e) => self.fail(WalkErrorView::Io(e)),
                    _ => self.fail(WalkErrorView::Unexpected),
                }
            },
            StageView::Finished => (self, StepView::Done),
            StageView::Poisoned => (self, StepView::Done),
        }
    }
}

/// The frames held by `stack`, each as its mathematical value.
spec fn frames_view(stack: Seq<State>) -> Seq<FrameView> {
    Seq::new(stack.len(), |i: int| stack[i]@)
}

/// The walker over a source tree. It yields one [`CopyJob`] for each entry that
/// is not a directory, and has the destination directory of each source
/// directory created before it yields a job inside it.
pub struct CopyJobIterator {
    src: TreePath,
    dest: TreePath,
    stack: Vec<State>,
    stage: Stage,
}

impl View for CopyJobIterator {
    type V = WalkerView;

    closed spec fn view(&self) -> WalkerView {
        WalkerView {
            src: self.src@,
            dest: self.dest@,
            stack: frames_view(self.stack@),
            stage: self.stage@,
        }
    }
}

/// Begins the traversal of the tree under `src`, which is to be recreated
/// under `dest`. Nothing is yielded before the destination root is known to
/// exist or has been created, and the source root has been opened.
pub fn traverse(src: TreePath, dest: TreePath) -> (walker: CopyJobIterator)
    ensures
        walker@ == WalkerView::initial(src@, dest@),
        walker@.wf(),
{
    let walker = CopyJobIterator { src, dest, stack: Vec::new(), stage: Stage::Start };
    assert(frames_view(walker.stack@) =~= Seq::empty());
    walker
}

proof fn lemma_frames_push(stack: Seq<State>, frame: State)
    ensures
        frames_view(stack.push(frame)) == frames_view(stack).push(frame@),
{
    assert(frames_view(stack.push(frame)) =~= frames_view(stack).push(frame@));
}

proof fn lemma_frames_drop_last(stack: Seq<State>)
    requires
        stack.len() > 0,
    ensures
        frames_view(stack.drop_last()) == frames_view(stack).drop_last(),
        frames_view(stack).last() == stack.last()@,
{
    assert(frames_view(stack.drop_last()) =~= frames_view(stack).drop_last());
}

impl CopyJobIterator {
    /// Removes the directory on top of the stack.
    fn pop(&mut self) -> (top: State)
        requires
            old(self)@.stack.len() > 0,
        ensures
            top@ == old(self)@.stack.last(),
            final(self)@ == (WalkerView { stack: old(self)@.stack.drop_last(), ..old(self)@ }),
    {
        proof {
            lemma_frames_drop_last(self.stack@);
        }
        let top = self.stack.pop();
        top.unwrap()
    }

    /// Puts `frame` on top of the stack.
    fn push(&mut self, frame: State)
        ensures
            final(self)@ == (WalkerView { stack: old(self)@.stack.push(frame@), ..old(self)@ }),
    {
        proof {
            lemma_frames_push(self.stack@, frame);
        }
        self.stack.push(frame);
    }

    /// Gives up the traversal with `error`.
    fn fail<E>(&mut self, error: WalkError<E>) -> (step: Step<E>)
        ensures
            (final(self)@, step@) == old(self)@.fail(error@),
    {
        if self.stack.len() > 0 {
            let _ = self.pop();
        }
        self.stage = Stage::Poisoned;
        Step::Failed(error)
    }

    /// Goes on with the directory on top of the stack, if there is one.
    fn proceed<E>(&mut self) -> (step: Step<E>)
        ensures
            (final(self)@, step@) == old(self)@.proceed::<E>(),
    {
        let depth = self.stack.len();
        if depth == 0 {
            self.stage = Stage::Finished;
            Step::Done
        } else {
            self.stage = Stage::Reading;
            Step::Ask(Request::ReadEntry(self.stack[depth - 1].src_entries))
        }
    }

    /// The source path of the entry `name` of the directory on top of the stack.
    fn src_entry(&self, name: &Vec<u8>) -> (path: TreePath)
        requires
            self@.stack.len() > 0,
        ensures
            path@ == self@.src_entry(self@.stack.last(), name@),
    {
        let top = &self.stack[self.stack.len() - 1];
        self.src.descend(&top.rel).child(name)
    }

    /// The destination path of the entry `name` of the directory on top of
    /// the stack.
    fn dest_entry(&self, name: &Vec<u8>) -> (path: TreePath)
        requires
            self@.stack.len() > 0,
        ensures
            path@ == self@.dest_entry(self@.stack.last(), name@),
    {
        let top = &self.stack[self.stack.len() - 1];
        self.dest.descend(&top.rel).child(name)
    }

    /// Decides what an entry read from the directory on top of the stack
    /// leads to.
    fn on_entry<E>(&mut self, name: Vec<u8>, kind: EntryKind) -> (step: Step<E>)
        requires
            old(self)@.stack.len() > 0,
        ensures
            (final(self)@, step@) == old(self)@.on_entry::<E>(name@, kind),
    {
        let fresh = self.stack[self.stack.len() - 1].fresh_parent;
        match kind {
            EntryKind::Directory => {
                let dest = self.dest_entry(&name);
                if fresh {
                    self.stage = Stage::DirCreate { name };
                    Step::Ask(Request::CreateDir(dest))
                } else {
                    self.stage = Stage::DirExists { name };
                    Step::Ask(Request::Exists(dest))
                }
            },
            EntryKind::File | EntryKind::Symlink => {
                let job = CopyJob {
                    src: self.src_entry(&name),
                    dest: self.dest_entry(&name),
                    symlink: match kind {
                        EntryKind::Symlink => true,
                        _ => false,
                    },
                    may_exist: !fresh,
                };
                self.stage = Stage::Paused;
                Step::Yield(job)
            },
            EntryKind::Other => {
                let path = self.src_entry(&name);
                self.fail(WalkError::Unsupported(path))
            },
        }
    }

    /// Takes in the sub-directory `name` that was opened under `handle`, and
    /// goes on reading the directory it was found in.
    fn enter<E>(&mut self, name: Vec<u8>, handle: u64, fresh: bool) -> (step: Step<E>)
        requires
            old(self)@.stack.len() > 0,
        ensures
            final(self)@ == old(self)@.entered(name@, handle, fresh),
            step@ == StepView::<E>::Ask(RequestView::ReadEntry(old(self)@.stack.last().handle)),
    {
        let top = self.pop();
        let mut rel = clone_names(&top.rel);
        proof {
            lemma_names_push(rel@, name);
        }
        rel.push(name);
        let reading = top.src_entries;
        self.push(State { rel, src_entries: handle, fresh_parent: fresh });
        self.push(top);
        self.stage = Stage::Reading;
        Step::Ask(Request::ReadEntry(reading))
    }

    /// Advances the traversal. `reply` is the outcome of the operation that
    /// the last call asked for, or [`Reply::Resume`] on the first call and
    /// after a job. The result is the next operation to perform, the next
    /// job, the error that ended the traversal, or its end.
    ///
    /// After [`Step::Failed`] or [`Step::Done`] every call returns
    /// [`Step::Done`].
    pub fn next<E>(&mut self, reply: Reply<E>) -> (step: Step<E>)
        ensures
            (final(self)@, step@) == old(self)@.next(reply@),
            old(self)@.wf() ==> final(self)@.wf(),
    {
        let mut stage = Stage::Poisoned;
        core::mem::swap(&mut self.stage, &mut stage);
        let ghost before = old(self)@;
        assert(self@ == before.at(StageView::Poisoned));
        match stage {
            Stage::Start => match reply {
                Reply::Resume => {
                    self.stage = Stage::RootExists;
                    Step::Ask(Request::Exists(self.dest.duplicate()))
                },
                _ => self.fail(WalkError::Unexpected),
            },
            Stage::RootExists => match reply {
                Reply::Exists(true) => {
                    self.stage = Stage::RootOpen { fresh: false };
                    Step::Ask(Request::OpenDir(self.src.duplicate()))
                },
                Reply::Exists(false) => {
                    self.stage = Stage::RootCreate;
                    Step::Ask(Request::CreateDir(self.dest.duplicate()))
                },
                Reply::Failed(e) => self.fail(WalkError::Open(e)),
                _ => self.fail(WalkError::Unexpected),
            },
            Stage::RootCreate => match reply {
                Reply::Created => {
                    self.stage = Stage::RootOpen { fresh: true };
                    Step::Ask(Request::OpenDir(self.src.duplicate()))
                },
                Reply::Failed(e) => self.fail(WalkError::Open(e)),
                _ => self.fail(WalkError::Unexpected),
            },
            Stage::RootOpen { fresh } => match reply {
                Reply::Opened(handle) => {
                    let rel: Vec<Vec<u8>> = Vec::new();
                    proof {
                        lemma_names_empty();
                    }
                    let mut stack: Vec<State> = Vec::new();
                    stack.push(State { rel, src_entries: handle, fresh_parent: fresh });
                    self.stack = stack;
                    self.stage = Stage::Reading;
                    assert(self@.stack =~= seq![
                        FrameView { rel: Seq::empty(), handle, fresh },
                    ]);
                    Step::Ask(Request::ReadEntry(handle))
                },
                Reply::Failed(e) => self.fail(WalkError::Open(e)),
                _ => self.fail(WalkError::Unexpected),
            },
            Stage::Paused => match reply {
                Reply::Resume => self.proceed(),
                _ => self.fail(WalkError::Unexpected),
            },
            Stage::Reading => if self.stack.len() == 0 {
                self.fail(WalkError::Unexpected)
            } else {
                match reply {
                    Reply::Exhausted => {
                        let _ = self.pop();
                        self.proceed()
                    },
                    Reply::Entry { name, kind } => self.on_entry(name, kind),
                    Reply::Failed(e) => self.fail(WalkError::Io(e)),
                    _ => self.fail(WalkError::Unexpected),
                }
            },
            Stage::DirExists { name } => if self.stack.len() == 0 {
                self.fail(WalkError::Unexpected)
            } else {
                match reply {
                    Reply::Exists(true) => {
                        let path = self.src_entry(&name);
                        self.stage = Stage::DirOpen { name, fresh: false };
                        Step::Ask(Request::OpenDir(path))
                    },
                    Reply::Exists(false) => {
                        let path = self.dest_entry(&name);
                        self.stage = Stage::DirCreate { name };
                        Step::Ask(Request::CreateDir(path))
                    },
                    Reply::Failed(e) => self.fail(WalkError::Io(e)),
                    _ => self.fail(WalkError::Unexpected),
                }
            },
            Stage::DirCreate { name } => if self.stack.len() == 0 {
                self.fail(WalkError::Unexpected)
            } else {
                match reply {
                    Reply::Created => {
                        let path = self.src_entry(&name);
                        self.stage = Stage::DirOpen { name, fresh: true };
                        Step::Ask(Request::OpenDir(path))
                    },
                    Reply::Failed(e) => self.fail(WalkError::Io(e)),
                    _ => self.fail(WalkError::Unexpected),
                }
            },
            Stage::DirOpen { name, fresh } => if self.stack.len() == 0 {
                self.fail(WalkError::Unexpected)
            } else {
                match reply {
                    Reply::Opened(handle) => self.enter(name, handle, fresh),
                    Reply::Failed(e) => self.fail(WalkError::Io(e)),
                    _ => self.fail(WalkError::Unexpected),
                }
            },
            Stage::Finished => {
                self.stage = Stage::Finished;
                Step::Done
            },
            Stage::Poisoned => Step::Done,
        }
    }
}

} // verus!
