//! The arguments of a run, and the checks they must pass before any work
//! starts.

use crate::path::{PathView, TreePath};
use vstd::prelude::*;

verus! {

/// The arguments of a run.
#[derive(Debug, PartialEq, Eq)]
pub struct Cli {
    /// The directory to copy.
    pub src: TreePath,
    /// Where to copy it to.
    pub dest: TreePath,
    /// How many worker threads to spawn.
    pub threads: u8,
    /// Whether to display speed statistics during the copy.
    pub stats: bool,
    /// Whether a destination that exists may be merged into.
    pub sync: bool,
}

/// The mathematical value of a [`Cli`].
pub struct CliView {
    pub src: PathView,
    pub dest: PathView,
    pub threads: u8,
    pub stats: bool,
    pub sync: bool,
}

impl View for Cli {
    type V = CliView;

    open spec fn view(&self) -> CliView {
        CliView {
            src: self.src@,
            dest: self.dest@,
            threads: self.threads,
            stats: self.stats,
            sync: self.sync,
        }
    }
}

impl Cli {
    /// A copy of these arguments.
    pub fn duplicate(&self) -> (res: Cli)
        ensures
            res@ == self@,
    {
        Cli {
            src: self.src.duplicate(),
            dest: self.dest.duplicate(),
            threads: self.threads,
            stats: self.stats,
            sync: self.sync,
        }
    }
}

/// Why the arguments of a run were turned down.
#[derive(Clone, Copy, Debug, PartialEq, Eq, Structural)]
pub enum ArgError {
    /// No worker thread was asked for.
    NoThreads,
    /// The source does not exist or cannot be reached.
    SourceMissing,
    /// The source is not a directory.
    SourceNotDirectory,
    /// The source path has no last name to copy under, as `..` has none.
    SourceUnnamed,
    /// The destination directory could not be created.
    CreateFailed,
    /// The destination exists and merging was not asked for.
    DestinationExists,
    /// The driver handed over an answer that does not fit the question.
    Unexpected,
}

impl ArgError {
    /// The text of the message for this error.
    pub open spec fn text(self) -> Seq<char> {
        match self {
            ArgError::NoThreads => "At least one thread needed"@,
            ArgError::SourceMissing => "Source directory not accessible"@,
            ArgError::SourceNotDirectory => "Source directory not a valid directory"@,
            ArgError::SourceUnnamed => "Can't copy from .. (yet)"@,
            ArgError::CreateFailed => "Couldn't create destination directory"@,
            ArgError::DestinationExists => "Destination directory already exists. Consider --sync"@,
            ArgError::Unexpected => "Unexpected answer to a question about the arguments"@,
        }
    }

    /// The message to show for this error.
    pub fn message(&self) -> (text: &'static str)
        ensures
            text@ == self.text(),
    {
        match self {
            ArgError::NoThreads => "At least one thread needed",
            ArgError::SourceMissing => "Source directory not accessible",
            ArgError::SourceNotDirectory => "Source directory not a valid directory",
            ArgError::SourceUnnamed => "Can't copy from .. (yet)",
            ArgError::CreateFailed => "Couldn't create destination directory",
            ArgError::DestinationExists => "Destination directory already exists. Consider --sync",
            ArgError::Unexpected => "Unexpected answer to a question about the arguments",
        }
    }
}

/// A question about the file system that the checks need answered.
#[derive(Debug, PartialEq, Eq)]
pub enum Probe {
    /// Does this path exist?
    Exists(TreePath),
    /// Is this path a directory?
    IsDir(TreePath),
    /// What is the last name of this path?
    FileName(TreePath),
    /// Create this directory. Was it created?
    CreateDir(TreePath),
}

/// The mathematical value of a [`Probe`].
pub enum ProbeView {
    Exists(PathView),
    IsDir(PathView),
    FileName(PathView),
    CreateDir(PathView),
}

impl View for Probe {
    type V = ProbeView;

    open spec fn view(&self) -> ProbeView {
        match self {
            Probe::Exists(p) => ProbeView::Exists(p@),
            Probe::IsDir(p) => ProbeView::IsDir(p@),
            Probe::FileName(p) => ProbeView::FileName(p@),
            Probe::CreateDir(p) => ProbeView::CreateDir(p@),
        }
    }
}

/// The answer to a [`Probe`].
#[derive(Debug, PartialEq, Eq)]
pub enum Answer {
    /// Yes or no: answers every probe but [`Probe::FileName`].
    Flag(bool),
    /// Answers [`Probe::FileName`]: the name, if the path has one.
    Name(Option<Vec<u8>>),
}

/// The mathematical value of an [`Answer`].
pub enum AnswerView {
    Flag(bool),
    Name(Option<Seq<u8>>),
}

impl View for Answer {
    type V = AnswerView;

    open spec fn view(&self) -> AnswerView {
        match self {
            Answer::Flag(b) => AnswerView::Flag(*b),
            Answer::Name(None) => AnswerView::Name(None),
            Answer::Name(Some(n)) => AnswerView::Name(Some(n@)),
        }
    }
}

/// What the checks come to, so far.
#[derive(Debug, PartialEq, Eq)]
pub enum Verdict {
    /// Answer this question and call again.
    Ask(Probe),
    /// The arguments pass. These are the arguments to run with.
    Accept(Cli),
    /// The arguments are turned down.
    Reject(ArgError),
}

/// The mathematical value of a [`Verdict`].
pub enum VerdictView {
    Ask(ProbeView),
    Accept(CliView),
    Reject(ArgError),
}

impl View for Verdict {
    type V = VerdictView;

    open spec fn view(&self) -> VerdictView {
        match self {
            Verdict::Ask(p) => VerdictView::Ask(p@),
            Verdict::Accept(c) => VerdictView::Accept(c@),
            Verdict::Reject(e) => VerdictView::Reject(*e),
        }
    }
}

/// Where the checks stand between two calls.
enum CheckStage {
    SourceExists,
    SourceIsDir,
    SourceName,
    DestExists { name: Vec<u8> },
    NestedExists,
    Creating,
    Finished,
}

/// The mathematical value of the position of the checks.
pub enum CheckStageView {
    /// Asked whether the source exists.
    SourceExists,
    /// Asked whether the source is a directory.
    SourceIsDir,
    /// Asked for the last name of the source.
    SourceName,
    /// Asked whether the destination exists; the source is called `name`.
    DestExists { name: Seq<u8> },
    /// Asked whether the source's name exists inside the destination.
    NestedExists,
    /// Asked to create the destination.
    Creating,
    /// The verdict has been given.
    Finished,
}

impl View for CheckStage {
    type V = CheckStageView;

    closed spec fn view(&self) -> CheckStageView {
        match self {
            CheckStage::SourceExists => CheckStageView::SourceExists,
            CheckStage::SourceIsDir => CheckStageView::SourceIsDir,
            CheckStage::SourceName => CheckStageView::SourceName,
            CheckStage::DestExists { name } => CheckStageView::DestExists { name: name@ },
            CheckStage::NestedExists => CheckStageView::NestedExists,
            CheckStage::Creating => CheckStageView::Creating,
            CheckStage::Finished => CheckStageView::Finished,
        }
    }
}

/// The mathematical value of a [`Validation`].
pub struct ValidationView {
    pub args: CliView,
    pub stage: CheckStageView,
}

impl ValidationView {
    /// The checks with their position set to `stage`.
    pub open spec fn at(self, stage: CheckStageView) -> ValidationView {
        ValidationView { stage, ..self }
    }

    /// How the checks of `args` begin: without a thread there is nothing to
    /// ask, else the source is looked at first.
    pub open spec fn begin(args: CliView) -> (ValidationView, VerdictView) {
        if args.threads == 0 {
            (
                ValidationView { args, stage: CheckStageView::Finished },
                VerdictView::Reject(ArgError::NoThreads),
            )
        } else {
            (
                ValidationView { args, stage: CheckStageView::SourceExists },
                VerdictView::Ask(ProbeView::Exists(args.src)),
            )
        }
    }

    /// Turning the arguments down.
    pub open spec fn reject(self, error: ArgError) -> (ValidationView, VerdictView) {
        (self.at(CheckStageView::Finished), VerdictView::Reject(error))
    }

    /// Having the destination created. A destination that is new is not
    /// merged into.
    pub open spec fn create(self) -> (ValidationView, VerdictView) {
        (
            ValidationView {
                args: CliView { sync: false, ..self.args },
                stage: CheckStageView::Creating,
            },
            VerdictView::Ask(ProbeView::CreateDir(self.args.dest)),
        )
    }

    /// The transition function of the checks.
    pub open spec fn next(self, answer: AnswerView) -> (ValidationView, VerdictView) {
        match self.stage {
            CheckStageView::SourceExists => match answer {
                AnswerView::Flag(true) => (
                    self.at(CheckStageView::SourceIsDir),
                    VerdictView::Ask(ProbeView::IsDir(self.args.src)),
                ),
                AnswerView::Flag(false) => self.reject(ArgError::SourceMissing),
                _ => self.reject(ArgError::Unexpected),
            },
            CheckStageView::SourceIsDir => match answer {
                AnswerView::Flag(true) => (
                    self.at(CheckStageView::SourceName),
                    VerdictView::Ask(ProbeView::FileName(self.args.src)),
                ),
                AnswerView::Flag(false) => self.reject(ArgError::SourceNotDirectory),
                _ => self.reject(ArgError::Unexpected),
            },
            CheckStageView::SourceName => match answer {
                AnswerView::Name(Some(name)) => (
                    self.at(CheckStageView::DestExists { name }),
                    VerdictView::Ask(ProbeView::Exists(self.args.dest)),
                ),
                AnswerView::Name(None) => self.reject(ArgError::SourceUnnamed),
                _ => self.reject(ArgError::Unexpected),
            },
            CheckStageView::DestExists { name } => match answer {
                AnswerView::Flag(true) => (
                    ValidationView {
                        args: CliView { dest: self.args.dest.child(name), ..self.args },
                        stage: CheckStageView::NestedExists,
                    },
                    VerdictView::Ask(ProbeView::Exists(self.args.dest.child(name))),
                ),
                AnswerView::Flag(false) => self.create(),
                _ => self.reject(ArgError::Unexpected),
            },
            CheckStageView::NestedExists => match answer {
                AnswerView::Flag(true) => if self.args.sync {
                    (self.at(CheckStageView::Finished), VerdictView::Accept(self.args))
                } else {
                    self.reject(ArgError::DestinationExists)
                },
                AnswerView::Flag(false) => self.create(),
                _ => self.reject(ArgError::Unexpected),
            },
            CheckStageView::Creating => match answer {
                AnswerView::Flag(true) => (
                    self.at(CheckStageView::Finished),
                    VerdictView::Accept(self.args),
                ),
                AnswerView::Flag(false) => self.reject(ArgError::CreateFailed),
                _ => self.reject(ArgError::Unexpected),
            },
            CheckStageView::Finished => self.reject(ArgError::Unexpected),
        }
    }

    /// The state reached from `self` by the answers `answers`, in order.
    pub open spec fn after(self, answers: Seq<AnswerView>) -> ValidationView
        decreases answers.len(),
    {
        if answers.len() == 0 {
            self
        } else {
            self.after(answers.drop_last()).next(answers.last()).0
        }
    }

    /// The verdict on the answer at position `k` of `answers`.
    pub open spec fn verdict_at(self, answers: Seq<AnswerView>, k: int) -> VerdictView {
        self.after(answers.take(k)).next(answers[k]).1
    }
}

/// The checks of the arguments of a run, from the first question to the
/// verdict.
pub struct Validation {
    args: Cli,
    stage: CheckStage,
}

impl View for Validation {
    type V = ValidationView;

    closed spec fn view(&self) -> ValidationView {
        ValidationView { args: self.args@, stage: self.stage@ }
    }
}

/// Begins the checks of `args`. The result is the state of the checks and
/// what they come to at once: the arguments are turned down where no thread
/// was asked for, else the first question is put.
pub fn validate_args(args: Cli) -> (start: (Validation, Verdict))
    ensures
        start.0@ == ValidationView::begin(args@).0,
        start.1@ == ValidationView::begin(args@).1,
{
    if args.threads == 0 {
        (Validation { args, stage: CheckStage::Finished }, Verdict::Reject(ArgError::NoThreads))
    } else {
        let probe = Probe::Exists(args.src.duplicate());
        (Validation { args, stage: CheckStage::SourceExists }, Verdict::Ask(probe))
    }
}

impl Validation {
    fn reject(&mut self, error: ArgError) -> (verdict: Verdict)
        ensures
            (final(self)@, verdict@) == old(self)@.reject(error),
    {
        self.stage = CheckStage::Finished;
        Verdict::Reject(error)
    }

    fn create(&mut self) -> (verdict: Verdict)
        ensures
            (final(self)@, verdict@) == old(self)@.create(),
    {
        self.args.sync = false;
        self.stage = CheckStage::Creating;
        Verdict::Ask(Probe::CreateDir(self.args.dest.duplicate()))
    }

    fn accept(&mut self) -> (verdict: Verdict)
        ensures
            final(self)@ == old(self)@.at(CheckStageView::Finished),
            verdict@ == VerdictView::Accept(old(self)@.args),
    {
        self.stage = CheckStage::Finished;
        Verdict::Accept(self.args.duplicate())
    }

    /// Advances the checks by the answer to the question asked last. The
    /// result is the next question or the verdict.
    pub fn next(&mut self, answer: Answer) -> (verdict: Verdict)
        ensures
            (final(self)@, verdict@) == old(self)@.next(answer@),
    {
        let mut stage = CheckStage::Finished;
        core::mem::swap(&mut self.stage, &mut stage);
        assert(self@ == old(self)@.at(CheckStageView::Finished));
        match stage {
            CheckStage::SourceExists => match answer {
                Answer::Flag(true) => {
                    self.stage = CheckStage::SourceIsDir;
                    Verdict::Ask(Probe::IsDir(self.args.src.duplicate()))
                },
                Answer::Flag(false) => self.reject(ArgError::SourceMissing),
                _ => self.reject(ArgError::Unexpected),
            },
            CheckStage::SourceIsDir => match answer {
                Answer::Flag(true) => {
                    self.stage = CheckStage::SourceName;
                    Verdict::Ask(Probe::FileName(self.args.src.duplicate()))
                },
                Answer::Flag(false) => self.reject(ArgError::SourceNotDirectory),
                _ => self.reject(ArgError::Unexpected),
            },
            CheckStage::SourceName => match answer {
                Answer::Name(Some(name)) => {
                    self.stage = CheckStage::DestExists { name };
                    Verdict::Ask(Probe::Exists(self.args.dest.duplicate()))
                },
                Answer::Name(None) => self.reject(ArgError::SourceUnnamed),
                _ => self.reject(ArgError::Unexpected),
            },
            CheckStage::DestExists { name } => match answer {
                Answer::Flag(true) => {
                    let nested = self.args.dest.child(&name);
                    let probe = Probe::Exists(nested.duplicate());
                    self.args.dest = nested;
                    self.stage = CheckStage::NestedExists;
                    Verdict::Ask(probe)
                },
                Answer::Flag(false) => self.create(),
                _ => self.reject(ArgError::Unexpected),
            },
            CheckStage::NestedExists => match answer {
                Answer::Flag(true) => if self.args.sync {
                    self.accept()
                } else {
                    self.reject(ArgError::DestinationExists)
                },
                Answer::Flag(false) => self.create(),
                _ => self.reject(ArgError::Unexpected),
            },
            CheckStage::Creating => match answer {
                Answer::Flag(true) => self.accept(),
                Answer::Flag(false) => self.reject(ArgError::CreateFailed),
                _ => self.reject(ArgError::Unexpected),
            },
            CheckStage::Finished => self.reject(ArgError::Unexpected),
        }
    }
}

} // verus!
