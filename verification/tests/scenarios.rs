use psync::cli::{Answer, Cli, Probe};
use psync::directory_traversal::{
    traverse, CopyJob, EntryKind, Reply, Request, Step, WalkError,
};
use psync::path::TreePath;
use psync::sync::{sync, FileOp, Outcome, SyncError, SyncStep};
use psync::{run, Action, Event, Message, RunError};
use std::collections::BTreeMap;

#[derive(Clone, Debug, PartialEq)]
enum Node {
    Dir,
    File(Vec<u8>),
    Link(Vec<u8>),
    Fifo,
}

/// A file system in memory. Paths are written with `/` between the names.
struct Disk {
    nodes: BTreeMap<String, Node>,
    /// The directories that are open: what is left to read of each.
    open: Vec<Vec<(String, Node)>>,
    /// How many operations changed the disk.
    writes: usize,
}

fn text(bytes: &[u8]) -> String {
    String::from_utf8(bytes.to_vec()).unwrap()
}

fn key(path: &TreePath) -> String {
    let mut key = text(&path.root);
    for name in &path.rel {
        key.push('/');
        key.push_str(&text(name));
    }
    key
}

fn root(name: &str) -> TreePath {
    TreePath::new(name.as_bytes().to_vec())
}

fn parent(key: &str) -> String {
    match key.rfind('/') {
        Some(at) => key[..at].to_string(),
        None => String::new(),
    }
}

impl Disk {
    fn new() -> Disk {
        Disk { nodes: BTreeMap::new(), open: Vec::new(), writes: 0 }
    }

    fn dir(mut self, path: &str) -> Disk {
        self.nodes.insert(path.to_string(), Node::Dir);
        self
    }

    fn file(mut self, path: &str, bytes: Vec<u8>) -> Disk {
        self.nodes.insert(path.to_string(), Node::File(bytes));
        self
    }

    fn link(mut self, path: &str, target: &str) -> Disk {
        self.nodes.insert(path.to_string(), Node::Link(target.as_bytes().to_vec()));
        self
    }

    fn fifo(mut self, path: &str) -> Disk {
        self.nodes.insert(path.to_string(), Node::Fifo);
        self
    }

    fn is_dir(&self, path: &str) -> bool {
        self.nodes.get(path) == Some(&Node::Dir)
    }

    fn create(&mut self, path: &str, node: Node) -> Result<(), String> {
        if self.nodes.contains_key(path) {
            return Err(format!("{} exists", path));
        }
        if !parent(path).is_empty() && !self.is_dir(&parent(path)) {
            return Err(format!("{} has no directory to stand in", path));
        }
        self.writes += 1;
        self.nodes.insert(path.to_string(), node);
        Ok(())
    }

    /// What stands beneath `dir`, with paths relative to it.
    fn tree(&self, dir: &str) -> BTreeMap<String, Node> {
        let prefix = format!("{}/", dir);
        let mut tree = BTreeMap::new();
        for (path, node) in &self.nodes {
            if path.starts_with(&prefix) {
                tree.insert(path[prefix.len()..].to_string(), node.clone());
            }
        }
        tree
    }

    fn answer(&mut self, request: Request) -> Reply<String> {
        match request {
            Request::Exists(path) => Reply::Exists(self.nodes.contains_key(&key(&path))),
            Request::CreateDir(path) => match self.create(&key(&path), Node::Dir) {
                Ok(()) => Reply::Created,
                Err(e) => Reply::Failed(e),
            },
            Request::OpenDir(path) => {
                let dir = key(&path);
                if !self.is_dir(&dir) {
                    return Reply::Failed(format!("{} is no directory", dir));
                }
                let mut entries = Vec::new();
                for (path, node) in &self.nodes {
                    if path.len() > dir.len() && parent(path) == dir {
                        entries.push((path[dir.len() + 1..].to_string(), node.clone()));
                    }
                }
                entries.reverse();
                self.open.push(entries);
                Reply::Opened(self.open.len() as u64 - 1)
            }
            Request::ReadEntry(handle) => match self.open[handle as usize].pop() {
                None => Reply::Exhausted,
                Some((name, node)) => Reply::Entry {
                    name: name.into_bytes(),
                    kind: match node {
                        Node::Dir => EntryKind::Directory,
                        Node::File(_) => EntryKind::File,
                        Node::Link(_) => EntryKind::Symlink,
                        Node::Fifo => EntryKind::Other,
                    },
                },
            },
        }
    }

    fn perform(&mut self, op: FileOp) -> Outcome<String> {
        match op {
            FileOp::Inspect(path) => match self.nodes.get(&key(&path)) {
                None => Outcome::Failed(format!("{} not found", key(&path))),
                Some(Node::Dir) => Outcome::Found { is_dir: true, is_symlink: false, len: 4096 },
                Some(Node::File(bytes)) => {
                    Outcome::Found { is_dir: false, is_symlink: false, len: bytes.len() as u64 }
                }
                Some(Node::Link(target)) => {
                    Outcome::Found { is_dir: false, is_symlink: true, len: target.len() as u64 }
                }
                Some(Node::Fifo) => Outcome::Found { is_dir: false, is_symlink: false, len: 0 },
            },
            FileOp::Remove(path) => match self.nodes.get(&key(&path)) {
                None | Some(Node::Dir) => Outcome::Failed(format!("{} is no file", key(&path))),
                Some(_) => {
                    self.writes += 1;
                    self.nodes.remove(&key(&path));
                    Outcome::Removed
                }
            },
            FileOp::CopyFile { src, dest } => match self.nodes.get(&key(&src)).cloned() {
                Some(Node::File(bytes)) => {
                    let copied = bytes.len() as u64;
                    match self.create(&key(&dest), Node::File(bytes)) {
                        Ok(()) => Outcome::Copied(copied),
                        Err(e) => Outcome::Failed(e),
                    }
                }
                _ => Outcome::Failed(format!("{} is no file", key(&src))),
            },
            FileOp::ReadLink(path) => match self.nodes.get(&key(&path)) {
                Some(Node::Link(target)) => Outcome::Target(target.clone()),
                _ => Outcome::Failed(format!("{} is no link", key(&path))),
            },
            FileOp::Symlink { target, dest } => match self.create(&key(&dest), Node::Link(target)) {
                Ok(()) => Outcome::Linked,
                Err(e) => Outcome::Failed(e),
            },
            FileOp::Compare { src, dest } => {
                match (self.nodes.get(&key(&src)), self.nodes.get(&key(&dest))) {
                    (Some(Node::File(a)), Some(Node::File(b))) => Outcome::Compared(a == b),
                    _ => Outcome::Failed("nothing to compare".to_string()),
                }
            }
        }
    }

    fn probe(&mut self, probe: Probe) -> Answer {
        match probe {
            Probe::Exists(path) => Answer::Flag(self.nodes.contains_key(&key(&path))),
            Probe::IsDir(path) => Answer::Flag(self.is_dir(&key(&path))),
            Probe::FileName(path) => {
                let full = key(&path);
                let name = full.rsplit('/').next().unwrap().to_string();
                Answer::Name(if name.is_empty() || name == ".." {
                    None
                } else {
                    Some(name.into_bytes())
                })
            }
            Probe::CreateDir(path) => Answer::Flag(self.create(&key(&path), Node::Dir).is_ok()),
        }
    }
}

/// Walks `src` into `dest` on `disk` and hands each job to `on_job` as it is
/// yielded.
fn walk(
    disk: &mut Disk,
    src: TreePath,
    dest: TreePath,
    on_job: &mut dyn FnMut(&mut Disk, CopyJob),
) -> Result<(), WalkError<String>> {
    let mut walker = traverse(src, dest);
    let mut reply = Reply::Resume;
    loop {
        match walker.next(reply) {
            Step::Ask(request) => reply = disk.answer(request),
            Step::Yield(job) => {
                on_job(disk, job);
                reply = Reply::Resume;
            }
            Step::Failed(error) => {
                assert_eq!(walker.next::<String>(Reply::Resume), Step::Done);
                return Err(error);
            }
            Step::Done => return Ok(()),
        }
    }
}

/// Carries out `job` on `disk`.
fn copy(disk: &mut Disk, job: CopyJob) -> Result<u64, SyncError<String>> {
    let (mut task, mut op) = sync(job);
    loop {
        match task.next(disk.perform(op)) {
            SyncStep::Ask(next) => op = next,
            SyncStep::Done(result) => return result,
        }
    }
}

/// A whole run on `disk`, with the jobs carried out one after the other.
fn mirror(disk: &mut Disk, args: Cli) -> Result<u64, RunError<String>> {
    let (mut state, mut action) = run::<String>(args);
    let mut inbox: Vec<Message<String>> = Vec::new();
    loop {
        let event = match action {
            Action::Probe(probe) => Event::Answer(disk.probe(probe)),
            Action::Launch(args) => {
                let mut jobs = Vec::new();
                let walked = walk(disk, args.src, args.dest, &mut |_, job| jobs.push(job));
                for job in jobs {
                    inbox.push(Message::of_job(copy(disk, job)));
                }
                inbox.push(match walked {
                    Ok(()) => Message::Traversed,
                    Err(error) => Message::WalkFailed(error),
                });
                inbox.reverse();
                Event::Launched
            }
            Action::Receive => match inbox.pop() {
                Some(message) => Event::Message(message),
                None => Event::Closed,
            },
            Action::Finish(result) => return result,
            Action::Stopped => panic!("the run was driven past its end"),
        };
        action = state.next(event);
    }
}

fn args(src: &str, dest: &str, sync: bool) -> Cli {
    Cli { src: root(src), dest: root(dest), threads: 2, stats: false, sync }
}

fn sample() -> Disk {
    Disk::new()
        .dir("src")
        .dir("src/a")
        .file("src/a/b.txt", vec![7; 10])
        .file("src/c.txt", vec![9; 5000])
}

#[test]
fn two_files_into_an_empty_destination() {
    let mut disk = sample().dir("dest");
    assert_eq!(mirror(&mut disk, args("src", "dest", false)), Ok(5010));
    assert_eq!(disk.nodes.get("dest/src/a/b.txt"), Some(&Node::File(vec![7; 10])));
    assert_eq!(disk.nodes.get("dest/src/c.txt"), Some(&Node::File(vec![9; 5000])));
    assert_eq!(disk.tree("dest/src"), disk.tree("src"));
}

#[test]
fn two_files_into_a_destination_that_does_not_exist() {
    let mut disk = sample();
    assert_eq!(mirror(&mut disk, args("src", "dest", false)), Ok(5010));
    assert!(disk.is_dir("dest"));
    assert_eq!(disk.tree("dest"), disk.tree("src"));
}

#[test]
fn relative_link_keeps_its_target() {
    let mut disk = Disk::new().dir("src").link("src/link", "../target").dir("dest");
    assert_eq!(mirror(&mut disk, args("src", "dest", false)), Ok(0));
    assert_eq!(disk.nodes.get("dest/src/link"), Some(&Node::Link(b"../target".to_vec())));
}

#[test]
fn directory_where_a_file_is_to_stand_fails_the_run() {
    let mut disk = sample().dir("dest").dir("dest/src").dir("dest/src/c.txt");
    assert_eq!(
        mirror(&mut disk, args("src", "dest", true)),
        Err(RunError::Copy(SyncError::Conflict(TreePath {
            root: b"dest".to_vec(),
            rel: vec![b"src".to_vec(), b"c.txt".to_vec()],
        })))
    );
    // the directory in the way is as it was
    assert!(disk.is_dir("dest/src/c.txt"));
    assert!(disk.tree("dest/src/c.txt").is_empty());
}

#[test]
fn existing_copy_is_refused_without_sync() {
    let mut disk = sample().dir("dest").dir("dest/src");
    let before = disk.nodes.clone();
    assert_eq!(
        mirror(&mut disk, args("src", "dest", false)),
        Err(RunError::Argument(psync::cli::ArgError::DestinationExists))
    );
    assert_eq!(disk.nodes, before);
    assert_eq!(disk.writes, 0);
}

#[test]
fn destination_mirrors_the_source() {
    let mut disk = Disk::new()
        .dir("src")
        .file("src/one", b"1".to_vec())
        .dir("src/empty")
        .dir("src/x")
        .dir("src/x/y")
        .dir("src/x/y/z")
        .file("src/x/y/z/deep", vec![1; 2048])
        .link("src/x/up", "..")
        .link("src/x/abs", "/etc/hosts")
        .file("src/x/two", vec![2; 3])
        .dir("src/w")
        .file("src/w/three", Vec::new());
    assert_eq!(mirror(&mut disk, args("src", "out", false)), Ok(1 + 2048 + 3));
    assert_eq!(disk.tree("out"), disk.tree("src"));
    assert_eq!(disk.tree("out").len(), 11);
}

#[test]
fn merge_completes_a_partial_copy() {
    let mut disk = sample()
        .dir("dest")
        .dir("dest/src")
        .file("dest/src/c.txt", vec![9; 5000])
        .file("dest/src/stays", b"only here".to_vec());
    // the large file is equal and kept, the small one is new
    assert_eq!(mirror(&mut disk, args("src", "dest", true)), Ok(10));
    assert_eq!(disk.nodes.get("dest/src/a/b.txt"), Some(&Node::File(vec![7; 10])));
    assert_eq!(disk.nodes.get("dest/src/c.txt"), Some(&Node::File(vec![9; 5000])));
    // nothing is pruned
    assert_eq!(disk.nodes.get("dest/src/stays"), Some(&Node::File(b"only here".to_vec())));
}

#[test]
fn merge_replaces_what_differs() {
    let mut disk = sample()
        .dir("dest")
        .dir("dest/src")
        .dir("dest/src/a")
        .file("dest/src/a/b.txt", b"old".to_vec())
        .file("dest/src/c.txt", vec![8; 6000]);
    assert_eq!(mirror(&mut disk, args("src", "dest", true)), Ok(5010));
    assert_eq!(disk.tree("dest/src"), disk.tree("src"));
}

#[test]
fn merge_replaces_a_small_link_by_the_file() {
    let mut disk = sample().dir("dest").dir("dest/src").link("dest/src/c.txt", "elsewhere");
    assert_eq!(mirror(&mut disk, args("src", "dest", true)), Ok(5010));
    assert_eq!(disk.nodes.get("dest/src/c.txt"), Some(&Node::File(vec![9; 5000])));
}

#[test]
fn destination_directory_exists_when_a_job_is_yielded() {
    let mut disk = Disk::new()
        .dir("src")
        .file("src/f", b"f".to_vec())
        .dir("src/a")
        .file("src/a/f", b"f".to_vec())
        .dir("src/a/b")
        .link("src/a/b/l", "f")
        .dir("src/c")
        .file("src/c/f", b"f".to_vec())
        .dir("dest")
        .dir("dest/a");
    let mut jobs = 0;
    let walked = walk(&mut disk, root("src"), root("dest"), &mut |disk, job| {
        jobs += 1;
        assert!(disk.is_dir(&parent(&key(&job.dest))), "{} has no directory", key(&job.dest));
    });
    assert_eq!(walked, Ok(()));
    assert_eq!(jobs, 4);
}

#[test]
fn jobs_beneath_a_fresh_directory_cannot_exist() {
    let mut disk = Disk::new()
        .dir("src")
        .file("src/f", b"f".to_vec())
        .dir("src/old")
        .file("src/old/f", b"f".to_vec())
        .dir("src/old/new")
        .file("src/old/new/f", b"f".to_vec())
        .dir("src/old/new/deeper")
        .file("src/old/new/deeper/f", b"f".to_vec())
        .dir("dest")
        .dir("dest/old");
    let mut flags = BTreeMap::new();
    let walked = walk(&mut disk, root("src"), root("dest"), &mut |_, job| {
        flags.insert(key(&job.dest), job.may_exist);
    });
    assert_eq!(walked, Ok(()));
    assert_eq!(flags.get("dest/f"), Some(&true));
    assert_eq!(flags.get("dest/old/f"), Some(&true));
    assert_eq!(flags.get("dest/old/new/f"), Some(&false));
    assert_eq!(flags.get("dest/old/new/deeper/f"), Some(&false));
    assert_eq!(flags.len(), 4);
}

#[test]
fn entry_that_cannot_be_copied_ends_the_traversal() {
    let mut disk = Disk::new()
        .dir("src")
        .fifo("src/a_pipe")
        .file("src/b", b"b".to_vec())
        .dir("src/c")
        .file("src/c/d", b"d".to_vec());
    let mut jobs = 0;
    let walked = walk(&mut disk, root("src"), root("dest"), &mut |_, _| jobs += 1);
    assert_eq!(
        walked,
        Err(WalkError::Unsupported(TreePath {
            root: b"src".to_vec(),
            rel: vec![b"a_pipe".to_vec()],
        }))
    );
    assert_eq!(jobs, 0);
    assert_eq!(
        mirror(&mut disk, args("src", "other", false)),
        Err(RunError::Walk(WalkError::Unsupported(TreePath {
            root: b"src".to_vec(),
            rel: vec![b"a_pipe".to_vec()],
        })))
    );
}

#[test]
fn source_that_cannot_be_opened_yields_nothing() {
    let mut disk = Disk::new().file("src", b"a file".to_vec());
    let mut jobs = 0;
    let walked = walk(&mut disk, root("src"), root("dest"), &mut |_, _| jobs += 1);
    assert_eq!(walked, Err(WalkError::Open("src is no directory".to_string())));
    assert_eq!(jobs, 0);
    // the destination root was created before the source was opened
    assert!(disk.is_dir("dest"));
}

#[test]
fn every_entry_gets_one_job() {
    let mut disk = Disk::new()
        .dir("src")
        .file("src/f", b"f".to_vec())
        .dir("src/a")
        .file("src/a/f", b"f".to_vec())
        .link("src/a/l", "f")
        .dir("src/a/a")
        .file("src/a/a/f", b"f".to_vec())
        .dir("src/b")
        .dir("src/b/a")
        .file("src/b/a/f", b"f".to_vec());
    let mut seen = Vec::new();
    let walked = walk(&mut disk, root("src"), root("dest"), &mut |_, job| {
        assert_eq!(job.src.rel, job.dest.rel);
        seen.push((key(&job.src), key(&job.dest), job.symlink));
    });
    assert_eq!(walked, Ok(()));
    seen.sort();
    assert_eq!(
        seen,
        vec![
            ("src/a/a/f".to_string(), "dest/a/a/f".to_string(), false),
            ("src/a/f".to_string(), "dest/a/f".to_string(), false),
            ("src/a/l".to_string(), "dest/a/l".to_string(), true),
            ("src/b/a/f".to_string(), "dest/b/a/f".to_string(), false),
            ("src/f".to_string(), "dest/f".to_string(), false),
        ]
    );
    // and every directory has been made
    for dir in ["dest", "dest/a", "dest/a/a", "dest/b", "dest/b/a"] {
        assert!(disk.is_dir(dir), "{} is missing", dir);
    }
}

#[test]
fn failed_copy_ends_the_run_with_both_paths() {
    // a file stands where the directory `a` is to hold the copy
    let mut disk = sample().dir("dest").dir("dest/src").file("dest/src/a", b"in the way".to_vec());
    let result = mirror(&mut disk, args("src", "dest", true));
    assert_eq!(
        result,
        Err(RunError::Copy(SyncError::Io {
            cause: "dest/src/a/b.txt has no directory to stand in".to_string(),
            src: TreePath { root: b"src".to_vec(), rel: vec![b"a".to_vec(), b"b.txt".to_vec()] },
            dest: TreePath {
                root: b"dest".to_vec(),
                rel: vec![b"src".to_vec(), b"a".to_vec(), b"b.txt".to_vec()],
            },
        }))
    );
    assert_eq!(disk.nodes.get("dest/src/a"), Some(&Node::File(b"in the way".to_vec())));
}
