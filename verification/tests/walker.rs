use psync::directory_traversal::{
    traverse, CopyJob, CopyJobIterator, EntryKind, Reply, Request, Step, WalkError,
};
use psync::path::TreePath;

fn path(root: &str, names: &[&str]) -> TreePath {
    TreePath {
        root: root.as_bytes().to_vec(),
        rel: names.iter().map(|n| n.as_bytes().to_vec()).collect(),
    }
}

fn entry(name: &str, kind: EntryKind) -> Reply<&'static str> {
    Reply::Entry { name: name.as_bytes().to_vec(), kind }
}

/// A walker over `src` into `dest` whose root has been opened under handle 1.
fn opened(dest_exists: bool) -> CopyJobIterator {
    let mut walker = traverse(path("src", &[]), path("dest", &[]));
    assert_eq!(
        walker.next::<&'static str>(Reply::Resume),
        Step::Ask(Request::Exists(path("dest", &[])))
    );
    if dest_exists {
        assert_eq!(
            walker.next::<&'static str>(Reply::Exists(true)),
            Step::Ask(Request::OpenDir(path("src", &[])))
        );
    } else {
        assert_eq!(
            walker.next::<&'static str>(Reply::Exists(false)),
            Step::Ask(Request::CreateDir(path("dest", &[])))
        );
        assert_eq!(
            walker.next::<&'static str>(Reply::Created),
            Step::Ask(Request::OpenDir(path("src", &[])))
        );
    }
    assert_eq!(
        walker.next::<&'static str>(Reply::Opened(1)),
        Step::Ask(Request::ReadEntry(1))
    );
    walker
}

#[test]
fn missing_destination_root_is_created_before_the_source_is_opened() {
    let mut walker = traverse(path("a", &[]), path("b", &[]));
    assert_eq!(
        walker.next::<&'static str>(Reply::Resume),
        Step::Ask(Request::Exists(path("b", &[])))
    );
    assert_eq!(
        walker.next::<&'static str>(Reply::Exists(false)),
        Step::Ask(Request::CreateDir(path("b", &[])))
    );
    assert_eq!(
        walker.next::<&'static str>(Reply::Created),
        Step::Ask(Request::OpenDir(path("a", &[])))
    );
    assert_eq!(
        walker.next::<&'static str>(Reply::Opened(9)),
        Step::Ask(Request::ReadEntry(9))
    );
}

#[test]
fn existing_destination_root_is_not_created() {
    let mut walker = traverse(path("a", &[]), path("b", &[]));
    walker.next::<&'static str>(Reply::Resume);
    assert_eq!(
        walker.next::<&'static str>(Reply::Exists(true)),
        Step::Ask(Request::OpenDir(path("a", &[])))
    );
}

#[test]
fn empty_source_ends_without_a_job() {
    let mut walker = opened(false);
    assert_eq!(walker.next::<&'static str>(Reply::Exhausted), Step::Done);
    assert_eq!(walker.next::<&'static str>(Reply::Resume), Step::Done);
    assert_eq!(walker.next::<&'static str>(Reply::Exhausted), Step::Done);
}

#[test]
fn file_in_fresh_root_cannot_exist_at_destination() {
    let mut walker = opened(false);
    assert_eq!(
        walker.next(entry("c.txt", EntryKind::File)),
        Step::Yield(CopyJob {
            src: path("src", &["c.txt"]),
            dest: path("dest", &["c.txt"]),
            symlink: false,
            may_exist: false,
        })
    );
    assert_eq!(
        walker.next::<&'static str>(Reply::Resume),
        Step::Ask(Request::ReadEntry(1))
    );
}

#[test]
fn file_in_existing_root_may_exist_at_destination() {
    let mut walker = opened(true);
    assert_eq!(
        walker.next(entry("c.txt", EntryKind::File)),
        Step::Yield(CopyJob {
            src: path("src", &["c.txt"]),
            dest: path("dest", &["c.txt"]),
            symlink: false,
            may_exist: true,
        })
    );
}

#[test]
fn symlink_is_flagged_and_not_followed() {
    let mut walker = opened(true);
    assert_eq!(
        walker.next(entry("link", EntryKind::Symlink)),
        Step::Yield(CopyJob {
            src: path("src", &["link"]),
            dest: path("dest", &["link"]),
            symlink: true,
            may_exist: true,
        })
    );
}

#[test]
fn directory_in_fresh_parent_is_created_without_a_look() {
    let mut walker = opened(false);
    assert_eq!(
        walker.next(entry("a", EntryKind::Directory)),
        Step::Ask(Request::CreateDir(path("dest", &["a"])))
    );
    assert_eq!(
        walker.next::<&'static str>(Reply::Created),
        Step::Ask(Request::OpenDir(path("src", &["a"])))
    );
    // reading goes on in the directory in which `a` was found
    assert_eq!(
        walker.next::<&'static str>(Reply::Opened(2)),
        Step::Ask(Request::ReadEntry(1))
    );
    assert_eq!(
        walker.next::<&'static str>(Reply::Exhausted),
        Step::Ask(Request::ReadEntry(2))
    );
    assert_eq!(
        walker.next(entry("b.txt", EntryKind::File)),
        Step::Yield(CopyJob {
            src: path("src", &["a", "b.txt"]),
            dest: path("dest", &["a", "b.txt"]),
            symlink: false,
            may_exist: false,
        })
    );
}

#[test]
fn directory_in_existing_parent_is_looked_for_first() {
    let mut walker = opened(true);
    assert_eq!(
        walker.next(entry("a", EntryKind::Directory)),
        Step::Ask(Request::Exists(path("dest", &["a"])))
    );
    assert_eq!(
        walker.next::<&'static str>(Reply::Exists(true)),
        Step::Ask(Request::OpenDir(path("src", &["a"])))
    );
    assert_eq!(
        walker.next::<&'static str>(Reply::Opened(2)),
        Step::Ask(Request::ReadEntry(1))
    );
    walker.next::<&'static str>(Reply::Exhausted);
    assert_eq!(
        walker.next(entry("b.txt", EntryKind::File)),
        Step::Yield(CopyJob {
            src: path("src", &["a", "b.txt"]),
            dest: path("dest", &["a", "b.txt"]),
            symlink: false,
            may_exist: true,
        })
    );
}

#[test]
fn directory_missing_in_existing_parent_becomes_fresh() {
    let mut walker = opened(true);
    walker.next(entry("a", EntryKind::Directory));
    assert_eq!(
        walker.next::<&'static str>(Reply::Exists(false)),
        Step::Ask(Request::CreateDir(path("dest", &["a"])))
    );
    assert_eq!(
        walker.next::<&'static str>(Reply::Created),
        Step::Ask(Request::OpenDir(path("src", &["a"])))
    );
    walker.next::<&'static str>(Reply::Opened(2));
    walker.next::<&'static str>(Reply::Exhausted);
    // everything beneath the fresh directory cannot exist, directories too
    assert_eq!(
        walker.next(entry("deep", EntryKind::Directory)),
        Step::Ask(Request::CreateDir(path("dest", &["a", "deep"])))
    );
    walker.next::<&'static str>(Reply::Created);
    walker.next::<&'static str>(Reply::Opened(3));
    walker.next::<&'static str>(Reply::Exhausted);
    assert_eq!(
        walker.next(entry("f", EntryKind::File)),
        Step::Yield(CopyJob {
            src: path("src", &["a", "deep", "f"]),
            dest: path("dest", &["a", "deep", "f"]),
            symlink: false,
            may_exist: false,
        })
    );
}

#[test]
fn directory_found_last_is_read_first() {
    let mut walker = opened(false);
    walker.next(entry("a", EntryKind::Directory));
    walker.next::<&'static str>(Reply::Created);
    walker.next::<&'static str>(Reply::Opened(2));
    walker.next(entry("b", EntryKind::Directory));
    walker.next::<&'static str>(Reply::Created);
    assert_eq!(
        walker.next::<&'static str>(Reply::Opened(3)),
        Step::Ask(Request::ReadEntry(1))
    );
    assert_eq!(
        walker.next::<&'static str>(Reply::Exhausted),
        Step::Ask(Request::ReadEntry(3))
    );
    assert_eq!(
        walker.next::<&'static str>(Reply::Exhausted),
        Step::Ask(Request::ReadEntry(2))
    );
    assert_eq!(walker.next::<&'static str>(Reply::Exhausted), Step::Done);
}

#[test]
fn files_of_a_directory_come_in_the_order_read() {
    let mut walker = opened(false);
    let mut seen: Vec<Vec<u8>> = Vec::new();
    for name in ["z", "a", "m"] {
        match walker.next(entry(name, EntryKind::File)) {
            Step::Yield(job) => seen.push(job.dest.rel[0].clone()),
            other => panic!("no job: {:?}", other),
        }
        walker.next::<&'static str>(Reply::Resume);
    }
    assert_eq!(seen, vec![b"z".to_vec(), b"a".to_vec(), b"m".to_vec()]);
}

#[test]
fn failure_to_create_the_root_is_an_open_error() {
    let mut walker = traverse(path("a", &[]), path("b", &[]));
    walker.next::<&'static str>(Reply::Resume);
    walker.next::<&'static str>(Reply::Exists(false));
    assert_eq!(
        walker.next(Reply::Failed("denied")),
        Step::Failed(WalkError::Open("denied"))
    );
    assert_eq!(walker.next::<&'static str>(Reply::Resume), Step::Done);
}

#[test]
fn failure_to_open_the_source_is_an_open_error() {
    let mut walker = traverse(path("a", &[]), path("b", &[]));
    walker.next::<&'static str>(Reply::Resume);
    walker.next::<&'static str>(Reply::Exists(true));
    assert_eq!(
        walker.next(Reply::Failed("not a directory")),
        Step::Failed(WalkError::Open("not a directory"))
    );
}

#[test]
fn unreadable_entry_poisons_the_traversal() {
    let mut walker = opened(false);
    walker.next(entry("a", EntryKind::Directory));
    walker.next::<&'static str>(Reply::Created);
    walker.next::<&'static str>(Reply::Opened(2));
    assert_eq!(
        walker.next(Reply::Failed("io")),
        Step::Failed(WalkError::Io("io"))
    );
    // the directory `a` is still open and unread, and yet nothing follows
    assert_eq!(walker.next::<&'static str>(Reply::Resume), Step::Done);
    assert_eq!(walker.next(entry("f", EntryKind::File)), Step::Done);
    assert_eq!(walker.next::<&'static str>(Reply::Exhausted), Step::Done);
    assert_eq!(walker.next(Reply::Failed("again")), Step::Done);
}

#[test]
fn failure_to_create_a_directory_poisons_the_traversal() {
    let mut walker = opened(false);
    walker.next(entry("a", EntryKind::Directory));
    assert_eq!(
        walker.next(Reply::Failed("full")),
        Step::Failed(WalkError::Io("full"))
    );
    assert_eq!(walker.next::<&'static str>(Reply::Resume), Step::Done);
}

#[test]
fn failure_to_open_a_directory_poisons_the_traversal() {
    let mut walker = opened(true);
    walker.next(entry("a", EntryKind::Directory));
    walker.next::<&'static str>(Reply::Exists(true));
    assert_eq!(
        walker.next(Reply::Failed("denied")),
        Step::Failed(WalkError::Io("denied"))
    );
    assert_eq!(walker.next::<&'static str>(Reply::Opened(4)), Step::Done);
}

#[test]
fn entry_that_is_no_file_link_or_directory_is_refused() {
    let mut walker = opened(false);
    assert_eq!(
        walker.next(entry("fifo", EntryKind::Other)),
        Step::Failed(WalkError::Unsupported(path("src", &["fifo"])))
    );
    assert_eq!(walker.next::<&'static str>(Reply::Resume), Step::Done);
}

#[test]
fn reply_that_answers_nothing_asked_is_refused() {
    let mut walker = traverse(path("a", &[]), path("b", &[]));
    assert_eq!(
        walker.next::<&'static str>(Reply::Created),
        Step::Failed(WalkError::Unexpected)
    );
    assert_eq!(walker.next::<&'static str>(Reply::Resume), Step::Done);

    let mut walker = opened(false);
    assert_eq!(
        walker.next::<&'static str>(Reply::Opened(5)),
        Step::Failed(WalkError::Unexpected)
    );

    let mut walker = opened(false);
    walker.next(entry("f", EntryKind::File));
    assert_eq!(
        walker.next::<&'static str>(Reply::Exhausted),
        Step::Failed(WalkError::Unexpected)
    );
}

#[test]
fn nested_destination_root_keeps_its_names() {
    let mut walker = traverse(path("/data/src", &[]), path("/backup", &["src"]));
    assert_eq!(
        walker.next::<&'static str>(Reply::Resume),
        Step::Ask(Request::Exists(path("/backup", &["src"])))
    );
    walker.next::<&'static str>(Reply::Exists(true));
    walker.next::<&'static str>(Reply::Opened(1));
    assert_eq!(
        walker.next(entry("c.txt", EntryKind::File)),
        Step::Yield(CopyJob {
            src: path("/data/src", &["c.txt"]),
            dest: path("/backup", &["src", "c.txt"]),
            symlink: false,
            may_exist: true,
        })
    );
}

#[test]
fn paths_are_built_name_by_name() {
    let root = TreePath::new(b"root".to_vec());
    assert_eq!(root, path("root", &[]));
    let child = root.child(&b"a".to_vec());
    assert_eq!(child, path("root", &["a"]));
    assert_eq!(
        child.descend(&vec![b"b".to_vec(), b"c".to_vec()]),
        path("root", &["a", "b", "c"])
    );
    assert_eq!(child.duplicate(), child);
    // a name is taken as it is, separators and all
    assert_eq!(root.child(&b"x/y".to_vec()).rel, vec![b"x/y".to_vec()]);
}
