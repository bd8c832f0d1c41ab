//! The walker against a source tree: a traversal that is answered truly and
//! does not fail comes to every entry of the tree.

use crate::directory_traversal::{
    EntryKind, FrameView, ReplyView, RequestView, StageView, StepView, WalkerView,
};
use crate::path::PathView;
use crate::traversal_laws::{
    all_truthful, dirs_after_all, lemma_dirs_grow, lemma_grounded_at, lemma_roots_kept,
};
use vstd::prelude::*;

verus! {

/// An entry as reading a directory gives it.
pub struct Listed {
    pub name: Seq<u8>,
    pub kind: EntryKind,
}

/// A source tree as a traversal sees it: for each directory that can be
/// opened, named by the names that lead to it from the root, the entries
/// that reading it gives, in the order in which it gives them.
pub struct SourceTree {
    pub entries: Map<Seq<Seq<u8>>, Seq<Listed>>,
}

/// An entry of the tree: the names that lead to it from the root, and what
/// it is.
pub struct Node {
    pub path: Seq<Seq<u8>>,
    pub kind: EntryKind,
}

impl SourceTree {
    /// The directory `dir` can be opened and has an entry at position `k`.
    pub open spec fn lists(self, dir: Seq<Seq<u8>>, k: int) -> bool {
        self.entries.dom().contains(dir) && 0 <= k < self.entries[dir].len()
    }

    /// The directory `dir` has an entry `name` of kind `kind`.
    pub open spec fn holds(self, dir: Seq<Seq<u8>>, name: Seq<u8>, kind: EntryKind) -> bool {
        exists|k: int| #[trigger] self.lists(dir, k) && self.entries[dir][k] == (Listed { name, kind })
    }

    /// The directory `dir` is the root, or is listed as a directory in a
    /// directory of which the same holds.
    pub open spec fn reaches(self, dir: Seq<Seq<u8>>) -> bool
        decreases dir.len(),
    {
        dir.len() == 0 || (self.reaches(dir.drop_last()) && self.holds(
            dir.drop_last(),
            dir.last(),
            EntryKind::Directory,
        ))
    }

    /// `node` is a directory, file or symbolic link of the tree.
    pub open spec fn has(self, node: Node) -> bool {
        &&& node.path.len() > 0
        &&& node.kind != EntryKind::Other
        &&& self.reaches(node.path.drop_last())
        &&& self.holds(node.path.drop_last(), node.path.last(), node.kind)
    }

    /// `node` is the entry at position `k` of the directory `dir`, or lies
    /// beneath it.
    pub open spec fn passes(self, dir: Seq<Seq<u8>>, k: int, node: Node) -> bool {
        &&& self.lists(dir, k)
        &&& dir.len() < node.path.len()
        &&& node.path.take(dir.len() as int) == dir
        &&& self.entries[dir][k].name == node.path[dir.len() as int]
        &&& self.entries[dir][k].kind == if node.path.len() == dir.len() + 1 {
            node.kind
        } else {
            EntryKind::Directory
        }
    }
}

/// `node` is the directory `dir` or lies beneath it.
pub open spec fn under(dir: Seq<Seq<u8>>, node: Node) -> bool {
    &&& dir.len() <= node.path.len()
    &&& node.path.take(dir.len() as int) == dir
    &&& node.path.len() == dir.len() ==> node.kind == EntryKind::Directory
}

/// Every directory on the way to a directory that the tree reaches is
/// reached itself, and is listed as a directory in the one before it.
pub proof fn lemma_reaches_prefix(tree: SourceTree, dir: Seq<Seq<u8>>, n: int)
    requires
        tree.reaches(dir),
        0 <= n < dir.len(),
    ensures
        tree.reaches(dir.take(n)),
        tree.holds(dir.take(n), dir[n], EntryKind::Directory),
    decreases dir.len(),
{
    if n == dir.len() - 1 {
        assert(dir.take(n) =~= dir.drop_last());
    } else {
        lemma_reaches_prefix(tree, dir.drop_last(), n);
        assert(dir.drop_last().take(n) =~= dir.take(n));
    }
}

/// An entry of the tree that lies beneath the directory `dir` is one of the
/// entries of `dir` or lies beneath one of them.
pub proof fn lemma_node_passes(tree: SourceTree, dir: Seq<Seq<u8>>, node: Node) -> (k: int)
    requires
        tree.has(node),
        dir.len() < node.path.len(),
        node.path.take(dir.len() as int) == dir,
    ensures
        tree.passes(dir, k, node),
{
    let n = dir.len() as int;
    if node.path.len() == dir.len() + 1 {
        assert(node.path.drop_last() =~= node.path.take(n));
        let k = choose|k: int| #[trigger]
            tree.lists(dir, k) && tree.entries[dir][k] == (Listed {
                name: node.path.last(),
                kind: node.kind,
            });
        k
    } else {
        lemma_reaches_prefix(tree, node.path.drop_last(), n);
        assert(node.path.drop_last().take(n) =~= node.path.take(n));
        let k = choose|k: int| #[trigger]
            tree.lists(dir, k) && tree.entries[dir][k] == (Listed {
                name: node.path[n],
                kind: EntryKind::Directory,
            });
        k
    }
}

/// How far an open directory has been read.
pub struct Cursor {
    /// The names that lead to the directory.
    pub dir: Seq<Seq<u8>>,
    /// The position of the entry that is read next.
    pub at: int,
}

/// The names that lead to the directory that the walker waits to have
/// opened.
pub open spec fn opening(w: WalkerView) -> Seq<Seq<u8>> {
    match w.stage {
        StageView::DirOpen { name, .. } => w.stack.last().rel.push(name),
        _ => Seq::empty(),
    }
}

/// The reply `reply` is one that the tree `tree` can give to the walker `w`
/// when `open` are the directories opened so far. A failure can follow any
/// request. A directory that is opened is one of the tree and gets a handle
/// that was not given out before. Reading a directory gives its entries in
/// order, and its end after the last.
pub open spec fn faithful<E>(
    tree: SourceTree,
    w: WalkerView,
    open: Map<u64, Cursor>,
    reply: ReplyView<E>,
) -> bool {
    reply is Failed || match w.pending() {
        None => reply is Resume,
        Some(RequestView::Exists(_)) => reply is Exists,
        Some(RequestView::CreateDir(_)) => reply is Created,
        Some(RequestView::OpenDir(_)) => {
            &&& reply matches ReplyView::Opened(handle)
            &&& !open.dom().contains(handle)
            &&& tree.entries.dom().contains(opening(w))
        },
        Some(RequestView::ReadEntry(handle)) => {
            &&& open.dom().contains(handle)
            &&& if tree.lists(open[handle].dir, open[handle].at) {
                let listed = tree.entries[open[handle].dir][open[handle].at];
                reply == ReplyView::<E>::Entry { name: listed.name, kind: listed.kind }
            } else {
                reply is Exhausted
            }
        },
    }
}

/// The open directories after `reply` was given to the walker `w`.
pub open spec fn open_after<E>(w: WalkerView, open: Map<u64, Cursor>, reply: ReplyView<E>) -> Map<
    u64,
    Cursor,
> {
    match (w.pending(), reply) {
        (Some(RequestView::OpenDir(_)), ReplyView::Opened(handle)) => open.insert(
            handle,
            Cursor { dir: opening(w), at: 0 },
        ),
        (Some(RequestView::ReadEntry(handle)), ReplyView::Entry { .. }) => open.insert(
            handle,
            Cursor { dir: open[handle].dir, at: open[handle].at + 1 },
        ),
        _ => open,
    }
}

/// The entry that the walker `w` is done with once it has answered `reply`:
/// the file or link that it yields a job for, or the directory that it takes
/// in.
pub open spec fn completes<E>(w: WalkerView, reply: ReplyView<E>) -> Option<Node> {
    if w.stack.len() == 0 {
        None
    } else {
        match (w.stage, reply) {
            (StageView::Reading, ReplyView::Entry { name, kind }) => if kind == EntryKind::File
                || kind == EntryKind::Symlink {
                Some(Node { path: w.stack.last().rel.push(name), kind })
            } else {
                None
            },
            (StageView::DirOpen { name, .. }, ReplyView::Opened(_)) => Some(
                Node { path: w.stack.last().rel.push(name), kind: EntryKind::Directory },
            ),
            _ => None,
        }
    }
}

/// The entries that the walker is done with after `reply`, when it was done
/// with `seen` before.
pub open spec fn seen_after<E>(w: WalkerView, seen: Set<Node>, reply: ReplyView<E>) -> Set<Node> {
    match completes(w, reply) {
        Some(node) => seen.insert(node),
        None => seen,
    }
}

/// The name of the sub-directory that the walker has found and not yet taken
/// in.
pub open spec fn found_name(stage: StageView) -> Option<Seq<u8>> {
    match stage {
        StageView::DirExists { name } => Some(name),
        StageView::DirCreate { name } => Some(name),
        StageView::DirOpen { name, .. } => Some(name),
        _ => None,
    }
}

/// The walker has not opened the source root yet.
pub open spec fn before_root(stage: StageView) -> bool {
    stage is Start || stage is RootExists || stage is RootCreate || stage is RootOpen
}

/// The frame `frame` stands for a directory of the tree, open under its
/// handle.
pub open spec fn anchored(tree: SourceTree, frame: FrameView, open: Map<u64, Cursor>) -> bool {
    &&& open.dom().contains(frame.handle)
    &&& open[frame.handle].dir == frame.rel
    &&& open[frame.handle].at >= 0
    &&& tree.entries.dom().contains(frame.rel)
    &&& tree.reaches(frame.rel)
}

/// The walker and the open directories fit the tree and each other.
pub open spec fn tracking(tree: SourceTree, w: WalkerView, open: Map<u64, Cursor>) -> bool {
    &&& w.wf()
    &&& forall|i: int| 0 <= i < w.stack.len() ==> anchored(tree, #[trigger] w.stack[i], open)
    &&& forall|i: int, j: int|
        0 <= i < j < w.stack.len() ==> (#[trigger] w.stack[i]).handle != (
        #[trigger] w.stack[j]).handle
    &&& found_name(w.stage) matches Some(name) ==> {
        let top = w.stack.last();
        let at = open[top.handle].at - 1;
        &&& tree.lists(top.rel, at)
        &&& tree.entries[top.rel][at] == (Listed { name, kind: EntryKind::Directory })
    }
}

/// The frame at position `i` of the stack has the entry at position `k` of
/// its directory still to read, and `node` is that entry or lies beneath it.
pub open spec fn waits(
    tree: SourceTree,
    w: WalkerView,
    open: Map<u64, Cursor>,
    i: int,
    k: int,
    node: Node,
) -> bool {
    &&& 0 <= i < w.stack.len()
    &&& open[w.stack[i].handle].at <= k
    &&& tree.passes(w.stack[i].rel, k, node)
}

/// The walker has `node` still before it.
pub open spec fn awaited(tree: SourceTree, w: WalkerView, open: Map<u64, Cursor>, node: Node) -> bool {
    ||| before_root(w.stage)
    ||| exists|i: int, k: int| #[trigger] waits(tree, w, open, i, k, node)
    ||| (found_name(w.stage) matches Some(name) && w.stack.len() > 0 && under(
        w.stack.last().rel.push(name),
        node,
    ))
}

/// Every entry of the tree is done with or still before the walker.
pub open spec fn complete(
    tree: SourceTree,
    w: WalkerView,
    open: Map<u64, Cursor>,
    seen: Set<Node>,
) -> bool {
    forall|node: Node| #[trigger] tree.has(node) ==> seen.contains(node) || awaited(tree, w, open, node)
}

/// Everything that the walker is done with is an entry of the tree.
pub open spec fn sound(tree: SourceTree, seen: Set<Node>) -> bool {
    forall|node: Node| #[trigger] seen.contains(node) ==> tree.has(node)
}

/// One step keeps the walker and the open directories fitting the tree.
pub proof fn lemma_step_tracking<E>(
    tree: SourceTree,
    w: WalkerView,
    open: Map<u64, Cursor>,
    reply: ReplyView<E>,
)
    requires
        tracking(tree, w, open),
        faithful(tree, w, open, reply),
    ensures
        w.next(reply).0.stage is Poisoned || tracking(
            tree,
            w.next(reply).0,
            open_after(w, open, reply),
        ),
{
    let w2 = w.next(reply).0;
    let open2 = open_after(w, open, reply);
    if w2.stage is Poisoned {
        return ;
    }
    crate::traversal_laws::lemma_next_wf(w, reply);
    match w.stage {
        StageView::RootOpen { fresh } => {
            let handle = reply->Opened_0;
            assert(w2.stack[0].rel =~= opening(w));
            assert(tree.reaches(w2.stack[0].rel));
        },
        StageView::Reading => {
            let top = w.stack.last();
            assert(top == w.stack[w.stack.len() - 1]);
            assert(anchored(tree, top, open));
            match reply {
                ReplyView::Entry { name, kind } => {
                    assert(w2.stack == w.stack);
                    assert forall|i: int| 0 <= i < w2.stack.len() implies anchored(
                        tree,
                        #[trigger] w2.stack[i],
                        open2,
                    ) by {
                        assert(anchored(tree, w.stack[i], open));
                    }
                },
                ReplyView::Exhausted => {
                    assert forall|i: int| 0 <= i < w2.stack.len() implies anchored(
                        tree,
                        #[trigger] w2.stack[i],
                        open2,
                    ) by {
                        assert(w2.stack[i] == w.stack[i]);
                        assert(anchored(tree, w.stack[i], open));
                    }
                    assert forall|i: int, j: int| 0 <= i < j < w2.stack.len() implies (
                    #[trigger] w2.stack[i]).handle != (#[trigger] w2.stack[j]).handle by {
                        assert(w2.stack[i] == w.stack[i]);
                        assert(w2.stack[j] == w.stack[j]);
                    }
                },
                _ => {},
            }
        },
        StageView::DirOpen { name, fresh } => {
            let top = w.stack.last();
            let handle = reply->Opened_0;
            let found = FrameView { rel: top.rel.push(name), handle, fresh };
            let n = w.stack.len() as int;
            assert(top == w.stack[n - 1]);
            assert(anchored(tree, top, open));
            assert(found.rel.drop_last() =~= top.rel);
            assert(tree.lists(top.rel, open[top.handle].at - 1));
            assert(tree.holds(top.rel, name, EntryKind::Directory));
            assert(tree.reaches(found.rel));
            assert forall|i: int| 0 <= i < w2.stack.len() implies anchored(
                tree,
                #[trigger] w2.stack[i],
                open2,
            ) by {
                if i < n - 1 {
                    assert(w2.stack[i] == w.stack[i]);
                    assert(anchored(tree, w.stack[i], open));
                } else if i == n - 1 {
                    assert(w2.stack[i] == found);
                } else {
                    assert(w2.stack[i] == top);
                }
            }
            assert forall|i: int, j: int| 0 <= i < j < w2.stack.len() implies (
            #[trigger] w2.stack[i]).handle != (#[trigger] w2.stack[j]).handle by {
                let a = if i < n - 1 {
                    i
                } else {
                    n - 1
                };
                let b = if j < n - 1 {
                    j
                } else {
                    n - 1
                };
                assert(anchored(tree, w.stack[a], open));
                assert(anchored(tree, w.stack[b], open));
                if i < n - 1 {
                    assert(w2.stack[i] == w.stack[i]);
                } else if i == n - 1 {
                    assert(w2.stack[i] == found);
                }
                if j < n - 1 {
                    assert(w2.stack[j] == w.stack[j]);
                } else if j == n - 1 {
                    assert(w2.stack[j] == found);
                } else {
                    assert(w2.stack[j] == top);
                }
            }
        },
        _ => {
            assert(w2.stack == w.stack);
            assert(open2 == open);
        },
    }
}

/// One step adds only an entry of the tree to what the walker is done with.
pub proof fn lemma_step_sound<E>(
    tree: SourceTree,
    w: WalkerView,
    open: Map<u64, Cursor>,
    seen: Set<Node>,
    reply: ReplyView<E>,
)
    requires
        tracking(tree, w, open),
        sound(tree, seen),
        faithful(tree, w, open, reply),
    ensures
        sound(tree, seen_after(w, seen, reply)),
{
    if completes(w, reply) is Some {
        let node = completes(w, reply)->Some_0;
        let top = w.stack.last();
        assert(top == w.stack[w.stack.len() - 1]);
        assert(anchored(tree, top, open));
        assert(node.path.drop_last() =~= top.rel);
        match w.stage {
            StageView::Reading => {
                assert(tree.lists(top.rel, open[top.handle].at));
            },
            StageView::DirOpen { name, fresh } => {
                assert(tree.lists(top.rel, open[top.handle].at - 1));
            },
            _ => {},
        }
        assert(tree.has(node));
    }
}

/// An entry that is done with or still before the walker is so after the
/// step as well.
proof fn lemma_node_stays<E>(
    tree: SourceTree,
    w: WalkerView,
    open: Map<u64, Cursor>,
    seen: Set<Node>,
    reply: ReplyView<E>,
    node: Node,
)
    requires
        tracking(tree, w, open),
        faithful(tree, w, open, reply),
        tree.has(node),
        seen.contains(node) || awaited(tree, w, open, node),
        !(w.next(reply).0.stage is Poisoned),
    ensures
        seen_after(w, seen, reply).contains(node) || awaited(
            tree,
            w.next(reply).0,
            open_after(w, open, reply),
            node,
        ),
{
    let w2 = w.next(reply).0;
    let open2 = open_after(w, open, reply);
    let seen2 = seen_after(w, seen, reply);
    let n = w.stack.len() as int;
    if seen.contains(node) {
        return ;
    }
    if before_root(w.stage) {
        if !before_root(w2.stage) {
            // the root has just been opened
            assert(node.path.take(0) =~= Seq::<Seq<u8>>::empty());
            let k = lemma_node_passes(tree, Seq::empty(), node);
            assert(waits(tree, w2, open2, 0, k, node));
        }
        return ;
    }
    if found_name(w.stage) is Some && n > 0 && under(
        w.stack.last().rel.push(found_name(w.stage)->Some_0),
        node,
    ) {
        let name = found_name(w.stage)->Some_0;
        let top = w.stack.last();
        let dir = top.rel.push(name);
        if w.stage is DirOpen {
            if node.path.len() == dir.len() {
                assert(node.path.take(dir.len() as int) =~= node.path);
                assert(completes(w, reply) == Some(node));
            } else {
                let k = lemma_node_passes(tree, dir, node);
                assert(w2.stack[n - 1].rel == dir);
                assert(waits(tree, w2, open2, n - 1, k, node));
            }
        } else {
            assert(found_name(w2.stage) == Some(name));
            assert(w2.stack == w.stack);
        }
        return ;
    }
    let (i, k) = choose|i: int, k: int| #[trigger] waits(tree, w, open, i, k, node);
    assert(waits(tree, w, open, i, k, node));
    let top = w.stack.last();
    assert(top == w.stack[n - 1]);
    assert(anchored(tree, top, open));
    assert(anchored(tree, w.stack[i], open));
    match w.stage {
        StageView::Reading => {
            match reply {
                ReplyView::Exhausted => {
                    if i == n - 1 {
                        assert(tree.lists(top.rel, open[top.handle].at));
                    } else {
                        assert(w2.stack[i] == w.stack[i]);
                        assert(waits(tree, w2, open2, i, k, node));
                    }
                },
                ReplyView::Entry { name, kind } => {
                    assert(w2.stack == w.stack);
                    if i < n - 1 {
                        assert(w.stack[i].handle != w.stack[n - 1].handle);
                        assert(waits(tree, w2, open2, i, k, node));
                    } else if k > open[top.handle].at {
                        assert(waits(tree, w2, open2, i, k, node));
                    } else {
                        let dir = top.rel.push(name);
                        assert(node.path.take(dir.len() as int) =~= dir) by {
                            assert(node.path.take(top.rel.len() as int) == top.rel);
                            assert forall|j: int| 0 <= j < dir.len() implies node.path.take(
                                dir.len() as int,
                            )[j] == dir[j] by {
                                if j < top.rel.len() {
                                    assert(node.path.take(top.rel.len() as int)[j] == top.rel[j]);
                                }
                            }
                        }
                        if node.path.len() == dir.len() {
                            assert(node.path.take(dir.len() as int) =~= node.path);
                        }
                        if kind == EntryKind::Directory {
                            assert(found_name(w2.stage) == Some(name));
                            assert(under(dir, node));
                        } else {
                            assert(completes(w, reply) == Some(node));
                        }
                    }
                },
                _ => {},
            }
        },
        StageView::DirOpen { name, fresh } => {
            if i < n - 1 {
                assert(w2.stack[i] == w.stack[i]);
                assert(waits(tree, w2, open2, i, k, node));
            } else {
                assert(w2.stack[n] == top);
                assert(waits(tree, w2, open2, n, k, node));
            }
        },
        _ => {
            assert(w2.stack == w.stack);
            assert(open2 == open);
            assert(waits(tree, w2, open2, i, k, node));
        },
    }
}

/// One step of a traversal that is answered truly by the tree: unless the
/// traversal fails, the walker and the open directories still fit the tree,
/// what the walker is done with are entries of the tree, and every entry of
/// the tree is done with or still to come.
pub proof fn lemma_step_covers<E>(
    tree: SourceTree,
    w: WalkerView,
    open: Map<u64, Cursor>,
    seen: Set<Node>,
    reply: ReplyView<E>,
)
    requires
        tracking(tree, w, open),
        sound(tree, seen),
        complete(tree, w, open, seen),
        faithful(tree, w, open, reply),
    ensures
        sound(tree, seen_after(w, seen, reply)),
        w.next(reply).0.stage is Poisoned || {
            &&& tracking(tree, w.next(reply).0, open_after(w, open, reply))
            &&& complete(tree, w.next(reply).0, open_after(w, open, reply), seen_after(w, seen, reply))
        },
{
    lemma_step_sound(tree, w, open, seen, reply);
    lemma_step_tracking(tree, w, open, reply);
    if !(w.next(reply).0.stage is Poisoned) {
        assert forall|node: Node| #[trigger] tree.has(node) implies seen_after(
            w,
            seen,
            reply,
        ).contains(node) || awaited(
            tree,
            w.next(reply).0,
            open_after(w, open, reply),
            node,
        ) by {
            lemma_node_stays(tree, w, open, seen, reply, node);
        }
    }
}

/// When the traversal has come to its end, nothing is still to come: every
/// entry of the tree is done with.
pub proof fn lemma_finished_covers(
    tree: SourceTree,
    w: WalkerView,
    open: Map<u64, Cursor>,
    seen: Set<Node>,
    node: Node,
)
    requires
        w.stage is Finished,
        tracking(tree, w, open),
        complete(tree, w, open, seen),
        tree.has(node),
    ensures
        seen.contains(node),
{
    if !seen.contains(node) {
        assert(awaited(tree, w, open, node));
        let (i, k) = choose|i: int, k: int| #[trigger] waits(tree, w, open, i, k, node);
        assert(waits(tree, w, open, i, k, node));
    }
}

/// The directories opened by the replies `replies`, handed in order to the
/// walker `w`, each with how far it has been read.
pub open spec fn open_after_all<E>(w: WalkerView, replies: Seq<ReplyView<E>>) -> Map<u64, Cursor>
    decreases replies.len(),
{
    if replies.len() == 0 {
        Map::empty()
    } else {
        open_after(
            w.after(replies.drop_last()),
            open_after_all(w, replies.drop_last()),
            replies.last(),
        )
    }
}

/// The entries that the walker `w` is done with after the replies `replies`.
pub open spec fn seen_after_all<E>(w: WalkerView, replies: Seq<ReplyView<E>>) -> Set<Node>
    decreases replies.len(),
{
    if replies.len() == 0 {
        Set::empty()
    } else {
        seen_after(
            w.after(replies.drop_last()),
            seen_after_all(w, replies.drop_last()),
            replies.last(),
        )
    }
}

/// Each of the replies `replies` is one that the tree can give at its
/// moment.
pub open spec fn all_faithful<E>(tree: SourceTree, w: WalkerView, replies: Seq<ReplyView<E>>) -> bool {
    forall|k: int|
        0 <= k < replies.len() ==> faithful(
            tree,
            w.after(replies.take(k)),
            open_after_all(w, replies.take(k)),
            #[trigger] replies[k],
        )
}

/// In a traversal that is answered truly, at every moment every entry of
/// the tree is done with or still to come, unless the traversal has failed.
pub proof fn lemma_covers_at<E>(
    tree: SourceTree,
    src: PathView,
    dest: PathView,
    replies: Seq<ReplyView<E>>,
    k: int,
)
    requires
        all_faithful(tree, WalkerView::initial(src, dest), replies),
        0 <= k <= replies.len(),
    ensures
        ({
            let w = WalkerView::initial(src, dest);
            &&& sound(tree, seen_after_all(w, replies.take(k)))
            &&& w.after(replies.take(k)).stage is Poisoned || {
                &&& tracking(tree, w.after(replies.take(k)), open_after_all(w, replies.take(k)))
                &&& complete(
                    tree,
                    w.after(replies.take(k)),
                    open_after_all(w, replies.take(k)),
                    seen_after_all(w, replies.take(k)),
                )
            }
        }),
    decreases k,
{
    let w = WalkerView::initial(src, dest);
    if k == 0 {
        assert(replies.take(0) =~= Seq::<ReplyView<E>>::empty());
    } else {
        lemma_covers_at(tree, src, dest, replies, k - 1);
        assert(replies.take(k).drop_last() =~= replies.take(k - 1));
        assert(replies.take(k).last() == replies[k - 1]);
        let before = w.after(replies.take(k - 1));
        if !(before.stage is Poisoned) {
            lemma_step_covers(
                tree,
                before,
                open_after_all(w, replies.take(k - 1)),
                seen_after_all(w, replies.take(k - 1)),
                replies[k - 1],
            );
        }
    }
}

/// What the walker is done with, it was done with at some step.
proof fn lemma_seen_at<E>(w: WalkerView, replies: Seq<ReplyView<E>>, node: Node) -> (k: int)
    requires
        seen_after_all(w, replies).contains(node),
    ensures
        0 <= k < replies.len(),
        completes(w.after(replies.take(k)), replies[k]) == Some(node),
    decreases replies.len(),
{
    if replies.len() == 0 {
        0
    } else {
        let n = replies.len() - 1;
        assert(replies.take(n) =~= replies.drop_last());
        if completes(w.after(replies.drop_last()), replies.last()) == Some(node) {
            n
        } else {
            let k = lemma_seen_at(w, replies.drop_last(), node);
            assert(replies.drop_last().take(k) =~= replies.take(k));
            k
        }
    }
}

/// The job that the walker yields for a file or link it is done with.
pub proof fn lemma_completes_job<E>(w: WalkerView, reply: ReplyView<E>)
    requires
        completes(w, reply) is Some,
    ensures
        ({
            let node = completes(w, reply)->Some_0;
            if node.kind == EntryKind::Directory {
                &&& w.pending() == Some(RequestView::OpenDir(w.src.descend(node.path)))
                &&& reply is Opened
            } else {
                &&& w.next(reply).1 matches StepView::Yield(job)
                &&& job.src == w.src.descend(node.path)
                &&& job.dest == w.dest.descend(node.path)
                &&& job.symlink == (node.kind == EntryKind::Symlink)
            }
        }),
{
    let node = completes(w, reply)->Some_0;
    let top = w.stack.last();
    let name = node.path.last();
    assert(w.src.descend(top.rel).child(name) =~= w.src.descend(top.rel.push(name))) by {
        assert((w.src.rel + top.rel).push(name) =~= w.src.rel + top.rel.push(name));
    }
    assert(w.dest.descend(top.rel).child(name) =~= w.dest.descend(top.rel.push(name))) by {
        assert((w.dest.rel + top.rel).push(name) =~= w.dest.rel + top.rel.push(name));
    }
}

/// The step at which a traversal that came to its end was done with `node`.
proof fn lemma_reached_at<E>(
    tree: SourceTree,
    src: PathView,
    dest: PathView,
    replies: Seq<ReplyView<E>>,
    node: Node,
) -> (k: int)
    requires
        all_faithful(tree, WalkerView::initial(src, dest), replies),
        WalkerView::initial(src, dest).after(replies).stage is Finished,
        tree.has(node),
    ensures
        0 <= k < replies.len(),
        completes(WalkerView::initial(src, dest).after(replies.take(k)), replies[k]) == Some(node),
{
    let w = WalkerView::initial(src, dest);
    lemma_covers_at(tree, src, dest, replies, replies.len() as int);
    assert(replies.take(replies.len() as int) =~= replies);
    lemma_finished_covers(
        tree,
        w.after(replies),
        open_after_all(w, replies),
        seen_after_all(w, replies),
        node,
    );
    lemma_seen_at(w, replies, node)
}

/// Mirroring, as far as the traversal goes: a traversal that is answered
/// truly by the source tree and comes to its end has come to every
/// directory, file and symbolic link of the tree. For a file or link it has
/// yielded a job from the entry's place beneath the source root to the same
/// place beneath the destination root, flagged as a link exactly if it is
/// one; a directory it has opened.
///
/// The result is the position of the reply on which this happened.
pub proof fn lemma_every_entry_is_reached<E>(
    tree: SourceTree,
    src: PathView,
    dest: PathView,
    replies: Seq<ReplyView<E>>,
    node: Node,
) -> (k: int)
    requires
        all_faithful(tree, WalkerView::initial(src, dest), replies),
        WalkerView::initial(src, dest).after(replies).stage is Finished,
        tree.has(node),
    ensures
        0 <= k < replies.len(),
        node.kind != EntryKind::Directory ==> {
            &&& WalkerView::initial(src, dest).step_at(replies, k) matches StepView::Yield(job)
            &&& job.src == src.descend(node.path)
            &&& job.dest == dest.descend(node.path)
            &&& job.symlink == (node.kind == EntryKind::Symlink)
        },
        node.kind == EntryKind::Directory ==> {
            &&& WalkerView::initial(src, dest).after(replies.take(k)).pending() == Some(
                RequestView::OpenDir(src.descend(node.path)),
            )
            &&& replies[k] is Opened
        },
{
    let w = WalkerView::initial(src, dest);
    let k = lemma_reached_at(tree, src, dest, replies, node);
    lemma_completes_job(w.after(replies.take(k)), replies[k]);
    lemma_roots_kept(w, replies.take(k));
    k
}

/// And nothing else: a job that a traversal yields, when it is answered
/// truly by the source tree, is the job of a file or symbolic link of the
/// tree.
pub proof fn lemma_every_job_is_an_entry<E>(
    tree: SourceTree,
    src: PathView,
    dest: PathView,
    replies: Seq<ReplyView<E>>,
    k: int,
) -> (node: Node)
    requires
        all_faithful(tree, WalkerView::initial(src, dest), replies),
        0 <= k < replies.len(),
        WalkerView::initial(src, dest).step_at(replies, k) is Yield,
    ensures
        tree.has(node),
        node.kind == EntryKind::File || node.kind == EntryKind::Symlink,
        ({
            let job = WalkerView::initial(src, dest).step_at(replies, k)->Yield_0;
            &&& job.src == src.descend(node.path)
            &&& job.dest == dest.descend(node.path)
            &&& job.symlink == (node.kind == EntryKind::Symlink)
        }),
{
    let w = WalkerView::initial(src, dest);
    let before = w.after(replies.take(k));
    lemma_covers_at(tree, src, dest, replies, k);
    let node = completes(before, replies[k])->Some_0;
    lemma_step_sound(
        tree,
        before,
        open_after_all(w, replies.take(k)),
        seen_after_all(w, replies.take(k)),
        replies[k],
    );
    assert(seen_after(before, seen_after_all(w, replies.take(k)), replies[k]).contains(node));
    lemma_completes_job(before, replies[k]);
    lemma_roots_kept(w, replies.take(k));
    node
}

/// Mirroring of the directories: when a traversal that is answered truly by
/// the source tree, and told the truth about the destination, has come to
/// its end, there is a directory beneath the destination root for every
/// directory of the tree, along the same names.
pub proof fn lemma_every_directory_is_created<E>(
    tree: SourceTree,
    src: PathView,
    dest: PathView,
    replies: Seq<ReplyView<E>>,
    dirs: Set<PathView>,
    node: Node,
)
    requires
        all_faithful(tree, WalkerView::initial(src, dest), replies),
        all_truthful(WalkerView::initial(src, dest), replies, dirs),
        WalkerView::initial(src, dest).after(replies).stage is Finished,
        tree.has(node),
        node.kind == EntryKind::Directory,
    ensures
        dirs_after_all(WalkerView::initial(src, dest), replies, dirs).contains(
            dest.descend(node.path),
        ),
{
    let w = WalkerView::initial(src, dest);
    let k = lemma_reached_at(tree, src, dest, replies, node);
    let before = w.after(replies.take(k));
    lemma_grounded_at(src, dest, replies, dirs, k);
    lemma_roots_kept(w, replies.take(k));
    let top = before.stack.last();
    let name = node.path.last();
    assert(before.dest_entry(top, name) =~= dest.descend(node.path)) by {
        assert((dest.rel + top.rel).push(name) =~= dest.rel + top.rel.push(name));
    }
    lemma_dirs_grow(w, replies, dirs, k, dest.descend(node.path));
}

} // verus!
