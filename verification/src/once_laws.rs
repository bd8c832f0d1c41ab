//! No entry twice: in a source tree whose directories list no name twice, a
//! traversal comes to each entry once only, so that no two jobs share a
//! destination.

use crate::directory_traversal::{EntryKind, FrameView, ReplyView, StageView, WalkerView};
use crate::mirror_laws::{
    all_faithful, anchored, awaited, before_root, completes, faithful, found_name,
    lemma_completes_job, lemma_covers_at, lemma_step_sound, lemma_step_tracking, open_after,
    open_after_all, seen_after, seen_after_all, tracking, under, waits, Cursor, Listed,
    Node, SourceTree,
};
use crate::path::PathView;
use crate::traversal_laws::lemma_roots_kept;
use vstd::prelude::*;

verus! {

/// No directory of the tree lists a name twice.
pub open spec fn distinct_names(tree: SourceTree) -> bool {
    forall|dir: Seq<Seq<u8>>, i: int, j: int|
        #![trigger tree.lists(dir, i), tree.lists(dir, j)]
        tree.lists(dir, i) && tree.lists(dir, j) && tree.entries[dir][i].name
            == tree.entries[dir][j].name ==> i == j
}

/// Nothing that the walker is done with is still before it.
pub open spec fn apart(
    tree: SourceTree,
    w: WalkerView,
    open: Map<u64, Cursor>,
    seen: Set<Node>,
) -> bool {
    forall|node: Node| #[trigger] seen.contains(node) ==> !awaited(tree, w, open, node)
}

/// The directory of the frame `frame`, as an entry of the tree.
pub open spec fn frame_node(frame: FrameView) -> Node {
    Node { path: frame.rel, kind: EntryKind::Directory }
}

/// The walker is done with every directory that it has on its stack, and no
/// two frames of the stack stand for the same directory.
pub open spec fn settled(w: WalkerView, seen: Set<Node>) -> bool {
    &&& forall|i: int|
        0 <= i < w.stack.len() ==> (#[trigger] w.stack[i]).rel.len() == 0 || seen.contains(
            frame_node(w.stack[i]),
        )
    &&& forall|i: int, j: int|
        0 <= i < j < w.stack.len() ==> (#[trigger] w.stack[i]).rel != (#[trigger] w.stack[j]).rel
}

/// What is before the walker after a step was before it already.
proof fn lemma_route_back<E>(
    tree: SourceTree,
    w: WalkerView,
    open: Map<u64, Cursor>,
    reply: ReplyView<E>,
    node: Node,
)
    requires
        tracking(tree, w, open),
        faithful(tree, w, open, reply),
        !(w.next(reply).0.stage is Poisoned),
        awaited(tree, w.next(reply).0, open_after(w, open, reply), node),
    ensures
        awaited(tree, w, open, node),
{
    let w2 = w.next(reply).0;
    let open2 = open_after(w, open, reply);
    let n = w.stack.len() as int;
    if before_root(w.stage) {
        return ;
    }
    let top = w.stack.last();
    assert(n > 0 ==> top == w.stack[n - 1]);
    if n > 0 {
        assert(anchored(tree, top, open));
    }
    if found_name(w2.stage) is Some && w2.stack.len() > 0 && under(
        w2.stack.last().rel.push(found_name(w2.stage)->Some_0),
        node,
    ) {
        let name = found_name(w2.stage)->Some_0;
        if found_name(w.stage) is Some {
            assert(found_name(w.stage) == Some(name));
            assert(w2.stack == w.stack);
        } else {
            // the directory has just been read as an entry
            assert(w.stage is Reading);
            assert(w2.stack == w.stack);
            let at = open[top.handle].at;
            let dir = top.rel.push(name);
            assert(tree.lists(top.rel, at));
            assert(node.path.take(top.rel.len() as int) =~= top.rel) by {
                assert(node.path.take(dir.len() as int) == dir);
                assert forall|j: int| 0 <= j < top.rel.len() implies node.path.take(
                    top.rel.len() as int,
                )[j] == top.rel[j] by {
                    assert(node.path.take(dir.len() as int)[j] == dir[j]);
                }
            }
            assert(node.path[top.rel.len() as int] == name) by {
                assert(node.path.take(dir.len() as int)[top.rel.len() as int] == dir[top.rel.len() as int]);
            }
            assert(tree.passes(top.rel, at, node));
            assert(waits(tree, w, open, n - 1, at, node));
        }
        return ;
    }
    let (i, k) = choose|i: int, k: int| #[trigger] waits(tree, w2, open2, i, k, node);
    assert(waits(tree, w2, open2, i, k, node));
    match w.stage {
        StageView::Reading => {
            match reply {
                ReplyView::Exhausted => {
                    assert(w2.stack[i] == w.stack[i]);
                    assert(waits(tree, w, open, i, k, node));
                },
                ReplyView::Entry { name, kind } => {
                    assert(w2.stack == w.stack);
                    if i < n - 1 {
                        assert(w.stack[i].handle != w.stack[n - 1].handle);
                    }
                    assert(waits(tree, w, open, i, k, node));
                },
                _ => {},
            }
        },
        StageView::DirOpen { name, fresh } => {
            let handle = reply->Opened_0;
            if i < n - 1 {
                assert(w2.stack[i] == w.stack[i]);
                assert(anchored(tree, w.stack[i], open));
                assert(waits(tree, w, open, i, k, node));
            } else if i == n - 1 {
                assert(w2.stack[i].rel == top.rel.push(name));
                assert(under(top.rel.push(name), node));
            } else {
                assert(w2.stack[i] == top);
                assert(waits(tree, w, open, n - 1, k, node));
            }
        },
        _ => {
            assert(w2.stack == w.stack);
            assert(open2 == open);
            assert(waits(tree, w, open, i, k, node));
        },
    }
}

/// An entry of the directory on top of the stack is not before the walker
/// by way of another frame.
proof fn lemma_not_by_another_frame(
    tree: SourceTree,
    w: WalkerView,
    open: Map<u64, Cursor>,
    seen: Set<Node>,
    i: int,
    k: int,
    node: Node,
)
    requires
        tracking(tree, w, open),
        apart(tree, w, open, seen),
        settled(w, seen),
        0 <= i < w.stack.len() - 1,
        node.path.len() == w.stack.last().rel.len() + 1,
        node.path.drop_last() == w.stack.last().rel,
        open[w.stack[i].handle].at <= k,
    ensures
        !tree.passes(w.stack[i].rel, k, node),
{
    let n = w.stack.len() as int;
    let top = w.stack.last();
    let f = w.stack[i];
    assert(top == w.stack[n - 1]);
    if tree.passes(f.rel, k, node) {
        let m = f.rel.len() as int;
        assert(node.path.take(m) == f.rel);
        assert(top.rel.take(m) =~= f.rel) by {
            assert forall|j: int| 0 <= j < m implies top.rel.take(m)[j] == f.rel[j] by {
                assert(node.path.take(m)[j] == f.rel[j]);
                assert(node.path.drop_last()[j] == node.path[j]);
            }
        }
        if m == top.rel.len() {
            assert(top.rel.take(m) =~= top.rel);
            assert(w.stack[i].rel == w.stack[n - 1].rel);
        } else {
            let dir = frame_node(top);
            assert(seen.contains(frame_node(w.stack[n - 1])));
            assert(node.path.drop_last()[m] == node.path[m]);
            assert(tree.passes(f.rel, k, dir));
            assert(waits(tree, w, open, i, k, dir));
            assert(awaited(tree, w, open, dir));
        }
    }
}

/// The entry that a step is done with is not before the walker afterwards.
proof fn lemma_done_is_done<E>(
    tree: SourceTree,
    w: WalkerView,
    open: Map<u64, Cursor>,
    seen: Set<Node>,
    reply: ReplyView<E>,
)
    requires
        distinct_names(tree),
        tracking(tree, w, open),
        apart(tree, w, open, seen),
        settled(w, seen),
        faithful(tree, w, open, reply),
        completes(w, reply) is Some,
    ensures
        !awaited(tree, w.next(reply).0, open_after(w, open, reply), completes(w, reply)->Some_0),
{
    let w2 = w.next(reply).0;
    let open2 = open_after(w, open, reply);
    let node = completes(w, reply)->Some_0;
    let n = w.stack.len() as int;
    let top = w.stack.last();
    assert(top == w.stack[n - 1]);
    assert(anchored(tree, top, open));
    assert(node.path.drop_last() =~= top.rel);
    let name = node.path.last();
    if awaited(tree, w2, open2, node) {
        let (i, k) = choose|i: int, k: int| #[trigger] waits(tree, w2, open2, i, k, node);
        assert(waits(tree, w2, open2, i, k, node));
        match w.stage {
            StageView::Reading => {
                assert(w2.stack == w.stack);
                let at = open[top.handle].at;
                assert(tree.lists(top.rel, at));
                if i == n - 1 {
                    assert(tree.lists(top.rel, k));
                    assert(tree.entries[top.rel][k].name == name);
                    assert(k == at);
                } else {
                    assert(w.stack[i].handle != w.stack[n - 1].handle);
                    lemma_not_by_another_frame(tree, w, open, seen, i, k, node);
                }
            },
            StageView::DirOpen { name: found, fresh } => {
                let at = open[top.handle].at;
                assert(tree.lists(top.rel, at - 1));
                if i < n - 1 {
                    assert(w2.stack[i] == w.stack[i]);
                    assert(anchored(tree, w.stack[i], open));
                    lemma_not_by_another_frame(tree, w, open, seen, i, k, node);
                } else if i == n - 1 {
                    assert(w2.stack[i].rel == node.path);
                } else {
                    assert(w2.stack[i] == top);
                    assert(tree.lists(top.rel, k));
                    assert(tree.entries[top.rel][k].name == name);
                    assert(k == at - 1);
                }
            },
            _ => {},
        }
    }
}

/// The entry that a step is done with was before the walker until then.
proof fn lemma_done_was_awaited<E>(
    tree: SourceTree,
    w: WalkerView,
    open: Map<u64, Cursor>,
    reply: ReplyView<E>,
)
    requires
        tracking(tree, w, open),
        faithful(tree, w, open, reply),
        completes(w, reply) is Some,
    ensures
        awaited(tree, w, open, completes(w, reply)->Some_0),
{
    let node = completes(w, reply)->Some_0;
    let n = w.stack.len() as int;
    let top = w.stack.last();
    assert(top == w.stack[n - 1]);
    assert(anchored(tree, top, open));
    match w.stage {
        StageView::Reading => {
            let at = open[top.handle].at;
            assert(tree.lists(top.rel, at));
            assert(node.path.take(top.rel.len() as int) =~= top.rel);
            assert(tree.passes(top.rel, at, node));
            assert(waits(tree, w, open, n - 1, at, node));
        },
        StageView::DirOpen { name, fresh } => {
            assert(node.path.take(node.path.len() as int) =~= node.path);
            assert(under(top.rel.push(name), node));
        },
        _ => {},
    }
}

/// One step of a traversal of a tree without a name listed twice: what the
/// walker is done with stays apart from what is before it.
pub proof fn lemma_step_apart<E>(
    tree: SourceTree,
    w: WalkerView,
    open: Map<u64, Cursor>,
    seen: Set<Node>,
    reply: ReplyView<E>,
)
    requires
        distinct_names(tree),
        tracking(tree, w, open),
        apart(tree, w, open, seen),
        settled(w, seen),
        faithful(tree, w, open, reply),
        !(w.next(reply).0.stage is Poisoned),
    ensures
        apart(tree, w.next(reply).0, open_after(w, open, reply), seen_after(w, seen, reply)),
        settled(w.next(reply).0, seen_after(w, seen, reply)),
{
    let w2 = w.next(reply).0;
    let open2 = open_after(w, open, reply);
    let seen2 = seen_after(w, seen, reply);
    let n = w.stack.len() as int;
    assert forall|node: Node| #[trigger] seen2.contains(node) implies !awaited(
        tree,
        w2,
        open2,
        node,
    ) by {
        if seen.contains(node) {
            if awaited(tree, w2, open2, node) {
                lemma_route_back(tree, w, open, reply, node);
            }
        } else {
            lemma_done_is_done(tree, w, open, seen, reply);
        }
    }
    // the frames
    match w.stage {
        StageView::DirOpen { name, fresh } => {
            if reply is Opened {
                let top = w.stack.last();
                assert(top == w.stack[n - 1]);
                let node = completes(w, reply)->Some_0;
                lemma_done_was_awaited(tree, w, open, reply);
                assert(!seen.contains(node));
                assert forall|i: int| 0 <= i < w2.stack.len() implies (
                #[trigger] w2.stack[i]).rel.len() == 0 || seen2.contains(
                    frame_node(w2.stack[i]),
                ) by {
                    if i < n - 1 {
                        assert(w2.stack[i] == w.stack[i]);
                    } else if i == n - 1 {
                        assert(frame_node(w2.stack[i]) == node);
                    } else {
                        assert(w2.stack[i] == w.stack[n - 1]);
                    }
                }
                assert forall|i: int, j: int| 0 <= i < j < w2.stack.len() implies (
                #[trigger] w2.stack[i]).rel != (#[trigger] w2.stack[j]).rel by {
                    let a = if i < n - 1 {
                        i
                    } else {
                        n - 1
                    };
                    let b = if j < n - 1 {
                        j
                    } else {
                        n - 1
                    };
                    assert(w.stack[a].rel.len() == 0 || seen.contains(frame_node(w.stack[a])));
                    assert(w.stack[b].rel.len() == 0 || seen.contains(frame_node(w.stack[b])));
                    if i < n - 1 {
                        assert(w2.stack[i] == w.stack[i]);
                    } else if i == n - 1 {
                        assert(frame_node(w2.stack[i]) == node);
                    }
                    if j < n - 1 {
                        assert(w2.stack[j] == w.stack[j]);
                    } else if j == n - 1 {
                        assert(frame_node(w2.stack[j]) == node);
                    } else {
                        assert(w2.stack[j] == w.stack[n - 1]);
                    }
                    if i < n - 1 && j == n {
                        assert(w.stack[i].rel != w.stack[n - 1].rel);
                    }
                }
            } else {
                assert(w2.stack == w.stack);
            }
        },
        StageView::Reading => {
            if reply is Exhausted {
                assert forall|i: int| 0 <= i < w2.stack.len() implies (
                #[trigger] w2.stack[i]).rel.len() == 0 || seen2.contains(
                    frame_node(w2.stack[i]),
                ) by {
                    assert(w2.stack[i] == w.stack[i]);
                }
                assert forall|i: int, j: int| 0 <= i < j < w2.stack.len() implies (
                #[trigger] w2.stack[i]).rel != (#[trigger] w2.stack[j]).rel by {
                    assert(w2.stack[i] == w.stack[i]);
                    assert(w2.stack[j] == w.stack[j]);
                }
            } else {
                assert(w2.stack == w.stack);
            }
        },
        StageView::RootOpen { fresh } => {},
        _ => {
            assert(w2.stack == w.stack);
        },
    }
}

proof fn lemma_apart_at<E>(
    tree: SourceTree,
    src: PathView,
    dest: PathView,
    replies: Seq<ReplyView<E>>,
    k: int,
)
    requires
        distinct_names(tree),
        all_faithful(tree, WalkerView::initial(src, dest), replies),
        0 <= k <= replies.len(),
    ensures
        ({
            let w = WalkerView::initial(src, dest);
            w.after(replies.take(k)).stage is Poisoned || {
                &&& tracking(tree, w.after(replies.take(k)), open_after_all(w, replies.take(k)))
                &&& apart(
                    tree,
                    w.after(replies.take(k)),
                    open_after_all(w, replies.take(k)),
                    seen_after_all(w, replies.take(k)),
                )
                &&& settled(w.after(replies.take(k)), seen_after_all(w, replies.take(k)))
            }
        }),
    decreases k,
{
    let w = WalkerView::initial(src, dest);
    if k == 0 {
        assert(replies.take(0) =~= Seq::<ReplyView<E>>::empty());
    } else {
        lemma_apart_at(tree, src, dest, replies, k - 1);
        assert(replies.take(k).drop_last() =~= replies.take(k - 1));
        assert(replies.take(k).last() == replies[k - 1]);
        let before = w.after(replies.take(k - 1));
        if !(before.stage is Poisoned) && !(before.next(replies[k - 1]).0.stage is Poisoned) {
            lemma_step_tracking(tree, before, open_after_all(w, replies.take(k - 1)), replies[k - 1]);
            lemma_step_apart(
                tree,
                before,
                open_after_all(w, replies.take(k - 1)),
                seen_after_all(w, replies.take(k - 1)),
                replies[k - 1],
            );
        }
    }
}

/// What the walker is done with, it stays done with.
proof fn lemma_seen_grows<E>(w: WalkerView, replies: Seq<ReplyView<E>>, i: int, j: int, node: Node)
    requires
        0 <= i <= j <= replies.len(),
        seen_after_all(w, replies.take(i)).contains(node),
    ensures
        seen_after_all(w, replies.take(j)).contains(node),
    decreases j - i,
{
    if i < j {
        lemma_seen_grows(w, replies, i, j - 1, node);
        assert(replies.take(j).drop_last() =~= replies.take(j - 1));
    }
}

/// No entry twice: in a traversal that is answered truly by a source tree
/// whose directories list no name twice, the entries that two different
/// steps are done with are two different entries.
pub proof fn lemma_no_entry_twice<E>(
    tree: SourceTree,
    src: PathView,
    dest: PathView,
    replies: Seq<ReplyView<E>>,
    i: int,
    j: int,
)
    requires
        distinct_names(tree),
        all_faithful(tree, WalkerView::initial(src, dest), replies),
        0 <= i < j < replies.len(),
        completes(WalkerView::initial(src, dest).after(replies.take(i)), replies[i]) is Some,
        completes(WalkerView::initial(src, dest).after(replies.take(j)), replies[j]) is Some,
    ensures
        completes(WalkerView::initial(src, dest).after(replies.take(i)), replies[i]) != completes(
            WalkerView::initial(src, dest).after(replies.take(j)),
            replies[j],
        ),
{
    let w = WalkerView::initial(src, dest);
    let first = completes(w.after(replies.take(i)), replies[i])->Some_0;
    let second = completes(w.after(replies.take(j)), replies[j])->Some_0;
    if first == second {
        assert(replies.take(i + 1).drop_last() =~= replies.take(i));
        assert(replies.take(i + 1).last() == replies[i]);
        assert(seen_after_all(w, replies.take(i + 1)).contains(first));
        lemma_seen_grows(w, replies, i + 1, j, first);
        lemma_apart_at(tree, src, dest, replies, j);
        lemma_done_was_awaited(
            tree,
            w.after(replies.take(j)),
            open_after_all(w, replies.take(j)),
            replies[j],
        );
    }
}

/// Two entries of the tree with the same path are one entry.
proof fn lemma_path_names_entry(tree: SourceTree, a: Node, b: Node)
    requires
        distinct_names(tree),
        tree.has(a),
        tree.has(b),
        a.path == b.path,
    ensures
        a == b,
{
    let dir = a.path.drop_last();
    let name = a.path.last();
    let i = choose|k: int| #[trigger]
        tree.lists(dir, k) && tree.entries[dir][k] == (Listed { name, kind: a.kind });
    let j = choose|k: int| #[trigger]
        tree.lists(dir, k) && tree.entries[dir][k] == (Listed { name, kind: b.kind });
    assert(tree.lists(dir, i) && tree.lists(dir, j));
    assert(i == j);
}

/// Going down from a path through different names leads to different paths.
proof fn lemma_descend_differs(root: PathView, a: Seq<Seq<u8>>, b: Seq<Seq<u8>>)
    requires
        a != b,
    ensures
        root.descend(a) != root.descend(b),
{
    if root.descend(a) == root.descend(b) {
        let n = root.rel.len() as int;
        assert((root.rel + a).skip(n) =~= a);
        assert((root.rel + b).skip(n) =~= b);
    }
}

/// No two jobs share a destination, nor a source: in a traversal that is
/// answered truly by a source tree whose directories list no name twice, the
/// jobs yielded at two different steps are for different sources and for
/// different destinations.
pub proof fn lemma_no_job_twice<E>(
    tree: SourceTree,
    src: PathView,
    dest: PathView,
    replies: Seq<ReplyView<E>>,
    i: int,
    j: int,
)
    requires
        distinct_names(tree),
        all_faithful(tree, WalkerView::initial(src, dest), replies),
        0 <= i < j < replies.len(),
        WalkerView::initial(src, dest).step_at(replies, i) is Yield,
        WalkerView::initial(src, dest).step_at(replies, j) is Yield,
    ensures
        WalkerView::initial(src, dest).step_at(replies, i)->Yield_0.dest != WalkerView::initial(
            src,
            dest,
        ).step_at(replies, j)->Yield_0.dest,
        WalkerView::initial(src, dest).step_at(replies, i)->Yield_0.src != WalkerView::initial(
            src,
            dest,
        ).step_at(replies, j)->Yield_0.src,
{
    let w = WalkerView::initial(src, dest);
    let wi = w.after(replies.take(i));
    let wj = w.after(replies.take(j));
    let first = completes(wi, replies[i])->Some_0;
    let second = completes(wj, replies[j])->Some_0;
    lemma_no_entry_twice(tree, src, dest, replies, i, j);
    lemma_completes_job(wi, replies[i]);
    lemma_completes_job(wj, replies[j]);
    lemma_roots_kept(w, replies.take(i));
    lemma_roots_kept(w, replies.take(j));
    lemma_covers_at(tree, src, dest, replies, i);
    lemma_covers_at(tree, src, dest, replies, j);
    lemma_step_sound(
        tree,
        wi,
        open_after_all(w, replies.take(i)),
        seen_after_all(w, replies.take(i)),
        replies[i],
    );
    lemma_step_sound(
        tree,
        wj,
        open_after_all(w, replies.take(j)),
        seen_after_all(w, replies.take(j)),
        replies[j],
    );
    assert(seen_after(wi, seen_after_all(w, replies.take(i)), replies[i]).contains(first));
    assert(seen_after(wj, seen_after_all(w, replies.take(j)), replies[j]).contains(second));
    if first.path == second.path {
        lemma_path_names_entry(tree, first, second);
    }
    lemma_descend_differs(src, first.path, second.path);
    lemma_descend_differs(dest, first.path, second.path);
}

} // verus!
