//! What holds of every traversal, proved of the walker's transition function.

use crate::directory_traversal::{
    FrameView, ReplyView, RequestView, StageView, StepView, WalkerView,
};
use crate::path::PathView;
use vstd::prelude::*;

verus! {

/// A traversal starts well-formed.
pub proof fn lemma_initial_wf(src: PathView, dest: PathView)
    ensures
        WalkerView::initial(src, dest).wf(),
{
}

/// Every step keeps the walker well-formed.
pub proof fn lemma_next_wf<E>(w: WalkerView, reply: ReplyView<E>)
    requires
        w.wf(),
    ensures
        w.next(reply).0.wf(),
{
}

/// Every state that a traversal reaches is well-formed.
pub proof fn lemma_reachable_wf<E>(src: PathView, dest: PathView, replies: Seq<ReplyView<E>>)
    ensures
        WalkerView::initial(src, dest).after(replies).wf(),
    decreases replies.len(),
{
    if replies.len() > 0 {
        lemma_reachable_wf(src, dest, replies.drop_last());
        lemma_next_wf(WalkerView::initial(src, dest).after(replies.drop_last()), replies.last());
    }
}

/// When the walker asks for an operation, that operation is what it then
/// waits for.
pub proof fn lemma_asked_is_pending<E>(w: WalkerView, reply: ReplyView<E>)
    requires
        w.wf(),
    ensures
        w.next(reply).1 matches StepView::Ask(request) ==> w.next(reply).0.pending() == Some(
            request,
        ),
{
    let after = w.next(reply).0;
    if w.next(reply).1 is Ask {
        match w.stage {
            StageView::DirOpen { name, fresh } => {
                if reply is Opened {
                    assert(after.stack.last() == w.stack.last());
                }
            },
            _ => {},
        }
    }
}

/// The state after the first `k + 1` replies is the state after the first `k`,
/// advanced by the reply at position `k`.
pub proof fn lemma_after_take<E>(w: WalkerView, replies: Seq<ReplyView<E>>, k: int)
    requires
        0 <= k < replies.len(),
    ensures
        w.after(replies.take(k + 1)) == w.after(replies.take(k)).next(replies[k]).0,
{
    assert(replies.take(k + 1).drop_last() =~= replies.take(k));
}

/// Once stopped at position `i`, the walker is in the same state at every
/// later position.
proof fn lemma_stopped_from<E>(w: WalkerView, replies: Seq<ReplyView<E>>, i: int, j: int)
    requires
        0 <= i <= j <= replies.len(),
        w.after(replies.take(i)).stage is Poisoned || w.after(replies.take(i)).stage is Finished,
    ensures
        w.after(replies.take(j)) == w.after(replies.take(i)),
    decreases j - i,
{
    if i < j {
        lemma_stopped_from(w, replies, i, j - 1);
        lemma_after_take(w, replies, j - 1);
    }
}

/// Poison on error: after the walker has reported an error, it yields
/// nothing more. Whatever the driver hands it from then on, and however many
/// directories are still open, every later step is [`StepView::Done`].
pub proof fn lemma_poison_on_error<E>(
    w: WalkerView,
    replies: Seq<ReplyView<E>>,
    i: int,
    j: int,
)
    requires
        0 <= i < j < replies.len(),
        w.step_at(replies, i) is Failed,
    ensures
        w.step_at(replies, j) == StepView::<E>::Done,
        w.after(replies.take(j)).stage is Poisoned,
{
    lemma_after_take(w, replies, i);
    lemma_stopped_from(w, replies, i + 1, j);
}

/// Exhaustion is final as well: after [`StepView::Done`] every later step is
/// [`StepView::Done`].
pub proof fn lemma_done_is_final<E>(w: WalkerView, replies: Seq<ReplyView<E>>, i: int, j: int)
    requires
        0 <= i < j < replies.len(),
        w.step_at(replies, i) is Done,
    ensures
        w.step_at(replies, j) == StepView::<E>::Done,
{
    lemma_after_take(w, replies, i);
    lemma_stopped_from(w, replies, i + 1, j);
}

/// The destination after the operation `request` was answered by `reply`, as
/// far as the walker changes it: the set of directories that exist there.
pub open spec fn dirs_after<E>(
    request: Option<RequestView>,
    reply: ReplyView<E>,
    dirs: Set<PathView>,
) -> Set<PathView> {
    match (request, reply) {
        (Some(RequestView::CreateDir(path)), ReplyView::Created) => dirs.insert(path),
        _ => dirs,
    }
}

/// The reply `reply` to `request` tells the truth about the directories
/// `dirs` of the destination: what it confirms to exist is one of them.
pub open spec fn truthful<E>(
    request: Option<RequestView>,
    reply: ReplyView<E>,
    dirs: Set<PathView>,
) -> bool {
    match (request, reply) {
        (Some(RequestView::Exists(path)), ReplyView::Exists(true)) => dirs.contains(path),
        _ => true,
    }
}

/// The destination directory of every directory that the walker has opened,
/// or is about to open, is among `dirs`, and so is the destination root once
/// the walker is past creating it.
pub open spec fn grounded(w: WalkerView, dirs: Set<PathView>) -> bool {
    &&& forall|i: int|
        0 <= i < w.stack.len() ==> dirs.contains(w.dest.descend((#[trigger] w.stack[i]).rel))
    &&& (w.stage is RootOpen || w.stage is Reading || w.stage is Paused || w.stage is DirExists
        || w.stage is DirCreate || w.stage is DirOpen || w.stage is Finished) ==> dirs.contains(
        w.dest,
    )
    &&& w.stage matches StageView::DirOpen { name, .. } ==> dirs.contains(
        w.dest_entry(w.stack.last(), name),
    )
}

/// One step of the traversal invariant: if the destination directory of every
/// open directory exists and the reply is truthful, the same holds after the
/// step, and a job that the step yields lies directly inside a directory
/// that exists.
pub proof fn lemma_step_grounded<E>(w: WalkerView, reply: ReplyView<E>, dirs: Set<PathView>)
    requires
        w.wf(),
        grounded(w, dirs),
        truthful(w.pending(), reply, dirs),
    ensures
        grounded(w.next(reply).0, dirs_after(w.pending(), reply, dirs)),
        w.next(reply).1 matches StepView::Yield(job) ==> job.dest.rel.len() > 0 && dirs.contains(
            job.dest.parent(),
        ),
{
    let next = w.next(reply).0;
    let dirs2 = dirs_after(w.pending(), reply, dirs);
    assert forall|p: PathView| dirs.contains(p) implies dirs2.contains(p) by {}
    match w.stage {
        StageView::RootOpen { fresh } => {
            if reply is Opened {
                assert(w.dest.descend(next.stack[0].rel) =~= w.dest) by {
                    assert(w.dest.rel + Seq::<Seq<u8>>::empty() =~= w.dest.rel);
                }
            }
        },
        StageView::Reading => {
            let top = w.stack.last();
            match reply {
                ReplyView::Entry { name, kind } => {
                    if w.next(reply).1 is Yield {
                        let job = w.next(reply).1->Yield_0;
                        assert(job.dest.parent() =~= w.dest.descend(top.rel)) by {
                            assert(job.dest.rel.drop_last() =~= w.dest.rel + top.rel);
                        }
                        assert(top == w.stack[w.stack.len() - 1]);
                    }
                },
                _ => {},
            }
        },
        StageView::DirOpen { name, fresh } => {
            let top = w.stack.last();
            match reply {
                ReplyView::Opened(handle) => {
                    let found = FrameView { rel: top.rel.push(name), handle, fresh };
                    assert(w.dest.descend(found.rel) =~= w.dest_entry(top, name)) by {
                        assert(w.dest.rel + top.rel.push(name) =~= (w.dest.rel + top.rel).push(
                            name,
                        ));
                    }
                    assert forall|i: int| 0 <= i < next.stack.len() implies dirs2.contains(
                        next.dest.descend((#[trigger] next.stack[i]).rel),
                    ) by {
                        if i < w.stack.len() - 1 {
                            assert(next.stack[i] == w.stack[i]);
                        } else if i == w.stack.len() - 1 {
                            assert(next.stack[i] == found);
                        } else {
                            assert(next.stack[i] == w.stack[w.stack.len() - 1]);
                        }
                    }
                },
                _ => {},
            }
        },
        _ => {},
    }
}

/// The directories of the destination after the replies `replies`, handed in
/// order to the walker `w`, when `dirs` existed before the first of them.
pub open spec fn dirs_after_all<E>(
    w: WalkerView,
    replies: Seq<ReplyView<E>>,
    dirs: Set<PathView>,
) -> Set<PathView>
    decreases replies.len(),
{
    if replies.len() == 0 {
        dirs
    } else {
        dirs_after(
            w.after(replies.drop_last()).pending(),
            replies.last(),
            dirs_after_all(w, replies.drop_last(), dirs),
        )
    }
}

/// Every reply of `replies` tells the truth about the destination as it is
/// when the reply is given.
pub open spec fn all_truthful<E>(
    w: WalkerView,
    replies: Seq<ReplyView<E>>,
    dirs: Set<PathView>,
) -> bool {
    forall|k: int|
        0 <= k < replies.len() ==> truthful(
            w.after(replies.take(k)).pending(),
            #[trigger] replies[k],
            dirs_after_all(w, replies.take(k), dirs),
        )
}

/// What exists at the destination stays: the walker removes nothing.
pub proof fn lemma_dirs_grow<E>(
    w: WalkerView,
    replies: Seq<ReplyView<E>>,
    dirs: Set<PathView>,
    k: int,
    path: PathView,
)
    requires
        0 <= k <= replies.len(),
        dirs_after_all(w, replies.take(k), dirs).contains(path),
    ensures
        dirs_after_all(w, replies, dirs).contains(path),
    decreases replies.len() - k,
{
    if k < replies.len() {
        assert(replies.take(k + 1).drop_last() =~= replies.take(k));
        lemma_dirs_grow(w, replies, dirs, k + 1, path);
    } else {
        assert(replies.take(k) =~= replies);
    }
}

/// In a traversal that is told the truth about the destination, the
/// destination directory of every open directory exists at every moment.
pub proof fn lemma_grounded_at<E>(
    src: PathView,
    dest: PathView,
    replies: Seq<ReplyView<E>>,
    dirs: Set<PathView>,
    k: int,
)
    requires
        all_truthful(WalkerView::initial(src, dest), replies, dirs),
        0 <= k <= replies.len(),
    ensures
        grounded(
            WalkerView::initial(src, dest).after(replies.take(k)),
            dirs_after_all(WalkerView::initial(src, dest), replies.take(k), dirs),
        ),
    decreases k,
{
    let w = WalkerView::initial(src, dest);
    if k > 0 {
        lemma_grounded_at(src, dest, replies, dirs, k - 1);
        lemma_reachable_wf(src, dest, replies.take(k - 1));
        assert(replies.take(k).drop_last() =~= replies.take(k - 1));
        assert(replies.take(k).last() == replies[k - 1]);
        lemma_step_grounded(
            w.after(replies.take(k - 1)),
            replies[k - 1],
            dirs_after_all(w, replies.take(k - 1), dirs),
        );
    }
}

/// The traversal invariant: whenever a traversal yields a job, the directory
/// that is to hold the job's destination exists at that moment.
///
/// The traversal runs from its start through any replies. Of the replies it
/// is asked only that one which confirms a destination path to exist does so
/// of a directory that exists then; `dirs` are the directories that exist
/// before the traversal, and each directory whose creation is confirmed
/// exists from then on.
pub proof fn lemma_traversal_invariant<E>(
    src: PathView,
    dest: PathView,
    replies: Seq<ReplyView<E>>,
    dirs: Set<PathView>,
    k: int,
)
    requires
        all_truthful(WalkerView::initial(src, dest), replies, dirs),
        0 <= k < replies.len(),
        WalkerView::initial(src, dest).step_at(replies, k) is Yield,
    ensures
        ({
            let job = WalkerView::initial(src, dest).step_at(replies, k)->Yield_0;
            &&& job.dest.rel.len() > 0
            &&& dirs_after_all(WalkerView::initial(src, dest), replies.take(k), dirs).contains(
                job.dest.parent(),
            )
        }),
{
    let w = WalkerView::initial(src, dest);
    lemma_grounded_at(src, dest, replies, dirs, k);
    lemma_reachable_wf(src, dest, replies.take(k));
    lemma_step_grounded(w.after(replies.take(k)), replies[k], dirs_after_all(w, replies.take(k), dirs));
}

/// The step from the state `w` on `reply` takes in the directory `child`,
/// which was found in the directory `parent`.
pub open spec fn takes_in<E>(
    w: WalkerView,
    reply: ReplyView<E>,
    parent: FrameView,
    child: FrameView,
) -> bool {
    &&& w.wf()
    &&& w.stage is DirOpen
    &&& reply is Opened
    &&& parent == w.stack.last()
    &&& child == w.next(reply).0.stack[w.stack.len() - 1]
}

/// Some step of some traversal takes in `child` as a sub-directory found in
/// `parent`.
pub open spec fn entered_from<E>(parent: FrameView, child: FrameView) -> bool {
    exists|w: WalkerView, reply: ReplyView<E>| takes_in(w, reply, parent, child)
}

/// Each directory of `chain` but the first was found in the one before it.
pub open spec fn is_descent<E>(chain: Seq<FrameView>) -> bool {
    forall|i: int|
        0 <= i < chain.len() - 1 ==> #[trigger] entered_from::<E>(chain[i], chain[i + 1])
}

/// A directory found in a fresh directory is fresh, and lies directly inside
/// it.
pub proof fn lemma_fresh_inherited<E>(parent: FrameView, child: FrameView)
    requires
        entered_from::<E>(parent, child),
    ensures
        parent.fresh ==> child.fresh,
        child.rel.len() == parent.rel.len() + 1,
        child.rel.drop_last() == parent.rel,
{
    let (w, reply) = choose|w: WalkerView, reply: ReplyView<E>| takes_in(w, reply, parent, child);
    assert(takes_in(w, reply, parent, child));
    assert(child.rel.drop_last() =~= parent.rel);
}

/// Freshness reaches all the way down a descent.
pub proof fn lemma_fresh_descent<E>(chain: Seq<FrameView>)
    requires
        chain.len() > 0,
        is_descent::<E>(chain),
        chain[0].fresh,
    ensures
        chain.last().fresh,
    decreases chain.len(),
{
    if chain.len() > 1 {
        let shorter = chain.drop_last();
        assert forall|i: int| 0 <= i < shorter.len() - 1 implies #[trigger] entered_from::<E>(
            shorter[i],
            shorter[i + 1],
        ) by {
            assert(entered_from::<E>(chain[i], chain[i + 1]));
        }
        lemma_fresh_descent::<E>(shorter);
        assert(entered_from::<E>(chain[chain.len() - 2], chain[chain.len() - 2 + 1]));
        lemma_fresh_inherited::<E>(chain[chain.len() - 2], chain.last());
    }
}

/// Fresh propagation: once a directory is marked fresh, every job that is
/// yielded beneath it has `may_exist == false`.
///
/// `chain` leads from the fresh directory down to the directory that the job
/// is yielded from, each directory found in the one before it; the job is
/// what the walker `w`, reading the last directory of the chain, yields on
/// `reply`. A chain of one directory is the case of a job yielded from the
/// fresh directory itself.
pub proof fn lemma_fresh_propagation<E>(
    chain: Seq<FrameView>,
    w: WalkerView,
    reply: ReplyView<E>,
)
    requires
        chain.len() > 0,
        is_descent::<E>(chain),
        chain[0].fresh,
        w.wf(),
        w.stack.len() > 0,
        w.stack.last() == chain.last(),
        w.next(reply).1 is Yield,
    ensures
        !w.next(reply).1->Yield_0.may_exist,
{
    lemma_fresh_descent::<E>(chain);
}

/// The flag of a job says whether the directory it was found in is fresh.
pub proof fn lemma_flag_is_freshness<E>(w: WalkerView, reply: ReplyView<E>)
    requires
        w.next(reply).1 is Yield,
    ensures
        w.stack.len() > 0,
        w.next(reply).1->Yield_0.may_exist == !w.stack.last().fresh,
{
}

/// Where the directories on the stack come from: each one that is there after
/// a step was there before it, flag and all, or was found by this step in
/// the directory being read, or is the root.
pub proof fn lemma_frame_origin<E>(w: WalkerView, reply: ReplyView<E>, frame: FrameView)
    requires
        w.wf(),
        w.next(reply).0.stack.contains(frame),
    ensures
        w.stack.contains(frame) || takes_in(w, reply, w.stack.last(), frame) || (w.stage is RootOpen
            && frame.rel.len() == 0),
{
    let next = w.next(reply).0;
    let i = choose|i: int| 0 <= i < next.stack.len() && next.stack[i] == frame;
    if w.stage is RootOpen {
    } else if w.stage is DirOpen && reply is Opened {
        if i < w.stack.len() - 1 {
            assert(w.stack[i] == frame);
        } else if i == w.stack.len() - 1 {
        } else {
            assert(w.stack[w.stack.len() - 1] == frame);
        }
    } else {
        assert(w.stack[i] == frame);
    }
}

/// What a fresh flag stands for. `stale` is what stood at the destination
/// before the traversal; with a path it holds the directory the path lies in.
/// Then no directory marked fresh, and nothing that is about to be created,
/// is among it.
pub open spec fn unspoiled(w: WalkerView, stale: Set<PathView>) -> bool {
    &&& forall|i: int|
        0 <= i < w.stack.len() && (#[trigger] w.stack[i]).fresh ==> !stale.contains(
            w.dest.descend(w.stack[i].rel),
        )
    &&& w.stage is RootCreate ==> !stale.contains(w.dest)
    &&& w.stage matches StageView::RootOpen { fresh } ==> fresh ==> !stale.contains(w.dest)
    &&& w.stage matches StageView::DirCreate { name } ==> !stale.contains(
        w.dest_entry(w.stack.last(), name),
    )
    &&& w.stage matches StageView::DirOpen { name, fresh } ==> fresh ==> !stale.contains(
        w.dest_entry(w.stack.last(), name),
    )
}

/// `stale` holds, with each path, the directory that the path lies in.
pub open spec fn closed_upwards(stale: Set<PathView>) -> bool {
    forall|dir: PathView, name: Seq<u8>| #[trigger]
        stale.contains(dir.child(name)) ==> stale.contains(dir)
}

/// A reply that denies that a path exists is right about `stale`.
pub open spec fn denies_truly<E>(
    request: Option<RequestView>,
    reply: ReplyView<E>,
    stale: Set<PathView>,
) -> bool {
    match (request, reply) {
        (Some(RequestView::Exists(path)), ReplyView::Exists(false)) => !stale.contains(path),
        _ => true,
    }
}

/// What `may_exist == false` promises: the destination of such a job is not
/// among what stood at the destination before the traversal. One step keeps
/// [`unspoiled`], and the job it yields, if flagged so, has a destination
/// outside `stale`.
pub proof fn lemma_step_unspoiled<E>(w: WalkerView, reply: ReplyView<E>, stale: Set<PathView>)
    requires
        w.wf(),
        closed_upwards(stale),
        unspoiled(w, stale),
        denies_truly(w.pending(), reply, stale),
    ensures
        unspoiled(w.next(reply).0, stale),
        w.next(reply).1 matches StepView::Yield(job) ==> !job.may_exist ==> !stale.contains(
            job.dest,
        ),
{
    let next = w.next(reply).0;
    match w.stage {
        StageView::RootOpen { fresh } => {
            if reply is Opened {
                assert(w.dest.descend(next.stack[0].rel) =~= w.dest) by {
                    assert(w.dest.rel + Seq::<Seq<u8>>::empty() =~= w.dest.rel);
                }
            }
        },
        StageView::Reading => {
            let top = w.stack.last();
            assert(top == w.stack[w.stack.len() - 1]);
            match reply {
                ReplyView::Entry { name, kind } => {
                    if top.fresh {
                        assert(!stale.contains(w.dest.descend(top.rel)));
                        assert(w.dest_entry(top, name) == w.dest.descend(top.rel).child(name));
                        assert(!stale.contains(w.dest.descend(top.rel).child(name)));
                    }
                },
                ReplyView::Exhausted => {
                    assert forall|i: int|
                        0 <= i < next.stack.len() && (#[trigger] next.stack[i]).fresh implies !stale.contains(
                        next.dest.descend(next.stack[i].rel),
                    ) by {
                        assert(next.stack[i] == w.stack[i]);
                    }
                },
                _ => {},
            }
        },
        StageView::DirOpen { name, fresh } => {
            let top = w.stack.last();
            match reply {
                ReplyView::Opened(handle) => {
                    let found = FrameView { rel: top.rel.push(name), handle, fresh };
                    assert(w.dest.descend(found.rel) =~= w.dest_entry(top, name)) by {
                        assert(w.dest.rel + top.rel.push(name) =~= (w.dest.rel + top.rel).push(
                            name,
                        ));
                    }
                    assert forall|i: int|
                        0 <= i < next.stack.len() && (#[trigger] next.stack[i]).fresh implies !stale.contains(
                        next.dest.descend(next.stack[i].rel),
                    ) by {
                        if i < w.stack.len() - 1 {
                            assert(next.stack[i] == w.stack[i]);
                        } else if i == w.stack.len() - 1 {
                            assert(next.stack[i] == found);
                        } else {
                            assert(next.stack[i] == w.stack[w.stack.len() - 1]);
                        }
                    }
                },
                _ => {},
            }
        },
        _ => {
            assert forall|i: int|
                0 <= i < next.stack.len() && (#[trigger] next.stack[i]).fresh implies !stale.contains(
                next.dest.descend(next.stack[i].rel),
            ) by {
                if w.stack.len() > 0 && next.stack.len() == w.stack.len() - 1 {
                    assert(next.stack[i] == w.stack[i]);
                } else if next.stack.len() == w.stack.len() {
                    assert(next.stack[i] == w.stack[i]);
                }
            }
        },
    }
}

/// Every reply of `replies` that denies that a path exists is right about
/// `stale`.
pub open spec fn all_denials_true<E>(
    w: WalkerView,
    replies: Seq<ReplyView<E>>,
    stale: Set<PathView>,
) -> bool {
    forall|k: int|
        0 <= k < replies.len() ==> denies_truly(
            w.after(replies.take(k)).pending(),
            #[trigger] replies[k],
            stale,
        )
}

proof fn lemma_unspoiled_at<E>(
    src: PathView,
    dest: PathView,
    replies: Seq<ReplyView<E>>,
    stale: Set<PathView>,
    k: int,
)
    requires
        closed_upwards(stale),
        all_denials_true(WalkerView::initial(src, dest), replies, stale),
        0 <= k <= replies.len(),
    ensures
        unspoiled(WalkerView::initial(src, dest).after(replies.take(k)), stale),
    decreases k,
{
    let w = WalkerView::initial(src, dest);
    if k > 0 {
        lemma_unspoiled_at(src, dest, replies, stale, k - 1);
        lemma_reachable_wf(src, dest, replies.take(k - 1));
        lemma_after_take(w, replies, k - 1);
        lemma_step_unspoiled(w.after(replies.take(k - 1)), replies[k - 1], stale);
    } else {
        assert(replies.take(0) =~= Seq::<ReplyView<E>>::empty());
    }
}

/// A job flagged `may_exist == false` is for a destination at which nothing
/// stood before the traversal.
///
/// `stale` is what stood at the destination before the traversal; with a
/// path it holds the directory that the path lies in. Of the replies it is
/// asked only that one which denies that a path exists is right about
/// `stale`.
pub proof fn lemma_fresh_job_is_new<E>(
    src: PathView,
    dest: PathView,
    replies: Seq<ReplyView<E>>,
    stale: Set<PathView>,
    k: int,
)
    requires
        closed_upwards(stale),
        all_denials_true(WalkerView::initial(src, dest), replies, stale),
        0 <= k < replies.len(),
        WalkerView::initial(src, dest).step_at(replies, k) is Yield,
        !WalkerView::initial(src, dest).step_at(replies, k)->Yield_0.may_exist,
    ensures
        !stale.contains(WalkerView::initial(src, dest).step_at(replies, k)->Yield_0.dest),
{
    let w = WalkerView::initial(src, dest);
    lemma_unspoiled_at(src, dest, replies, stale, k);
    lemma_reachable_wf(src, dest, replies.take(k));
    lemma_step_unspoiled(w.after(replies.take(k)), replies[k], stale);
}

/// A job mirrors its source: its destination lies beneath the destination
/// root along the same names along which its source lies beneath the source
/// root.
pub proof fn lemma_job_mirrors_source<E>(w: WalkerView, reply: ReplyView<E>)
    requires
        w.next(reply).1 is Yield,
    ensures
        ({
            let job = w.next(reply).1->Yield_0;
            &&& job.src.is_within(w.src)
            &&& job.dest.is_within(w.dest)
            &&& job.src.rel.skip(w.src.rel.len() as int) == job.dest.rel.skip(
                w.dest.rel.len() as int,
            )
            &&& job.src.rel.len() > w.src.rel.len()
        }),
{
    let job = w.next(reply).1->Yield_0;
    let top = w.stack.last();
    let name = reply->Entry_name;
    let tail = top.rel.push(name);
    assert(job.src.rel =~= w.src.rel + tail);
    assert(job.dest.rel =~= w.dest.rel + tail);
    assert(job.src.rel.subrange(0, w.src.rel.len() as int) =~= w.src.rel);
    assert(job.dest.rel.subrange(0, w.dest.rel.len() as int) =~= w.dest.rel);
    assert(job.src.rel.skip(w.src.rel.len() as int) =~= tail);
    assert(job.dest.rel.skip(w.dest.rel.len() as int) =~= tail);
}

/// A directory is created at the destination along the same names along
/// which it is then opened at the source.
pub proof fn lemma_directory_mirrors_source<E>(w: WalkerView, reply: ReplyView<E>)
    requires
        w.wf(),
        w.pending() matches Some(RequestView::CreateDir(_)),
        reply is Created,
    ensures
        ({
            let made = w.pending()->Some_0->CreateDir_0;
            &&& w.next(reply).1 matches StepView::Ask(RequestView::OpenDir(opened))
            &&& made.is_within(w.dest)
            &&& opened.is_within(w.src)
            &&& made.rel.skip(w.dest.rel.len() as int) == opened.rel.skip(w.src.rel.len() as int)
        }),
{
    let made = w.pending()->Some_0->CreateDir_0;
    let opened = w.next(reply).1->Ask_0->OpenDir_0;
    match w.stage {
        StageView::RootCreate => {
            assert(made.rel.subrange(0, w.dest.rel.len() as int) =~= w.dest.rel);
            assert(opened.rel.subrange(0, w.src.rel.len() as int) =~= w.src.rel);
            assert(made.rel.skip(w.dest.rel.len() as int) =~= Seq::<Seq<u8>>::empty());
            assert(opened.rel.skip(w.src.rel.len() as int) =~= Seq::<Seq<u8>>::empty());
        },
        StageView::DirCreate { name } => {
            let tail = w.stack.last().rel.push(name);
            assert(made.rel =~= w.dest.rel + tail);
            assert(opened.rel =~= w.src.rel + tail);
            assert(made.rel.subrange(0, w.dest.rel.len() as int) =~= w.dest.rel);
            assert(opened.rel.subrange(0, w.src.rel.len() as int) =~= w.src.rel);
            assert(made.rel.skip(w.dest.rel.len() as int) =~= tail);
            assert(opened.rel.skip(w.src.rel.len() as int) =~= tail);
        },
        _ => {},
    }
}

/// When a traversal that is told the truth about the destination has come to
/// its end, the destination root exists.
pub proof fn lemma_destination_root_exists<E>(
    src: PathView,
    dest: PathView,
    replies: Seq<ReplyView<E>>,
    dirs: Set<PathView>,
)
    requires
        all_truthful(WalkerView::initial(src, dest), replies, dirs),
        WalkerView::initial(src, dest).after(replies).stage is Finished,
    ensures
        dirs_after_all(WalkerView::initial(src, dest), replies, dirs).contains(dest),
{
    let w = WalkerView::initial(src, dest);
    lemma_grounded_at(src, dest, replies, dirs, replies.len() as int);
    assert(replies.take(replies.len() as int) =~= replies);
    lemma_roots_kept(w, replies);
}

/// The roots of a traversal stay what they are.
pub proof fn lemma_roots_kept<E>(w: WalkerView, replies: Seq<ReplyView<E>>)
    ensures
        w.after(replies).src == w.src,
        w.after(replies).dest == w.dest,
    decreases replies.len(),
{
    if replies.len() > 0 {
        lemma_roots_kept(w, replies.drop_last());
    }
}

} // verus!
