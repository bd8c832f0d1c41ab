//! What holds of every pool: no job is lost, jobs are given out in the order
//! in which they came, and a closed pool lets its workers go once the queue
//! is empty.

use crate::thread_pool::{Assignment, PoolView};
use vstd::prelude::*;

verus! {

/// What can happen to a pool.
pub enum PoolOp<J> {
    /// A job is handed in.
    Submit(J),
    /// A worker asks for work.
    Ask,
    /// The pool is closed.
    Close,
}

/// The pool `pool` after `op`.
pub open spec fn apply<J>(pool: PoolView<J>, op: PoolOp<J>) -> PoolView<J> {
    match op {
        PoolOp::Submit(job) => pool.submit(job),
        PoolOp::Ask => pool.assign().0,
        PoolOp::Close => pool.close(),
    }
}

/// The pool `pool` after `ops`, in order.
pub open spec fn after<J>(pool: PoolView<J>, ops: Seq<PoolOp<J>>) -> PoolView<J>
    decreases ops.len(),
{
    if ops.len() == 0 {
        pool
    } else {
        apply(after(pool, ops.drop_last()), ops.last())
    }
}

/// The jobs that the pool took in during `ops`, in order.
pub open spec fn accepted<J>(pool: PoolView<J>, ops: Seq<PoolOp<J>>) -> Seq<J>
    decreases ops.len(),
{
    if ops.len() == 0 {
        Seq::empty()
    } else {
        let before = accepted(pool, ops.drop_last());
        match ops.last() {
            PoolOp::Submit(job) => if after(pool, ops.drop_last()).closed {
                before
            } else {
                before.push(job)
            },
            _ => before,
        }
    }
}

/// The jobs that the pool gave to workers during `ops`, in order.
pub open spec fn assigned<J>(pool: PoolView<J>, ops: Seq<PoolOp<J>>) -> Seq<J>
    decreases ops.len(),
{
    if ops.len() == 0 {
        Seq::empty()
    } else {
        let before = assigned(pool, ops.drop_last());
        match (ops.last(), after(pool, ops.drop_last()).assign().1) {
            (PoolOp::Ask, Assignment::Run(job)) => before.push(job),
            _ => before,
        }
    }
}

/// No job is lost, and none overtakes another: the jobs that waited in the
/// pool, followed by those taken in since, are the jobs given to workers
/// since, followed by those that wait now.
pub proof fn lemma_no_job_lost<J>(pool: PoolView<J>, ops: Seq<PoolOp<J>>)
    ensures
        pool.queue + accepted(pool, ops) == assigned(pool, ops) + after(pool, ops).queue,
    decreases ops.len(),
{
    if ops.len() == 0 {
        assert(pool.queue + Seq::<J>::empty() =~= Seq::<J>::empty() + pool.queue);
    } else {
        lemma_no_job_lost(pool, ops.drop_last());
        let before = after(pool, ops.drop_last());
        let was = assigned(pool, ops.drop_last());
        let came = accepted(pool, ops.drop_last());
        assert(pool.queue + came == was + before.queue);
        match ops.last() {
            PoolOp::Submit(job) => {
                if !before.closed {
                    assert(pool.queue + came.push(job) =~= (pool.queue + came).push(job));
                    assert(was + before.queue.push(job) =~= (was + before.queue).push(job));
                }
            },
            PoolOp::Ask => {
                if before.queue.len() > 0 {
                    assert(was.push(before.queue[0]) + before.queue.skip(1) =~= was
                        + before.queue);
                }
            },
            PoolOp::Close => {},
        }
    }
}

/// A worker is told to leave only when the work is done: at that moment
/// every job that was taken in has been given to a worker, and the pool is
/// closed.
pub proof fn lemma_exit_means_done<J>(pool: PoolView<J>, ops: Seq<PoolOp<J>>)
    requires
        after(pool, ops).assign().1 is Exit,
    ensures
        after(pool, ops).closed,
        after(pool, ops).queue.len() == 0,
        assigned(pool, ops) == pool.queue + accepted(pool, ops),
{
    lemma_no_job_lost(pool, ops);
    assert(assigned(pool, ops) + after(pool, ops).queue =~= assigned(pool, ops));
}

/// A closed pool stays closed and takes no job in.
pub proof fn lemma_closed_stays<J>(pool: PoolView<J>, ops: Seq<PoolOp<J>>)
    requires
        pool.closed,
    ensures
        after(pool, ops).closed,
        accepted(pool, ops) == Seq::<J>::empty(),
        after(pool, ops).workers == pool.workers,
    decreases ops.len(),
{
    if ops.len() > 0 {
        lemma_closed_stays(pool, ops.drop_last());
    }
}

/// Shutdown: a closed pool keeps no worker waiting. Whatever happens after
/// the pool was closed, a worker that asks is given one of the jobs that
/// waited when the pool was closed, or is told to leave; and the jobs given
/// out since, followed by those that still wait, are the jobs that waited
/// then. So each worker leaves after finitely many jobs, and none of the
/// jobs is dropped.
pub proof fn lemma_closed_pool_drains<J>(pool: PoolView<J>, ops: Seq<PoolOp<J>>)
    requires
        pool.closed,
    ensures
        !(after(pool, ops).assign().1 is Wait),
        pool.queue == assigned(pool, ops) + after(pool, ops).queue,
        after(pool, ops).queue.len() <= pool.queue.len(),
{
    lemma_closed_stays(pool, ops);
    lemma_no_job_lost(pool, ops);
    assert(pool.queue + Seq::<J>::empty() =~= pool.queue);
}

/// A pool that is open and has nothing to do keeps its workers waiting: no
/// worker leaves while a job may still come.
pub proof fn lemma_open_pool_waits<J>(pool: PoolView<J>)
    requires
        !pool.closed,
    ensures
        !(pool.assign().1 is Exit),
        pool.queue.len() == 0 ==> pool.assign() == (pool, Assignment::<J>::Wait),
{
}

} // verus!
