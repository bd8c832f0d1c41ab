//! The worker pool, as far as it decides: one queue of jobs that a fixed
//! number of workers take their work from, in the order in which it was
//! handed in.
//!
//! The pool holds no thread. The one who owns it puts it behind a lock,
//! starts the workers, and has each of them ask for its next job. A worker
//! that is told to wait sleeps until a job is handed in or the pool is
//! closed. Once the pool is closed, the workers finish what is queued and
//! are then told to leave.

use std::collections::VecDeque;
use vstd::prelude::*;

verus! {

/// What a worker that asks for work is told.
#[derive(Debug, PartialEq, Eq)]
pub enum Assignment<J> {
    /// Carry out this job, then ask again.
    Run(J),
    /// There is nothing to do for now. Ask again when woken.
    Wait,
    /// There is nothing to do and nothing will come. Leave.
    Exit,
}

/// The mathematical value of a [`ThreadPool`].
pub struct PoolView<J> {
    /// The number of workers.
    pub workers: usize,
    /// The jobs handed in and not yet given to a worker, oldest first.
    pub queue: Seq<J>,
    /// Whether the pool has been closed.
    pub closed: bool,
}

impl<J> PoolView<J> {
    /// A pool of `workers` workers with nothing to do.
    pub open spec fn fresh(workers: usize) -> PoolView<J> {
        PoolView { workers, queue: Seq::empty(), closed: false }
    }

    /// The pool after `job` was handed in. A closed pool takes no job.
    pub open spec fn submit(self, job: J) -> PoolView<J> {
        if self.closed {
            self
        } else {
            PoolView { queue: self.queue.push(job), ..self }
        }
    }

    /// The pool after a worker asked for work, and what the worker is told:
    /// the oldest job if there is one, else to leave if the pool is closed,
    /// else to wait.
    pub open spec fn assign(self) -> (PoolView<J>, Assignment<J>) {
        if self.queue.len() > 0 {
            (PoolView { queue: self.queue.skip(1), ..self }, Assignment::Run(self.queue[0]))
        } else if self.closed {
            (self, Assignment::Exit)
        } else {
            (self, Assignment::Wait)
        }
    }

    /// The pool after it was closed.
    pub open spec fn close(self) -> PoolView<J> {
        PoolView { closed: true, ..self }
    }
}

/// The queue of a pool of workers.
pub struct ThreadPool<J> {
    workers: usize,
    queue: VecDeque<J>,
    closed: bool,
}

impl<J> View for ThreadPool<J> {
    type V = PoolView<J>;

    closed spec fn view(&self) -> PoolView<J> {
        PoolView { workers: self.workers, queue: self.queue@, closed: self.closed }
    }
}

impl<J> ThreadPool<J> {
    /// A pool for `num_threads` workers. There must be a worker.
    pub fn new(num_threads: usize) -> (pool: Self)
        requires
            num_threads > 0,
        ensures
            pool@ == PoolView::<J>::fresh(num_threads),
    {
        ThreadPool { workers: num_threads, queue: VecDeque::new(), closed: false }
    }

    /// Hands in `job`, to be carried out by a worker after the jobs handed in
    /// before it. The pool must not have been closed.
    pub fn run(&mut self, job: J)
        requires
            !old(self)@.closed,
        ensures
            final(self)@ == old(self)@.submit(job),
            final(self)@.queue == old(self)@.queue.push(job),
    {
        self.queue.push_back(job);
    }

    /// Answers a worker that asks for work.
    pub fn assign(&mut self) -> (told: Assignment<J>)
        ensures
            (final(self)@, told) == old(self)@.assign(),
    {
        match self.queue.pop_front() {
            Some(job) => {
                assert(self.queue@ =~= old(self).queue@.skip(1));
                Assignment::Run(job)
            },
            None => if self.closed {
                Assignment::Exit
            } else {
                Assignment::Wait
            },
        }
    }

    /// Closes the pool: no job is taken any more, and the workers leave when
    /// the queue is empty.
    pub fn close(&mut self)
        ensures
            final(self)@ == old(self)@.close(),
    {
        self.closed = true;
    }

    /// The number of workers that the pool is for.
    pub fn workers(&self) -> (workers: usize)
        ensures
            workers == self@.workers,
    {
        self.workers
    }

    /// Whether the pool has been closed.
    pub fn is_closed(&self) -> (closed: bool)
        ensures
            closed == self@.closed,
    {
        self.closed
    }

    /// The number of jobs that wait for a worker.
    pub fn waiting(&self) -> (waiting: usize)
        ensures
            waiting == self@.queue.len(),
    {
        self.queue.len()
    }
}

} // verus!
