//! The execution pool: a `threadpool::ThreadPool` and a record of every job handed to it.

use std::sync::Arc;
use threadpool::ThreadPool;
use vstd::prelude::*;

verus! {

#[verifier::external_type_specification]
#[verifier::external_body]
pub struct ExThreadPool(ThreadPool);

/// The number of worker threads a thread pool was started with.
pub uninterp spec fn pool_threads(p: ThreadPool) -> nat;

/// Relies on `threadpool::ThreadPool::new`: it starts a pool of `n` worker threads, and
/// panics only when `n` is zero.
#[verifier::external_body]
fn thread_pool_new(n: usize) -> (p: ThreadPool)
    requires
        n >= 1,
    ensures
        pool_threads(p) == n,
{
    ThreadPool::new(n)
}

/// One job: the call of `process` with shared handles to the index and store clients,
/// the payload, and the identifier of one dequeued descriptor.
pub(crate) struct Job<I, S, F> {
    pub(crate) index_conn: Arc<I>,
    pub(crate) store_conn: Arc<S>,
    pub(crate) payload: String,
    pub(crate) id: String,
    pub(crate) process: Arc<F>,
}

impl<I, S, F: Fn(Arc<I>, Arc<S>, String, String)> Job<I, S, F> {
    pub(crate) open spec fn runnable(&self) -> bool {
        forall|a: Arc<I>, b: Arc<S>, c: String, d: String| (*self.process).requires((a, b, c, d))
    }

    /// Runs the job: one call of `process` on what the job holds. What the call returns
    /// is of no concern to the pool.
    fn run(self)
        requires
            self.runnable(),
    {
        (*self.process)(self.index_conn, self.store_conn, self.payload, self.id);
    }
}

/// A fixed-size thread pool, with the identifier and payload of each job handed to it,
/// in the order they were handed over.
pub struct ExecutionPool {
    pool: ThreadPool,
    jobs: Ghost<Seq<(Seq<char>, Seq<char>)>>,
}

impl ExecutionPool {
    /// The number of worker threads.
    pub closed spec fn threads(&self) -> nat {
        pool_threads(self.pool)
    }

    /// The `(identifier, payload)` of every job handed over so far, in that order.
    pub closed spec fn jobs(&self) -> Seq<(Seq<char>, Seq<char>)> {
        self.jobs@
    }

    /// A pool of `n` worker threads that has run nothing yet.
    pub(crate) fn new(n: usize) -> (p: Self)
        requires
            n >= 1,
        ensures
            p.threads() == n,
            p.jobs() == Seq::<(Seq<char>, Seq<char>)>::empty(),
    {
        ExecutionPool { pool: thread_pool_new(n), jobs: Ghost(Seq::empty()) }
    }

    /// Relies on `threadpool::ThreadPool::execute`: it queues the job for the pool's
    /// workers, which run it once, and returns without waiting for it.
    #[verifier::external_body]
    pub(crate) fn execute<I, S, F>(&mut self, job: Job<I, S, F>)
        where
            I: Send + Sync + 'static,
            S: Send + Sync + 'static,
            F: Fn(Arc<I>, Arc<S>, String, String) + Send + Sync + 'static,
        requires
            job.runnable(),
        ensures
            final(self).jobs() == old(self).jobs().push((job.id@, job.payload@)),
            final(self).threads() == old(self).threads(),
    {
        self.pool.execute(move || job.run())
    }

    /// Relies on `threadpool::ThreadPool::max_count`: the number of worker threads the
    /// pool was started with, as nothing here changes it.
    #[verifier::external_body]
    pub(crate) fn thread_count(&self) -> (n: usize)
        ensures
            n == self.threads(),
    {
        self.pool.max_count()
    }

    /// Relies on `threadpool::ThreadPool::join`: it blocks until every job handed to the
    /// pool so far has run.
    #[verifier::external_body]
    pub(crate) fn join(&self) {
        self.pool.join()
    }
}

} // verus!
