//! The worker pool: a queue of pending work descriptors and the thread pool that
//! runs one job for each of them.

use crate::execution::ExecutionPool;
use crate::execution::Job;
use crate::identifier::{identifier_of, identifiers_of, lemma_identifiers_of_concat, to_identifier};
use crate::sizing::{
    default_worker_count, default_workers, optimised_worker_count, optimised_workers,
};
use crate::task_queue::{queue_add, queue_items, queue_new, queue_remove, queue_size};
use queues::Queue;
use std::sync::Arc;
use vstd::arithmetic::power2::pow2;
use vstd::prelude::*;

verus! {

broadcast use vstd::seq_lib::group_seq_properties;

/// The identifiers of a run of jobs, in the same order.
pub open spec fn job_ids(jobs: Seq<(Seq<char>, Seq<char>)>) -> Seq<Seq<char>> {
    jobs.map_values(|j: (Seq<char>, Seq<char>)| j.0)
}

/// One job for each identifier, in the same order, every one with the same payload.
pub open spec fn jobs_for(ids: Seq<Seq<char>>, payload: Seq<char>) -> Seq<(Seq<char>, Seq<char>)> {
    ids.map_values(|id: Seq<char>| (id, payload))
}

/// A FIFO queue of work descriptors and a fixed-size pool of worker threads.
///
/// Every descriptor is raw bytes; its identifier is that text read as UTF-8. A
/// descriptor that is not valid UTF-8 has none, and is dropped when the queue is
/// drained.
pub struct Pool {
    q: Queue<Vec<u8>>,
    pool: ExecutionPool,
    /// The descriptors taken out of the queue so far, in the order they were taken.
    dequeued: Ghost<Seq<Seq<u8>>>,
}

impl Pool {
    /// The pending descriptors, oldest first.
    pub closed spec fn queued(&self) -> Seq<Seq<u8>> {
        queue_items(self.q)
    }

    /// The descriptors taken out of the queue so far, in the order they were taken.
    pub closed spec fn dequeued(&self) -> Seq<Seq<u8>> {
        self.dequeued@
    }

    /// The `(identifier, payload)` of every job handed to the thread pool so far, in the
    /// order they were handed over.
    pub closed spec fn jobs(&self) -> Seq<(Seq<char>, Seq<char>)> {
        self.pool.jobs()
    }

    /// The identifiers of all jobs submitted so far, in submission order.
    pub open spec fn submitted(&self) -> Seq<Seq<char>> {
        job_ids(self.jobs())
    }

    /// The number of worker threads of the thread pool.
    pub closed spec fn workers(&self) -> nat {
        self.pool.threads()
    }

    /// A pool always has at least one worker, and has submitted a job for exactly the
    /// dequeued descriptors that have an identifier, in the order they were dequeued.
    pub closed spec fn wf(&self) -> bool {
        &&& self.pool.threads() >= 1
        &&& job_ids(self.pool.jobs()) == identifiers_of(self.dequeued@)
    }

    fn with_workers(workers: usize) -> (p: Self)
        requires
            workers >= 1,
        ensures
            p.queued() == Seq::<Seq<u8>>::empty(),
            p.dequeued() == Seq::<Seq<u8>>::empty(),
            p.jobs() == Seq::<(Seq<char>, Seq<char>)>::empty(),
            p.workers() == workers,
            p.wf(),
    {
        let p = Pool { q: queue_new(), pool: ExecutionPool::new(workers), dequeued: Ghost(Seq::empty()) };
        proof {
            assert(identifiers_of(Seq::<Seq<u8>>::empty()) =~= Seq::<Seq<char>>::empty());
            assert(job_ids(p.pool.jobs()) =~= Seq::<Seq<char>>::empty());
        }
        p
    }

    /// A pool of exactly `pool_size` workers.
    pub fn new(pool_size: usize) -> (p: Self)
        requires
            pool_size >= 1,
        ensures
            p.queued() == Seq::<Seq<u8>>::empty(),
            p.dequeued() == Seq::<Seq<u8>>::empty(),
            p.jobs() == Seq::<(Seq<char>, Seq<char>)>::empty(),
            p.workers() == pool_size,
            p.wf(),
    {
        Self::with_workers(pool_size)
    }

    /// A pool that uses the fraction `utilisation_numerator / 2^utilisation_exponent` of
    /// the detected hardware parallelism, rounded down, and at least one worker; one
    /// worker where nothing was detected.
    pub fn optimised(
        detected_parallelism: Option<usize>,
        utilisation_numerator: u64,
        utilisation_exponent: u32,
    ) -> (p: Self)
        requires
            1 <= utilisation_numerator <= pow2(utilisation_exponent as nat),
        ensures
            p.queued() == Seq::<Seq<u8>>::empty(),
            p.dequeued() == Seq::<Seq<u8>>::empty(),
            p.jobs() == Seq::<(Seq<char>, Seq<char>)>::empty(),
            p.workers() == optimised_workers(
                detected_parallelism,
                utilisation_numerator as nat,
                utilisation_exponent as nat,
            ),
            detected_parallelism is None ==> p.workers() == 1,
            p.wf(),
    {
        Self::with_workers(
            optimised_worker_count(detected_parallelism, utilisation_numerator, utilisation_exponent),
        )
    }

    /// A pool with one worker for each unit of detected hardware parallelism; one worker
    /// where nothing was detected.
    pub fn default(detected_parallelism: Option<usize>) -> (p: Self)
        ensures
            p.queued() == Seq::<Seq<u8>>::empty(),
            p.dequeued() == Seq::<Seq<u8>>::empty(),
            p.jobs() == Seq::<(Seq<char>, Seq<char>)>::empty(),
            p.workers() == default_workers(detected_parallelism),
            detected_parallelism is None ==> p.workers() == 1,
            p.wf(),
    {
        Self::with_workers(default_worker_count(detected_parallelism))
    }

    /// The number of worker threads of the thread pool.
    pub fn worker_count(&self) -> (n: usize)
        requires
            self.wf(),
        ensures
            n == self.workers(),
            n >= 1,
    {
        self.pool.thread_count()
    }

    /// Blocks until every job submitted so far has run.
    pub fn join(&self) {
        self.pool.join()
    }

    /// The number of pending descriptors.
    pub fn size(&self) -> (n: usize)
        ensures
            n == self.queued().len(),
    {
        queue_size(&self.q)
    }

    /// Appends a descriptor at the back of the queue.
    pub fn enqueue(&mut self, task: Vec<u8>)
        requires
            old(self).wf(),
        ensures
            final(self).queued() == old(self).queued().push(task@),
            final(self).dequeued() == old(self).dequeued(),
            final(self).jobs() == old(self).jobs(),
            final(self).workers() == old(self).workers(),
            final(self).wf(),
    {
        let _ = queue_add(&mut self.q, task);
    }

    /// Drains the queue: takes the descriptors out oldest first and, for each one that
    /// has an identifier, submits a job that calls `process` with its own handles to
    /// the two clients, its own copy of `message`, and that identifier. Descriptors
    /// without one are dropped. Returns once the queue is empty, without waiting for
    /// the jobs to run.
    pub fn embed_message<I, S, F>(
        &mut self,
        index_conn: Arc<I>,
        store_conn: Arc<S>,
        message: String,
        process: Arc<F>,
    )
        where
            I: Send + Sync + 'static,
            S: Send + Sync + 'static,
            F: Fn(Arc<I>, Arc<S>, String, String) + Send + Sync + 'static,
        requires
            old(self).wf(),
            forall|a: Arc<I>, b: Arc<S>, c: String, d: String| (*process).requires((a, b, c, d)),
        ensures
            final(self).queued() == Seq::<Seq<u8>>::empty(),
            final(self).dequeued() == old(self).dequeued() + old(self).queued(),
            final(self).jobs() == old(self).jobs() + jobs_for(
                identifiers_of(old(self).queued()),
                message@,
            ),
            final(self).submitted() == old(self).submitted() + identifiers_of(old(self).queued()),
            final(self).workers() == old(self).workers(),
            final(self).wf(),
    {
        let ghost items = self.queued();
        let ghost before = self.jobs();
        let ghost taken_before = self.dequeued();
        let ghost mut taken: int = 0;
        while queue_size(&self.q) > 0
            invariant
                0 <= taken <= items.len(),
                self.queued() == items.skip(taken),
                self.dequeued() == taken_before + items.take(taken),
                self.jobs() == before + jobs_for(identifiers_of(items.take(taken)), message@),
                job_ids(before) == identifiers_of(taken_before),
                self.workers() == old(self).workers(),
                forall|a: Arc<I>, b: Arc<S>, c: String, d: String|
                    (*process).requires((a, b, c, d)),
            decreases self.queued().len(),
        {
            match queue_remove(&mut self.q) {
                Some(task) => {
                    let ghost k = taken;
                    proof {
                        assert(items.skip(k).drop_first() =~= items.skip(k + 1));
                        items.lemma_filter_map_take_succ(|b: Seq<u8>| identifier_of(b), k);
                        taken = k + 1;
                        assert(items.take(k + 1) =~= items.take(k).push(task@));
                    }
                    self.dequeued = Ghost(self.dequeued@.push(task@));
                    match to_identifier(task) {
                        Some(id) => {
                            let ghost id_chars = id@;
                            let job = Job {
                                index_conn: Arc::clone(&index_conn),
                                store_conn: Arc::clone(&store_conn),
                                payload: message.clone(),
                                id,
                                process: Arc::clone(&process),
                            };
                            self.pool.execute(job);
                            proof {
                                assert(jobs_for(identifiers_of(items.take(k + 1)), message@)
                                    =~= jobs_for(identifiers_of(items.take(k)), message@).push(
                                    (id_chars, message@),
                                ));
                            }
                        },
                        None => {},
                    }
                },
                // An empty queue leaves the loop at its next test.
                None => {},
            }
        }
        proof {
            let added = identifiers_of(items);
            assert(items.take(taken) =~= items);
            lemma_identifiers_of_concat(taken_before, items);
            assert(job_ids(before + jobs_for(added, message@)) =~= job_ids(before) + added);
        }
    }
}


/// Each enqueued descriptor is dequeued exactly once. Where a run of `enqueue` calls
/// takes a pool with an empty queue from `start` to `filled`, appending `tasks`, and a
/// call of `embed_message` with `message` then takes it to `drained`, the drain takes
/// out exactly `tasks`, in order and one removal for each, submits one job with
/// `message` for each of their identifiers, and leaves the queue empty.
pub proof fn lemma_drain_takes_each_enqueued_task_once(
    start: Pool,
    filled: Pool,
    drained: Pool,
    tasks: Seq<Seq<u8>>,
    message: Seq<char>,
)
    requires
        start.queued().len() == 0,
        filled.queued() == start.queued() + tasks,
        filled.dequeued() == start.dequeued(),
        filled.jobs() == start.jobs(),
        drained.queued() == Seq::<Seq<u8>>::empty(),
        drained.dequeued() == filled.dequeued() + filled.queued(),
        drained.jobs() == filled.jobs() + jobs_for(identifiers_of(filled.queued()), message),
    ensures
        drained.dequeued().len() == start.dequeued().len() + tasks.len(),
        drained.dequeued().skip(start.dequeued().len() as int) == tasks,
        drained.jobs() == start.jobs() + jobs_for(identifiers_of(tasks), message),
        drained.queued().len() == 0,
{
    assert(start.queued() + tasks =~= tasks);
    assert(drained.dequeued().skip(start.dequeued().len() as int) =~= tasks);
}

} // verus!
