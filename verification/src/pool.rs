//! The worker pool's decision core: the size rule checked at construction
//! and the FIFO job queue the workers drain. Spawning the workers, blocking
//! until work arrives, and running a job are the embedding program's part;
//! every change to the queue's contents goes through the contracts here.
use vstd::prelude::*;

verus! {

/// Why a pool could not be constructed.
#[derive(Clone, Copy, Debug, PartialEq, Eq, Structural)]
pub enum PoolError {
    /// A pool must have at least one worker.
    InvalidPoolSize,
}

/// A validated pool size: the number of workers, fixed at construction.
pub struct PoolConfig {
    pub size: usize,
}

impl PoolConfig {
    /// A pool always has at least one worker.
    pub open spec fn wf(&self) -> bool {
        self.size >= 1
    }

    /// Validates a requested pool size: zero workers is a fatal
    /// construction error, every other size is accepted unchanged.
    pub fn new(size: usize) -> (r: Result<PoolConfig, PoolError>)
        ensures
            (size >= 1) == (r is Ok),
            r matches Ok(c) ==> c.size == size && c.wf(),
            r matches Err(e) ==> e == PoolError::InvalidPoolSize && size == 0,
    {
        if size == 0 {
            Err(PoolError::InvalidPoolSize)
        } else {
            Ok(PoolConfig { size })
        }
    }
}

/// The shared job queue: submissions enter at the back, workers take from
/// the front, so the queue is FIFO across all submissions.
pub struct JobQueue<J> {
    jobs: Vec<J>,
}

impl<J> View for JobQueue<J> {
    type V = Seq<J>;

    closed spec fn view(&self) -> Seq<J> {
        self.jobs@
    }
}

impl<J> JobQueue<J> {
    /// An empty queue.
    pub fn new() -> (q: Self)
        ensures
            q@ == Seq::<J>::empty(),
    {
        JobQueue { jobs: Vec::new() }
    }

    /// Enqueues one job at the back; nothing already queued moves.
    pub fn submit(&mut self, job: J)
        ensures
            final(self)@ == old(self)@.push(job),
    {
        self.jobs.push(job);
    }

    /// Dequeues the job at the front, exactly the one submitted earliest;
    /// an empty queue is left unchanged.
    pub fn take(&mut self) -> (r: Option<J>)
        ensures
            old(self)@.len() == 0 ==> r is None && final(self)@ == old(self)@,
            old(self)@.len() > 0 ==> r == Some(old(self)@[0]) && final(self)@ == old(
                self,
            )@.drop_first(),
    {
        if self.jobs.len() == 0 {
            None
        } else {
            let job = self.jobs.remove(0);
            proof {
                assert(self.jobs@ =~= old(self)@.drop_first());
            }
            Some(job)
        }
    }

    /// How many jobs are waiting.
    pub fn len(&self) -> (n: usize)
        ensures
            n == self@.len(),
    {
        self.jobs.len()
    }
}

/// One dequeue neither loses nor duplicates work: the job handed out and
/// the jobs still queued are together exactly the jobs that were queued.
/// Draining a queue therefore hands every submitted job out exactly once.
pub proof fn lemma_dequeue_exactly_once<J>(q: Seq<J>)
    requires
        q.len() > 0,
    ensures
        q.drop_first().to_multiset().insert(q[0]) =~= q.to_multiset(),
{
    broadcast use vstd::seq_lib::group_to_multiset_ensures;
    broadcast use vstd::multiset::group_multiset_axioms;

    assert(q.remove(0) =~= q.drop_first());
    assert(q.remove(0).to_multiset() =~= q.to_multiset().remove(q[0]));
    assert(q.contains(q[0]));
    assert(q.to_multiset().count(q[0]) > 0);
}

} // verus!
