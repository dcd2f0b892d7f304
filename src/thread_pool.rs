//! Worker pools: their sizes, the pool backed by rayon, the messages of the
//! self-healing pool, and the bookkeeping of its monitor.
use crate::error::KvError;
use vstd::prelude::*;

verus! {

/// Declares `rayon::ThreadPool`, handled opaquely.
#[verifier::external_type_specification]
#[verifier::external_body]
pub struct ExRayonThreadPool(rayon::ThreadPool);

/// Relies on `num_cpus::get`: the number of CPUs available to this process,
/// which its documentation says is at least 1.
#[verifier::external_body]
fn available_cpus() -> (r: usize)
    ensures
        r >= 1,
{
    num_cpus::get()
}

/// Relies on rayon's `ThreadPoolBuilder`: `new().num_threads(n).build()`
/// builds a pool of `n` threads, or reports why it could not.
#[verifier::external_body]
fn build_rayon_pool(threads: usize) -> Result<rayon::ThreadPool, rayon::ThreadPoolBuildError> {
    rayon::ThreadPoolBuilder::new().num_threads(threads).build()
}

/// Relies on `rayon::ThreadPool::spawn`: queues `op` to run once on one of
/// the pool's threads.
pub assume_specification<OP>[ rayon::ThreadPool::spawn::<OP> ](pool: &rayon::ThreadPool, op: OP)
    where
        OP: FnOnce() + Send + 'static,
;

/// The number of workers of a pool asked for `requested` of them: a request
/// of 0 means one per available CPU.
pub fn pool_size(requested: u32) -> (r: usize)
    ensures
        r >= 1,
        requested > 0 ==> r == requested,
{
    if requested == 0 {
        available_cpus()
    } else {
        requested as usize
    }
}

/// The pool that starts a new thread for each job.
pub struct NaiveThreadPool {}

impl NaiveThreadPool {
    /// Makes the pool; it keeps no threads, so the size asked for is ignored.
    pub fn new(_threads: u32) -> (r: Result<NaiveThreadPool, KvError>)
        ensures
            r is Ok,
    {
        Ok(NaiveThreadPool {  })
    }

    pub fn some() {
    }
}

/// The work-stealing pool of rayon.
pub struct RayonThreadPool {
    pool: rayon::ThreadPool,
}

impl RayonThreadPool {
    /// Makes a pool of `threads` workers, one per available CPU for 0.
    pub fn new(threads: u32) -> (r: Result<RayonThreadPool, KvError>)
        ensures
            r matches Err(e) ==> e is ThreadPool,
    {
        match build_rayon_pool(pool_size(threads)) {
            Ok(pool) => Ok(RayonThreadPool { pool }),
            Err(e) => Err(KvError::ThreadPool(e)),
        }
    }

    /// Runs `job` once on one of the pool's workers.
    pub fn spawn<F: FnOnce() + Send + 'static>(&self, job: F) {
        self.pool.spawn(job)
    }
}

/// What the queue of the self-healing pool carries to its workers.
pub enum ThreadPoolMessage<J> {
    RunJob(J),
    Shutdown,
}

/// What the self-healing pool tells its monitor.
pub enum ControlMessage {
    Start,
    Stop,
}

/// The number of `true` entries of `s`.
pub open spec fn count_live(s: Seq<bool>) -> nat
    decreases s.len(),
{
    if s.len() == 0 {
        0
    } else {
        count_live(s.drop_last()) + if s.last() {
            1nat
        } else {
            0nat
        }
    }
}

/// Which workers are running after worker `id` ended: a worker whose job
/// panicked is replaced at once; one that ended on a shutdown message is not.
pub open spec fn after_exit(live: Seq<bool>, id: int, panicked: bool) -> Seq<bool> {
    if 0 <= id < live.len() && !panicked {
        live.update(id, false)
    } else {
        live
    }
}

/// The bookkeeping of the monitor of the self-healing pool: which workers
/// run, and whether the pool is shutting down.
pub struct Monitor {
    live: Vec<bool>,
    stopping: bool,
}

impl Monitor {
    /// Which workers run, by identity.
    pub closed spec fn live(&self) -> Seq<bool> {
        self.live@
    }

    pub closed spec fn stopping(&self) -> bool {
        self.stopping
    }

    /// A monitor of `size` workers, all running.
    pub fn new(size: usize) -> (r: Monitor)
        ensures
            r.live().len() == size,
            forall|i: int| 0 <= i < size ==> #[trigger] r.live()[i],
            count_live(r.live()) == size,
            !r.stopping(),
    {
        let mut live: Vec<bool> = Vec::new();
        let mut i: usize = 0;
        while i < size
            invariant
                i <= size,
                live@.len() == i,
                forall|j: int| 0 <= j < i ==> #[trigger] live@[j],
                count_live(live@) == i,
            decreases size - i,
        {
            let ghost prev = live@;
            live.push(true);
            proof {
                assert(live@.drop_last() =~= prev);
            }
            i = i + 1;
        }
        Monitor { live, stopping: false }
    }

    /// Records that worker `id` ended, and says whether a replacement with
    /// the same identity is to be started: exactly when its job panicked.
    pub fn worker_exited(&mut self, id: usize, panicked: bool) -> (respawn: bool)
        ensures
            respawn == (panicked && id < old(self).live().len()),
            final(self).live() == after_exit(old(self).live(), id as int, panicked),
            final(self).stopping() == old(self).stopping(),
    {
        if id >= self.live.len() {
            return false;
        }
        if panicked {
            true
        } else {
            self.live.set(id, false);
            false
        }
    }

    /// Takes in a message of the pool.
    pub fn control(&mut self, msg: ControlMessage)
        ensures
            final(self).live() == old(self).live(),
            final(self).stopping() == (msg is Stop || old(self).stopping()),
    {
        if let ControlMessage::Stop = msg {
            self.stopping = true;
        }
    }

    /// The number of running workers.
    pub fn live_workers(&self) -> (r: usize)
        ensures
            r == count_live(self.live()),
    {
        let mut n: usize = 0;
        let mut i: usize = 0;
        while i < self.live.len()
            invariant
                i <= self.live@.len(),
                n == count_live(self.live@.take(i as int)),
                n <= i,
            decreases self.live@.len() - i,
        {
            proof {
                assert(self.live@.take(i + 1).drop_last() =~= self.live@.take(i as int));
            }
            if self.live[i] {
                n = n + 1;
            }
            i = i + 1;
        }
        proof {
            assert(self.live@.take(i as int) =~= self.live@);
        }
        n
    }

    /// Whether the monitor is done: the pool is shutting down and no worker runs.
    pub fn finished(&self) -> (r: bool)
        ensures
            r == (self.stopping() && forall|i: int| 0 <= i < self.live().len() ==> !#[trigger] self.live()[i]),
    {
        if !self.stopping {
            return false;
        }
        let mut i: usize = 0;
        while i < self.live.len()
            invariant
                i <= self.live@.len(),
                forall|j: int| 0 <= j < i ==> !#[trigger] self.live@[j],
            decreases self.live@.len() - i,
        {
            if self.live[i] {
                assert(self.live()[i as int]);
                return false;
            }
            i = i + 1;
        }
        true
    }
}

/// Which workers run after the workers `ids` ended one after another, each
/// because its job panicked or not as `panics` says.
pub open spec fn after_exits(live: Seq<bool>, ids: Seq<int>, panics: Seq<bool>) -> Seq<bool>
    decreases ids.len(),
{
    if ids.len() == 0 || panics.len() != ids.len() {
        live
    } else {
        after_exit(after_exits(live, ids.drop_last(), panics.drop_last()), ids.last(), panics.last())
    }
}

/// A pool never shrinks from jobs that panic: whichever workers run the
/// panicking jobs, every worker that ran before still runs after, so a pool
/// of `n` running workers keeps `n` of them.
pub proof fn lemma_panics_keep_workers(live: Seq<bool>, ids: Seq<int>)
    ensures
        after_exits(live, ids, Seq::new(ids.len(), |i: int| true)) == live,
        count_live(after_exits(live, ids, Seq::new(ids.len(), |i: int| true))) == count_live(live),
    decreases ids.len(),
{
    if ids.len() > 0 {
        let all = Seq::new(ids.len(), |i: int| true);
        assert(all.drop_last() =~= Seq::new((ids.len() - 1) as nat, |i: int| true));
        lemma_panics_keep_workers(live, ids.drop_last());
    }
}

} // verus!
