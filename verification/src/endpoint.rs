//! The endpoint that tasks are handed to.

use vstd::prelude::*;

use crate::keys::{bound_view, Key};
use crate::pool::{keeps_size, ControlThreadPool, PoolView};
use crate::progress::{Progress, ProgressView};
use crate::task::{Request, Task};
use crate::worker::{BackupWorker, WorkerPhase, WorkerView};

verus! {

/// If the thread pool has been idle for so many milliseconds, it is shut down.
pub const IDLE_THREADPOOL_DURATION: u64 = 30 * 60 * 1000;

/// How many nanoseconds a millisecond has.
pub const NANOS_PER_MILLI: u128 = 1_000_000;

/// The bound that a key of a request stands for: none if it is empty, the key
/// itself for raw values, and otherwise its encoded form.
pub open spec fn requested_bound(
    key: Seq<u8>,
    is_raw_kv: bool,
    encoded: Seq<u8>,
) -> Option<Seq<u8>> {
    if key.len() == 0 {
        None
    } else if is_raw_kv {
        Some(key)
    } else {
        Some(encoded)
    }
}

/// The bound that a key of a request stands for. `encoded` is the encoded form of
/// the key, which counts only where the key is not empty and values are not raw.
pub fn request_bound(key: &[u8], is_raw_kv: bool, encoded: Vec<u8>) -> (bound: Option<Key>)
    ensures
        bound_view(bound) == requested_bound(key@, is_raw_kv, encoded@),
{
    if key.len() == 0 {
        None
    } else if is_raw_kv {
        Some(Key::from_encoded_slice(key))
    } else {
        Some(Key::from_encoded(encoded))
    }
}

/// How a task is to be worked on.
pub struct BackupPlan {
    /// Where the workers take their ranges from.
    pub progress: Progress,
    /// How many workers there are.
    pub workers: usize,
    /// Whether the pool is to be replaced by one with that many workers.
    pub replace_pool: bool,
}

/// The progress of a task that has not begun.
pub open spec fn task_progress<B>(
    store_id: u64,
    request: Request<B>,
    encoded_start: Seq<u8>,
    encoded_end: Seq<u8>,
) -> ProgressView {
    ProgressView {
        store_id,
        next_start: requested_bound(request.start_key@, request.is_raw_kv, encoded_start),
        end_key: requested_bound(request.end_key@, request.is_raw_kv, encoded_end),
        finished: false,
        is_raw_kv: request.is_raw_kv,
        cf: request.cf@,
    }
}

/// How many workers a task gets: as many as it asks for, but at least one.
pub open spec fn worker_count(concurrency: u32) -> usize {
    if concurrency == 0 {
        1
    } else {
        concurrency as usize
    }
}

/// A worker of a task that has not begun: it backs up what changed after the start of
/// the request, as of its end.
pub open spec fn task_worker<B>(store_id: u64, request: Request<B>) -> WorkerView {
    WorkerView {
        store_id,
        start_ts: request.start_ts,
        backup_ts: request.end_ts,
        ranges: Seq::empty(),
        next: 0,
        phase: WorkerPhase::New,
    }
}

/// The endpoint of backup.
///
/// It coordinates backup tasks and dispatches them to different workers.
pub struct Endpoint {
    pub store_id: u64,
    pub pool: ControlThreadPool,
    /// In milliseconds.
    pub pool_idle_threshold: u64,
}

impl Endpoint {
    /// The endpoint of store `store_id`, with a pool that has no workers yet.
    pub fn new(store_id: u64, now: u128) -> (endpoint: Endpoint)
        ensures
            endpoint.store_id == store_id,
            endpoint.pool@ == (PoolView { size: 0, has_workers: false, last_active: now }),
            endpoint.pool_idle_threshold == IDLE_THREADPOOL_DURATION,
            endpoint.pool@.wf(),
    {
        Endpoint {
            store_id,
            pool: ControlThreadPool::new(now),
            pool_idle_threshold: IDLE_THREADPOOL_DURATION,
        }
    }

    /// In how many milliseconds the timer is to go off first.
    pub fn new_timer(&self) -> (delay: u64)
        ensures
            delay == self.pool_idle_threshold,
    {
        self.pool_idle_threshold
    }

    /// A worker for a task.
    pub fn spawn_backup_worker<B>(&self, request: &Request<B>) -> (worker: BackupWorker)
        ensures
            worker@ == (WorkerView {
                store_id: self.store_id,
                start_ts: request.start_ts,
                backup_ts: request.end_ts,
                ranges: Seq::empty(),
                next: 0,
                phase: WorkerPhase::New,
            }),
            worker@ == task_worker(self.store_id, *request),
            worker@.wf(),
    {
        BackupWorker::new(self.store_id, request.start_ts, request.end_ts)
    }

    /// Whether `plan` is how this endpoint works on a task, and `after` the endpoint
    /// from then on.
    pub open spec fn plans<B>(
        self,
        task: Task<B>,
        encoded_start: Seq<u8>,
        encoded_end: Seq<u8>,
        plan: BackupPlan,
        after: Endpoint,
    ) -> bool {
        &&& plan.progress@ == task_progress(self.store_id, task.request, encoded_start, encoded_end)
        &&& plan.workers == worker_count(task.concurrency)
        &&& plan.replace_pool <==> !keeps_size(self.pool@.size, plan.workers)
        &&& after.pool@ == self.pool@.adjusted(plan.workers)
        &&& after.store_id == self.store_id
        &&& after.pool_idle_threshold == self.pool_idle_threshold
    }

    /// Prepares the work on a task. `encoded_start` and `encoded_end` are the encoded
    /// forms of the keys of the request.
    pub fn handle_backup_task<B>(
        &mut self,
        task: &Task<B>,
        encoded_start: Vec<u8>,
        encoded_end: Vec<u8>,
    ) -> (plan: BackupPlan)
        requires
            old(self).pool@.wf(),
        ensures
            old(self).plans(*task, encoded_start@, encoded_end@, plan, *final(self)),
            plan.progress@.store_id == old(self).store_id,
            plan.progress@.is_raw_kv == task.request.is_raw_kv,
            plan.progress@.cf == task.request.cf@,
            plan.workers >= 1,
            final(self).pool@.size >= plan.workers,
            final(self).pool@.wf(),
            final(self).pool@.has_workers,
    {
        let request = &task.request;
        let start_key = request_bound(
            request.start_key.as_slice(),
            request.is_raw_kv,
            encoded_start,
        );
        let end_key = request_bound(request.end_key.as_slice(), request.is_raw_kv, encoded_end);
        let progress = Progress::new(
            self.store_id,
            start_key,
            end_key,
            request.is_raw_kv,
            request.cf.clone(),
        );
        let workers: usize = if task.concurrency == 0 {
            1
        } else {
            task.concurrency as usize
        };
        let replace_pool = self.pool.adjust_with(workers);
        BackupPlan { progress, workers, replace_pool }
    }

    /// Prepares the work on a task, unless it was found `canceled`.
    pub fn run_unless_canceled<B>(
        &mut self,
        canceled: bool,
        task: &Task<B>,
        encoded_start: Vec<u8>,
        encoded_end: Vec<u8>,
    ) -> (plan: Option<BackupPlan>)
        requires
            old(self).pool@.wf(),
        ensures
            plan is None <==> canceled,
            plan is None ==> *final(self) == *old(self),
            plan matches Some(p) ==> old(self).plans(
                *task,
                encoded_start@,
                encoded_end@,
                p,
                *final(self),
            ),
            final(self).pool@.wf(),
    {
        if canceled {
            return None;
        }
        Some(self.handle_backup_task(task, encoded_start, encoded_end))
    }

    /// Prepares the work on a task, unless it is canceled by now: there is no plan
    /// exactly if the flag of the task was found to be set.
    pub fn run<B>(
        &mut self,
        task: &Task<B>,
        encoded_start: Vec<u8>,
        encoded_end: Vec<u8>,
    ) -> (plan: Option<BackupPlan>)
        requires
            old(self).pool@.wf(),
        ensures
            task.may_load(plan is None),
            plan is None ==> *final(self) == *old(self),
            plan matches Some(p) ==> old(self).plans(
                *task,
                encoded_start@,
                encoded_end@,
                p,
                *final(self),
            ),
            final(self).pool@.wf(),
    {
        let canceled = task.has_canceled();
        self.run_unless_canceled(canceled, task, encoded_start, encoded_end)
    }

    /// Records at time `now` that a task has been worked on.
    pub fn task_done(&mut self, now: u128)
        ensures
            final(self).pool@ == (PoolView { last_active: now, ..old(self).pool@ }),
            final(self).store_id == old(self).store_id,
            final(self).pool_idle_threshold == old(self).pool_idle_threshold,
    {
        self.pool.heartbeat(now);
    }

    /// Shuts the pool down if it has been idle for long enough at time `now`. Returns
    /// whether there are workers to be dropped, and in how many milliseconds the
    /// timer is to go off again.
    pub fn on_timeout(&mut self, now: u128) -> (ret: (bool, u64))
        requires
            old(self).pool@.wf(),
        ensures
            ({
                let idle = old(self).pool@.is_idle(
                    now,
                    (old(self).pool_idle_threshold * NANOS_PER_MILLI) as u128,
                );
                &&& final(self).pool@ == if idle {
                    PoolView { size: 0, has_workers: false, ..old(self).pool@ }
                } else {
                    old(self).pool@
                }
                &&& ret.0 <==> idle && old(self).pool@.has_workers
            }),
            ret.1 == old(self).pool_idle_threshold,
            final(self).pool@.wf(),
            final(self).store_id == old(self).store_id,
            final(self).pool_idle_threshold == old(self).pool_idle_threshold,
    {
        let threshold: u128 = self.pool_idle_threshold as u128 * NANOS_PER_MILLI;
        let drop_workers = self.pool.check_active(now, threshold);
        (drop_workers, self.pool_idle_threshold)
    }
}

} // verus!
