//! What becomes of a request: the ranges, workers and scans of a task are those it asks
//! for.

use vstd::prelude::*;

use crate::coverage::{step_ranges, steps_progress};
use crate::endpoint::{
    requested_bound, task_progress, task_worker, worker_count, BackupPlan, Endpoint,
};
use crate::file_backup::{FileActionView, FileBackupView, FileReplyView};
use crate::file_backup_laws::versioned_backup_sets_out;
use crate::keys::{in_range, key_lt};
use crate::pool::adjusted_pool_fits;
use crate::progress::ProgressView;
use crate::progress_laws::{range_is_share_of_region, step_moves_on};
use crate::region::RegionInfoView;
use crate::task::{Request, Task};
use crate::worker::{WorkerActionView, WorkerReplyView};
use crate::worker_laws::{
    answers, fresh, ranges_are_worked_off, state_after, worker_backs_up_its_range,
    worker_keeps_its_times,
};

verus! {

/// A key of a request that is empty is no bound. For raw values any other key is the bound
/// itself, and otherwise its encoded form is.
pub proof fn empty_key_is_no_bound(key: Seq<u8>, is_raw_kv: bool, encoded: Seq<u8>)
    ensures
        requested_bound(key, is_raw_kv, encoded) is None <==> key.len() == 0,
        requested_bound(key, is_raw_kv, encoded) matches Some(bound) ==> bound == (if is_raw_kv {
            key
        } else {
            encoded
        }),
{
}

/// The progress planned for a task is that of its request: it has not begun, is raw exactly
/// if the request is, and is of the request's column family. It asks for the keys from the
/// start key up to the end key, where an empty key is no bound.
pub proof fn planned_progress_is_of_the_request<B>(
    store_id: u64,
    request: Request<B>,
    encoded_start: Seq<u8>,
    encoded_end: Seq<u8>,
    k: Seq<u8>,
)
    ensures
        ({
            let progress = task_progress(store_id, request, encoded_start, encoded_end);
            let start = if request.is_raw_kv {
                request.start_key@
            } else {
                encoded_start
            };
            let end = if request.is_raw_kv {
                request.end_key@
            } else {
                encoded_end
            };
            &&& progress.store_id == store_id
            &&& !progress.finished
            &&& progress.is_raw_kv <==> request.is_raw_kv
            &&& progress.cf == request.cf@
            &&& in_range(k, progress.next_start, progress.end_key) <==> {
                &&& request.start_key@.len() > 0 ==> !key_lt(k, start)
                &&& request.end_key@.len() > 0 ==> key_lt(k, end)
            }
        }),
{
}

/// Every range that is ever handed out for a task is raw exactly if the request is, and is
/// of the request's column family, whatever regions and limits the steps have.
pub proof fn ranges_are_of_the_request<B>(
    store_id: u64,
    request: Request<B>,
    encoded_start: Seq<u8>,
    encoded_end: Seq<u8>,
    regions: Seq<RegionInfoView>,
    limits: Seq<nat>,
    infos: Seq<RegionInfoView>,
    limit: nat,
    n: int,
)
    requires
        ({
            let progress = steps_progress(
                regions,
                task_progress(store_id, request, encoded_start, encoded_end),
                limits,
            );
            0 <= n < progress.ranges(infos, limit).len()
        }),
    ensures
        ({
            let progress = steps_progress(
                regions,
                task_progress(store_id, request, encoded_start, encoded_end),
                limits,
            );
            let range = progress.ranges(infos, limit)[n];
            &&& range.is_raw_kv <==> request.is_raw_kv
            &&& range.cf == request.cf@
        }),
{
    let first = task_progress(store_id, request, encoded_start, encoded_end);
    let progress = steps_progress(regions, first, limits);
    lemma_steps_keep_the_request(regions, first, limits);
    let t = range_is_share_of_region(progress, infos, limit, n, Seq::empty());
}

/// Steps change nothing of what was asked for.
proof fn lemma_steps_keep_the_request(
    regions: Seq<RegionInfoView>,
    progress: ProgressView,
    limits: Seq<nat>,
)
    ensures
        steps_progress(regions, progress, limits).store_id == progress.store_id,
        steps_progress(regions, progress, limits).end_key == progress.end_key,
        steps_progress(regions, progress, limits).is_raw_kv == progress.is_raw_kv,
        steps_progress(regions, progress, limits).cf == progress.cf,
    decreases limits.len(),
{
    if limits.len() > 0 {
        let ranges = step_ranges(regions, progress, limits[0]);
        step_moves_on(progress, ranges);
        lemma_steps_keep_the_request(regions, progress.after(ranges), limits.skip(1));
    }
}

/// Whatever a worker of a task backs up of a versioned range is read as of the end of the
/// request, and only versions after its start; deletes are output exactly if the request
/// does not start at the beginning.
pub proof fn task_is_read_as_of_its_end<B, E, T>(
    store_id: u64,
    request: Request<B>,
    replies: Seq<WorkerReplyView>,
    reply: WorkerReplyView,
    backup: FileBackupView,
)
    requires
        ({
            let start = task_worker(store_id, request).begin().0;
            &&& answers(start, replies)
            &&& state_after(start, replies).expects(reply)
            &&& state_after(start, replies).resume(reply).1 == WorkerActionView::Backup(backup)
        }),
        !backup.range.is_raw_kv,
    ensures
        ({
            let done = FileReplyView::<E, T>::Done(Ok(()));
            let b0 = backup.begin::<E, T>().0;
            let b1 = b0.resume(done).0;
            b1.resume(done).1 matches FileActionView::OpenScanner(options) && {
                &&& options.store.start_ts == request.end_ts
                &&& options.after_ts == request.start_ts
                &&& options.output_delete <==> request.start_ts > 0
                &&& options.start_key == backup.range.start_key
                &&& options.end_key == backup.range.end_key
            }
        }),
{
    let worker = task_worker(store_id, request);
    let now = state_after(worker.begin().0, replies);
    assert(fresh(worker));
    ranges_are_worked_off(worker, replies);
    worker_keeps_its_times(worker, replies);
    worker_backs_up_its_range::<E, T>(now, reply, backup, Seq::empty());
    versioned_backup_sets_out::<E, T>(
        backup.range,
        backup.file_name,
        now.backup_ts,
        now.start_ts,
        Seq::empty(),
    );
}

/// A worker of a task is about to begin, on the task's store and with the request's times.
pub proof fn task_worker_is_fresh<B>(store_id: u64, request: Request<B>)
    ensures
        fresh(task_worker(store_id, request)),
        task_worker(store_id, request).wf(),
        task_worker(store_id, request).store_id == store_id,
        task_worker(store_id, request).start_ts == request.start_ts,
        task_worker(store_id, request).backup_ts == request.end_ts,
{
}

/// A task gets as many workers as it asks for, and one if it asks for none.
pub proof fn task_gets_the_workers_it_asks_for(concurrency: u32)
    ensures
        worker_count(concurrency) >= 1,
        worker_count(concurrency) as int >= concurrency as int,
        concurrency >= 1 ==> worker_count(concurrency) as int == concurrency as int,
        concurrency == 0 ==> worker_count(concurrency) as int == 1,
{
}

/// The plan for a task is of its request: raw exactly if the request is, of its column
/// family, on the endpoint's own store, and not begun. There are as many workers as the task
/// asks for, and at least one. The pool is replaced exactly if it has too few workers, or
/// over ten too many, and has enough of them afterwards; nothing else of the endpoint
/// changes.
pub proof fn plan_is_of_the_task<B>(
    before: Endpoint,
    task: Task<B>,
    encoded_start: Seq<u8>,
    encoded_end: Seq<u8>,
    plan: BackupPlan,
    after: Endpoint,
)
    requires
        before.plans(task, encoded_start, encoded_end, plan, after),
    ensures
        plan.progress@.is_raw_kv <==> task.request.is_raw_kv,
        plan.progress@.cf == task.request.cf@,
        plan.progress@.store_id == before.store_id,
        !plan.progress@.finished,
        plan.progress@.next_start is None <==> task.request.start_key@.len() == 0,
        plan.progress@.end_key is None <==> task.request.end_key@.len() == 0,
        plan.progress@.next_start matches Some(key) ==> key == (if task.request.is_raw_kv {
            task.request.start_key@
        } else {
            encoded_start
        }),
        plan.progress@.end_key matches Some(key) ==> key == (if task.request.is_raw_kv {
            task.request.end_key@
        } else {
            encoded_end
        }),
        task.concurrency >= 1 ==> plan.workers as int == task.concurrency as int,
        task.concurrency == 0 ==> plan.workers as int == 1,
        plan.replace_pool <==> !(plan.workers <= before.pool@.size <= plan.workers + 10),
        plan.replace_pool ==> after.pool@.size == plan.workers && after.pool@.has_workers,
        !plan.replace_pool ==> after.pool@ == before.pool@,
        after.pool@.last_active == before.pool@.last_active,
        after.store_id == before.store_id,
        after.pool_idle_threshold == before.pool_idle_threshold,
{
    adjusted_pool_fits(before.pool@, plan.workers);
}

} // verus!
