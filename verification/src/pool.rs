//! The size of the worker pool, and when it is shut down.

use vstd::prelude::*;

verus! {

/// How many more workers than needed are kept.
pub const MAX_IDLE_WORKERS: usize = 10;

/// Whether a pool of `size` workers is kept when `needed` workers are asked for:
/// there are enough of them, and not too many.
pub open spec fn keeps_size(size: usize, needed: usize) -> bool {
    size >= needed && size - needed <= MAX_IDLE_WORKERS
}

/// The state of the worker pool. Times are in nanoseconds, on a clock that never
/// goes backwards.
pub struct ControlThreadPool {
    size: usize,
    has_workers: bool,
    last_active: u128,
}

/// The model of a [`ControlThreadPool`].
pub struct PoolView {
    pub size: usize,
    pub has_workers: bool,
    pub last_active: u128,
}

impl View for ControlThreadPool {
    type V = PoolView;

    closed spec fn view(&self) -> PoolView {
        PoolView {
            size: self.size,
            has_workers: self.has_workers,
            last_active: self.last_active,
        }
    }
}

impl PoolView {
    /// Whether a pool that is said to have workers has some.
    pub open spec fn wf(self) -> bool {
        self.size > 0 ==> self.has_workers
    }

    /// The pool once it has been adjusted to `new_size` workers.
    pub open spec fn adjusted(self, new_size: usize) -> PoolView {
        if keeps_size(self.size, new_size) {
            self
        } else {
            PoolView { size: new_size, has_workers: true, ..self }
        }
    }

    /// Whether nothing has happened for `idle_threshold` by time `now`.
    pub open spec fn is_idle(self, now: u128, idle_threshold: u128) -> bool {
        if now >= self.last_active {
            now - self.last_active >= idle_threshold
        } else {
            idle_threshold == 0
        }
    }
}

impl ControlThreadPool {
    /// A pool without workers.
    pub fn new(now: u128) -> (pool: ControlThreadPool)
        ensures
            pool@ == (PoolView { size: 0, has_workers: false, last_active: now }),
            pool@.wf(),
    {
        ControlThreadPool { size: 0, has_workers: false, last_active: now }
    }

    /// How many workers the pool has.
    pub fn size(&self) -> (size: usize)
        ensures
            size == self@.size,
    {
        self.size
    }

    /// Lazily adjust the thread pool's size
    ///
    /// Resizing if the thread pool need to expend or there
    /// are too many idle threads. Otherwise do nothing.
    /// Returns whether a pool of `new_size` workers is to take the place of the one
    /// there is.
    pub fn adjust_with(&mut self, new_size: usize) -> (replace: bool)
        requires
            old(self)@.wf(),
        ensures
            final(self)@ == old(self)@.adjusted(new_size),
            final(self)@.wf(),
            keeps_size(final(self)@.size, new_size),
            new_size > 0 ==> final(self)@.has_workers,
            replace <==> !keeps_size(old(self)@.size, new_size),
    {
        if self.size >= new_size && self.size - new_size <= MAX_IDLE_WORKERS {
            return false;
        }
        self.size = new_size;
        self.has_workers = true;
        true
    }

    /// Records that the pool was in use.
    pub fn heartbeat(&mut self, now: u128)
        ensures
            final(self)@ == (PoolView { last_active: now, ..old(self)@ }),
    {
        self.last_active = now;
    }

    /// Shutdown the thread pool if it has been idle for a long time.
    /// Returns whether there are workers to be dropped.
    pub fn check_active(&mut self, now: u128, idle_threshold: u128) -> (drop_workers: bool)
        requires
            old(self)@.wf(),
        ensures
            final(self)@ == if old(self)@.is_idle(now, idle_threshold) {
                PoolView { size: 0, has_workers: false, ..old(self)@ }
            } else {
                old(self)@
            },
            final(self)@.wf(),
            drop_workers <==> old(self)@.is_idle(now, idle_threshold) && old(self)@.has_workers,
    {
        let idle: u128 = if now >= self.last_active {
            now - self.last_active
        } else {
            0
        };
        if idle >= idle_threshold {
            self.size = 0;
            let had_workers = self.has_workers;
            self.has_workers = false;
            return had_workers;
        }
        false
    }
}

/// Adjusting to the same size again changes nothing.
pub proof fn adjusting_is_idempotent(pool: PoolView, size: usize)
    ensures
        pool.adjusted(size).adjusted(size) == pool.adjusted(size),
{
}

/// After it has been adjusted, a pool has the workers that are needed and at most ten
/// more. It is left alone if that was so before, and otherwise has exactly as many as are
/// needed. Its last use is not touched.
pub proof fn adjusted_pool_fits(pool: PoolView, needed: usize)
    ensures
        needed <= pool.adjusted(needed).size <= needed + 10,
        needed <= pool.size <= needed + 10 ==> pool.adjusted(needed) == pool,
        !(needed <= pool.size <= needed + 10) ==> {
            &&& pool.adjusted(needed).size == needed
            &&& pool.adjusted(needed).has_workers
        },
        pool.adjusted(needed).last_active == pool.last_active,
        keeps_size(pool.size, needed) <==> needed <= pool.size <= needed + 10,
{
}

/// A pool that was last used at some time is idle as soon as the threshold has passed since
/// then, and not before.
pub proof fn pool_is_idle_after_threshold(pool: PoolView, passed: u128, threshold: u128)
    requires
        pool.last_active + passed <= u128::MAX,
    ensures
        pool.is_idle((pool.last_active + passed) as u128, threshold) <==> passed >= threshold,
{
}

} // verus!
