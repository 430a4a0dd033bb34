//! What a whole task reports, when several workers share its progress.

use vstd::multiset::Multiset;
use vstd::prelude::*;

use crate::coverage::{
    plan, plan_has_no_duplicates, region_table, step_ranges, steps_follow_plan, steps_progress, steps_ranges,
};
use crate::progress::ProgressView;
use crate::range::BackupRangeView;
use crate::region::RegionInfoView;
use crate::worker::{WorkerPhase, WorkerReplyView, WorkerView, WORKER_TAKE_RANGE};
use crate::worker_laws::{
    actions_after, answers, exited_worker_has_reported, fresh, goes_well, ranges_are_worked_off,
    ranges_in, reported, reports_in, state_after,
};

verus! {

/// The limits of `n` steps as workers take them.
pub open spec fn worker_limits(n: nat) -> Seq<nat> {
    Seq::new(n, |i: int| WORKER_TAKE_RANGE as nat)
}

/// The ranges that worker `w` gets if `owners` tells which worker takes which step.
pub open spec fn taken_by(
    regions: Seq<RegionInfoView>,
    progress: ProgressView,
    owners: Seq<int>,
    w: int,
) -> Seq<BackupRangeView>
    decreases owners.len(),
{
    if owners.len() == 0 {
        Seq::empty()
    } else {
        let ranges = step_ranges(regions, progress, WORKER_TAKE_RANGE as nat);
        let rest = taken_by(regions, progress.after(ranges), owners.skip(1), w);
        if owners[0] == w {
            ranges + rest
        } else {
            rest
        }
    }
}

/// What the first `n` workers get together.
pub open spec fn taken_by_all(
    regions: Seq<RegionInfoView>,
    progress: ProgressView,
    owners: Seq<int>,
    n: nat,
) -> Multiset<BackupRangeView>
    decreases n,
{
    if n == 0 {
        Multiset::empty()
    } else {
        taken_by_all(regions, progress, owners, (n - 1) as nat).add(
            taken_by(regions, progress, owners, n - 1).to_multiset(),
        )
    }
}

/// What the first `n` workers report together, where `runs` are their replies.
pub open spec fn reported_by_all(
    workers: Seq<WorkerView>,
    runs: Seq<Seq<WorkerReplyView>>,
    n: nat,
) -> Multiset<BackupRangeView>
    decreases n,
{
    if n == 0 {
        Multiset::empty()
    } else {
        reported_by_all(workers, runs, (n - 1) as nat).add(
            reports_in(actions_after(workers[n - 1].begin().0, runs[n - 1])).to_multiset(),
        )
    }
}

/// The first step goes to its owner, and to nobody else.
proof fn lemma_first_step(
    regions: Seq<RegionInfoView>,
    progress: ProgressView,
    owners: Seq<int>,
    n: nat,
)
    requires
        owners.len() > 0,
    ensures
        ({
            let ranges = step_ranges(regions, progress, WORKER_TAKE_RANGE as nat);
            let rest = taken_by_all(regions, progress.after(ranges), owners.skip(1), n);
            taken_by_all(regions, progress, owners, n) == if 0 <= owners[0] < n {
                ranges.to_multiset().add(rest)
            } else {
                rest
            }
        }),
    decreases n,
{
    broadcast use vstd::multiset::group_multiset_properties;

    let ranges = step_ranges(regions, progress, WORKER_TAKE_RANGE as nat);
    let next = progress.after(ranges);
    if n > 0 {
        let w = n - 1;
        lemma_first_step(regions, progress, owners, w as nat);
        let rest = taken_by(regions, next, owners.skip(1), w);
        let all = taken_by_all(regions, progress, owners, n);
        let fewer = taken_by_all(regions, next, owners.skip(1), w as nat);
        if owners[0] == w {
            vstd::seq_lib::lemma_multiset_commutative(ranges, rest);
            assert(all =~= ranges.to_multiset().add(
                fewer.add(rest.to_multiset()),
            ));
        } else if 0 <= owners[0] < w {
            assert(all =~= ranges.to_multiset().add(
                fewer.add(rest.to_multiset()),
            ));
        }
    }
}

/// Whoever takes which step, together the workers get what the steps hand out.
pub proof fn workers_share_the_steps(
    regions: Seq<RegionInfoView>,
    progress: ProgressView,
    owners: Seq<int>,
    n: nat,
)
    requires
        forall|i: int| 0 <= i < owners.len() ==> 0 <= #[trigger] owners[i] < n,
    ensures
        taken_by_all(regions, progress, owners, n) == steps_ranges(
            regions,
            progress,
            worker_limits(owners.len()),
        ).to_multiset(),
    decreases owners.len(),
{
    let limits = worker_limits(owners.len());
    if owners.len() == 0 {
        lemma_nothing_taken(regions, progress, owners, n);
        assert(steps_ranges(regions, progress, limits).to_multiset() =~= Multiset::empty()) by {
            vstd::seq_lib::to_multiset_len(steps_ranges(regions, progress, limits));
        }
    } else {
        let ranges = step_ranges(regions, progress, WORKER_TAKE_RANGE as nat);
        let next = progress.after(ranges);
        let rest = owners.skip(1);
        assert forall|i: int| 0 <= i < rest.len() implies 0 <= #[trigger] rest[i] < n by {
            assert(rest[i] == owners[i + 1]);
        }
        assert(owners[0] < n);
        lemma_first_step(regions, progress, owners, n);
        workers_share_the_steps(regions, next, rest, n);
        assert(limits.skip(1) =~= worker_limits(rest.len()));
        vstd::seq_lib::lemma_multiset_commutative(
            ranges,
            steps_ranges(regions, next, limits.skip(1)),
        );
    }
}

proof fn lemma_nothing_taken(
    regions: Seq<RegionInfoView>,
    progress: ProgressView,
    owners: Seq<int>,
    n: nat,
)
    requires
        owners.len() == 0,
    ensures
        taken_by_all(regions, progress, owners, n) == Multiset::<BackupRangeView>::empty(),
    decreases n,
{
    if n > 0 {
        lemma_nothing_taken(regions, progress, owners, (n - 1) as nat);
        let none = Seq::<BackupRangeView>::empty();
        vstd::seq_lib::to_multiset_len(none);
        assert(taken_by_all(regions, progress, owners, n) =~= Multiset::empty());
    }
}

proof fn lemma_reports_are_takings(
    regions: Seq<RegionInfoView>,
    progress: ProgressView,
    owners: Seq<int>,
    workers: Seq<WorkerView>,
    runs: Seq<Seq<WorkerReplyView>>,
    n: nat,
)
    requires
        n <= workers.len(),
        runs.len() == workers.len(),
        forall|w: int|
            0 <= w < workers.len() ==> {
                &&& fresh(#[trigger] workers[w])
                &&& answers(workers[w].begin().0, runs[w])
                &&& state_after(workers[w].begin().0, runs[w]).phase == WorkerPhase::Exited
                &&& goes_well(runs[w])
                &&& ranges_in(runs[w]) == taken_by(regions, progress, owners, w)
            },
    ensures
        reported_by_all(workers, runs, n) == taken_by_all(regions, progress, owners, n),
    decreases n,
{
    if n > 0 {
        lemma_reports_are_takings(regions, progress, owners, workers, runs, (n - 1) as nat);
        exited_worker_has_reported(workers[n - 1], runs[n - 1]);
    }
}

/// A task whose workers all run to their end without cancellation or failure
/// reports each range of its plan exactly once, however many workers there are and
/// whoever of them takes which step.
pub proof fn task_reports_its_plan(
    regions: Seq<RegionInfoView>,
    progress: ProgressView,
    owners: Seq<int>,
    workers: Seq<WorkerView>,
    runs: Seq<Seq<WorkerReplyView>>,
)
    requires
        region_table(regions, progress.store_id),
        runs.len() == workers.len(),
        forall|i: int| 0 <= i < owners.len() ==> 0 <= #[trigger] owners[i] < workers.len(),
        forall|w: int|
            0 <= w < workers.len() ==> {
                &&& fresh(#[trigger] workers[w])
                &&& answers(workers[w].begin().0, runs[w])
                &&& state_after(workers[w].begin().0, runs[w]).phase == WorkerPhase::Exited
                &&& goes_well(runs[w])
                &&& ranges_in(runs[w]) == taken_by(regions, progress, owners, w)
            },
        steps_progress(regions, progress, worker_limits(owners.len())).finished,
    ensures
        reported_by_all(workers, runs, workers.len()) == plan(regions, progress).to_multiset(),
{
    let limits = worker_limits(owners.len());
    lemma_reports_are_takings(regions, progress, owners, workers, runs, workers.len());
    workers_share_the_steps(regions, progress, owners, workers.len());
    assert forall|i: int| 0 <= i < limits.len() implies #[trigger] limits[i] > 0 by {}
    steps_follow_plan(regions, progress, limits);
    assert(plan(regions, progress) =~= steps_ranges(regions, progress, limits));
}

/// The front of a sequence holds nothing more often than the whole.
proof fn lemma_front_is_contained<A>(s: Seq<A>, n: int)
    requires
        0 <= n <= s.len(),
    ensures
        s.take(n).to_multiset().subset_of(s.to_multiset()),
{
    broadcast use vstd::multiset::group_multiset_axioms;

    assert(s.take(n) + s.skip(n) =~= s);
    vstd::seq_lib::lemma_multiset_commutative(s.take(n), s.skip(n));
}

/// However far the workers have come, together they have reported only what they have
/// taken.
proof fn lemma_reports_are_taken(
    regions: Seq<RegionInfoView>,
    progress: ProgressView,
    owners: Seq<int>,
    workers: Seq<WorkerView>,
    runs: Seq<Seq<WorkerReplyView>>,
    n: nat,
)
    requires
        n <= workers.len(),
        runs.len() == workers.len(),
        forall|w: int|
            0 <= w < workers.len() ==> {
                &&& fresh(#[trigger] workers[w])
                &&& answers(workers[w].begin().0, runs[w])
                &&& ranges_in(runs[w]) == taken_by(regions, progress, owners, w)
            },
    ensures
        reported_by_all(workers, runs, n).subset_of(taken_by_all(regions, progress, owners, n)),
    decreases n,
{
    broadcast use vstd::multiset::group_multiset_axioms;

    if n > 0 {
        let w = n - 1;
        lemma_reports_are_taken(regions, progress, owners, workers, runs, w as nat);
        ranges_are_worked_off(workers[w], runs[w]);
        let now = state_after(workers[w].begin().0, runs[w]);
        let taken = ranges_in(runs[w]);
        lemma_front_is_contained(taken, taken.len() - now.ranges.len() + reported(now));
    }
}

/// At any time, and whether or not workers have failed or found the task canceled,
/// what they have reported together is contained in the plan, and no range has been
/// reported twice.
pub proof fn nothing_is_reported_twice(
    regions: Seq<RegionInfoView>,
    progress: ProgressView,
    owners: Seq<int>,
    workers: Seq<WorkerView>,
    runs: Seq<Seq<WorkerReplyView>>,
)
    requires
        region_table(regions, progress.store_id),
        runs.len() == workers.len(),
        forall|i: int| 0 <= i < owners.len() ==> 0 <= #[trigger] owners[i] < workers.len(),
        forall|w: int|
            0 <= w < workers.len() ==> {
                &&& fresh(#[trigger] workers[w])
                &&& answers(workers[w].begin().0, runs[w])
                &&& ranges_in(runs[w]) == taken_by(regions, progress, owners, w)
            },
    ensures
        reported_by_all(workers, runs, workers.len()).subset_of(
            plan(regions, progress).to_multiset(),
        ),
        forall|range: BackupRangeView|
            (#[trigger] reported_by_all(workers, runs, workers.len()).count(range)) <= 1,
{
    broadcast use vstd::multiset::group_multiset_axioms;

    let limits = worker_limits(owners.len());
    let handed_out = steps_ranges(regions, progress, limits);
    let all = plan(regions, progress);
    lemma_reports_are_taken(regions, progress, owners, workers, runs, workers.len());
    workers_share_the_steps(regions, progress, owners, workers.len());
    assert forall|i: int| 0 <= i < limits.len() implies #[trigger] limits[i] > 0 by {}
    steps_follow_plan(regions, progress, limits);
    assert(all.take(handed_out.len() as int) =~= handed_out);
    lemma_front_is_contained(all, handed_out.len() as int);
    plan_has_no_duplicates(regions, progress);
    all.lemma_multiset_has_no_duplicates();
}

} // verus!
