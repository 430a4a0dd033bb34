//! What a backup covers: the ranges handed out step by step are exactly the led
//! parts of the requested key range, however the steps are sized.

use vstd::prelude::*;

use crate::keys::{
    in_range, key_le_lt_transitive, key_lt, key_lt_asymmetric, key_lt_irreflexive,
    key_lt_le_transitive, key_lt_total, key_lt_transitive, max_start, stored_bound,
};
use crate::progress::{before_end, is_led, selected, starts_past, ProgressView};
use crate::range::{clip_is_intersection, BackupRangeView};
use crate::region::{RegionInfoView, StateRole};

verus! {

/// A consistent picture of the regions: in key order, without overlap, none of
/// them empty, and each region that is led from store `store_id` with a peer there.
pub open spec fn region_table(regions: Seq<RegionInfoView>, store_id: u64) -> bool {
    &&& forall|i: int|
        0 <= i < regions.len() ==> (#[trigger] regions[i]).region.end_key.len() == 0 || key_lt(
            regions[i].region.start_key,
            regions[i].region.end_key,
        )
    &&& forall|i: int, j: int|
        0 <= i < j < regions.len() ==> (#[trigger] regions[i]).region.end_key.len() > 0 && !key_lt(
            (#[trigger] regions[j]).region.start_key,
            regions[i].region.end_key,
        )
    &&& forall|i: int|
        0 <= i < regions.len() && (#[trigger] regions[i]).role == StateRole::Leader
            ==> regions[i].region.has_peer_on(store_id)
}

/// Whether a region reaches past key `from`.
pub open spec fn ends_past(from: Seq<u8>) -> spec_fn(RegionInfoView) -> bool {
    |info: RegionInfoView|
        info.region.end_key.len() == 0 || key_lt(from, info.region.end_key)
}

/// The regions found by looking up key `from`: all that reach past it.
pub open spec fn seek(regions: Seq<RegionInfoView>, from: Seq<u8>) -> Seq<RegionInfoView> {
    regions.filter(ends_past(from))
}

/// Whether what is left to back up does not start where it ends.
pub open spec fn ends_differ(progress: ProgressView) -> bool {
    progress.next_start is Some ==> progress.next_start != progress.end_key
}

/// Whether what is left to back up starts before it ends.
spec fn has_room(progress: ProgressView) -> bool {
    progress.next_start matches Some(s) ==> progress.end_key matches Some(e) ==> key_lt(s, e)
}

/// The ranges that one step takes out of a table of regions.
pub open spec fn step_ranges(
    regions: Seq<RegionInfoView>,
    progress: ProgressView,
    limit: nat,
) -> Seq<BackupRangeView> {
    progress.ranges(seek(regions, progress.seek_key()), limit)
}

/// All ranges that are left to back up, as one step without a limit would hand
/// them out.
pub open spec fn plan(regions: Seq<RegionInfoView>, progress: ProgressView) -> Seq<
    BackupRangeView,
> {
    step_ranges(regions, progress, regions.len())
}

/// What steps with the given limits hand out in turn.
pub open spec fn steps_ranges(
    regions: Seq<RegionInfoView>,
    progress: ProgressView,
    limits: Seq<nat>,
) -> Seq<BackupRangeView>
    decreases limits.len(),
{
    if limits.len() == 0 {
        Seq::empty()
    } else {
        let ranges = step_ranges(regions, progress, limits[0]);
        ranges + steps_ranges(regions, progress.after(ranges), limits.skip(1))
    }
}

/// Where steps with the given limits leave the progress.
pub open spec fn steps_progress(
    regions: Seq<RegionInfoView>,
    progress: ProgressView,
    limits: Seq<nat>,
) -> ProgressView
    decreases limits.len(),
{
    if limits.len() == 0 {
        progress
    } else {
        let ranges = step_ranges(regions, progress, limits[0]);
        steps_progress(regions, progress.after(ranges), limits.skip(1))
    }
}

/// A lookup in a table finds a suffix of it.
pub(crate) proof fn lemma_seek_suffix(regions: Seq<RegionInfoView>, from: Seq<u8>, store_id: u64) -> (k: int)
    requires
        region_table(regions, store_id),
    ensures
        0 <= k <= regions.len(),
        seek(regions, from) == regions.skip(k),
        forall|i: int| 0 <= i < k ==> !ends_past(from)(#[trigger] regions[i]),
        forall|i: int| k <= i < regions.len() ==> ends_past(from)(#[trigger] regions[i]),
    decreases regions.len(),
{
    reveal(Seq::filter);
    if regions.len() == 0 {
        assert(regions.skip(0) =~= regions);
        0
    } else {
        let front = regions.drop_last();
        let last = regions.last();
        assert forall|i: int| 0 <= i < front.len() implies #[trigger] front[i] == regions[i] by {}
        let k = lemma_seek_suffix(front, from, store_id);
        if ends_past(from)(last) {
            assert(front.skip(k).push(last) =~= regions.skip(k));
            assert forall|i: int| k <= i < regions.len() implies ends_past(from)(
                #[trigger] regions[i],
            ) by {
                if i < front.len() {
                    assert(front[i] == regions[i]);
                }
            }
            assert forall|i: int| 0 <= i < k implies !ends_past(from)(#[trigger] regions[i]) by {
                assert(front[i] == regions[i]);
            }
            k
        } else {
            if k < front.len() {
                let i = front.len() - 1;
                assert(ends_past(from)(front[i]));
                assert(regions[i] == front[i]);
                let n = regions.len() - 1;
                key_lt_le_transitive(from, regions[i].region.end_key, regions[n].region.start_key);
                key_lt_transitive(from, regions[n].region.start_key, regions[n].region.end_key);
                assert(false);
            }
            assert(front.skip(k) =~= Seq::empty());
            assert(regions.skip(regions.len() as int) =~= Seq::empty());
            assert forall|i: int| 0 <= i < regions.len() implies !ends_past(from)(
                #[trigger] regions[i],
            ) by {
                if i < front.len() {
                    assert(front[i] == regions[i]);
                }
            }
            regions.len() as int
        }
    }
}

/// What comes before the end of a backup is a prefix.
pub(crate) proof fn lemma_before_end_prefix(infos: Seq<RegionInfoView>, end: Option<Seq<u8>>) -> (m: int)
    ensures
        0 <= m <= infos.len(),
        before_end(infos, end) == infos.take(m),
        forall|i: int| 0 <= i < m ==> !starts_past(#[trigger] infos[i], end),
        m < infos.len() ==> starts_past(infos[m], end),
    decreases infos.len(),
{
    if infos.len() == 0 || starts_past(infos[0], end) {
        assert(infos.take(0) =~= Seq::empty());
        0
    } else {
        let m = lemma_before_end_prefix(infos.skip(1), end);
        assert(seq![infos[0]] + infos.skip(1).take(m) =~= infos.take(m + 1));
        assert forall|i: int| 0 <= i < m + 1 implies !starts_past(#[trigger] infos[i], end) by {
            if i > 0 {
                assert(infos.skip(1)[i - 1] == infos[i]);
            }
        }
        m + 1
    }
}

/// In a table every region after one that starts past the end does so too.
proof fn lemma_past_stays_past(
    regions: Seq<RegionInfoView>,
    store_id: u64,
    end: Option<Seq<u8>>,
    i: int,
    j: int,
)
    requires
        region_table(regions, store_id),
        0 <= i <= j < regions.len(),
        starts_past(regions[i], end),
    ensures
        starts_past(regions[j], end),
{
    if i < j && !starts_past(regions[j], end) {
        let e = end.unwrap();
        let a = regions[i].region;
        let b = regions[j].region;
        key_lt_le_transitive(a.start_key, a.end_key, b.start_key);
        key_lt_transitive(a.start_key, b.start_key, e);
    }
}

/// Where the `n`-th item of a filtered sequence stands, and what is around it.
proof fn lemma_filter_split<A>(s: Seq<A>, pred: spec_fn(A) -> bool, n: int) -> (t: int)
    requires
        0 < n <= s.filter(pred).len(),
    ensures
        0 <= t < s.len(),
        pred(s[t]),
        s[t] == s.filter(pred)[n - 1],
        s.take(t + 1).filter(pred) == s.filter(pred).take(n),
        s.skip(t + 1).filter(pred) == s.filter(pred).skip(n),
    decreases s.len(),
{
    reveal(Seq::filter);
    let front = s.drop_last();
    let kept = s.filter(pred);
    if n <= front.filter(pred).len() {
        let t = lemma_filter_split(front, pred, n);
        assert(s.take(t + 1) =~= front.take(t + 1));
        assert(s.skip(t + 1).drop_last() =~= front.skip(t + 1));
        assert(s.skip(t + 1).last() == s.last());
        assert(kept.take(n) =~= front.filter(pred).take(n));
        if pred(s.last()) {
            assert(kept.skip(n) =~= front.filter(pred).skip(n).push(s.last()));
        }
        t
    } else {
        let t = s.len() - 1;
        assert(s.take(t + 1) =~= s);
        assert(s.skip(t + 1) =~= Seq::empty());
        assert(kept.take(n) =~= kept);
        assert(kept.skip(n) =~= Seq::empty());
        t
    }
}

/// Every item of a filtered sequence stands somewhere in the sequence.
pub(crate) proof fn lemma_filter_origin<A>(s: Seq<A>, pred: spec_fn(A) -> bool, n: int) -> (t: int)
    requires
        0 <= n < s.filter(pred).len(),
    ensures
        0 <= t < s.len(),
        s[t] == s.filter(pred)[n],
        pred(s[t]),
{
    lemma_filter_split(s, pred, n + 1)
}

/// What a selected region is known to satisfy.
proof fn lemma_selected_region(
    regions: Seq<RegionInfoView>,
    progress: ProgressView,
    limit: nat,
    n: int,
) -> (t: int)
    requires
        region_table(regions, progress.store_id),
        0 <= n < selected(seek(regions, progress.seek_key()), progress.end_key, limit).len(),
    ensures
        0 <= t < regions.len(),
        regions[t] == selected(seek(regions, progress.seek_key()), progress.end_key, limit)[n],
        regions[t].role == StateRole::Leader,
        ends_past(progress.seek_key())(regions[t]),
        !starts_past(regions[t], progress.end_key),
{
    let found = seek(regions, progress.seek_key());
    let k = lemma_seek_suffix(regions, progress.seek_key(), progress.store_id);
    let m = lemma_before_end_prefix(found, progress.end_key);
    let t = lemma_filter_origin(found.take(m), is_led(), n);
    assert(found.take(m)[t] == found[t]);
    assert(found[t] == regions[k + t]);
    k + t
}

/// A clipped region has its start before its end.
proof fn lemma_clip_has_room(regions: Seq<RegionInfoView>, progress: ProgressView, t: int)
    requires
        region_table(regions, progress.store_id),
        has_room(progress),
        0 <= t < regions.len(),
        ends_past(progress.seek_key())(regions[t]),
        !starts_past(regions[t], progress.end_key),
    ensures
        ({
            let range = progress.clip(regions[t].region);
            &&& range.start_key matches Some(s) ==> range.end_key matches Some(e) ==> key_lt(s, e)
            &&& range.start_key is None ==> range.end_key != Some(Seq::<u8>::empty())
            &&& range.end_key is Some ==> range.start_key != range.end_key
        }),
{
    let region = regions[t].region;
    let range = progress.clip(region);
    if let Some(e) = range.end_key {
        if let Some(s) = range.start_key {
            assert(key_lt(s, e));
            key_lt_irreflexive(s);
        } else if e.len() == 0 {
            if let Some(end) = progress.end_key {
                assert(key_lt(region.start_key, end));
            }
        }
    }
}

/// Where a backup starts past its end, so does the clip of every region it finds.
proof fn lemma_clip_of_reversed_bounds(progress: ProgressView, info: RegionInfoView)
    requires
        ends_differ(progress),
        !has_room(progress),
        ends_past(progress.seek_key())(info),
        !starts_past(info, progress.end_key),
    ensures
        progress.clip(info.region).start_key != progress.clip(info.region).end_key,
{
    let s = progress.next_start.unwrap();
    let e = progress.end_key.unwrap();
    let region = info.region;
    key_lt_total(s, e);
    key_lt_transitive(region.start_key, e, s);
    key_lt_asymmetric(region.start_key, s);
    if region.end_key.len() > 0 {
        key_lt_transitive(e, s, region.end_key);
    }
}

/// A step over a table of regions never meets a region it cannot clip: `forward`
/// may be called on whatever a lookup in a table finds.
pub proof fn table_allows_forward(
    regions: Seq<RegionInfoView>,
    progress: ProgressView,
    limit: nat,
)
    requires
        region_table(regions, progress.store_id),
        ends_differ(progress),
    ensures
        progress.can_forward(seek(regions, progress.seek_key()), limit),
{
    let found = seek(regions, progress.seek_key());
    let chosen = selected(found, progress.end_key, limit);
    assert forall|n: int| 0 <= n < chosen.len() implies progress.can_clip(
        (#[trigger] chosen[n]).region,
    ) by {
        let t = lemma_selected_region(regions, progress, limit, n);
        if has_room(progress) {
            lemma_clip_has_room(regions, progress, t);
        } else {
            lemma_clip_of_reversed_bounds(progress, regions[t]);
        }
    }
}

/// One step takes its ranges off the front of the plan and leaves the rest.
pub proof fn step_takes_front_of_plan(
    regions: Seq<RegionInfoView>,
    progress: ProgressView,
    limit: nat,
)
    requires
        region_table(regions, progress.store_id),
        limit > 0,
    ensures
        plan(regions, progress) == step_ranges(regions, progress, limit) + plan(
            regions,
            progress.after(step_ranges(regions, progress, limit)),
        ),
{
    let ranges = step_ranges(regions, progress, limit);
    let next = progress.after(ranges);
    if progress.finished {
        assert(plan(regions, progress) =~= ranges + plan(regions, next));
    } else {
        let end = progress.end_key;
        let from = progress.seek_key();
        let found = seek(regions, from);
        let k = lemma_seek_suffix(regions, from, progress.store_id);
        let m = lemma_before_end_prefix(found, end);
        let prefix = found.take(m);
        let led = prefix.filter(is_led());
        prefix.lemma_filter_len(is_led());
        assert(led.len() <= regions.len());
        assert(selected(found, end, regions.len()) == led);
        let all = plan(regions, progress);
        let n: int = if led.len() <= limit {
            led.len() as int
        } else {
            limit as int
        };
        assert(ranges.len() == n);
        assert forall|i: int| 0 <= i < n implies #[trigger] ranges[i] == progress.clip(
            led[i].region,
        ) by {}
        if n == 0 {
            assert(all =~= ranges + plan(regions, next));
        } else {
            let t = lemma_filter_split(prefix, is_led(), n);
            let q = k + t;
            assert(prefix[t] == found[t]);
            assert(regions[q] == found[t]);
            let last = regions[q].region;
            assert(ends_past(from)(regions[q]));
            assert(ranges.last() == progress.clip(last));
            if next.finished {
                if t + 1 < m {
                    assert(found[t + 1] == regions[q + 1]);
                    assert(!starts_past(found[t + 1], end));
                    assert(last.end_key.len() > 0);
                    assert(!key_lt(regions[q + 1].region.start_key, last.end_key));
                    let e = end.unwrap();
                    if key_lt(e, last.end_key) {
                        key_lt_asymmetric(e, last.end_key);
                    } else {
                        key_lt_irreflexive(e);
                    }
                    key_lt_le_transitive(regions[q + 1].region.start_key, e, last.end_key);
                    assert(false);
                }
                assert(prefix.skip(t + 1) =~= Seq::empty());
                assert(prefix.skip(t + 1).filter(is_led()) =~= Seq::empty()) by {
                    reveal(Seq::filter);
                }
                assert(led.skip(n).len() == 0);
                assert(all =~= ranges + plan(regions, next));
            } else {
                assert forall|i: int| k <= i < k + m implies !starts_past(
                    #[trigger] regions[i],
                    end,
                ) by {
                    assert(found[i - k] == regions[i]);
                }
                lemma_rest_of_plan(regions, progress, next, k, t, m);
                let rest = prefix.skip(t + 1).filter(is_led());
                let tail = plan(regions, next);
                assert(rest == led.skip(n));
                assert(all.len() == led.len());
                assert forall|i: int| 0 <= i < all.len() implies all[i] == (ranges + tail)[i] by {
                    if i >= n {
                        assert(tail[i - n] == progress.clip(rest[i - n].region));
                        assert(rest[i - n] == led[i]);
                    }
                }
                assert(all =~= ranges + tail);
            }
        }
    }
}

/// After a step that ended with the region at `k + t`, what is left are the led
/// regions behind it, clipped as they would have been before the step.
proof fn lemma_rest_of_plan(
    regions: Seq<RegionInfoView>,
    progress: ProgressView,
    next: ProgressView,
    k: int,
    t: int,
    m: int,
)
    requires
        region_table(regions, progress.store_id),
        !progress.finished,
        !next.finished,
        0 <= k,
        0 <= t < m,
        k + m <= regions.len(),
        forall|i: int| k <= i < k + m ==> !starts_past(#[trigger] regions[i], progress.end_key),
        k + m < regions.len() ==> starts_past(regions[k + m], progress.end_key),
        ends_past(progress.seek_key())(regions[k + t]),
        regions[k + t].region.end_key.len() > 0,
        next == (ProgressView {
            next_start: Some(regions[k + t].region.end_key),
            ..progress
        }),
    ensures
        ({
            let rest = regions.skip(k).take(m).skip(t + 1).filter(is_led());
            let tail = plan(regions, next);
            &&& tail.len() == rest.len()
            &&& forall|i: int|
                0 <= i < rest.len() ==> #[trigger] tail[i] == progress.clip(rest[i].region)
        }),
{
    let q = k + t;
    let cut = regions[q].region.end_key;
    let found = seek(regions, cut);
    let end = progress.end_key;
    let k2 = lemma_seek_suffix(regions, cut, progress.store_id);
    key_lt_irreflexive(cut);
    assert(!ends_past(cut)(regions[q]));
    if q + 1 < regions.len() {
        let b = regions[q + 1].region;
        assert(!key_lt(b.start_key, cut));
        if b.end_key.len() > 0 {
            key_le_lt_transitive(cut, b.start_key, b.end_key);
        }
        assert(ends_past(cut)(regions[q + 1]));
    }
    assert(k2 == q + 1);
    let m2 = lemma_before_end_prefix(found, end);
    let behind = regions.skip(k).take(m).skip(t + 1);
    if m2 < m - t - 1 {
        assert(found[m2] == regions[q + 1 + m2]);
        assert(false);
    }
    if m2 > m - t - 1 {
        assert(found[m - t - 1] == regions[k + m]);
        assert(false);
    }
    assert(found.take(m2) =~= behind);
    let rest = behind.filter(is_led());
    behind.lemma_filter_len(is_led());
    assert(selected(found, end, regions.len()) == rest);
    let tail = plan(regions, next);
    assert(tail.len() == rest.len());
    assert forall|i: int| 0 <= i < rest.len() implies #[trigger] tail[i] == progress.clip(
        rest[i].region,
    ) by {
        let j = lemma_filter_origin(behind, is_led(), i);
        let region = rest[i].region;
        assert(behind[j] == regions[q + 1 + j]);
        assert(!key_lt(region.start_key, cut));
        assert(region.start_key.len() > 0);
        key_lt_total(region.start_key, cut);
        if let Some(s) = progress.next_start {
            key_lt_le_transitive(s, cut, region.start_key);
        }
        assert(max_start(next.next_start, stored_bound(region.start_key)) == Some(
            region.start_key,
        ));
        assert(max_start(progress.next_start, stored_bound(region.start_key)) == Some(
            region.start_key,
        ));
        assert(tail[i] == next.clip(region));
        assert(next.clip(region) == progress.clip(region));
    }
}

/// However the steps are sized, together they hand out the plan: what they handed
/// out, followed by what is still left, is what was to be backed up.
pub proof fn steps_follow_plan(
    regions: Seq<RegionInfoView>,
    progress: ProgressView,
    limits: Seq<nat>,
)
    requires
        region_table(regions, progress.store_id),
        forall|i: int| 0 <= i < limits.len() ==> #[trigger] limits[i] > 0,
    ensures
        plan(regions, progress) == steps_ranges(regions, progress, limits) + plan(
            regions,
            steps_progress(regions, progress, limits),
        ),
    decreases limits.len(),
{
    if limits.len() == 0 {
        assert(plan(regions, progress) =~= steps_ranges(regions, progress, limits) + plan(
            regions,
            progress,
        ));
    } else {
        let ranges = step_ranges(regions, progress, limits[0]);
        let next = progress.after(ranges);
        step_takes_front_of_plan(regions, progress, limits[0]);
        assert forall|i: int| 0 <= i < limits.skip(1).len() implies #[trigger] limits.skip(1)[i]
            > 0 by {
            assert(limits.skip(1)[i] == limits[i + 1]);
        }
        steps_follow_plan(regions, next, limits.skip(1));
        assert(plan(regions, progress) =~= steps_ranges(regions, progress, limits) + plan(
            regions,
            steps_progress(regions, progress, limits),
        ));
    }
}

/// Steps end: once there have been more of them than there were ranges to hand
/// out, the backup is finished, and together they have handed out the whole plan.
pub proof fn steps_finish(regions: Seq<RegionInfoView>, progress: ProgressView, limits: Seq<nat>)
    requires
        region_table(regions, progress.store_id),
        forall|i: int| 0 <= i < limits.len() ==> #[trigger] limits[i] > 0,
        limits.len() > plan(regions, progress).len(),
    ensures
        steps_progress(regions, progress, limits).finished,
        steps_ranges(regions, progress, limits) == plan(regions, progress),
    decreases limits.len(),
{
    lemma_steps_finish(regions, progress, limits);
    steps_follow_plan(regions, progress, limits);
    assert(steps_ranges(regions, progress, limits) =~= plan(regions, progress));
}

proof fn lemma_steps_finish(
    regions: Seq<RegionInfoView>,
    progress: ProgressView,
    limits: Seq<nat>,
)
    requires
        region_table(regions, progress.store_id),
        forall|i: int| 0 <= i < limits.len() ==> #[trigger] limits[i] > 0,
        progress.finished || limits.len() > plan(regions, progress).len(),
    ensures
        steps_progress(regions, progress, limits).finished,
    decreases limits.len(),
{
    if limits.len() > 0 {
        let ranges = step_ranges(regions, progress, limits[0]);
        let next = progress.after(ranges);
        assert forall|i: int| 0 <= i < limits.skip(1).len() implies #[trigger] limits.skip(1)[i]
            > 0 by {
            assert(limits.skip(1)[i] == limits[i + 1]);
        }
        if !progress.finished {
            step_takes_front_of_plan(regions, progress, limits[0]);
        }
        lemma_steps_finish(regions, next, limits.skip(1));
    }
}

/// The plan holds exactly the requested keys that are in a region the store leads.
pub proof fn plan_covers_led_keys(
    regions: Seq<RegionInfoView>,
    progress: ProgressView,
    k: Seq<u8>,
)
    requires
        region_table(regions, progress.store_id),
        !progress.finished,
    ensures
        (exists|i: int|
            0 <= i < plan(regions, progress).len() && (#[trigger] plan(regions, progress)[i]).holds(
                k,
            )) <==> in_range(k, progress.next_start, progress.end_key) && (exists|j: int|
            0 <= j < regions.len() && (#[trigger] regions[j]).role == StateRole::Leader
                && regions[j].region.holds(k)),
{
    let all = plan(regions, progress);
    let from = progress.seek_key();
    let end = progress.end_key;
    let found = seek(regions, from);
    let first = lemma_seek_suffix(regions, from, progress.store_id);
    let m = lemma_before_end_prefix(found, end);
    let prefix = found.take(m);
    let led = prefix.filter(is_led());
    prefix.lemma_filter_len(is_led());
    assert(selected(found, end, regions.len()) == led);
    if exists|i: int| 0 <= i < all.len() && (#[trigger] all[i]).holds(k) {
        let i = choose|i: int| 0 <= i < all.len() && (#[trigger] all[i]).holds(k);
        let j = lemma_selected_region(regions, progress, regions.len(), i);
        let region = regions[j].region;
        assert(all[i] == progress.clip(region));
        clip_is_intersection(
            k,
            progress.next_start,
            end,
            stored_bound(region.start_key),
            stored_bound(region.end_key),
        );
        assert(regions[j].role == StateRole::Leader && regions[j].region.holds(k));
    }
    if in_range(k, progress.next_start, end) && (exists|j: int|
        0 <= j < regions.len() && (#[trigger] regions[j]).role == StateRole::Leader
            && regions[j].region.holds(k)) {
        let j = choose|j: int|
            0 <= j < regions.len() && (#[trigger] regions[j]).role == StateRole::Leader
                && regions[j].region.holds(k);
        let region = regions[j].region;
        if region.end_key.len() > 0 {
            if progress.next_start is Some {
                key_le_lt_transitive(from, k, region.end_key);
            }
        }
        assert(ends_past(from)(regions[j]));
        assert(j >= first);
        if let Some(e) = end {
            if region.start_key.len() > 0 {
                key_le_lt_transitive(region.start_key, k, e);
            } else {
                assert(e.len() > 0);
            }
        }
        assert(!starts_past(regions[j], end));
        if j - first >= m {
            assert(found[m] == regions[first + m]);
            lemma_past_stays_past(regions, progress.store_id, end, first + m, j);
        }
        assert(prefix[j - first] == regions[j]);
        prefix.lemma_filter_contains(is_led(), j - first);
        let i = led.index_of(regions[j]);
        assert(led[i] == regions[j]);
        assert(all[i] == progress.clip(region));
        clip_is_intersection(
            k,
            progress.next_start,
            end,
            stored_bound(region.start_key),
            stored_bound(region.end_key),
        );
        assert(all[i].holds(k));
    }
}

/// The plan is in key order and no key is in two of its ranges: each range ends
/// where or before the next one starts.
pub proof fn plan_is_disjoint(
    regions: Seq<RegionInfoView>,
    progress: ProgressView,
    i: int,
    j: int,
    k: Seq<u8>,
)
    requires
        region_table(regions, progress.store_id),
        0 <= i < j < plan(regions, progress).len(),
    ensures
        plan(regions, progress)[i].end_key matches Some(e) && plan(
            regions,
            progress,
        )[j].start_key matches Some(s) && !key_lt(s, e),
        !(plan(regions, progress)[i].holds(k) && plan(regions, progress)[j].holds(k)),
{
    let (a, b) = lemma_selected_in_order(regions, progress, i, j);
    let all = plan(regions, progress);
    lemma_clips_in_order(regions, progress, a, b);
    let e = all[i].end_key.unwrap();
    let s = all[j].start_key.unwrap();
    if key_lt(k, e) && !key_lt(k, s) {
        key_lt_le_transitive(k, e, s);
    }
}

/// The regions behind two ranges of a plan stand in the table in the same order.
proof fn lemma_selected_in_order(
    regions: Seq<RegionInfoView>,
    progress: ProgressView,
    i: int,
    j: int,
) -> (ab: (int, int))
    requires
        region_table(regions, progress.store_id),
        0 <= i < j < plan(regions, progress).len(),
    ensures
        0 <= ab.0 < ab.1 < regions.len(),
        plan(regions, progress)[i] == progress.clip(regions[ab.0].region),
        plan(regions, progress)[j] == progress.clip(regions[ab.1].region),
        ends_past(progress.seek_key())(regions[ab.0]),
{
    let found = seek(regions, progress.seek_key());
    let k = lemma_seek_suffix(regions, progress.seek_key(), progress.store_id);
    let m = lemma_before_end_prefix(found, progress.end_key);
    let prefix = found.take(m);
    let led = prefix.filter(is_led());
    prefix.lemma_filter_len(is_led());
    assert(selected(found, progress.end_key, regions.len()) == led);
    let a = lemma_filter_split(prefix, is_led(), i + 1);
    let rest = prefix.skip(a + 1);
    assert(rest.filter(is_led())[j - i - 1] == led[j]);
    let b = lemma_filter_origin(rest, is_led(), j - i - 1);
    assert(rest[b] == prefix[a + 1 + b]);
    assert(prefix[a] == regions[k + a]);
    assert(prefix[a + 1 + b] == regions[k + a + 1 + b]);
    (k + a, k + a + 1 + b)
}

/// Of two regions in order, the first one's clip ends before the second one's starts.
proof fn lemma_clips_in_order(
    regions: Seq<RegionInfoView>,
    progress: ProgressView,
    a: int,
    b: int,
)
    requires
        region_table(regions, progress.store_id),
        0 <= a < b < regions.len(),
        ends_past(progress.seek_key())(regions[a]),
    ensures
        progress.clip(regions[a].region).end_key matches Some(e) && progress.clip(
            regions[b].region,
        ).start_key matches Some(s) && !key_lt(s, e),
{
    let x = regions[a].region;
    let y = regions[b].region;
    assert(x.end_key.len() > 0 && !key_lt(y.start_key, x.end_key));
    assert(y.start_key.len() > 0);
    let e = progress.clip(x).end_key.unwrap();
    let s = progress.clip(y).start_key.unwrap();
    if key_lt(s, e) {
        // e is at most x.end_key, which is at most y.start_key, which is at most s.
        if let Some(end) = progress.end_key {
            if key_lt(end, x.end_key) {
                key_lt_transitive(s, end, x.end_key);
            }
        }
        assert(key_lt(s, x.end_key));
        key_lt_le_transitive(s, x.end_key, y.start_key);
        key_lt_irreflexive(s);
    }
}

/// No range is in the plan twice.
pub proof fn plan_has_no_duplicates(regions: Seq<RegionInfoView>, progress: ProgressView)
    requires
        region_table(regions, progress.store_id),
    ensures
        plan(regions, progress).no_duplicates(),
{
    let all = plan(regions, progress);
    assert forall|i: int, j: int|
        0 <= i < all.len() && 0 <= j < all.len() && i != j implies all[i] != all[j] by {
        if i < j {
            lemma_ranges_differ(regions, progress, i, j);
        } else {
            lemma_ranges_differ(regions, progress, j, i);
        }
    }
}

/// Two ranges of a plan are parts of different regions.
proof fn lemma_ranges_differ(
    regions: Seq<RegionInfoView>,
    progress: ProgressView,
    i: int,
    j: int,
)
    requires
        region_table(regions, progress.store_id),
        0 <= i < j < plan(regions, progress).len(),
    ensures
        plan(regions, progress)[i] != plan(regions, progress)[j],
{
    let (a, b) = lemma_selected_in_order(regions, progress, i, j);
    let x = regions[a].region;
    let y = regions[b].region;
    key_lt_le_transitive(x.start_key, x.end_key, y.start_key);
    key_lt_irreflexive(x.start_key);
}

/// Where steps leave the progress when each of them has regions and a limit of its
/// own.
pub open spec fn changing_progress(
    progress: ProgressView,
    steps: Seq<(Seq<RegionInfoView>, nat)>,
) -> ProgressView
    decreases steps.len(),
{
    if steps.len() == 0 {
        progress
    } else {
        let ranges = step_ranges(steps[0].0, progress, steps[0].1);
        changing_progress(progress.after(ranges), steps.skip(1))
    }
}

/// Whether a backup will not come back to key `k`: it is finished, or what is left
/// starts behind the key.
spec fn is_behind(progress: ProgressView, k: Seq<u8>) -> bool {
    progress.finished || (has_room(progress) && (progress.next_start matches Some(c) && key_lt(
        k,
        c,
    )))
}

/// A step that does not finish a backup ends with a range that is not empty, and
/// what is left starts where that range ends.
proof fn lemma_step_leaves_room(regions: Seq<RegionInfoView>, progress: ProgressView, limit: nat)
    requires
        region_table(regions, progress.store_id),
        has_room(progress),
        !progress.finished,
        !progress.after(step_ranges(regions, progress, limit)).finished,
    ensures
        ({
            let ranges = step_ranges(regions, progress, limit);
            let next = progress.after(ranges);
            &&& ranges.len() > 0
            &&& has_room(next)
            &&& next.next_start is Some
            &&& next.next_start == ranges.last().end_key
            &&& ranges.last().start_key == max_start(
                progress.next_start,
                stored_bound(ranges.last().region.start_key),
            )
            &&& ranges.last().start_key matches Some(s) ==> key_lt(s, next.next_start.unwrap())
        }),
{
    let ranges = step_ranges(regions, progress, limit);
    let next = progress.after(ranges);
    let t = lemma_selected_region(regions, progress, limit, ranges.len() - 1);
    let region = regions[t].region;
    assert(ranges.last() == progress.clip(region));
    lemma_clip_has_room(regions, progress, t);
    if let Some(e) = progress.end_key {
        key_lt_total(e, region.end_key);
    }
}

/// Once a backup is behind a key, it stays behind it.
proof fn lemma_stays_behind(
    progress: ProgressView,
    steps: Seq<(Seq<RegionInfoView>, nat)>,
    k: Seq<u8>,
)
    requires
        forall|i: int|
            0 <= i < steps.len() ==> region_table((#[trigger] steps[i]).0, progress.store_id),
        is_behind(progress, k),
    ensures
        is_behind(changing_progress(progress, steps), k),
    decreases steps.len(),
{
    if steps.len() > 0 {
        let ranges = step_ranges(steps[0].0, progress, steps[0].1);
        let next = progress.after(ranges);
        if !next.finished {
            lemma_step_leaves_room(steps[0].0, progress, steps[0].1);
            let c = progress.next_start.unwrap();
            let s = ranges.last().start_key.unwrap();
            key_lt_irreflexive(c);
            if key_lt(c, s) {
                key_lt_asymmetric(c, s);
            }
            key_lt_le_transitive(k, c, s);
            key_lt_transitive(k, s, next.next_start.unwrap());
        }
        assert forall|i: int| 0 <= i < steps.skip(1).len() implies region_table(
            (#[trigger] steps.skip(1)[i]).0,
            next.store_id,
        ) by {
            assert(steps.skip(1)[i] == steps[i + 1]);
        }
        lemma_stays_behind(next, steps.skip(1), k);
    }
}

/// A key handed out in one step is not handed out in any later one, even if the
/// regions change from step to step. `between` are the steps between the two.
pub proof fn key_is_handed_out_once(
    regions: Seq<RegionInfoView>,
    progress: ProgressView,
    limit: nat,
    between: Seq<(Seq<RegionInfoView>, nat)>,
    later: Seq<RegionInfoView>,
    later_limit: nat,
    i: int,
    j: int,
    k: Seq<u8>,
)
    requires
        region_table(regions, progress.store_id),
        forall|n: int|
            0 <= n < between.len() ==> region_table((#[trigger] between[n]).0, progress.store_id),
        0 <= i < step_ranges(regions, progress, limit).len(),
        step_ranges(regions, progress, limit)[i].holds(k),
        ({
            let first = progress.after(step_ranges(regions, progress, limit));
            let next = changing_progress(first, between);
            0 <= j < next.ranges(later, later_limit).len()
        }),
    ensures
        ({
            let first = progress.after(step_ranges(regions, progress, limit));
            let next = changing_progress(first, between);
            !next.ranges(later, later_limit)[j].holds(k)
        }),
{
    let ranges = step_ranges(regions, progress, limit);
    let first = progress.after(ranges);
    let next = changing_progress(first, between);
    if !first.finished {
        lemma_step_is_behind(regions, progress, limit, i, k);
    }
    lemma_stays_behind(first, between, k);
    let range = next.ranges(later, later_limit)[j];
    let chosen = selected(later, next.end_key, later_limit);
    assert(range == next.clip(chosen[j].region));
    clip_is_intersection(
        k,
        next.next_start,
        next.end_key,
        stored_bound(chosen[j].region.start_key),
        stored_bound(chosen[j].region.end_key),
    );
}

/// A step that does not finish a backup leaves it behind every key it hands out.
proof fn lemma_step_is_behind(
    regions: Seq<RegionInfoView>,
    progress: ProgressView,
    limit: nat,
    i: int,
    k: Seq<u8>,
)
    requires
        region_table(regions, progress.store_id),
        0 <= i < step_ranges(regions, progress, limit).len(),
        step_ranges(regions, progress, limit)[i].holds(k),
        !progress.after(step_ranges(regions, progress, limit)).finished,
    ensures
        is_behind(progress.after(step_ranges(regions, progress, limit)), k),
{
    let ranges = step_ranges(regions, progress, limit);
    let n = ranges.len() - 1;
    let t = lemma_selected_region(regions, progress, limit, i);
    assert(ranges[i] == progress.clip(regions[t].region));
    clip_is_intersection(
        k,
        progress.next_start,
        progress.end_key,
        stored_bound(regions[t].region.start_key),
        stored_bound(regions[t].region.end_key),
    );
    if let (Some(s), Some(e)) = (progress.next_start, progress.end_key) {
        key_le_lt_transitive(s, k, e);
    }
    lemma_step_leaves_room(regions, progress, limit);
    if i < n {
        let found = seek(regions, progress.seek_key());
        let m = lemma_before_end_prefix(found, progress.end_key);
        let led = found.take(m).filter(is_led());
        found.take(m).lemma_filter_len(is_led());
        regions.lemma_filter_len(ends_past(progress.seek_key()));
        let all = plan(regions, progress);
        assert(selected(found, progress.end_key, regions.len()) == led);
        assert(ranges[i] == all[i]);
        assert(ranges[n] == all[n]);
        plan_is_disjoint(regions, progress, i, n, k);
        let e = ranges[i].end_key.unwrap();
        let s = ranges[n].start_key.unwrap();
        key_lt_le_transitive(k, e, s);
        key_lt_transitive(k, s, ranges[n].end_key.unwrap());
    }
}

} // verus!
