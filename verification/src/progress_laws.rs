//! What a step of a backup hands out, and what it leaves for the next one.

use vstd::prelude::*;

use crate::coverage::{
    ends_differ, lemma_before_end_prefix, lemma_filter_origin, plan, region_table, seek,
    step_ranges,
};
use crate::keys::{in_range, stored_bound};
use crate::progress::{before_end, is_led, selected, starts_past, ProgressView};
use crate::range::{clip_is_intersection, BackupRangeView};
use crate::region::{peer_is_on_the_store, RegionInfoView, StateRole};

verus! {

/// Every region that a step selects is one of those it was given, is led from this
/// store, and starts before the end of the backup.
proof fn lemma_selected_is_given(
    infos: Seq<RegionInfoView>,
    end: Option<Seq<u8>>,
    limit: nat,
    n: int,
) -> (t: int)
    requires
        0 <= n < selected(infos, end, limit).len(),
    ensures
        0 <= t < infos.len(),
        infos[t] == selected(infos, end, limit)[n],
        infos[t].role == StateRole::Leader,
        !starts_past(infos[t], end),
{
    let m = lemma_before_end_prefix(infos, end);
    let t = lemma_filter_origin(infos.take(m), is_led(), n);
    assert(infos.take(m)[t] == infos[t]);
    t
}

/// Every range that a step hands out is to be read from a peer of its region that is on
/// this store.
pub proof fn range_is_read_on_this_store(
    progress: ProgressView,
    infos: Seq<RegionInfoView>,
    limit: nat,
    n: int,
)
    requires
        progress.can_forward(infos, limit),
        0 <= n < progress.ranges(infos, limit).len(),
    ensures
        progress.ranges(infos, limit)[n].leader.store_id == progress.store_id,
        progress.ranges(infos, limit)[n].region.peers.contains(
            progress.ranges(infos, limit)[n].leader,
        ),
{
    let info = selected(infos, progress.end_key, limit)[n];
    assert(progress.can_clip(info.region));
    peer_is_on_the_store(info.region, progress.store_id);
}

/// Every range that a step hands out is the part of a region led from this store that
/// the backup still asks for: a key is in it exactly if it is in the region and in what
/// is left. It is raw exactly if the backup is, and of the same column family.
pub proof fn range_is_share_of_region(
    progress: ProgressView,
    infos: Seq<RegionInfoView>,
    limit: nat,
    n: int,
    k: Seq<u8>,
) -> (t: int)
    requires
        0 <= n < progress.ranges(infos, limit).len(),
    ensures
        0 <= t < infos.len(),
        infos[t].role == StateRole::Leader,
        progress.ranges(infos, limit)[n].region == infos[t].region,
        progress.ranges(infos, limit)[n].is_raw_kv == progress.is_raw_kv,
        progress.ranges(infos, limit)[n].cf == progress.cf,
        progress.ranges(infos, limit)[n].holds(k) <==> in_range(
            k,
            progress.next_start,
            progress.end_key,
        ) && infos[t].region.holds(k),
{
    let t = lemma_selected_is_given(infos, progress.end_key, limit, n);
    clip_is_intersection(
        k,
        progress.next_start,
        progress.end_key,
        stored_bound(infos[t].region.start_key),
        stored_bound(infos[t].region.end_key),
    );
    t
}

/// A step hands out as many ranges as it may: `limit` of them, or all that are left.
pub proof fn step_is_full(regions: Seq<RegionInfoView>, progress: ProgressView, limit: nat)
    ensures
        ({
            let ranges = step_ranges(regions, progress, limit);
            let all = plan(regions, progress);
            &&& all.len() <= limit ==> ranges == all
            &&& all.len() > limit ==> ranges == all.take(limit as int)
        }),
{
    let found = seek(regions, progress.seek_key());
    let m = lemma_before_end_prefix(found, progress.end_key);
    found.take(m).lemma_filter_len(is_led());
    regions.lemma_filter_len(crate::coverage::ends_past(progress.seek_key()));
    let led = before_end(found, progress.end_key).filter(is_led());
    let ranges = step_ranges(regions, progress, limit);
    let all = plan(regions, progress);
    assert(led.len() <= regions.len());
    if all.len() <= limit {
        assert(ranges =~= all);
    } else {
        assert(ranges =~= all.take(limit as int));
    }
}

/// A step changes nothing of what was asked for. It goes on where its last range ends,
/// and ends the backup if it hands out nothing, if its last range ends where the backup
/// ends, or if the last region has no end, and only then.
pub proof fn step_moves_on(progress: ProgressView, ranges: Seq<BackupRangeView>)
    ensures
        progress.after(ranges).store_id == progress.store_id,
        progress.after(ranges).end_key == progress.end_key,
        progress.after(ranges).is_raw_kv == progress.is_raw_kv,
        progress.after(ranges).cf == progress.cf,
        progress.finished ==> progress.after(ranges).finished,
        ranges.len() == 0 ==> progress.after(ranges).finished,
        ranges.len() > 0 && !progress.finished ==> {
            let last = ranges[ranges.len() - 1];
            &&& progress.after(ranges).next_start == last.end_key
            &&& progress.after(ranges).finished <==> last.end_key == progress.end_key
                || last.region.end_key.len() == 0
        },
        !progress.after(ranges).finished ==> ends_differ(progress.after(ranges)),
{
}

/// A backup that has nothing behind it looks for regions from the first key on, and
/// otherwise from where it goes on.
pub proof fn lookup_goes_on(progress: ProgressView)
    ensures
        progress.next_start is None ==> progress.seek_key().len() == 0,
        progress.next_start matches Some(key) ==> progress.seek_key() == key,
{
}

} // verus!
