//! How far a backup has come, and the next ranges to back up.

use vstd::prelude::*;

use crate::keys::{
    bound_view, bounds_equal, clone_bound, copy_bytes, key_less, key_lt, max_start, min_end,
    stored_bound, Key,
};
use crate::range::{get_max_start_key, get_min_end_key, BackupRange, BackupRangeView};
use crate::region::{find_peer, RegionInfo, RegionInfoView, RegionView, StateRole};

verus! {

/// The models of a list of regions.
pub open spec fn info_views(infos: Seq<RegionInfo>) -> Seq<RegionInfoView> {
    infos.map_values(|info: RegionInfo| info@)
}

/// The models of a list of ranges.
pub open spec fn range_views(ranges: Seq<BackupRange>) -> Seq<BackupRangeView> {
    ranges.map_values(|range: BackupRange| range@)
}

/// Whether a region starts at or past the end of a backup.
pub open spec fn starts_past(info: RegionInfoView, end_key: Option<Seq<u8>>) -> bool {
    end_key matches Some(end) && !key_lt(info.region.start_key, end)
}

/// The leading regions of a list, up to the first one that starts at or past the
/// end of the backup.
pub open spec fn before_end(infos: Seq<RegionInfoView>, end_key: Option<Seq<u8>>) -> Seq<
    RegionInfoView,
>
    decreases infos.len(),
{
    if infos.len() == 0 || starts_past(infos[0], end_key) {
        Seq::empty()
    } else {
        seq![infos[0]] + before_end(infos.skip(1), end_key)
    }
}

/// Whether the store leads a region.
pub open spec fn is_led() -> spec_fn(RegionInfoView) -> bool {
    |info: RegionInfoView| info.role == StateRole::Leader
}

/// The first `limit` regions before the end of the backup that the store leads.
pub open spec fn selected(
    infos: Seq<RegionInfoView>,
    end_key: Option<Seq<u8>>,
    limit: nat,
) -> Seq<RegionInfoView> {
    let led = before_end(infos, end_key).filter(is_led());
    if led.len() <= limit {
        led
    } else {
        led.take(limit as int)
    }
}

/// The model of a [`Progress`].
#[verifier::ext_equal]
pub struct ProgressView {
    pub store_id: u64,
    pub next_start: Option<Seq<u8>>,
    pub end_key: Option<Seq<u8>>,
    pub finished: bool,
    pub is_raw_kv: bool,
    pub cf: Seq<char>,
}

impl ProgressView {
    /// The key from which regions are looked up.
    pub open spec fn seek_key(self) -> Seq<u8> {
        match self.next_start {
            Some(key) => key,
            None => Seq::empty(),
        }
    }

    /// The part of a region that is still to be backed up.
    pub open spec fn clip(self, region: RegionView) -> BackupRangeView {
        BackupRangeView {
            start_key: max_start(self.next_start, stored_bound(region.start_key)),
            end_key: min_end(self.end_key, stored_bound(region.end_key)),
            region,
            leader: region.peer_on(self.store_id).unwrap(),
            is_raw_kv: self.is_raw_kv,
            cf: self.cf,
        }
    }

    /// Whether a region can be turned into a range: it has a peer on this store,
    /// and its clipped bounds do not coincide.
    pub open spec fn can_clip(self, region: RegionView) -> bool {
        &&& region.has_peer_on(self.store_id)
        &&& self.clip(region).end_key is Some ==> self.clip(region).start_key != self.clip(
            region,
        ).end_key
    }

    /// The ranges that the next step takes out of the regions found from
    /// [`Self::seek_key`] on.
    pub open spec fn ranges(self, infos: Seq<RegionInfoView>, limit: nat) -> Seq<BackupRangeView> {
        if self.finished {
            Seq::empty()
        } else {
            selected(infos, self.end_key, limit).map_values(
                |info: RegionInfoView| self.clip(info.region),
            )
        }
    }

    /// The progress once `ranges` have been handed out.
    pub open spec fn after(self, ranges: Seq<BackupRangeView>) -> ProgressView {
        if self.finished {
            self
        } else if ranges.len() == 0 {
            ProgressView { finished: true, ..self }
        } else {
            ProgressView {
                finished: ranges.last().region.end_key.len() == 0 || ranges.last().end_key
                    == self.end_key,
                next_start: ranges.last().end_key,
                ..self
            }
        }
    }

    /// Whether every region that the next step would select can be clipped.
    pub open spec fn can_forward(self, infos: Seq<RegionInfoView>, limit: nat) -> bool {
        !self.finished ==> forall|j: int|
            0 <= j < selected(infos, self.end_key, limit).len() ==> self.can_clip(
                (#[trigger] selected(infos, self.end_key, limit)[j]).region,
            )
    }
}

/// The progress of a backup task
pub struct Progress {
    store_id: u64,
    next_start: Option<Key>,
    end_key: Option<Key>,
    finished: bool,
    is_raw_kv: bool,
    cf: String,
}

impl View for Progress {
    type V = ProgressView;

    closed spec fn view(&self) -> ProgressView {
        ProgressView {
            store_id: self.store_id,
            next_start: bound_view(self.next_start),
            end_key: bound_view(self.end_key),
            finished: self.finished,
            is_raw_kv: self.is_raw_kv,
            cf: self.cf@,
        }
    }
}

impl Progress {
    /// The progress of a backup of `[next_start, end_key)` that has not begun.
    pub fn new(
        store_id: u64,
        next_start: Option<Key>,
        end_key: Option<Key>,
        is_raw_kv: bool,
        cf: String,
    ) -> (progress: Progress)
        ensures
            progress@ == (ProgressView {
                store_id,
                next_start: bound_view(next_start),
                end_key: bound_view(end_key),
                finished: false,
                is_raw_kv,
                cf: cf@,
            }),
    {
        Progress { store_id, next_start, end_key, finished: false, is_raw_kv, cf }
    }

    /// The key from which regions are to be looked up for the next step, or nothing
    /// once the backup has handed out all its ranges.
    pub fn seek_key(&self) -> (key: Option<Vec<u8>>)
        ensures
            key is None <==> self@.finished,
            key matches Some(bytes) ==> bytes@ == self@.seek_key(),
            key matches Some(bytes) ==> match self@.next_start {
                Some(start) => bytes@ == start,
                None => bytes@.len() == 0,
            },
    {
        if self.finished {
            return None;
        }
        match &self.next_start {
            Some(key) => Some(copy_bytes(key.as_encoded().as_slice())),
            None => Some(Vec::new()),
        }
    }

    /// Begins a step that hands out at most `limit` ranges.
    pub fn selector(&self, limit: usize) -> (selector: RangeSelector)
        ensures
            selector@ == (RangeSelectorView {
                progress: self@,
                limit: limit as nat,
                taken: 0,
                ended: self@.finished,
            }),
    {
        RangeSelector {
            progress: Progress {
                store_id: self.store_id,
                next_start: clone_bound(&self.next_start),
                end_key: clone_bound(&self.end_key),
                finished: self.finished,
                is_raw_kv: self.is_raw_kv,
                cf: self.cf.clone(),
            },
            limit,
            taken: 0,
            ended: self.finished,
        }
    }

    /// Ends a step: records the ranges that were handed out in it.
    ///
    /// A region without an end key is the last one, and a range that ends where the
    /// backup ends is the last one too. A step that hands out nothing also ends the
    /// backup.
    pub fn complete(&mut self, ranges: &[BackupRange])
        ensures
            final(self)@ == old(self)@.after(range_views(ranges@)),
    {
        if self.finished {
            return;
        }
        if ranges.len() == 0 {
            self.finished = true;
        } else {
            let last = &ranges[ranges.len() - 1];
            assert(range_views(ranges@).last() == last@);
            if last.region.end_key.is_empty() || bounds_equal(&last.end_key, &self.end_key) {
                self.finished = true;
            }
            self.next_start = clone_bound(&last.end_key);
        }
    }

    /// Forward the progress by `limit` BackupRanges
    ///
    /// `infos` are the regions found from [`Progress::seek_key`] on. The size of the
    /// returned BackupRanges is <= `limit`.
    pub fn forward(&mut self, limit: usize, infos: &[RegionInfo]) -> (ranges: Vec<BackupRange>)
        requires
            old(self)@.can_forward(info_views(infos@), limit as nat),
        ensures
            range_views(ranges@) == old(self)@.ranges(info_views(infos@), limit as nat),
            final(self)@ == old(self)@.after(range_views(ranges@)),
            ranges@.len() <= limit,
            ranges@.len() == 0 ==> final(self)@.finished,
    {
        let ghost views = info_views(infos@);
        let ghost end = self@.end_key;
        let ghost progress = self@;
        let ghost clip = |info: RegionInfoView| progress.clip(info.region);
        let mut selector = self.selector(limit);
        let mut ranges: Vec<BackupRange> = Vec::new();
        let mut i: usize = 0;
        let ghost mut reach: int = 0;
        proof {
            assert(views.take(0) =~= Seq::empty());
            assert(views.skip(0) =~= views);
            assert(views.take(0).filter(is_led()) =~= Seq::empty()) by {
                reveal(Seq::filter);
            }
            assert(views.take(0) + before_end(views.skip(0), end) =~= before_end(views, end));
            assert(range_views(ranges@) =~= views.take(0).filter(is_led()).map_values(clip));
        }
        while i < infos.len() && !selector.is_done()
            invariant
                i <= infos.len(),
                views == info_views(infos@),
                end == progress.end_key,
                *self == *old(self),
                progress == self@,
                clip == (|info: RegionInfoView| progress.clip(info.region)),
                progress.can_forward(views, limit as nat),
                selector@.progress == progress,
                selector@.limit == limit,
                selector@.taken == ranges@.len(),
                selector@.taken <= limit,
                range_views(ranges@) == views.take(reach).filter(is_led()).map_values(clip),
                selector@.ended ==> progress.finished || (reach == i - 1 && starts_past(
                    views[reach],
                    end,
                )),
                progress.finished ==> selector@.ended && i == 0,
                !selector@.ended ==> reach == i,
                0 <= reach <= i,
                before_end(views, end) == views.take(reach) + before_end(views.skip(reach), end),
            decreases infos.len() - i,
        {
            let info = &infos[i];
            proof {
                assert(views[i as int] == info@);
                lemma_step(progress, views, i as int, limit as nat);
                let taken = views.take(i as int).filter(is_led());
                assert(range_views(ranges@).len() == taken.len());
                if !starts_past(info@, end) && info.role == StateRole::Leader {
                    assert(progress.can_clip(
                        selected(views, end, limit as nat)[taken.len() as int].region,
                    ));
                }
            }
            let selection = selector.offer(info);
            i = i + 1;
            let ghost before = ranges@;
            if let Some(range) = selection {
                ranges.push(range);
            }
            proof {
                if !selector@.ended {
                    reach = i as int;
                    let pushed = views.take(i - 1).filter(is_led());
                    if views[i - 1].role == StateRole::Leader {
                        assert(range_views(ranges@) =~= range_views(before).push(
                            progress.clip(views[i - 1].region),
                        ));
                        assert(pushed.push(views[i - 1]).map_values(clip) =~= pushed.map_values(
                            clip,
                        ).push(clip(views[i - 1])));
                    } else {
                        assert(range_views(ranges@) =~= range_views(before));
                    }
                } else {
                    assert(range_views(ranges@) =~= range_views(before));
                }
            }
        }
        proof {
            let taken = views.take(reach).filter(is_led());
            let rest = before_end(views.skip(reach), end);
            if progress.finished {
                assert(views.take(reach) =~= Seq::empty());
                assert(range_views(ranges@) =~= Seq::empty()) by {
                    assert(range_views(ranges@).len() == 0);
                }
            } else {
                Seq::filter_distributes_over_add(views.take(reach), rest, is_led());
                let led = before_end(views, end).filter(is_led());
                assert(led == taken + rest.filter(is_led()));
                assert(range_views(ranges@).len() == taken.len());
                if selector@.ended {
                    assert(views.skip(reach)[0] == views[reach]);
                    assert(rest =~= Seq::empty());
                    assert(rest.filter(is_led()) =~= Seq::empty()) by {
                        reveal(Seq::filter);
                    }
                    assert(led =~= taken);
                } else if reach == views.len() {
                    assert(rest =~= Seq::empty());
                    assert(rest.filter(is_led()) =~= Seq::empty()) by {
                        reveal(Seq::filter);
                    }
                    assert(led =~= taken);
                } else {
                    assert(taken.len() == limit);
                    assert(led.take(limit as int) =~= taken);
                    if led.len() <= limit {
                        assert(led =~= taken);
                    }
                }
                assert(selected(views, end, limit as nat) == taken);
                assert(range_views(ranges@) == progress.ranges(views, limit as nat));
            }
        }
        self.complete(ranges.as_slice());
        ranges
    }

    /// Whether the values are stored as they were written, without versions.
    pub fn is_raw_kv(&self) -> (is_raw_kv: bool)
        ensures
            is_raw_kv == self@.is_raw_kv,
    {
        self.is_raw_kv
    }

    /// The column family that is backed up.
    pub fn cf(&self) -> (cf: &String)
        ensures
            cf@ == self@.cf,
    {
        &self.cf
    }
}

/// What looking at one more region adds to the selection.
proof fn lemma_step(progress: ProgressView, views: Seq<RegionInfoView>, i: int, limit: nat)
    requires
        0 <= i < views.len(),
        before_end(views, progress.end_key) == views.take(i) + before_end(
            views.skip(i),
            progress.end_key,
        ),
    ensures
        !starts_past(views[i], progress.end_key) ==> {
            &&& before_end(views, progress.end_key) == views.take(i + 1) + before_end(
                views.skip(i + 1),
                progress.end_key,
            )
            &&& views.take(i + 1).filter(is_led()) == (if views[i].role == StateRole::Leader {
                views.take(i).filter(is_led()).push(views[i])
            } else {
                views.take(i).filter(is_led())
            })
            &&& views[i].role == StateRole::Leader && views.take(i).filter(is_led()).len() < limit
                ==> {
                &&& views.take(i).filter(is_led()).len() < selected(
                    views,
                    progress.end_key,
                    limit,
                ).len()
                &&& selected(views, progress.end_key, limit)[views.take(i).filter(
                    is_led(),
                ).len() as int] == views[i]
            }
        },
{
    let end = progress.end_key;
    if !starts_past(views[i], end) {
        let rest = before_end(views.skip(i + 1), end);
        assert(views.skip(i)[0] == views[i]);
        assert(views.skip(i).skip(1) =~= views.skip(i + 1));
        assert(views.take(i + 1) =~= views.take(i) + seq![views[i]]);
        assert(before_end(views, end) =~= views.take(i + 1) + rest);
        assert(views.take(i + 1).drop_last() =~= views.take(i));
        assert(views.take(i + 1).filter(is_led()) == (if views[i].role == StateRole::Leader {
            views.take(i).filter(is_led()).push(views[i])
        } else {
            views.take(i).filter(is_led())
        })) by {
            reveal(Seq::filter);
        }
        Seq::filter_distributes_over_add(views.take(i + 1), rest, is_led());
        let led = before_end(views, end).filter(is_led());
        assert(led == views.take(i + 1).filter(is_led()) + rest.filter(is_led()));
    }
}

/// The model of a [`RangeSelector`].
#[verifier::ext_equal]
pub struct RangeSelectorView {
    pub progress: ProgressView,
    pub limit: nat,
    pub taken: nat,
    pub ended: bool,
}

/// One step of a [`Progress`], fed with regions one at a time.
pub struct RangeSelector {
    progress: Progress,
    limit: usize,
    taken: usize,
    ended: bool,
}

impl View for RangeSelector {
    type V = RangeSelectorView;

    closed spec fn view(&self) -> RangeSelectorView {
        RangeSelectorView {
            progress: self.progress@,
            limit: self.limit as nat,
            taken: self.taken as nat,
            ended: self.ended,
        }
    }
}

impl RangeSelectorView {
    /// Whether the step wants no further region.
    pub open spec fn is_done(self) -> bool {
        self.ended || self.taken >= self.limit
    }

    /// Whether the step wants a further region and can take this one.
    pub open spec fn can_offer(self, info: RegionInfoView) -> bool {
        &&& !self.is_done()
        &&& !starts_past(info, self.progress.end_key) && info.role == StateRole::Leader
            ==> self.progress.can_clip(info.region)
    }
}

impl RangeSelector {
    /// Whether the step wants no further region.
    pub fn is_done(&self) -> (done: bool)
        ensures
            done == self@.is_done(),
    {
        self.ended || self.taken >= self.limit
    }

    /// Whether [`RangeSelector::offer`] can take a region: a range in it needs a
    /// peer on this store, and bounds that differ.
    pub fn can_offer(&self, info: &RegionInfo) -> (can: bool)
        ensures
            can == self@.can_offer(info@),
    {
        if self.is_done() {
            return false;
        }
        if let Some(end) = &self.progress.end_key {
            if !key_less(info.region.start_key.as_slice(), end.as_encoded().as_slice()) {
                return true;
            }
        }
        if info.role != StateRole::Leader {
            return true;
        }
        let end_key = get_min_end_key(self.progress.end_key.as_ref(), &info.region);
        let start_key = get_max_start_key(self.progress.next_start.as_ref(), &info.region);
        find_peer(&info.region, self.progress.store_id).is_some() && !(end_key.is_some()
            && bounds_equal(&start_key, &end_key))
    }

    /// Looks at the next region, in key order. A region that starts at or past the
    /// end of the backup ends the step; otherwise a region that the store leads
    /// yields the range to back up in it.
    pub fn offer(&mut self, info: &RegionInfo) -> (range: Option<BackupRange>)
        requires
            old(self)@.can_offer(info@),
        ensures
            final(self)@ == (RangeSelectorView {
                taken: if range is Some {
                    old(self)@.taken + 1
                } else {
                    old(self)@.taken
                },
                ended: starts_past(info@, old(self)@.progress.end_key),
                ..old(self)@
            }),
            range is Some <==> !starts_past(info@, old(self)@.progress.end_key) && info.role
                == StateRole::Leader,
            range matches Some(r) ==> r@ == old(self)@.progress.clip(info.region@),
            range matches Some(r) ==> {
                &&& r.region@ == info.region@
                &&& r.leader.store_id == old(self)@.progress.store_id
                &&& info.region.peers@.contains(r.leader)
                &&& r.is_raw_kv == old(self)@.progress.is_raw_kv
                &&& r.cf@ == old(self)@.progress.cf
            },
    {
        if let Some(end) = &self.progress.end_key {
            if !key_less(info.region.start_key.as_slice(), end.as_encoded().as_slice()) {
                // We have reached the end.
                // The range is defined as [start, end) so stop if
                // region start key is greater or equal to end key.
                self.ended = true;
                return None;
            }
        }
        if info.role != StateRole::Leader {
            return None;
        }
        let end_key = get_min_end_key(self.progress.end_key.as_ref(), &info.region);
        let start_key = get_max_start_key(self.progress.next_start.as_ref(), &info.region);
        let leader = find_peer(&info.region, self.progress.store_id).unwrap();
        self.taken = self.taken + 1;
        Some(
            BackupRange {
                start_key,
                end_key,
                region: info.region.clone(),
                leader,
                is_raw_kv: self.progress.is_raw_kv,
                cf: self.progress.cf.clone(),
            },
        )
    }
}

} // verus!
