//! In which keys a task is answered: those of its request.

use vstd::multiset::Multiset;
use vstd::prelude::*;

use crate::coverage::{
    ends_differ, ends_past, plan, region_table, seek, step_ranges, steps_finish,
    table_allows_forward,
};
use crate::endpoint::{requested_bound, task_progress};
use crate::progress::{before_end, is_led, selected, starts_past, ProgressView};
use crate::range::BackupRangeView;
use crate::region::{RegionInfoView, StateRole};
use crate::response::{reported_key, FileView};
use crate::task::Request;
use crate::task_laws::{reported_by_all, taken_by, task_reports_its_plan, worker_limits};
use crate::worker::{WorkerPhase, WorkerReplyView, WorkerView};
use crate::worker_laws::{answers, fresh, goes_well, ranges_in, state_after};

verus! {

/// Whether `decode` undoes `encode`, which turns no key into an empty one.
pub open spec fn is_codec(
    encode: spec_fn(Seq<u8>) -> Seq<u8>,
    decode: spec_fn(Seq<u8>) -> Seq<u8>,
) -> bool {
    &&& forall|k: Seq<u8>| decode(#[trigger] encode(k)) == k
    &&& forall|k: Seq<u8>| k.len() > 0 ==> (#[trigger] encode(k)).len() > 0
}

/// A bound of a range as a request that is answered with `decode` reports it.
pub open spec fn answered_key<B>(
    request: Request<B>,
    bound: Option<Seq<u8>>,
    decode: spec_fn(Seq<u8>) -> Seq<u8>,
) -> Seq<u8> {
    reported_key(
        bound,
        request.is_raw_kv,
        match bound {
            Some(key) => decode(key),
            None => Seq::empty(),
        },
    )
}

/// A region that is all of the key space and is led from store `store_id`.
pub open spec fn is_whole_and_led(info: RegionInfoView, store_id: u64) -> bool {
    &&& info.region.start_key.len() == 0
    &&& info.region.end_key.len() == 0
    &&& info.role == StateRole::Leader
    &&& info.region.has_peer_on(store_id)
}

/// The progress of a task that has not begun, whose keys are encoded with `encode`.
pub open spec fn encoded_progress<B>(
    store_id: u64,
    request: Request<B>,
    encode: spec_fn(Seq<u8>) -> Seq<u8>,
) -> ProgressView {
    task_progress(store_id, request, encode(request.start_key@), encode(request.end_key@))
}

/// Filtering one item that passes keeps it.
proof fn lemma_filter_one<A>(a: A, pred: spec_fn(A) -> bool)
    requires
        pred(a),
    ensures
        seq![a].filter(pred) == seq![a],
{
    reveal(Seq::filter);
    assert(seq![a].drop_last() =~= Seq::empty());
    assert(Seq::<A>::empty().filter(pred) =~= Seq::empty());
    assert(seq![a].filter(pred) =~= seq![a]);
}

/// One region that is all of the key space is a table of regions.
proof fn lemma_whole_region_is_table(info: RegionInfoView, store_id: u64)
    requires
        is_whole_and_led(info, store_id),
    ensures
        region_table(seq![info], store_id),
{
}

/// One region that starts before the end of a backup comes before it.
proof fn lemma_before_end_one(infos: Seq<RegionInfoView>, end: Option<Seq<u8>>)
    requires
        infos.len() == 1,
        !starts_past(infos[0], end),
    ensures
        before_end(infos, end) == infos,
{
    let rest = before_end(infos.skip(1), end);
    assert(rest.len() == 0);
    assert(seq![infos[0]] + rest =~= infos);
}

/// A region without a start key starts before the end of a backup.
proof fn lemma_first_region_is_not_past(info: RegionInfoView, end: Option<Seq<u8>>)
    requires
        info.region.start_key.len() == 0,
        end matches Some(e) ==> e.len() > 0,
    ensures
        !starts_past(info, end),
{
}

/// One region that is all of the key space is found from every key on.
proof fn lemma_whole_region_is_selected(
    info: RegionInfoView,
    store_id: u64,
    from: Seq<u8>,
    end: Option<Seq<u8>>,
    limit: nat,
)
    requires
        is_whole_and_led(info, store_id),
        end matches Some(e) ==> e.len() > 0,
        limit > 0,
    ensures
        selected(seek(seq![info], from), end, limit) == seq![info],
{
    lemma_filter_one(info, ends_past(from));
    lemma_filter_one(info, is_led());
    lemma_first_region_is_not_past(info, end);
    lemma_before_end_one(seq![info], end);
}

/// Where one region is all of the key space, a backup takes all it asks for out of it
/// in one step.
proof fn lemma_whole_region_is_planned(progress: ProgressView, info: RegionInfoView, limit: nat)
    requires
        is_whole_and_led(info, progress.store_id),
        !progress.finished,
        progress.end_key matches Some(e) ==> e.len() > 0,
        limit > 0,
    ensures
        step_ranges(seq![info], progress, limit) == seq![progress.clip(info.region)],
        progress.clip(info.region).start_key == progress.next_start,
        progress.clip(info.region).end_key == progress.end_key,
        progress.after(seq![progress.clip(info.region)]).finished,
{
    lemma_whole_region_is_selected(
        info,
        progress.store_id,
        progress.seek_key(),
        progress.end_key,
        limit,
    );
    assert(step_ranges(seq![info], progress, limit) =~= seq![progress.clip(info.region)]);
}

/// The bound that a key of a request stands for is reported as that key.
proof fn lemma_answer_undoes_request<B>(
    request: Request<B>,
    key: Seq<u8>,
    encode: spec_fn(Seq<u8>) -> Seq<u8>,
    decode: spec_fn(Seq<u8>) -> Seq<u8>,
)
    requires
        is_codec(encode, decode),
    ensures
        answered_key(request, requested_bound(key, request.is_raw_kv, encode(key)), decode) == key,
{
    if key.len() == 0 {
        assert(key =~= Seq::empty());
    } else {
        assert(decode(encode(key)) == key);
    }
}

/// Where one region is all of the key space, a task hands out exactly one range, in
/// its first step. The keys in which that range is reported are those of the request,
/// byte for byte: for raw values no key is encoded, and otherwise the encoding is
/// undone in the answer. A request whose two keys are the same and not empty cannot
/// be worked on.
pub proof fn response_gives_request_keys<B>(
    request: Request<B>,
    store_id: u64,
    info: RegionInfoView,
    encode: spec_fn(Seq<u8>) -> Seq<u8>,
    decode: spec_fn(Seq<u8>) -> Seq<u8>,
    limit: nat,
)
    requires
        is_codec(encode, decode),
        is_whole_and_led(info, store_id),
        request.start_key@.len() == 0 || request.start_key@ != request.end_key@,
        limit > 0,
    ensures
        ({
            let progress = encoded_progress(store_id, request, encode);
            let regions = seq![info];
            let all = plan(regions, progress);
            &&& region_table(regions, store_id)
            &&& progress.can_forward(seek(regions, progress.seek_key()), limit)
            &&& all.len() == 1
            &&& step_ranges(regions, progress, limit) == all
            &&& progress.after(all).finished
            &&& answered_key(request, all[0].start_key, decode) == request.start_key@
            &&& answered_key(request, all[0].end_key, decode) == request.end_key@
        }),
{
    let start = request.start_key@;
    let end = request.end_key@;
    let progress = encoded_progress(store_id, request, encode);
    assert(decode(encode(start)) == start);
    assert(decode(encode(end)) == end);
    lemma_whole_region_is_table(info, store_id);
    assert(ends_differ(progress));
    table_allows_forward(seq![info], progress, limit);
    lemma_whole_region_is_planned(progress, info, limit);
    lemma_whole_region_is_planned(progress, info, seq![info].len());
    lemma_answer_undoes_request(request, start, encode, decode);
    lemma_answer_undoes_request(request, end, encode, decode);
}

/// A sequence of one item holds that item once.
proof fn lemma_multiset_of_one<A>(s: Seq<A>)
    requires
        s.len() == 1,
    ensures
        s.to_multiset() == Multiset::singleton(s[0]),
{
    broadcast use vstd::seq_lib::group_to_multiset_ensures;

    assert(s =~= Seq::empty().push(s[0]));
    assert(Seq::<A>::empty().to_multiset() =~= Multiset::empty());
    assert(s.to_multiset() =~= Multiset::singleton(s[0]));
}

/// Where one region is all of the key space, a task whose workers all run to their end
/// without cancellation or failure reports exactly one range, in the keys of the
/// request.
pub proof fn single_region_is_reported_once<B>(
    request: Request<B>,
    store_id: u64,
    info: RegionInfoView,
    encode: spec_fn(Seq<u8>) -> Seq<u8>,
    decode: spec_fn(Seq<u8>) -> Seq<u8>,
    owners: Seq<int>,
    workers: Seq<WorkerView>,
    runs: Seq<Seq<WorkerReplyView>>,
) -> (range: BackupRangeView)
    requires
        is_codec(encode, decode),
        is_whole_and_led(info, store_id),
        request.start_key@.len() == 0 || request.start_key@ != request.end_key@,
        owners.len() > 0,
        runs.len() == workers.len(),
        forall|i: int| 0 <= i < owners.len() ==> 0 <= #[trigger] owners[i] < workers.len(),
        forall|w: int|
            0 <= w < workers.len() ==> {
                &&& fresh(#[trigger] workers[w])
                &&& answers(workers[w].begin().0, runs[w])
                &&& state_after(workers[w].begin().0, runs[w]).phase == WorkerPhase::Exited
                &&& goes_well(runs[w])
                &&& ranges_in(runs[w]) == taken_by(
                    seq![info],
                    encoded_progress(store_id, request, encode),
                    owners,
                    w,
                )
            },
    ensures
        reported_by_all(workers, runs, workers.len()) == Multiset::singleton(range),
        answered_key(request, range.start_key, decode) == request.start_key@,
        answered_key(request, range.end_key, decode) == request.end_key@,
{
    let progress = encoded_progress(store_id, request, encode);
    let regions = seq![info];
    let limits = worker_limits(owners.len());
    let all = plan(regions, progress);
    response_gives_request_keys(request, store_id, info, encode, decode, limits[0]);
    let next = progress.after(all);
    if limits.len() > 1 {
        steps_finish(regions, next, limits.skip(1));
    }
    task_reports_its_plan(regions, progress, owners, workers, runs);
    lemma_multiset_of_one(all);
    all[0]
}

/// A file is reported with the versions of the request, whether values are raw or not, and
/// with the keys of its range. All that the backup said of it is kept.
pub proof fn files_are_stamped_with_the_request<B>(
    request: Request<B>,
    file: FileView,
    start_key: Seq<u8>,
    end_key: Seq<u8>,
)
    ensures
        request.stamped(file, start_key, end_key).start_version == request.start_ts,
        request.stamped(file, start_key, end_key).end_version == request.end_ts,
        request.stamped(file, start_key, end_key).start_key == start_key,
        request.stamped(file, start_key, end_key).end_key == end_key,
        request.stamped(file, start_key, end_key).name == file.name,
        request.stamped(file, start_key, end_key).sha256 == file.sha256,
        request.stamped(file, start_key, end_key).crc64xor == file.crc64xor,
        request.stamped(file, start_key, end_key).total_kvs == file.total_kvs,
        request.stamped(file, start_key, end_key).total_bytes == file.total_bytes,
{
}

/// A bound that is missing is reported as nothing, a raw one as it is stored, and any
/// other one as it is decoded.
pub proof fn bound_is_reported(bound: Option<Seq<u8>>, is_raw_kv: bool, decoded: Seq<u8>)
    ensures
        bound is None ==> reported_key(bound, is_raw_kv, decoded).len() == 0,
        is_raw_kv ==> (bound matches Some(key) ==> reported_key(bound, is_raw_kv, decoded) == key),
        !is_raw_kv && bound is Some ==> reported_key(bound, is_raw_kv, decoded) == decoded,
{
}

} // verus!
