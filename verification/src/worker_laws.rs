//! What a worker does with the ranges it takes: it backs them up in order, each at
//! most once, and reports each one it has backed up.

use vstd::prelude::*;

use crate::file_backup::{FileActionView, FileBackupView, FileReplyView};
use crate::file_backup_laws;
use crate::file_backup_laws::{raw_backup_sets_out, versioned_backup_sets_out};
use crate::file_name::{file_name, file_name_is_unique, hex_lower};
use crate::keys::in_range;
use crate::range::BackupRangeView;
use crate::worker::{WorkerActionView, WorkerPhase, WorkerReplyView, WorkerView};

verus! {

/// The state that a run of replies leads to.
pub open spec fn state_after(start: WorkerView, replies: Seq<WorkerReplyView>) -> WorkerView
    decreases replies.len(),
{
    if replies.len() == 0 {
        start
    } else {
        state_after(start, replies.drop_last()).resume(replies.last()).0
    }
}

/// Whether each of a run of replies answers the action asked for before it.
pub open spec fn answers(start: WorkerView, replies: Seq<WorkerReplyView>) -> bool
    decreases replies.len(),
{
    replies.len() > 0 ==> {
        &&& answers(start, replies.drop_last())
        &&& state_after(start, replies.drop_last()).expects(replies.last())
    }
}

/// The actions that a run of replies gives rise to, one for each.
pub open spec fn actions_after(start: WorkerView, replies: Seq<WorkerReplyView>) -> Seq<
    WorkerActionView,
>
    decreases replies.len(),
{
    if replies.len() == 0 {
        Seq::empty()
    } else {
        actions_after(start, replies.drop_last()).push(
            state_after(start, replies.drop_last()).resume(replies.last()).1,
        )
    }
}

/// All ranges taken in a run of replies.
pub open spec fn ranges_in(replies: Seq<WorkerReplyView>) -> Seq<BackupRangeView>
    decreases replies.len(),
{
    if replies.len() == 0 {
        Seq::empty()
    } else {
        let ranges = ranges_in(replies.drop_last());
        match replies.last() {
            WorkerReplyView::Ranges(more) => ranges + more,
            _ => ranges,
        }
    }
}

/// The ranges that a run of actions backs up.
pub open spec fn backups_in(actions: Seq<WorkerActionView>) -> Seq<BackupRangeView>
    decreases actions.len(),
{
    if actions.len() == 0 {
        Seq::empty()
    } else {
        let backups = backups_in(actions.drop_last());
        match actions.last() {
            WorkerActionView::Backup(backup) => backups.push(backup.range),
            _ => backups,
        }
    }
}

/// The ranges that a run of actions reports.
pub open spec fn reports_in(actions: Seq<WorkerActionView>) -> Seq<BackupRangeView>
    decreases actions.len(),
{
    if actions.len() == 0 {
        Seq::empty()
    } else {
        let reports = reports_in(actions.drop_last());
        match actions.last() {
            WorkerActionView::Report(range) => reports.push(range),
            _ => reports,
        }
    }
}

/// Whether a run of replies holds no cancellation and no failed backup.
pub open spec fn goes_well(replies: Seq<WorkerReplyView>) -> bool {
    forall|i: int|
        0 <= i < replies.len() ==> (#[trigger] replies[i]) != WorkerReplyView::Canceled(true)
            && replies[i] != (WorkerReplyView::BackedUp { ok: false })
}

/// A worker that is about to begin.
pub open spec fn fresh(worker: WorkerView) -> bool {
    &&& worker.phase == WorkerPhase::New
    &&& worker.ranges.len() == 0
    &&& worker.next == 0
}

/// How many of the ranges at hand have been begun to be backed up.
pub open spec fn begun(worker: WorkerView) -> int {
    if worker.phase == WorkerPhase::BackingUp || worker.phase is Reporting {
        worker.next + 1
    } else {
        worker.next
    }
}

/// How many of the ranges at hand have been reported.
pub open spec fn reported(worker: WorkerView) -> int {
    if worker.phase is Reporting {
        worker.next + 1
    } else {
        worker.next
    }
}

/// At any time the ranges backed up so far are the first ones of those that were
/// taken, in order and each of them once, and so are the ranges reported; at most
/// one range has been backed up and not yet reported.
pub proof fn ranges_are_worked_off(worker: WorkerView, replies: Seq<WorkerReplyView>)
    requires
        fresh(worker),
        answers(worker.begin().0, replies),
    ensures
        ({
            let start = worker.begin().0;
            let now = state_after(start, replies);
            let actions = actions_after(start, replies);
            let taken = ranges_in(replies);
            let earlier = taken.len() - now.ranges.len();
            &&& now.wf()
            &&& earlier >= 0
            &&& taken.skip(earlier) == now.ranges
            &&& backups_in(actions) == taken.take(earlier + begun(now))
            &&& reports_in(actions) == taken.take(earlier + reported(now))
        }),
    decreases replies.len(),
{
    let start = worker.begin().0;
    let now = state_after(start, replies);
    let actions = actions_after(start, replies);
    let taken = ranges_in(replies);
    let earlier = taken.len() - now.ranges.len();
    if replies.len() == 0 {
        assert(taken.skip(0) =~= now.ranges);
        assert(taken.take(0) =~= Seq::empty());
    } else {
        let front = replies.drop_last();
        let reply = replies.last();
        ranges_are_worked_off(worker, front);
        let before = state_after(start, front);
        let taken_before = ranges_in(front);
        let earlier_before = taken_before.len() - before.ranges.len();
        assert(actions.drop_last() =~= actions_after(start, front));
        assert(actions.last() == before.resume(reply).1);
        if let WorkerReplyView::Ranges(more) = reply {
            assert(taken == taken_before + more);
            assert(taken_before.take(taken_before.len() as int) =~= taken_before);
            if more.len() == 0 {
                assert(taken =~= taken_before);
            } else {
                assert(taken.skip(earlier) =~= more);
                assert(taken.take(earlier) =~= taken_before);
            }
        } else {
            assert(taken == taken_before);
            if before.next < before.ranges.len() {
                let at = earlier_before + before.next;
                assert(taken.skip(earlier_before)[before.next] == taken[at]);
                assert(taken.take(at + 1) =~= taken.take(at).push(before.ranges[before.next]));
            }
        }
    }
}

/// Once a worker has exited, every range it has backed up is reported; and if there
/// was no cancellation and no failure, these are all the ranges it has taken.
pub proof fn exited_worker_has_reported(worker: WorkerView, replies: Seq<WorkerReplyView>)
    requires
        fresh(worker),
        answers(worker.begin().0, replies),
        state_after(worker.begin().0, replies).phase == WorkerPhase::Exited,
    ensures
        ({
            let actions = actions_after(worker.begin().0, replies);
            &&& reports_in(actions) == backups_in(actions)
            &&& goes_well(replies) ==> reports_in(actions) == ranges_in(replies)
        }),
{
    let start = worker.begin().0;
    let front = replies.drop_last();
    let before = state_after(start, front);
    let now = state_after(start, replies);
    ranges_are_worked_off(worker, replies);
    ranges_are_worked_off(worker, front);
    if goes_well(replies) {
        let last = replies[replies.len() - 1];
        lemma_failure_was_replied(worker, front);
        assert(goes_well(front)) by {
            assert forall|i: int| 0 <= i < front.len() implies (#[trigger] front[i])
                != WorkerReplyView::Canceled(true) && front[i] != (WorkerReplyView::BackedUp {
                ok: false,
            }) by {
                assert(replies[i] == front[i]);
            }
        }
        let taken = ranges_in(replies);
        assert(taken.take(taken.len() as int) =~= taken);
    }
}

/// A worker that reports a failure was told of one.
proof fn lemma_failure_was_replied(worker: WorkerView, replies: Seq<WorkerReplyView>)
    requires
        fresh(worker),
        answers(worker.begin().0, replies),
    ensures
        goes_well(replies) ==> state_after(worker.begin().0, replies).phase
            != (WorkerPhase::Reporting { ok: false }),
{
    if replies.len() > 0 && goes_well(replies) {
        let last = replies[replies.len() - 1];
        assert(last != (WorkerReplyView::BackedUp { ok: false }));
    }
}

/// A worker that finds its task canceled whenever it looks backs nothing up and
/// reports nothing.
pub proof fn canceled_worker_reports_nothing(worker: WorkerView, replies: Seq<WorkerReplyView>)
    requires
        fresh(worker),
        answers(worker.begin().0, replies),
        forall|i: int|
            0 <= i < replies.len() ==> (#[trigger] replies[i]) != WorkerReplyView::Canceled(false),
    ensures
        backups_in(actions_after(worker.begin().0, replies)) == Seq::<BackupRangeView>::empty(),
        reports_in(actions_after(worker.begin().0, replies)) == Seq::<BackupRangeView>::empty(),
        ({
            let phase = state_after(worker.begin().0, replies).phase;
            ||| phase == WorkerPhase::Taking
            ||| phase == WorkerPhase::CreatingStorage
            ||| phase == WorkerPhase::CheckingCancel
            ||| phase == WorkerPhase::Exited
        }),
    decreases replies.len(),
{
    if replies.len() > 0 {
        let start = worker.begin().0;
        let front = replies.drop_last();
        assert forall|i: int| 0 <= i < front.len() implies (#[trigger] front[i])
            != WorkerReplyView::Canceled(false) by {
            assert(front[i] == replies[i]);
        }
        canceled_worker_reports_nothing(worker, front);
        assert(replies[replies.len() - 1] != WorkerReplyView::Canceled(false));
        assert(actions_after(start, replies).drop_last() =~= actions_after(start, front));
    }
}

/// A worker stops as soon as it finds its task canceled. After a backup that failed
/// it only reports the range and then stops.
pub proof fn worker_stops(worker: WorkerView, replies: Seq<WorkerReplyView>, i: int)
    requires
        fresh(worker),
        answers(worker.begin().0, replies),
        0 <= i < replies.len(),
    ensures
        ({
            let now = state_after(worker.begin().0, replies);
            &&& replies[i] == WorkerReplyView::Canceled(true) ==> {
                &&& i == replies.len() - 1
                &&& now.phase == WorkerPhase::Exited
            }
            &&& replies[i] == (WorkerReplyView::BackedUp { ok: false }) ==> {
                ||| i == replies.len() - 1 && now.phase == (WorkerPhase::Reporting { ok: false })
                ||| i == replies.len() - 2 && now.phase == WorkerPhase::Exited
            }
        }),
    decreases replies.len(),
{
    if i < replies.len() - 1 {
        worker_stops(worker, replies.drop_last(), i);
    }
}

/// Backups of different regions, or of different versions of a region, go into
/// files of different names, whatever the digests of their keys are.
pub proof fn regions_have_their_own_files(
    a: WorkerView,
    b: WorkerView,
    key_a: Option<Seq<char>>,
    key_b: Option<Seq<char>>,
)
    requires
        ({
            let x = a.ranges[a.next].region;
            let y = b.ranges[b.next].region;
            x.id != y.id || x.region_epoch.version != y.region_epoch.version
        }),
    ensures
        a.file_backup(key_a).file_name != b.file_backup(key_b).file_name,
{
    let x = a.ranges[a.next].region;
    let y = b.ranges[b.next].region;
    if a.file_backup(key_a).file_name == b.file_backup(key_b).file_name {
        file_name_is_unique(
            a.store_id,
            x.id,
            x.region_epoch.version,
            key_a,
            b.store_id,
            y.id,
            y.region_epoch.version,
            key_b,
        );
    }
}

/// The backup that a worker asks for is that of the range at hand. Of a versioned range
/// it scans exactly the keys of the range, as of the worker's backup time and only
/// versions after its start time. Of a raw range it writes and reads the range's column
/// family. The file is named after the store, the region and its version, and the digest
/// that was replied, if there was one.
pub proof fn worker_backs_up_its_range<E, T>(
    worker: WorkerView,
    reply: WorkerReplyView,
    backup: FileBackupView,
    k: Seq<u8>,
)
    requires
        worker.wf(),
        worker.expects(reply),
        worker.resume(reply).1 == WorkerActionView::Backup(backup),
    ensures
        ({
            let range = worker.ranges[worker.next];
            let digest = match reply {
                WorkerReplyView::Digest(Some(bytes)) => Some(hex_lower(bytes)),
                _ => None,
            };
            let done = FileReplyView::<E, T>::Done(Ok(()));
            let (b0, a0) = backup.begin::<E, T>();
            let (b1, a1) = b0.resume(done);
            let (b2, a2) = b1.resume(done);
            let name = file_name(
                worker.store_id,
                range.region.id,
                range.region.region_epoch.version,
                digest,
            );
            &&& 0 <= worker.next < worker.ranges.len()
            &&& backup.range == range
            &&& backup.file_name == name
            &&& file_backup_laws::fresh(backup)
            &&& a1 matches FileActionView::TakeSnapshot(context) && {
                &&& context.region_id == range.region.id
                &&& context.region_epoch == range.region.region_epoch
                &&& context.peer == range.leader
            }
            &&& if range.is_raw_kv {
                &&& a0 matches FileActionView::OpenRawWriter { file_name, cf } && {
                    &&& file_name == name
                    &&& cf == range.cf
                }
                &&& a2 matches FileActionView::OpenCursor { cf, upper_bound } && {
                    &&& cf == range.cf
                    &&& upper_bound == range.end_key
                }
            } else {
                &&& a0 matches FileActionView::OpenWriter { file_name } && file_name == name
                &&& a2 matches FileActionView::OpenScanner(options) && {
                    &&& options.store.start_ts == worker.backup_ts
                    &&& options.after_ts == worker.start_ts
                    &&& options.output_delete <==> worker.start_ts > 0
                    &&& in_range(k, options.start_key, options.end_key) <==> range.holds(k)
                }
            }
        }),
{
    let range = worker.ranges[worker.next];
    if range.is_raw_kv {
        raw_backup_sets_out::<E, T>(range, backup.file_name, range.cf);
    } else {
        versioned_backup_sets_out::<E, T>(
            range,
            backup.file_name,
            worker.backup_ts,
            worker.start_ts,
            k,
        );
    }
}

/// A digest is asked for of the start key of the range at hand, and of its decoded form
/// exactly if the range is not raw. It is asked for whenever the range has a start key
/// and the task is not canceled.
pub proof fn digest_is_of_start_key(worker: WorkerView, reply: WorkerReplyView)
    requires
        worker.wf(),
        worker.expects(reply),
    ensures
        ({
            let range = worker.ranges[worker.next];
            &&& worker.resume(reply).1 matches WorkerActionView::DigestKey { key, decode } ==> {
                &&& range.start_key == Some(key)
                &&& decode <==> !range.is_raw_kv
            }
            &&& reply == WorkerReplyView::Canceled(false) ==> if range.start_key is Some {
                worker.resume(reply).1 is DigestKey
            } else {
                worker.resume(reply).1 is Backup
            }
        }),
{
}

/// A worker always takes six ranges at a time. It opens the storage backend for what it
/// has taken, and only then looks whether the task is canceled.
pub proof fn worker_takes_six_at_a_time(worker: WorkerView, reply: WorkerReplyView)
    requires
        worker.wf(),
        worker.expects(reply),
    ensures
        worker.begin().1 == WorkerActionView::TakeRanges(6),
        worker.resume(reply).1 matches WorkerActionView::TakeRanges(limit) ==> limit == 6,
        reply matches WorkerReplyView::Ranges(ranges) ==> (ranges.len() > 0 ==> {
            &&& worker.resume(reply).1 is CreateStorage
            &&& worker.resume(reply).0.ranges == ranges
            &&& worker.resume(reply).0.next == 0
        }),
        reply is StorageCreated ==> worker.resume(reply).1 is CheckCancel,
{
}

/// A worker never forgets whose store it is on and which times it backs up.
pub proof fn worker_keeps_its_times(worker: WorkerView, replies: Seq<WorkerReplyView>)
    ensures
        state_after(worker.begin().0, replies).store_id == worker.store_id,
        state_after(worker.begin().0, replies).start_ts == worker.start_ts,
        state_after(worker.begin().0, replies).backup_ts == worker.backup_ts,
    decreases replies.len(),
{
    if replies.len() > 0 {
        worker_keeps_its_times(worker, replies.drop_last());
    }
}

/// How often a worker was told that the task is not canceled.
pub open spec fn looks_in(replies: Seq<WorkerReplyView>) -> nat
    decreases replies.len(),
{
    if replies.len() == 0 {
        0
    } else {
        let looks = looks_in(replies.drop_last());
        if replies.last() == WorkerReplyView::Canceled(false) {
            looks + 1
        } else {
            looks
        }
    }
}

/// A worker looks whether the task is canceled before each range that it backs up: it has
/// backed up as many ranges as it was told so, but for one whose digest it waits for.
pub proof fn worker_looks_before_each_range(worker: WorkerView, replies: Seq<WorkerReplyView>)
    requires
        fresh(worker),
        answers(worker.begin().0, replies),
    ensures
        ({
            let start = worker.begin().0;
            let backups = backups_in(actions_after(start, replies)).len();
            if state_after(start, replies).phase == WorkerPhase::Digesting {
                looks_in(replies) == backups + 1
            } else {
                looks_in(replies) == backups
            }
        }),
    decreases replies.len(),
{
    if replies.len() > 0 {
        let start = worker.begin().0;
        let front = replies.drop_last();
        worker_looks_before_each_range(worker, front);
        assert(actions_after(start, replies).drop_last() =~= actions_after(start, front));
    }
}

/// A worker that was neither canceled nor told of a failure works on until it gets no
/// more ranges.
pub proof fn worker_works_until_nothing_is_left(
    worker: WorkerView,
    replies: Seq<WorkerReplyView>,
)
    requires
        fresh(worker),
        answers(worker.begin().0, replies),
        goes_well(replies),
        state_after(worker.begin().0, replies).phase == WorkerPhase::Exited,
    ensures
        replies.len() > 0,
        replies.last() == WorkerReplyView::Ranges(Seq::empty()),
{
    let front = replies.drop_last();
    let last = replies[replies.len() - 1];
    assert(goes_well(front)) by {
        assert forall|i: int| 0 <= i < front.len() implies (#[trigger] front[i])
            != WorkerReplyView::Canceled(true) && front[i] != (WorkerReplyView::BackedUp {
            ok: false,
        }) by {
            assert(replies[i] == front[i]);
        }
    }
    lemma_failure_was_replied(worker, front);
    if let WorkerReplyView::Ranges(ranges) = last {
        assert(ranges =~= Seq::empty());
    }
}

/// Whether a reply is of the kind that answers an action.
pub open spec fn fits(action: WorkerActionView, reply: WorkerReplyView) -> bool {
    match action {
        WorkerActionView::TakeRanges(_) => reply is Ranges,
        WorkerActionView::CreateStorage => reply is StorageCreated,
        WorkerActionView::CheckCancel => reply is Canceled,
        WorkerActionView::DigestKey { .. } => reply is Digest,
        WorkerActionView::Backup(_) => reply is BackedUp,
        WorkerActionView::Report(_) => reply is Reported,
        WorkerActionView::Exit => false,
    }
}

/// Whatever comes of an action can be told to the worker, and nothing else.
pub proof fn every_answer_is_expected(
    worker: WorkerView,
    reply: WorkerReplyView,
    next: WorkerReplyView,
)
    requires
        worker.wf(),
        worker.expects(reply),
    ensures
        worker.begin().0.expects(next) <==> fits(worker.begin().1, next),
        worker.resume(reply).0.expects(next) <==> fits(worker.resume(reply).1, next),
{
}

} // verus!
