//! What the backup of a range keeps: every entry that is read is written, in order
//! and once, nothing is saved before all is written, and the first error ends it.

use vstd::prelude::*;

use crate::file_backup::{
    FileActionView, FileBackupView, FilePhase, FileReplyView, BACKUP_BATCH_LIMIT,
};
use crate::keys::in_range;
use crate::range::BackupRangeView;
use crate::snapshot::IsolationLevel;

verus! {

/// The state that a run of replies leads to.
pub open spec fn state_after<E, T>(
    start: FileBackupView,
    replies: Seq<FileReplyView<E, T>>,
) -> FileBackupView
    decreases replies.len(),
{
    if replies.len() == 0 {
        start
    } else {
        state_after(start, replies.drop_last()).resume(replies.last()).0
    }
}

/// Whether each of a run of replies answers the action asked for before it.
pub open spec fn answers<E, T>(start: FileBackupView, replies: Seq<FileReplyView<E, T>>) -> bool
    decreases replies.len(),
{
    replies.len() > 0 ==> {
        &&& answers(start, replies.drop_last())
        &&& state_after(start, replies.drop_last()).expects(replies.last())
    }
}

/// The actions that a run of replies gives rise to, one for each.
pub open spec fn actions_after<E, T>(
    start: FileBackupView,
    replies: Seq<FileReplyView<E, T>>,
) -> Seq<FileActionView<E, T>>
    decreases replies.len(),
{
    if replies.len() == 0 {
        Seq::empty()
    } else {
        actions_after(start, replies.drop_last()).push(
            state_after(start, replies.drop_last()).resume(replies.last()).1,
        )
    }
}

/// The raw entries in a run of replies.
pub open spec fn entries_in<E, T>(replies: Seq<FileReplyView<E, T>>) -> Seq<(Seq<u8>, Seq<u8>)>
    decreases replies.len(),
{
    if replies.len() == 0 {
        Seq::empty()
    } else {
        let entries = entries_in(replies.drop_last());
        match replies.last() {
            FileReplyView::Entry(entry) => entries.push(entry),
            _ => entries,
        }
    }
}

/// The raw entries that a run of actions writes.
pub open spec fn written_in<E, T>(actions: Seq<FileActionView<E, T>>) -> Seq<(Seq<u8>, Seq<u8>)>
    decreases actions.len(),
{
    if actions.len() == 0 {
        Seq::empty()
    } else {
        let written = written_in(actions.drop_last());
        match actions.last() {
            FileActionView::WriteRaw { batch, .. } => written + batch,
            _ => written,
        }
    }
}

/// How many batches with something in them were scanned in a run of replies.
pub open spec fn scans_in<E, T>(replies: Seq<FileReplyView<E, T>>) -> nat
    decreases replies.len(),
{
    if replies.len() == 0 {
        0
    } else {
        let scans = scans_in(replies.drop_last());
        match replies.last() {
            FileReplyView::Scanned(Ok(n)) => if n > 0 {
                scans + 1
            } else {
                scans
            },
            _ => scans,
        }
    }
}

/// How many scanned batches a run of actions writes.
pub open spec fn scan_writes_in<E, T>(actions: Seq<FileActionView<E, T>>) -> nat
    decreases actions.len(),
{
    if actions.len() == 0 {
        0
    } else {
        let writes = scan_writes_in(actions.drop_last());
        match actions.last() {
            FileActionView::WriteScanned { .. } => writes + 1,
            _ => writes,
        }
    }
}

/// The error in a reply, if it holds one.
pub open spec fn error_in<E, T>(reply: FileReplyView<E, T>) -> Option<E> {
    match reply {
        FileReplyView::Done(Err(e)) => Some(e),
        FileReplyView::Scanned(Err(e)) => Some(e),
        FileReplyView::Sought(Err(e)) => Some(e),
        FileReplyView::Valid(Err(e)) => Some(e),
        FileReplyView::Saved(Err(e)) => Some(e),
        _ => None,
    }
}

/// A backup that is about to begin.
pub open spec fn fresh(backup: FileBackupView) -> bool {
    backup.phase == FilePhase::New && backup.batch.len() == 0
}

/// What holds of a backup at any time: a batch never grows past its limit, and
/// entries wait in it only while the cursor is read.
pub open spec fn batch_inv(backup: FileBackupView) -> bool {
    &&& backup.batch.len() <= BACKUP_BATCH_LIMIT
    &&& backup.phase == FilePhase::ReadingEntry ==> backup.batch.len() < BACKUP_BATCH_LIMIT
    &&& backup.batch.len() > 0 ==> {
        ||| backup.phase == FilePhase::CheckingCursor
        ||| backup.phase == FilePhase::ReadingEntry
        ||| backup.phase == FilePhase::Finished
    }
}

/// Every entry read so far has been written, in order and once, or waits in the
/// batch; and every batch that was scanned has been written.
pub proof fn entries_are_kept<E, T>(backup: FileBackupView, replies: Seq<FileReplyView<E, T>>)
    requires
        fresh(backup),
        answers(backup.begin::<E, T>().0, replies),
    ensures
        ({
            let start = backup.begin::<E, T>().0;
            let now = state_after(start, replies);
            let actions = actions_after(start, replies);
            &&& batch_inv(now)
            &&& entries_in(replies) == written_in(actions) + now.batch
            &&& scans_in(replies) == scan_writes_in(actions)
        }),
    decreases replies.len(),
{
    let start = backup.begin::<E, T>().0;
    let now = state_after(start, replies);
    let actions = actions_after(start, replies);
    if replies.len() == 0 {
        assert(entries_in(replies) =~= written_in(actions) + now.batch);
    } else {
        let front = replies.drop_last();
        entries_are_kept(backup, front);
        let before = state_after(start, front);
        assert(actions.drop_last() =~= actions_after(start, front));
        assert(entries_in(replies) =~= written_in(actions) + now.batch);
    }
}

/// Files are saved only when every entry that was read, and every batch that was
/// scanned, has been written.
pub proof fn saved_files_are_complete<E, T>(backup: FileBackupView, replies: Seq<FileReplyView<E, T>>)
    requires
        fresh(backup),
        answers(backup.begin::<E, T>().0, replies),
        replies.len() > 0,
    ensures
        ({
            let actions = actions_after(backup.begin::<E, T>().0, replies);
            actions.last() is Save ==> {
                &&& entries_in(replies) == written_in(actions)
                &&& scans_in(replies) == scan_writes_in(actions)
            }
        }),
{
    let start = backup.begin::<E, T>().0;
    let front = replies.drop_last();
    let actions = actions_after(start, replies);
    entries_are_kept(backup, replies);
    entries_are_kept(backup, front);
    if actions.last() is Save {
        assert(actions.last() == state_after(start, front).resume(replies.last()).1);
        assert(state_after(start, replies).batch.len() == 0);
        assert(entries_in(replies) =~= written_in(actions));
    }
}

/// Every batch of raw entries that is written holds something and is within its
/// limit, and it is full unless the cursor has come to the end.
pub proof fn batches_are_full<E, T>(backup: FileBackupView, replies: Seq<FileReplyView<E, T>>, i: int)
    requires
        fresh(backup),
        answers(backup.begin::<E, T>().0, replies),
        0 <= i < replies.len(),
    ensures
        actions_after(backup.begin::<E, T>().0, replies)[i] matches FileActionView::WriteRaw {
            batch,
            need_checksum,
        } ==> {
            &&& 0 < batch.len() <= BACKUP_BATCH_LIMIT
            &&& batch.len() == BACKUP_BATCH_LIMIT || replies[i] == FileReplyView::<E, T>::Valid(
                Ok(false),
            )
            &&& !need_checksum
        },
    decreases replies.len(),
{
    let start = backup.begin::<E, T>().0;
    let front = replies.drop_last();
    if i < front.len() {
        batches_are_full(backup, front, i);
        assert(actions_after(start, front).len() == front.len()) by {
            lemma_one_action_each(start, front);
        }
    } else {
        entries_are_kept(backup, front);
        lemma_one_action_each(start, front);
    }
}

/// Every scan is asked for at most a full batch. Every write of versioned entries
/// follows a scan that found something within that limit, and asks for a checksum.
pub proof fn scanned_batches_are_bounded<E, T>(
    backup: FileBackupView,
    replies: Seq<FileReplyView<E, T>>,
    i: int,
)
    requires
        fresh(backup),
        answers(backup.begin::<E, T>().0, replies),
        0 <= i < replies.len(),
    ensures
        actions_after(backup.begin::<E, T>().0, replies)[i] matches FileActionView::ScanEntries {
            limit,
        } ==> limit == BACKUP_BATCH_LIMIT,
        actions_after(backup.begin::<E, T>().0, replies)[i] matches FileActionView::WriteScanned {
            need_checksum,
        } ==> {
            &&& replies[i] matches FileReplyView::Scanned(Ok(n)) && 0 < n <= BACKUP_BATCH_LIMIT
            &&& need_checksum
        },
    decreases replies.len(),
{
    let start = backup.begin::<E, T>().0;
    let front = replies.drop_last();
    lemma_one_action_each(start, front);
    if i < front.len() {
        scanned_batches_are_bounded(backup, front, i);
    }
}

proof fn lemma_one_action_each<E, T>(start: FileBackupView, replies: Seq<FileReplyView<E, T>>)
    ensures
        actions_after(start, replies).len() == replies.len(),
    decreases replies.len(),
{
    if replies.len() > 0 {
        lemma_one_action_each(start, replies.drop_last());
    }
}

/// The first error ends the backup and is its outcome: every reply but the last is
/// free of errors, and the backup ends with an error exactly if the last one holds
/// it. It ends well exactly if the files were saved.
pub proof fn first_error_is_the_outcome<E, T>(
    backup: FileBackupView,
    replies: Seq<FileReplyView<E, T>>,
    i: int,
)
    requires
        fresh(backup),
        answers(backup.begin::<E, T>().0, replies),
        0 <= i < replies.len(),
    ensures
        i < replies.len() - 1 ==> error_in(replies[i]) is None,
        ({
            let last = actions_after(backup.begin::<E, T>().0, replies).last();
            match error_in(replies.last()) {
                Some(e) => last == FileActionView::<E, T>::Finish(Err(e)),
                None => match replies.last() {
                    FileReplyView::Saved(result) => last == FileActionView::<E, T>::Finish(result),
                    _ => !(last is Finish),
                },
            }
        }),
    decreases replies.len(),
{
    let start = backup.begin::<E, T>().0;
    let front = replies.drop_last();
    if i < replies.len() - 1 {
        if i < front.len() - 1 {
            first_error_is_the_outcome(backup, front, i);
        } else {
            let before = state_after(start, front.drop_last());
            assert(state_after(start, front) == before.resume(front.last()).0);
            assert(state_after(start, front).expects(replies.last()));
        }
    }
}

/// How the backup of a range of versioned entries sets out, as long as nothing goes
/// wrong: it opens a writer under the given name, takes a snapshot of the range's region
/// at the range's leader, and scans exactly the keys of the range, as of `backup_ts` and
/// only versions after `start_ts`. Deletes are output exactly if `start_ts` is not the
/// beginning.
pub proof fn versioned_backup_sets_out<E, T>(
    range: BackupRangeView,
    name: Seq<char>,
    backup_ts: u64,
    start_ts: u64,
    k: Seq<u8>,
)
    requires
        !range.is_raw_kv,
    ensures
        ({
            let done = FileReplyView::<E, T>::Done(Ok(()));
            let (b0, a0) = FileBackupView::of_versions(
                range,
                name,
                backup_ts,
                start_ts,
            ).begin::<E, T>();
            let (b1, a1) = b0.resume(done);
            let (b2, a2) = b1.resume(done);
            let (b3, a3) = b2.resume(done);
            &&& a0 matches FileActionView::OpenWriter { file_name } && file_name == name
            &&& a1 matches FileActionView::TakeSnapshot(context) && {
                &&& context.region_id == range.region.id
                &&& context.region_epoch == range.region.region_epoch
                &&& context.peer == range.leader
            }
            &&& a2 matches FileActionView::OpenScanner(options) && {
                &&& options.start_key == range.start_key
                &&& options.end_key == range.end_key
                &&& in_range(k, options.start_key, options.end_key) <==> range.holds(k)
                &&& options.store.start_ts == backup_ts
                &&& options.store.isolation_level == IsolationLevel::Si
                &&& !options.store.fill_cache
                &&& options.after_ts == start_ts
                &&& options.output_delete <==> start_ts > 0
            }
            &&& a3 matches FileActionView::ScanEntries { limit } && limit == 1024
            &&& b0.expects(done) && b1.expects(done) && b2.expects(done)
        }),
{
}

/// How the backup of a range of raw entries sets out, as long as nothing goes wrong: it
/// opens a writer under the given name and of column family `cf`, takes a snapshot of the
/// range's region at the range's leader, and walks over the range's column family from
/// the start of the range, or from the first key, up to the end of the range.
pub proof fn raw_backup_sets_out<E, T>(range: BackupRangeView, name: Seq<char>, cf: Seq<char>)
    requires
        range.is_raw_kv,
    ensures
        ({
            let done = FileReplyView::<E, T>::Done(Ok(()));
            let (b0, a0) = FileBackupView::of_raw_values(range, name, cf).begin::<E, T>();
            let (b1, a1) = b0.resume(done);
            let (b2, a2) = b1.resume(done);
            let (b3, a3) = b2.resume(done);
            &&& a0 matches FileActionView::OpenRawWriter { file_name, cf: writer_cf } && {
                &&& file_name == name
                &&& writer_cf == cf
            }
            &&& a1 matches FileActionView::TakeSnapshot(context) && {
                &&& context.region_id == range.region.id
                &&& context.region_epoch == range.region.region_epoch
                &&& context.peer == range.leader
            }
            &&& a2 matches FileActionView::OpenCursor { cf: cursor_cf, upper_bound } && {
                &&& cursor_cf == range.cf
                &&& upper_bound == range.end_key
            }
            &&& match range.start_key {
                Some(start) => a3 matches FileActionView::Seek(key) && key == start,
                None => a3 is SeekToFirst,
            }
            &&& b0.expects(done) && b1.expects(done) && b2.expects(done)
        }),
{
}

/// What a backup was made for never changes, and how far it has come tells how many
/// replies it has had.
proof fn lemma_position<E, T>(backup: FileBackupView, replies: Seq<FileReplyView<E, T>>)
    requires
        fresh(backup),
        answers(backup.begin::<E, T>().0, replies),
    ensures
        ({
            let now = state_after(backup.begin::<E, T>().0, replies);
            &&& now.range == backup.range
            &&& now.file_name == backup.file_name
            &&& now.cf == backup.cf
            &&& now.backup_ts == backup.backup_ts
            &&& now.start_ts == backup.start_ts
            &&& now.phase != FilePhase::New
            &&& now.phase == FilePhase::OpeningWriter ==> replies.len() == 0
            &&& now.phase == FilePhase::TakingSnapshot ==> replies.len() == 1
            &&& now.phase == FilePhase::OpeningScanner ==> replies.len() == 2
                && !backup.range.is_raw_kv
            &&& now.phase == FilePhase::OpeningCursor ==> replies.len() == 2
                && backup.range.is_raw_kv
            &&& now.phase == FilePhase::Seeking ==> replies.len() == 3 && backup.range.is_raw_kv
            &&& now.phase == FilePhase::Scanning || now.phase == FilePhase::WritingScanned
                ==> !backup.range.is_raw_kv
            &&& now.phase == FilePhase::CheckingCursor || now.phase == FilePhase::ReadingEntry
                || now.phase == FilePhase::WritingRaw ==> backup.range.is_raw_kv
        }),
    decreases replies.len(),
{
    if replies.len() > 0 {
        lemma_position(backup, replies.drop_last());
    }
}

/// In every run the snapshot is taken once, the scanner or cursor is opened once and the
/// cursor is set once, in that order, and each of them for the range that the backup was
/// made for: versioned entries are scanned between its bounds and raw ones are read from
/// its start up to its end. Versioned entries are only scanned, and raw ones only read
/// through a cursor.
pub proof fn backup_reads_its_range<E, T>(
    backup: FileBackupView,
    replies: Seq<FileReplyView<E, T>>,
    i: int,
)
    requires
        fresh(backup),
        answers(backup.begin::<E, T>().0, replies),
        0 <= i < replies.len(),
    ensures
        match actions_after(backup.begin::<E, T>().0, replies)[i] {
            FileActionView::OpenWriter { .. } => false,
            FileActionView::OpenRawWriter { .. } => false,
            FileActionView::TakeSnapshot(context) => {
                &&& i == 0
                &&& context.region_id == backup.range.region.id
                &&& context.region_epoch == backup.range.region.region_epoch
                &&& context.peer == backup.range.leader
            },
            FileActionView::OpenScanner(options) => {
                &&& i == 1
                &&& !backup.range.is_raw_kv
                &&& options.start_key == backup.range.start_key
                &&& options.end_key == backup.range.end_key
                &&& options.store.start_ts == backup.backup_ts
                &&& options.after_ts == backup.start_ts
                &&& options.output_delete <==> backup.start_ts > 0
            },
            FileActionView::OpenCursor { cf, upper_bound } => {
                &&& i == 1
                &&& backup.range.is_raw_kv
                &&& cf == backup.range.cf
                &&& upper_bound == backup.range.end_key
            },
            FileActionView::Seek(key) => i == 2 && backup.range.start_key == Some(key),
            FileActionView::SeekToFirst => i == 2 && backup.range.start_key is None,
            FileActionView::ScanEntries { .. } => !backup.range.is_raw_kv,
            FileActionView::WriteScanned { .. } => !backup.range.is_raw_kv,
            FileActionView::CheckCursor => backup.range.is_raw_kv,
            FileActionView::ReadEntry => backup.range.is_raw_kv,
            FileActionView::WriteRaw { .. } => backup.range.is_raw_kv,
            FileActionView::Save => true,
            FileActionView::Finish(_) => true,
        },
    decreases replies.len(),
{
    let start = backup.begin::<E, T>().0;
    let front = replies.drop_last();
    lemma_one_action_each(start, front);
    if i < front.len() {
        backup_reads_its_range(backup, front, i);
    } else {
        lemma_position(backup, front);
    }
}

/// Files are saved only when there is nothing left to read: the last scan was empty, the
/// cursor found nothing, or it has come to the end.
pub proof fn nothing_is_left_when_saved<E, T>(
    backup: FileBackupView,
    replies: Seq<FileReplyView<E, T>>,
)
    requires
        fresh(backup),
        answers(backup.begin::<E, T>().0, replies),
        replies.len() > 0,
        actions_after(backup.begin::<E, T>().0, replies).last() is Save,
    ensures
        ({
            let last = replies.last();
            ||| last == FileReplyView::<E, T>::Scanned(Ok(0))
            ||| last == FileReplyView::<E, T>::Sought(Ok(false))
            ||| last == FileReplyView::<E, T>::Valid(Ok(false))
        }),
{
    entries_are_kept(backup, replies.drop_last());
}

/// Whether a reply is of the kind that answers an action.
pub open spec fn fits<E, T>(action: FileActionView<E, T>, reply: FileReplyView<E, T>) -> bool {
    match action {
        FileActionView::OpenWriter { .. } => reply is Done,
        FileActionView::OpenRawWriter { .. } => reply is Done,
        FileActionView::TakeSnapshot(_) => reply is Done,
        FileActionView::OpenScanner(_) => reply matches FileReplyView::Done(Ok(_)),
        FileActionView::ScanEntries { limit } => {
            ||| reply matches FileReplyView::Scanned(Ok(n)) && n <= limit
            ||| reply matches FileReplyView::Scanned(Err(_))
        },
        FileActionView::WriteScanned { .. } => reply is Done,
        FileActionView::OpenCursor { .. } => reply is Done,
        FileActionView::Seek(_) => reply is Sought,
        FileActionView::SeekToFirst => reply is Sought,
        FileActionView::CheckCursor => reply is Valid,
        FileActionView::ReadEntry => reply is Entry,
        FileActionView::WriteRaw { .. } => reply is Done,
        FileActionView::Save => reply is Saved,
        FileActionView::Finish(_) => false,
    }
}

/// Whatever comes of an action can be told to the backup, and nothing else.
pub proof fn every_answer_is_expected<E, T>(
    backup: FileBackupView,
    reply: FileReplyView<E, T>,
    next: FileReplyView<E, T>,
)
    requires
        backup.expects(reply),
    ensures
        ({
            let (now, action) = backup.resume(reply);
            now.expects(next) <==> fits(action, next)
        }),
{
}

/// Whatever comes of the first action can be told to the backup, and nothing else.
pub proof fn first_answer_is_expected<E, T>(backup: FileBackupView, reply: FileReplyView<E, T>)
    requires
        fresh(backup),
    ensures
        backup.begin::<E, T>().0.expects(reply) <==> fits(backup.begin::<E, T>().1, reply),
{
}

} // verus!
