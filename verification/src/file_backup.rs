//! The backup of one range into one set of files.

use vstd::prelude::*;

use crate::keys::{bound_view, clone_bound, Key};
use crate::range::{BackupRange, BackupRangeView};
use crate::region::{Peer, RegionEpoch};
use crate::response::{file_views, File, FileView};
use crate::snapshot::{IsolationLevel, StoreOptions};

verus! {

/// How many entries are written at once.
pub const BACKUP_BATCH_LIMIT: usize = 1024;

/// Where a range is read: from which replica of which region.
#[derive(Clone, Copy, Debug, PartialEq, Eq)]
pub struct ReadContext {
    pub region_id: u64,
    pub region_epoch: RegionEpoch,
    pub peer: Peer,
}

/// How versioned entries are scanned.
#[derive(Debug, PartialEq, Eq)]
pub struct ScanOptions {
    pub store: StoreOptions,
    pub start_key: Option<Key>,
    pub end_key: Option<Key>,
    /// Only versions after this time are wanted.
    pub after_ts: u64,
    /// Incremental backup needs to output delete records.
    pub output_delete: bool,
}

/// The model of [`ScanOptions`].
pub struct ScanOptionsView {
    pub store: StoreOptions,
    pub start_key: Option<Seq<u8>>,
    pub end_key: Option<Seq<u8>>,
    pub after_ts: u64,
    pub output_delete: bool,
}

impl View for ScanOptions {
    type V = ScanOptionsView;

    open spec fn view(&self) -> ScanOptionsView {
        ScanOptionsView {
            store: self.store,
            start_key: bound_view(self.start_key),
            end_key: bound_view(self.end_key),
            after_ts: self.after_ts,
            output_delete: self.output_delete,
        }
    }
}

/// A raw key and its value.
pub type Entry = (Vec<u8>, Vec<u8>);

/// The models of a list of entries.
pub open spec fn entry_views(entries: Seq<Entry>) -> Seq<(Seq<u8>, Seq<u8>)> {
    entries.map_values(|entry: Entry| (entry.0@, entry.1@))
}

/// What the caller is to do next for the backup of a range. `E` is what can go wrong,
/// and `T` the statistics of what was read.
#[derive(Debug, PartialEq, Eq)]
pub enum FileAction<E, T> {
    /// Open a writer of versioned entries.
    OpenWriter { file_name: String },
    /// Open a writer of raw entries.
    OpenRawWriter { file_name: String, cf: String },
    /// Take a snapshot of the engine.
    TakeSnapshot(ReadContext),
    /// Open a scanner on the snapshot.
    OpenScanner(ScanOptions),
    /// Scan the next batch of versioned entries, at most so many.
    ScanEntries { limit: usize },
    /// Write the batch that was scanned last.
    WriteScanned { need_checksum: bool },
    /// Open a forward cursor on a column family of the snapshot.
    OpenCursor { cf: String, upper_bound: Option<Key> },
    /// Move the cursor to the first key that is not before this one.
    Seek(Key),
    /// Move the cursor to the first key.
    SeekToFirst,
    /// Say whether the cursor is at an entry.
    CheckCursor,
    /// Read the entry at the cursor and move on.
    ReadEntry,
    /// Write a batch of raw entries.
    WriteRaw { batch: Vec<Entry>, need_checksum: bool },
    /// Take the statistics of what was read, and save what was written to the storage
    /// backend.
    Save,
    /// The backup of the range is over: its files and the statistics, or what went
    /// wrong.
    Finish(Result<(Vec<File>, T), E>),
}

/// The model of a [`FileAction`].
pub enum FileActionView<E, T> {
    OpenWriter { file_name: Seq<char> },
    OpenRawWriter { file_name: Seq<char>, cf: Seq<char> },
    TakeSnapshot(ReadContext),
    OpenScanner(ScanOptionsView),
    ScanEntries { limit: usize },
    WriteScanned { need_checksum: bool },
    OpenCursor { cf: Seq<char>, upper_bound: Option<Seq<u8>> },
    Seek(Seq<u8>),
    SeekToFirst,
    CheckCursor,
    ReadEntry,
    WriteRaw { batch: Seq<(Seq<u8>, Seq<u8>)>, need_checksum: bool },
    Save,
    Finish(Result<(Seq<FileView>, T), E>),
}

impl<E, T> View for FileAction<E, T> {
    type V = FileActionView<E, T>;

    open spec fn view(&self) -> FileActionView<E, T> {
        match *self {
            FileAction::OpenWriter { file_name } => FileActionView::OpenWriter {
                file_name: file_name@,
            },
            FileAction::OpenRawWriter { file_name, cf } => FileActionView::OpenRawWriter {
                file_name: file_name@,
                cf: cf@,
            },
            FileAction::TakeSnapshot(context) => FileActionView::TakeSnapshot(context),
            FileAction::OpenScanner(options) => FileActionView::OpenScanner(options@),
            FileAction::ScanEntries { limit } => FileActionView::ScanEntries { limit },
            FileAction::WriteScanned { need_checksum } => FileActionView::WriteScanned {
                need_checksum,
            },
            FileAction::OpenCursor { cf, upper_bound } => FileActionView::OpenCursor {
                cf: cf@,
                upper_bound: bound_view(upper_bound),
            },
            FileAction::Seek(key) => FileActionView::Seek(key@),
            FileAction::SeekToFirst => FileActionView::SeekToFirst,
            FileAction::CheckCursor => FileActionView::CheckCursor,
            FileAction::ReadEntry => FileActionView::ReadEntry,
            FileAction::WriteRaw { batch, need_checksum } => FileActionView::WriteRaw {
                batch: entry_views(batch@),
                need_checksum,
            },
            FileAction::Save => FileActionView::Save,
            FileAction::Finish(Ok((files, statistics))) => FileActionView::Finish(
                Ok((file_views(files@), statistics)),
            ),
            FileAction::Finish(Err(e)) => FileActionView::Finish(Err(e)),
        }
    }
}

/// What came of an action.
#[derive(Debug, PartialEq, Eq)]
pub enum FileReply<E, T> {
    /// Something was opened, taken or written.
    Done(Result<(), E>),
    /// So many entries were scanned.
    Scanned(Result<usize, E>),
    /// Whether the cursor found an entry.
    Sought(Result<bool, E>),
    /// Whether the cursor is at an entry.
    Valid(Result<bool, E>),
    /// The entry that was at the cursor.
    Entry(Entry),
    /// The files that were saved, and the statistics of what was read.
    Saved(Result<(Vec<File>, T), E>),
}

/// The model of a [`FileReply`].
pub enum FileReplyView<E, T> {
    Done(Result<(), E>),
    Scanned(Result<usize, E>),
    Sought(Result<bool, E>),
    Valid(Result<bool, E>),
    Entry((Seq<u8>, Seq<u8>)),
    Saved(Result<(Seq<FileView>, T), E>),
}

impl<E, T> View for FileReply<E, T> {
    type V = FileReplyView<E, T>;

    open spec fn view(&self) -> FileReplyView<E, T> {
        match *self {
            FileReply::Done(result) => FileReplyView::Done(result),
            FileReply::Scanned(result) => FileReplyView::Scanned(result),
            FileReply::Sought(result) => FileReplyView::Sought(result),
            FileReply::Valid(result) => FileReplyView::Valid(result),
            FileReply::Entry(entry) => FileReplyView::Entry((entry.0@, entry.1@)),
            FileReply::Saved(Ok((files, statistics))) => FileReplyView::Saved(
                Ok((file_views(files@), statistics)),
            ),
            FileReply::Saved(Err(e)) => FileReplyView::Saved(Err(e)),
        }
    }
}

/// What the backup of a range waits for.
#[derive(Clone, Copy, Debug, PartialEq, Eq, Structural)]
pub enum FilePhase {
    /// It has not begun.
    New,
    OpeningWriter,
    TakingSnapshot,
    OpeningScanner,
    Scanning,
    WritingScanned,
    OpeningCursor,
    Seeking,
    CheckingCursor,
    ReadingEntry,
    WritingRaw,
    Saving,
    /// It is over.
    Finished,
}

/// The model of a [`FileBackup`].
#[verifier::ext_equal]
pub struct FileBackupView {
    pub range: BackupRangeView,
    pub file_name: Seq<char>,
    pub cf: Seq<char>,
    pub backup_ts: u64,
    pub start_ts: u64,
    pub batch: Seq<(Seq<u8>, Seq<u8>)>,
    pub phase: FilePhase,
}

impl FileBackupView {
    /// A backup of versioned entries that has not begun.
    pub open spec fn of_versions(
        range: BackupRangeView,
        file_name: Seq<char>,
        backup_ts: u64,
        start_ts: u64,
    ) -> FileBackupView {
        FileBackupView {
            range,
            file_name,
            cf: range.cf,
            backup_ts,
            start_ts,
            batch: Seq::empty(),
            phase: FilePhase::New,
        }
    }

    /// A backup of raw entries into column family `cf` that has not begun.
    pub open spec fn of_raw_values(
        range: BackupRangeView,
        file_name: Seq<char>,
        cf: Seq<char>,
    ) -> FileBackupView {
        FileBackupView {
            range,
            file_name,
            cf,
            backup_ts: 0,
            start_ts: 0,
            batch: Seq::empty(),
            phase: FilePhase::New,
        }
    }

    /// The same backup in another phase.
    pub open spec fn to(self, phase: FilePhase) -> FileBackupView {
        FileBackupView { phase, ..self }
    }

    /// Where the range is read.
    pub open spec fn context(self) -> ReadContext {
        ReadContext {
            region_id: self.range.region.id,
            region_epoch: self.range.region.region_epoch,
            peer: self.range.leader,
        }
    }

    /// How the range is scanned.
    pub open spec fn scan_options(self) -> ScanOptionsView {
        ScanOptionsView {
            store: StoreOptions {
                start_ts: self.backup_ts,
                isolation_level: IsolationLevel::Si,
                fill_cache: false,
            },
            start_key: self.range.start_key,
            end_key: self.range.end_key,
            after_ts: self.start_ts,
            output_delete: self.start_ts != 0,
        }
    }

    /// Gives up.
    pub open spec fn fail<E, T>(self, e: E) -> (FileBackupView, FileActionView<E, T>) {
        (self.to(FilePhase::Finished), FileActionView::Finish(Err(e)))
    }

    /// Everything has been read and written.
    pub open spec fn save<E, T>(self) -> (FileBackupView, FileActionView<E, T>) {
        (self.to(FilePhase::Saving), FileActionView::Save)
    }

    /// Begins.
    pub open spec fn begin<E, T>(self) -> (FileBackupView, FileActionView<E, T>) {
        (
            self.to(FilePhase::OpeningWriter),
            if self.range.is_raw_kv {
                FileActionView::OpenRawWriter { file_name: self.file_name, cf: self.cf }
            } else {
                FileActionView::OpenWriter { file_name: self.file_name }
            },
        )
    }

    /// Goes on once something was opened, taken or written.
    pub open spec fn done<E, T>(self) -> (FileBackupView, FileActionView<E, T>) {
        match self.phase {
            FilePhase::OpeningWriter => (
                self.to(FilePhase::TakingSnapshot),
                FileActionView::TakeSnapshot(self.context()),
            ),
            FilePhase::TakingSnapshot => if self.range.is_raw_kv {
                (
                    self.to(FilePhase::OpeningCursor),
                    FileActionView::OpenCursor {
                        cf: self.range.cf,
                        upper_bound: self.range.end_key,
                    },
                )
            } else {
                (
                    self.to(FilePhase::OpeningScanner),
                    FileActionView::OpenScanner(self.scan_options()),
                )
            },
            FilePhase::OpeningCursor => (
                self.to(FilePhase::Seeking),
                match self.range.start_key {
                    Some(key) => FileActionView::Seek(key),
                    None => FileActionView::SeekToFirst,
                },
            ),
            FilePhase::WritingRaw => (
                self.to(FilePhase::CheckingCursor),
                FileActionView::CheckCursor,
            ),
            _ => (
                self.to(FilePhase::Scanning),
                FileActionView::ScanEntries { limit: BACKUP_BATCH_LIMIT },
            ),
        }
    }

    /// Goes on once it is known whether the cursor is at an entry: reads it if the
    /// batch has room, or else writes the batch, or saves if there is nothing left.
    pub open spec fn checked<E, T>(self, valid: bool) -> (FileBackupView, FileActionView<E, T>) {
        if valid && self.batch.len() < BACKUP_BATCH_LIMIT {
            (self.to(FilePhase::ReadingEntry), FileActionView::ReadEntry)
        } else if self.batch.len() == 0 {
            self.save()
        } else {
            (
                FileBackupView { batch: Seq::empty(), ..self.to(FilePhase::WritingRaw) },
                FileActionView::WriteRaw { batch: self.batch, need_checksum: false },
            )
        }
    }

    /// Whether a reply answers the action that was asked for last.
    pub open spec fn expects<E, T>(self, reply: FileReplyView<E, T>) -> bool {
        match reply {
            FileReplyView::Done(Ok(_)) => {
                ||| self.phase == FilePhase::OpeningWriter
                ||| self.phase == FilePhase::TakingSnapshot
                ||| self.phase == FilePhase::OpeningScanner
                ||| self.phase == FilePhase::WritingScanned
                ||| self.phase == FilePhase::OpeningCursor
                ||| self.phase == FilePhase::WritingRaw
            },
            // A scanner on a snapshot that was taken is always opened.
            FileReplyView::Done(Err(_)) => {
                ||| self.phase == FilePhase::OpeningWriter
                ||| self.phase == FilePhase::TakingSnapshot
                ||| self.phase == FilePhase::WritingScanned
                ||| self.phase == FilePhase::OpeningCursor
                ||| self.phase == FilePhase::WritingRaw
            },
            // A batch holds no more than was asked for.
            FileReplyView::Scanned(Ok(n)) => self.phase == FilePhase::Scanning && n
                <= BACKUP_BATCH_LIMIT,
            FileReplyView::Scanned(Err(_)) => self.phase == FilePhase::Scanning,
            FileReplyView::Sought(_) => self.phase == FilePhase::Seeking,
            FileReplyView::Valid(_) => self.phase == FilePhase::CheckingCursor,
            FileReplyView::Entry(_) => self.phase == FilePhase::ReadingEntry,
            FileReplyView::Saved(_) => self.phase == FilePhase::Saving,
        }
    }

    /// What a reply leads to.
    pub open spec fn resume<E, T>(self, reply: FileReplyView<E, T>) -> (
        FileBackupView,
        FileActionView<E, T>,
    ) {
        match reply {
            FileReplyView::Done(Ok(_)) => self.done(),
            FileReplyView::Done(Err(e)) => self.fail(e),
            FileReplyView::Scanned(Ok(n)) => if n == 0 {
                self.save()
            } else {
                (
                    self.to(FilePhase::WritingScanned),
                    FileActionView::WriteScanned { need_checksum: true },
                )
            },
            FileReplyView::Scanned(Err(e)) => self.fail(e),
            FileReplyView::Sought(Ok(found)) => if found {
                (self.to(FilePhase::CheckingCursor), FileActionView::CheckCursor)
            } else {
                self.save()
            },
            FileReplyView::Sought(Err(e)) => self.fail(e),
            FileReplyView::Valid(Ok(valid)) => self.checked(valid),
            FileReplyView::Valid(Err(e)) => self.fail(e),
            FileReplyView::Entry(entry) => (
                FileBackupView {
                    batch: self.batch.push(entry),
                    ..self.to(FilePhase::CheckingCursor)
                },
                FileActionView::CheckCursor,
            ),
            FileReplyView::Saved(result) => (
                self.to(FilePhase::Finished),
                FileActionView::Finish(result),
            ),
        }
    }
}

/// The backup of one range into files of one name.
pub struct FileBackup {
    range: BackupRange,
    file_name: String,
    cf: String,
    backup_ts: u64,
    start_ts: u64,
    batch: Vec<Entry>,
    phase: FilePhase,
}

impl View for FileBackup {
    type V = FileBackupView;

    closed spec fn view(&self) -> FileBackupView {
        FileBackupView {
            range: self.range@,
            file_name: self.file_name@,
            cf: self.cf@,
            backup_ts: self.backup_ts,
            start_ts: self.start_ts,
            batch: entry_views(self.batch@),
            phase: self.phase,
        }
    }
}

impl BackupRange {
    /// Prepares the backup of the range as of `backup_ts`, of what changed after
    /// `start_ts`; zero is the beginning.
    pub fn backup_to_file(&self, file_name: String, backup_ts: u64, start_ts: u64) -> (backup:
        FileBackup)
        requires
            !self.is_raw_kv,
        ensures
            backup@ == FileBackupView::of_versions(self@, file_name@, backup_ts, start_ts),
    {
        let backup = FileBackup {
            range: self.clone(),
            file_name,
            cf: self.cf.clone(),
            backup_ts,
            start_ts,
            batch: Vec::new(),
            phase: FilePhase::New,
        };
        assert(backup@.batch =~= Seq::empty());
        backup
    }

    /// Prepares the backup of the raw values of the range into column family `cf`.
    pub fn backup_raw_kv_to_file(&self, file_name: String, cf: String) -> (backup: FileBackup)
        requires
            self.is_raw_kv,
        ensures
            backup@ == FileBackupView::of_raw_values(self@, file_name@, cf@),
    {
        let backup = FileBackup {
            range: self.clone(),
            file_name,
            cf,
            backup_ts: 0,
            start_ts: 0,
            batch: Vec::new(),
            phase: FilePhase::New,
        };
        assert(backup@.batch =~= Seq::empty());
        backup
    }
}

impl FileBackup {
    /// Begins, and says what to do first.
    pub fn begin<E, T>(&mut self) -> (action: FileAction<E, T>)
        requires
            old(self)@.phase == FilePhase::New,
        ensures
            (final(self)@, action@) == old(self)@.begin::<E, T>(),
    {
        self.phase = FilePhase::OpeningWriter;
        if self.range.is_raw_kv {
            FileAction::OpenRawWriter { file_name: self.file_name.clone(), cf: self.cf.clone() }
        } else {
            FileAction::OpenWriter { file_name: self.file_name.clone() }
        }
    }

    /// Gives up.
    fn fail<E, T>(&mut self, e: E) -> (action: FileAction<E, T>)
        ensures
            (final(self)@, action@) == old(self)@.fail::<E, T>(e),
    {
        self.phase = FilePhase::Finished;
        FileAction::Finish(Err(e))
    }

    /// Everything has been read and written.
    fn save<E, T>(&mut self) -> (action: FileAction<E, T>)
        ensures
            (final(self)@, action@) == old(self)@.save::<E, T>(),
    {
        self.phase = FilePhase::Saving;
        FileAction::Save
    }

    /// Goes on once something was opened, taken or written.
    fn done<E, T>(&mut self) -> (action: FileAction<E, T>)
        ensures
            (final(self)@, action@) == old(self)@.done::<E, T>(),
    {
        match self.phase {
            FilePhase::OpeningWriter => {
                self.phase = FilePhase::TakingSnapshot;
                FileAction::TakeSnapshot(
                    ReadContext {
                        region_id: self.range.region.id,
                        region_epoch: self.range.region.region_epoch,
                        peer: self.range.leader,
                    },
                )
            },
            FilePhase::TakingSnapshot => {
                if self.range.is_raw_kv {
                    self.phase = FilePhase::OpeningCursor;
                    FileAction::OpenCursor {
                        cf: self.range.cf.clone(),
                        upper_bound: clone_bound(&self.range.end_key),
                    }
                } else {
                    self.phase = FilePhase::OpeningScanner;
                    FileAction::OpenScanner(
                        ScanOptions {
                            store: StoreOptions {
                                start_ts: self.backup_ts,
                                isolation_level: IsolationLevel::Si,
                                fill_cache: false,
                            },
                            start_key: clone_bound(&self.range.start_key),
                            end_key: clone_bound(&self.range.end_key),
                            after_ts: self.start_ts,
                            output_delete: self.start_ts != 0,
                        },
                    )
                }
            },
            FilePhase::OpeningCursor => {
                self.phase = FilePhase::Seeking;
                match &self.range.start_key {
                    Some(key) => FileAction::Seek(key.clone()),
                    None => FileAction::SeekToFirst,
                }
            },
            FilePhase::WritingRaw => {
                self.phase = FilePhase::CheckingCursor;
                FileAction::CheckCursor
            },
            _ => {
                self.phase = FilePhase::Scanning;
                FileAction::ScanEntries { limit: BACKUP_BATCH_LIMIT }
            },
        }
    }

    /// Goes on once it is known whether the cursor is at an entry.
    fn checked<E, T>(&mut self, valid: bool) -> (action: FileAction<E, T>)
        ensures
            (final(self)@, action@) == old(self)@.checked::<E, T>(valid),
    {
        if valid && self.batch.len() < BACKUP_BATCH_LIMIT {
            self.phase = FilePhase::ReadingEntry;
            FileAction::ReadEntry
        } else if self.batch.is_empty() {
            self.save()
        } else {
            self.phase = FilePhase::WritingRaw;
            let mut batch: Vec<Entry> = Vec::new();
            std::mem::swap(&mut batch, &mut self.batch);
            assert(entry_views(self.batch@) =~= Seq::empty());
            FileAction::WriteRaw { batch, need_checksum: false }
        }
    }

    /// Takes what came of the last action, and says what to do next.
    pub fn resume<E, T>(&mut self, reply: FileReply<E, T>) -> (action: FileAction<E, T>)
        requires
            old(self)@.expects(reply@),
        ensures
            (final(self)@, action@) == old(self)@.resume(reply@),
    {
        match reply {
            FileReply::Done(Ok(_)) => self.done(),
            FileReply::Done(Err(e)) => self.fail(e),
            FileReply::Scanned(Ok(n)) => {
                if n == 0 {
                    self.save()
                } else {
                    // Build sst files.
                    self.phase = FilePhase::WritingScanned;
                    FileAction::WriteScanned { need_checksum: true }
                }
            },
            FileReply::Scanned(Err(e)) => self.fail(e),
            FileReply::Sought(Ok(found)) => {
                if found {
                    self.phase = FilePhase::CheckingCursor;
                    FileAction::CheckCursor
                } else {
                    self.save()
                }
            },
            FileReply::Sought(Err(e)) => self.fail(e),
            FileReply::Valid(Ok(valid)) => self.checked(valid),
            FileReply::Valid(Err(e)) => self.fail(e),
            FileReply::Entry(entry) => {
                let ghost before = self.batch@;
                self.batch.push(entry);
                assert(entry_views(self.batch@) =~= entry_views(before).push(
                    (entry.0@, entry.1@),
                ));
                self.phase = FilePhase::CheckingCursor;
                FileAction::CheckCursor
            },
            FileReply::Saved(result) => {
                self.phase = FilePhase::Finished;
                FileAction::Finish(result)
            },
        }
    }
}

} // verus!
