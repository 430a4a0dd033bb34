//! A worker: takes ranges off the progress of a task and backs them up in turn.

use vstd::prelude::*;

use crate::file_backup::{FileBackup, FileBackupView};
use crate::file_name::{backup_file_name, digest_key, file_name, hex_lower};
use crate::keys::Key;
use crate::progress::range_views;
use crate::range::{BackupRange, BackupRangeView};

verus! {

/// How many ranges a worker takes at once.
pub const WORKER_TAKE_RANGE: usize = 6;

/// What the caller is to do next for a worker.
pub enum WorkerAction {
    /// Forward the progress of the task by at most so many ranges.
    TakeRanges(usize),
    /// Open the storage backend of the task.
    CreateStorage,
    /// Look whether the task is canceled.
    CheckCancel,
    /// Compute the digest of a key, decoded first or as it is stored.
    DigestKey { key: Key, decode: bool },
    /// Run the backup of a range.
    Backup(FileBackup),
    /// Report the range together with what came of its backup.
    Report(BackupRange),
    /// The worker is done.
    Exit,
}

/// The model of a [`WorkerAction`].
pub enum WorkerActionView {
    TakeRanges(usize),
    CreateStorage,
    CheckCancel,
    DigestKey { key: Seq<u8>, decode: bool },
    Backup(FileBackupView),
    Report(BackupRangeView),
    Exit,
}

impl View for WorkerAction {
    type V = WorkerActionView;

    open spec fn view(&self) -> WorkerActionView {
        match *self {
            WorkerAction::TakeRanges(limit) => WorkerActionView::TakeRanges(limit),
            WorkerAction::CreateStorage => WorkerActionView::CreateStorage,
            WorkerAction::CheckCancel => WorkerActionView::CheckCancel,
            WorkerAction::DigestKey { key, decode } => WorkerActionView::DigestKey {
                key: key@,
                decode,
            },
            WorkerAction::Backup(backup) => WorkerActionView::Backup(backup@),
            WorkerAction::Report(range) => WorkerActionView::Report(range@),
            WorkerAction::Exit => WorkerActionView::Exit,
        }
    }
}

/// What came of an action.
pub enum WorkerReply {
    /// The ranges that were taken.
    Ranges(Vec<BackupRange>),
    /// The storage backend is open.
    StorageCreated,
    /// Whether the task is canceled.
    Canceled(bool),
    /// The digest of the key, unless it could not be computed.
    Digest(Option<Vec<u8>>),
    /// Whether the backup of the range went well.
    BackedUp { ok: bool },
    /// The range was reported.
    Reported,
}

/// The model of a [`WorkerReply`].
pub enum WorkerReplyView {
    Ranges(Seq<BackupRangeView>),
    StorageCreated,
    Canceled(bool),
    Digest(Option<Seq<u8>>),
    BackedUp { ok: bool },
    Reported,
}

impl View for WorkerReply {
    type V = WorkerReplyView;

    open spec fn view(&self) -> WorkerReplyView {
        match *self {
            WorkerReply::Ranges(ranges) => WorkerReplyView::Ranges(range_views(ranges@)),
            WorkerReply::StorageCreated => WorkerReplyView::StorageCreated,
            WorkerReply::Canceled(canceled) => WorkerReplyView::Canceled(canceled),
            WorkerReply::Digest(Some(digest)) => WorkerReplyView::Digest(Some(digest@)),
            WorkerReply::Digest(None) => WorkerReplyView::Digest(None),
            WorkerReply::BackedUp { ok } => WorkerReplyView::BackedUp { ok },
            WorkerReply::Reported => WorkerReplyView::Reported,
        }
    }
}

/// What a worker waits for.
#[derive(Clone, Copy, Debug, PartialEq, Eq, Structural)]
pub enum WorkerPhase {
    /// It has not begun.
    New,
    Taking,
    CreatingStorage,
    CheckingCancel,
    Digesting,
    BackingUp,
    Reporting { ok: bool },
    /// It is done.
    Exited,
}

/// The model of a [`BackupWorker`].
#[verifier::ext_equal]
pub struct WorkerView {
    pub store_id: u64,
    pub start_ts: u64,
    pub backup_ts: u64,
    /// The ranges that were taken last.
    pub ranges: Seq<BackupRangeView>,
    /// How many of them are dealt with.
    pub next: int,
    pub phase: WorkerPhase,
}

impl WorkerView {
    /// Whether the worker is within the ranges it has taken.
    pub open spec fn wf(self) -> bool {
        &&& 0 <= self.next <= self.ranges.len()
        &&& self.is_at_range() ==> self.next < self.ranges.len()
        &&& self.phase == WorkerPhase::Taking ==> self.next == self.ranges.len()
        &&& self.phase == WorkerPhase::CreatingStorage ==> self.next == 0
    }

    /// Whether the worker is at work on a range.
    pub open spec fn is_at_range(self) -> bool {
        ||| self.phase == WorkerPhase::CreatingStorage
        ||| self.phase == WorkerPhase::CheckingCancel
        ||| self.phase == WorkerPhase::Digesting
        ||| self.phase == WorkerPhase::BackingUp
        ||| self.phase is Reporting
    }

    /// The same worker in another phase.
    pub open spec fn to(self, phase: WorkerPhase) -> WorkerView {
        WorkerView { phase, ..self }
    }

    /// The end.
    pub open spec fn exit(self) -> (WorkerView, WorkerActionView) {
        (self.to(WorkerPhase::Exited), WorkerActionView::Exit)
    }

    /// Asks for more ranges.
    pub open spec fn take(self) -> (WorkerView, WorkerActionView) {
        (self.to(WorkerPhase::Taking), WorkerActionView::TakeRanges(WORKER_TAKE_RANGE))
    }

    /// Goes on with the next range, or asks for more of them.
    pub open spec fn next_range(self) -> (WorkerView, WorkerActionView) {
        if self.next < self.ranges.len() {
            (self.to(WorkerPhase::CheckingCancel), WorkerActionView::CheckCancel)
        } else {
            self.take()
        }
    }

    /// The backup of the range at hand, in a file whose name holds `key`.
    pub open spec fn file_backup(self, key: Option<Seq<char>>) -> FileBackupView {
        let range = self.ranges[self.next];
        let name = file_name(
            self.store_id,
            range.region.id,
            range.region.region_epoch.version,
            key,
        );
        if range.is_raw_kv {
            FileBackupView::of_raw_values(range, name, range.cf)
        } else {
            FileBackupView::of_versions(range, name, self.backup_ts, self.start_ts)
        }
    }

    /// Backs up the range at hand.
    pub open spec fn back_up(self, key: Option<Seq<char>>) -> (WorkerView, WorkerActionView) {
        (self.to(WorkerPhase::BackingUp), WorkerActionView::Backup(self.file_backup(key)))
    }

    /// Begins.
    pub open spec fn begin(self) -> (WorkerView, WorkerActionView) {
        self.take()
    }

    /// Whether a reply answers the action that was asked for last.
    pub open spec fn expects(self, reply: WorkerReplyView) -> bool {
        match reply {
            WorkerReplyView::Ranges(_) => self.phase == WorkerPhase::Taking,
            WorkerReplyView::StorageCreated => self.phase == WorkerPhase::CreatingStorage,
            WorkerReplyView::Canceled(_) => self.phase == WorkerPhase::CheckingCancel,
            WorkerReplyView::Digest(_) => self.phase == WorkerPhase::Digesting,
            WorkerReplyView::BackedUp { .. } => self.phase == WorkerPhase::BackingUp,
            WorkerReplyView::Reported => self.phase is Reporting,
        }
    }

    /// What a reply leads to.
    pub open spec fn resume(self, reply: WorkerReplyView) -> (WorkerView, WorkerActionView) {
        match reply {
            WorkerReplyView::Ranges(ranges) => if ranges.len() == 0 {
                self.exit()
            } else {
                (
                    WorkerView { ranges, next: 0, ..self.to(WorkerPhase::CreatingStorage) },
                    WorkerActionView::CreateStorage,
                )
            },
            WorkerReplyView::StorageCreated => self.next_range(),
            WorkerReplyView::Canceled(canceled) => if canceled {
                self.exit()
            } else {
                match self.ranges[self.next].start_key {
                    Some(key) => (
                        self.to(WorkerPhase::Digesting),
                        WorkerActionView::DigestKey {
                            key,
                            decode: !self.ranges[self.next].is_raw_kv,
                        },
                    ),
                    None => self.back_up(None),
                }
            },
            WorkerReplyView::Digest(Some(digest)) => self.back_up(Some(hex_lower(digest))),
            WorkerReplyView::Digest(None) => self.back_up(None),
            WorkerReplyView::BackedUp { ok } => (
                self.to(WorkerPhase::Reporting { ok }),
                WorkerActionView::Report(self.ranges[self.next]),
            ),
            WorkerReplyView::Reported => {
                let passed = WorkerView { next: self.next + 1, ..self };
                if self.phase == (WorkerPhase::Reporting { ok: true }) {
                    passed.next_range()
                } else {
                    passed.exit()
                }
            },
        }
    }
}

/// One worker of a backup task.
pub struct BackupWorker {
    store_id: u64,
    start_ts: u64,
    backup_ts: u64,
    ranges: Vec<BackupRange>,
    next: usize,
    phase: WorkerPhase,
}

impl View for BackupWorker {
    type V = WorkerView;

    closed spec fn view(&self) -> WorkerView {
        WorkerView {
            store_id: self.store_id,
            start_ts: self.start_ts,
            backup_ts: self.backup_ts,
            ranges: range_views(self.ranges@),
            next: self.next as int,
            phase: self.phase,
        }
    }
}

impl BackupWorker {
    /// A worker on store `store_id` that backs up what changed after `start_ts`, as
    /// of `backup_ts`.
    pub fn new(store_id: u64, start_ts: u64, backup_ts: u64) -> (worker: BackupWorker)
        ensures
            worker@ == (WorkerView {
                store_id,
                start_ts,
                backup_ts,
                ranges: Seq::empty(),
                next: 0,
                phase: WorkerPhase::New,
            }),
            worker@.wf(),
    {
        let worker = BackupWorker {
            store_id,
            start_ts,
            backup_ts,
            ranges: Vec::new(),
            next: 0,
            phase: WorkerPhase::New,
        };
        assert(worker@.ranges =~= Seq::empty());
        worker
    }

    /// Begins, and says what to do first.
    pub fn begin(&mut self) -> (action: WorkerAction)
        requires
            old(self)@.wf(),
            old(self)@.phase == WorkerPhase::New,
            old(self)@.ranges.len() == 0,
        ensures
            (final(self)@, action@) == old(self)@.begin(),
            final(self)@.wf(),
    {
        self.phase = WorkerPhase::Taking;
        WorkerAction::TakeRanges(WORKER_TAKE_RANGE)
    }

    /// The end.
    fn exit(&mut self) -> (action: WorkerAction)
        ensures
            (final(self)@, action@) == old(self)@.exit(),
    {
        self.phase = WorkerPhase::Exited;
        WorkerAction::Exit
    }

    /// Goes on with the next range, or asks for more of them.
    fn next_range(&mut self) -> (action: WorkerAction)
        ensures
            (final(self)@, action@) == old(self)@.next_range(),
    {
        if self.next < self.ranges.len() {
            self.phase = WorkerPhase::CheckingCancel;
            WorkerAction::CheckCancel
        } else {
            self.phase = WorkerPhase::Taking;
            WorkerAction::TakeRanges(WORKER_TAKE_RANGE)
        }
    }

    /// Backs up the range at hand, in a file whose name holds the digest.
    fn back_up(&mut self, digest: Option<Vec<u8>>) -> (action: WorkerAction)
        requires
            old(self)@.next < old(self)@.ranges.len(),
        ensures
            (final(self)@, action@) == old(self)@.back_up(
                match digest {
                    Some(bytes) => Some(hex_lower(bytes@)),
                    None => None,
                },
            ),
    {
        let range = &self.ranges[self.next];
        let key = digest_key(digest);
        let name = backup_file_name(self.store_id, &range.region, key);
        let backup = if range.is_raw_kv {
            range.backup_raw_kv_to_file(name, range.cf.clone())
        } else {
            range.backup_to_file(name, self.backup_ts, self.start_ts)
        };
        self.phase = WorkerPhase::BackingUp;
        WorkerAction::Backup(backup)
    }

    /// Takes what came of the last action, and says what to do next.
    pub fn resume(&mut self, reply: WorkerReply) -> (action: WorkerAction)
        requires
            old(self)@.wf(),
            old(self)@.expects(reply@),
        ensures
            (final(self)@, action@) == old(self)@.resume(reply@),
            final(self)@.wf(),
    {
        match reply {
            WorkerReply::Ranges(ranges) => {
                if ranges.is_empty() {
                    return self.exit();
                }
                self.ranges = ranges;
                self.next = 0;
                self.phase = WorkerPhase::CreatingStorage;
                WorkerAction::CreateStorage
            },
            WorkerReply::StorageCreated => self.next_range(),
            WorkerReply::Canceled(canceled) => {
                if canceled {
                    return self.exit();
                }
                let range = &self.ranges[self.next];
                match &range.start_key {
                    Some(key) => {
                        let action = WorkerAction::DigestKey {
                            key: key.clone(),
                            decode: !range.is_raw_kv,
                        };
                        self.phase = WorkerPhase::Digesting;
                        action
                    },
                    None => self.back_up(None),
                }
            },
            WorkerReply::Digest(digest) => self.back_up(digest),
            WorkerReply::BackedUp { ok } => {
                let range = self.ranges[self.next].clone();
                self.phase = WorkerPhase::Reporting { ok };
                WorkerAction::Report(range)
            },
            WorkerReply::Reported => {
                assert(self.next < self.ranges.len());
                let ok = matches!(self.phase, WorkerPhase::Reporting { ok: true });
                self.next = self.next + 1;
                if ok {
                    self.next_range()
                } else {
                    self.exit()
                }
            },
        }
    }
}

} // verus!
