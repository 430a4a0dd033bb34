use backup::file_backup::{FileAction, FileBackup, FileReply, ReadContext, BACKUP_BATCH_LIMIT};
use backup::file_name::{backup_file_name, digest_key};
use backup::keys::Key;
use backup::range::BackupRange;
use backup::region::{Peer, Region, RegionEpoch};
use backup::response::File;
use backup::snapshot::IsolationLevel;
use backup::worker::{BackupWorker, WorkerAction, WorkerReply, WORKER_TAKE_RANGE};

fn region(id: u64, version: u64) -> Region {
    Region {
        id,
        start_key: Vec::new(),
        end_key: Vec::new(),
        region_epoch: RegionEpoch {
            conf_ver: 1,
            version,
        },
        peers: vec![peer()],
    }
}

fn peer() -> Peer {
    Peer {
        id: 21,
        store_id: 1,
        is_learner: false,
    }
}

fn key(bytes: &[u8]) -> Option<Key> {
    Some(Key::from_encoded_slice(bytes))
}

fn range(id: u64, start: Option<Key>, end: Option<Key>, is_raw_kv: bool) -> BackupRange {
    BackupRange {
        start_key: start,
        end_key: end,
        region: region(id, 5),
        leader: peer(),
        is_raw_kv,
        cf: "write".to_string(),
    }
}

fn file(name: &str) -> File {
    File {
        name: name.to_string(),
        sha256: Vec::new(),
        start_key: Vec::new(),
        end_key: Vec::new(),
        start_version: 0,
        end_version: 0,
        crc64xor: 0,
        total_kvs: 0,
        total_bytes: 0,
    }
}

type Entry = (Vec<u8>, Vec<u8>);
type Action = FileAction<String, u32>;
type Reply = FileReply<String, u32>;

fn raw_backup(start: Option<Key>) -> FileBackup {
    range(3, start, key(b"z"), true).backup_raw_kv_to_file("name".to_string(), "raw".to_string())
}

fn txn_backup(start_ts: u64) -> FileBackup {
    range(3, key(b"a"), None, false).backup_to_file("name".to_string(), 9, start_ts)
}

fn done() -> Reply {
    FileReply::Done(Ok(()))
}

/// Takes a raw backup to where the cursor is checked for the first time.
fn at_first_entry(backup: &mut FileBackup) {
    let _: Action = backup.begin();
    backup.resume(done());
    backup.resume(done());
    backup.resume(done());
    assert_eq!(
        backup.resume::<String, u32>(FileReply::Sought(Ok(true))),
        FileAction::CheckCursor
    );
}

/// Runs a raw backup over entries, and returns the batches that are written.
fn written(entries: &[Entry]) -> Vec<Vec<Entry>> {
    let mut backup = raw_backup(None);
    at_first_entry(&mut backup);
    let mut batches = Vec::new();
    let mut at = 0;
    let mut action: Action = FileAction::CheckCursor;
    loop {
        let reply: Reply = match action {
            FileAction::CheckCursor => FileReply::Valid(Ok(at < entries.len())),
            FileAction::ReadEntry => {
                at += 1;
                FileReply::Entry(entries[at - 1].clone())
            }
            FileAction::WriteRaw {
                batch,
                need_checksum,
            } => {
                assert!(!need_checksum);
                batches.push(batch);
                done()
            }
            FileAction::Save => return batches,
            other => panic!("{:?}", other),
        };
        action = backup.resume(reply);
    }
}

fn entries(n: usize) -> Vec<Entry> {
    (0..n)
        .map(|i| (i.to_string().into_bytes(), vec![i as u8]))
        .collect()
}

#[test]
fn name_of_a_file() {
    let r = region(234, 5);
    assert_eq!(backup_file_name(1, &r, None), "1_234_5");
    assert_eq!(
        backup_file_name(10, &r, Some("k_1".to_string())),
        "10_234_5_k_1"
    );
    assert_eq!(
        backup_file_name(u64::MAX, &region(0, 1000), None),
        "18446744073709551615_0_1000"
    );
}

#[test]
fn names_tell_regions_apart() {
    let names = vec![
        backup_file_name(1, &region(23, 4), None),
        backup_file_name(12, &region(3, 4), None),
        backup_file_name(1, &region(2, 34), None),
        backup_file_name(1, &region(23, 4), Some("".to_string())),
        backup_file_name(1, &region(23, 4), Some("5".to_string())),
        backup_file_name(1, &region(23, 45), None),
    ];
    for (i, a) in names.iter().enumerate() {
        for b in &names[i + 1..] {
            assert_ne!(a, b);
        }
    }
}

#[test]
fn digest_is_written_in_hex() {
    assert_eq!(
        digest_key(Some(vec![0x00, 0x0f, 0xa9, 0xff])),
        Some("000fa9ff".to_string())
    );
    assert_eq!(digest_key(Some(vec![])), Some("".to_string()));
    assert_eq!(digest_key(None), None);
}

#[test]
fn versioned_range_is_scanned_until_empty() {
    let mut backup = txn_backup(0);
    let first: Action = backup.begin();
    assert_eq!(
        first,
        FileAction::OpenWriter {
            file_name: "name".to_string()
        }
    );
    assert_eq!(
        backup.resume(done()),
        FileAction::TakeSnapshot(ReadContext {
            region_id: 3,
            region_epoch: RegionEpoch {
                conf_ver: 1,
                version: 5
            },
            peer: peer(),
        })
    );
    let options = match backup.resume(done()) {
        FileAction::OpenScanner(options) => options,
        other => panic!("{:?}", other),
    };
    assert_eq!(options.store.start_ts, 9);
    assert_eq!(options.store.isolation_level, IsolationLevel::Si);
    assert!(!options.store.fill_cache);
    assert_eq!(options.start_key, key(b"a"));
    assert_eq!(options.end_key, None);
    assert_eq!(options.after_ts, 0);
    assert!(!options.output_delete);
    assert_eq!(backup.resume(done()), FileAction::ScanEntries { limit: 1024 });
    for n in vec![1024usize, 7] {
        let write: Action = backup.resume(FileReply::Scanned(Ok(n)));
        assert_eq!(
            write,
            FileAction::WriteScanned {
                need_checksum: true
            }
        );
        assert_eq!(backup.resume(done()), FileAction::ScanEntries { limit: 1024 });
    }
    let save: Action = backup.resume(FileReply::Scanned(Ok(0)));
    assert_eq!(save, FileAction::Save);
    let finish: Action = backup.resume(FileReply::Saved(Ok((vec![file("f")], 17))));
    assert_eq!(finish, FileAction::Finish(Ok((vec![file("f")], 17))));
}

#[test]
fn incremental_backup_outputs_deletes() {
    let mut backup = txn_backup(4);
    let _: Action = backup.begin();
    backup.resume(done());
    match backup.resume(done()) {
        FileAction::OpenScanner(options) => {
            assert_eq!(options.after_ts, 4);
            assert!(options.output_delete);
        }
        other => panic!("{:?}", other),
    }
}

#[test]
fn raw_range_is_read_through_a_cursor() {
    let mut backup = raw_backup(key(b"b"));
    let first: Action = backup.begin();
    assert_eq!(
        first,
        FileAction::OpenRawWriter {
            file_name: "name".to_string(),
            cf: "raw".to_string(),
        }
    );
    backup.resume(done());
    assert_eq!(
        backup.resume(done()),
        FileAction::OpenCursor {
            cf: "write".to_string(),
            upper_bound: key(b"z"),
        }
    );
    assert_eq!(
        backup.resume(done()),
        FileAction::Seek(Key::from_encoded(b"b".to_vec()))
    );
    // Nothing is there: save right away.
    let save: Action = backup.resume(FileReply::Sought(Ok(false)));
    assert_eq!(save, FileAction::Save);

    let mut backup = raw_backup(None);
    let _: Action = backup.begin();
    backup.resume(done());
    backup.resume(done());
    assert_eq!(backup.resume(done()), FileAction::SeekToFirst);
}

#[test]
fn raw_entries_are_written_in_full_batches() {
    for n in vec![0, 1, 1023, 1024, 1025, 2048, 2500] {
        let all = entries(n);
        let batches = written(&all);
        assert_eq!(batches.concat(), all);
        for (i, batch) in batches.iter().enumerate() {
            assert!(!batch.is_empty());
            if i + 1 < batches.len() {
                assert_eq!(batch.len(), BACKUP_BATCH_LIMIT);
            } else {
                assert!(batch.len() <= BACKUP_BATCH_LIMIT);
            }
        }
    }
}

#[test]
fn cursor_is_checked_before_a_full_batch_is_written() {
    let mut backup = raw_backup(None);
    at_first_entry(&mut backup);
    for entry in entries(BACKUP_BATCH_LIMIT) {
        let read: Action = backup.resume(FileReply::Valid(Ok(true)));
        assert_eq!(read, FileAction::ReadEntry);
        let check: Action = backup.resume(FileReply::Entry(entry));
        assert_eq!(check, FileAction::CheckCursor);
    }
    let failed: Action = backup.resume(FileReply::Valid(Err("cursor".to_string())));
    assert_eq!(failed, FileAction::Finish(Err("cursor".to_string())));
}

#[test]
fn first_error_ends_a_file_backup() {
    let failed = || -> Action { FileAction::Finish(Err("e".to_string())) };
    let error = || -> Reply { FileReply::Done(Err("e".to_string())) };

    // writer, snapshot
    for ok in 0..2 {
        let mut backup = txn_backup(0);
        let _: Action = backup.begin();
        for _ in 0..ok {
            backup.resume(done());
        }
        assert_eq!(backup.resume(error()), failed());
    }
    // scan, write, save
    let mut backup = txn_backup(0);
    let _: Action = backup.begin();
    for _ in 0..3 {
        backup.resume(done());
    }
    assert_eq!(
        backup.resume::<String, u32>(FileReply::Scanned(Err("e".to_string()))),
        failed()
    );
    let mut backup = txn_backup(0);
    let _: Action = backup.begin();
    for _ in 0..3 {
        backup.resume(done());
    }
    let _: Action = backup.resume(FileReply::Scanned(Ok(1)));
    assert_eq!(backup.resume(error()), failed());
    let mut backup = txn_backup(0);
    let _: Action = backup.begin();
    for _ in 0..3 {
        backup.resume(done());
    }
    let _: Action = backup.resume(FileReply::Scanned(Ok(0)));
    assert_eq!(
        backup.resume::<String, u32>(FileReply::Saved(Err("e".to_string()))),
        failed()
    );
    // cursor, seek
    let mut backup = raw_backup(None);
    let _: Action = backup.begin();
    backup.resume(done());
    backup.resume(done());
    assert_eq!(backup.resume(error()), failed());
    let mut backup = raw_backup(None);
    let _: Action = backup.begin();
    for _ in 0..3 {
        backup.resume(done());
    }
    assert_eq!(
        backup.resume::<String, u32>(FileReply::Sought(Err("e".to_string()))),
        failed()
    );
}

/// Runs a worker over the ranges it is given, failing the backup of one region, and
/// returns the file names and the regions that were reported.
fn work(
    mut pages: Vec<Vec<BackupRange>>,
    fails: Option<u64>,
    cancel_after: usize,
) -> (Vec<String>, Vec<u64>) {
    pages.reverse();
    let mut worker = BackupWorker::new(8, 0, 9);
    let mut action = worker.begin();
    let mut names = Vec::new();
    let mut reports = Vec::new();
    let mut ok = true;
    let mut checks = 0;
    loop {
        let reply = match action {
            WorkerAction::TakeRanges(limit) => {
                assert_eq!(limit, WORKER_TAKE_RANGE);
                WorkerReply::Ranges(pages.pop().unwrap_or_default())
            }
            WorkerAction::CreateStorage => WorkerReply::StorageCreated,
            WorkerAction::CheckCancel => {
                checks += 1;
                WorkerReply::Canceled(checks > cancel_after)
            }
            WorkerAction::DigestKey { key, decode } => {
                assert!(!decode);
                WorkerReply::Digest(if key.as_encoded() == b"bad" {
                    None
                } else {
                    Some(key.into_encoded())
                })
            }
            WorkerAction::Backup(mut backup) => {
                let first: Action = backup.begin();
                match first {
                    FileAction::OpenRawWriter { file_name, cf } => {
                        assert_eq!(cf, "write");
                        ok = fails.map_or(true, |id| !file_name.starts_with(&format!("8_{}_", id)));
                        names.push(file_name);
                    }
                    other => panic!("{:?}", other),
                }
                WorkerReply::BackedUp { ok }
            }
            WorkerAction::Report(range) => {
                reports.push(range.region.id);
                WorkerReply::Reported
            }
            WorkerAction::Exit => return (names, reports),
        };
        action = worker.resume(reply);
    }
}

fn pages() -> Vec<Vec<BackupRange>> {
    vec![
        vec![
            range(1, None, key(b"a"), true),
            range(2, key(b"\xab"), key(b"\xac"), true),
        ],
        vec![range(3, key(b"bad"), None, true)],
    ]
}

#[test]
fn worker_reports_every_range() {
    let (names, reports) = work(pages(), None, 100);
    assert_eq!(names, vec!["8_1_5", "8_2_5_ab", "8_3_5"]);
    assert_eq!(reports, vec![1, 2, 3]);
}

#[test]
fn worker_stops_after_a_failure() {
    let (names, reports) = work(pages(), Some(2), 100);
    assert_eq!(names.len(), 2);
    // The failed range is reported too.
    assert_eq!(reports, vec![1, 2]);
}

#[test]
fn worker_stops_when_canceled() {
    let (_, reports) = work(pages(), None, 1);
    assert_eq!(reports, vec![1]);
    let (_, reports) = work(pages(), None, 0);
    assert!(reports.is_empty());
}

#[test]
fn worker_without_ranges_exits() {
    let (names, reports) = work(vec![], None, 100);
    assert!(names.is_empty());
    assert!(reports.is_empty());
}
