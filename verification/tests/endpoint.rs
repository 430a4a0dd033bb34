use std::sync::atomic::{AtomicBool, Ordering};
use std::sync::Arc;

use backup::endpoint::{request_bound, Endpoint};
use backup::file_backup::{FileAction, FileBackup, FileReply};
use backup::keys::Key;
use backup::progress::Progress;
use backup::range::BackupRange;
use backup::region::{Peer, Region, RegionEpoch, RegionInfo, StateRole};
use backup::response::{BackupResponse, File};
use backup::task::{BackupRequest, Error, Task};
use backup::worker::{BackupWorker, WorkerAction, WorkerReply};

const CF_DEFAULT: &str = "default";
const SHORT_VALUE_MAX_LEN: usize = 255;
const MILLI: u128 = 1_000_000;

/// Order-preserving form of a key: groups of eight bytes, each followed by a byte
/// that tells how much of the group is padding.
fn encode(raw: &[u8]) -> Vec<u8> {
    let mut out = Vec::new();
    let mut rest = raw;
    loop {
        let n = rest.len().min(8);
        out.extend_from_slice(&rest[..n]);
        out.extend(std::iter::repeat(0u8).take(8 - n));
        out.push(0xff - (8 - n) as u8);
        if n < 8 {
            return out;
        }
        rest = &rest[8..];
    }
}

fn decode(encoded: &[u8]) -> Vec<u8> {
    let mut out = Vec::new();
    for group in encoded.chunks(9) {
        let n = 8 - (0xff - group[8]) as usize;
        out.extend_from_slice(&group[..n]);
    }
    out
}

#[derive(Clone, Copy, Debug, PartialEq, Eq)]
enum StoreError {
    Locked,
    NotLeader,
    ServerIsBusy,
}

/// A store with regions and an engine that answers as it is told.
struct MockStore {
    regions: Vec<RegionInfo>,
    cancel_on_seek: Option<Arc<AtomicBool>>,
    snapshot_error: Option<StoreError>,
    scan_error: Option<StoreError>,
    files: usize,
}

fn region_info(start: &[u8], end: &[u8], id: u64) -> RegionInfo {
    let stored = |key: &[u8]| if key.is_empty() { Vec::new() } else { encode(key) };
    RegionInfo {
        region: Region {
            id,
            start_key: stored(start),
            end_key: stored(end),
            region_epoch: RegionEpoch {
                conf_ver: 0,
                version: 0,
            },
            peers: vec![Peer {
                id: 1,
                store_id: 1,
                is_learner: false,
            }],
        },
        role: StateRole::Leader,
    }
}

fn copy_info(info: &RegionInfo) -> RegionInfo {
    RegionInfo {
        region: info.region.clone(),
        role: info.role,
    }
}

impl MockStore {
    fn new(regions: &[(&[u8], &[u8], u64)]) -> MockStore {
        MockStore {
            regions: regions
                .iter()
                .map(|(start, end, id)| region_info(start, end, *id))
                .collect(),
            cancel_on_seek: None,
            snapshot_error: None,
            scan_error: None,
            files: 0,
        }
    }

    fn seek_region(&self, from: &[u8]) -> Vec<RegionInfo> {
        if let Some(cancel) = &self.cancel_on_seek {
            cancel.store(true, Ordering::SeqCst);
        }
        self.regions
            .iter()
            .filter(|info| info.region.end_key.is_empty() || info.region.end_key.as_slice() > from)
            .map(copy_info)
            .collect()
    }

    fn forward(&self, progress: &mut Progress, limit: usize) -> Vec<BackupRange> {
        let infos = match progress.seek_key() {
            Some(from) => self.seek_region(&from),
            None => Vec::new(),
        };
        progress.forward(limit, &infos)
    }

    fn back_up(&self, backup: &mut FileBackup) -> Result<Vec<File>, StoreError> {
        let mut action: FileAction<StoreError, ()> = backup.begin();
        loop {
            let reply = match action {
                FileAction::OpenWriter { .. } | FileAction::OpenScanner(_) => {
                    FileReply::Done(Ok(()))
                }
                FileAction::TakeSnapshot(_) => FileReply::Done(match self.snapshot_error {
                    Some(e) => Err(e),
                    None => Ok(()),
                }),
                FileAction::ScanEntries { .. } => FileReply::Scanned(match self.scan_error {
                    Some(e) => Err(e),
                    None => Ok(0),
                }),
                FileAction::Save => {
                    let files = (0..self.files).map(|i| file(&i.to_string())).collect();
                    FileReply::Saved(Ok((files, ())))
                }
                FileAction::Finish(result) => return result.map(|(files, _)| files),
                other => panic!("{:?}", other),
            };
            action = backup.resume(reply);
        }
    }
}

fn file(name: &str) -> File {
    File {
        name: name.to_string(),
        sha256: vec![1, 2],
        start_key: Vec::new(),
        end_key: Vec::new(),
        start_version: 0,
        end_version: 0,
        crc64xor: 3,
        total_kvs: 4,
        total_bytes: 5,
    }
}

/// Runs a task on its workers, one action of each in turn, and collects the responses.
fn handle_backup_task(
    endpoint: &mut Endpoint,
    task: &Task<String>,
    store: &MockStore,
) -> Vec<BackupResponse<StoreError>> {
    let request = &task.request;
    let mut plan =
        endpoint.handle_backup_task(task, encode(&request.start_key), encode(&request.end_key));
    let mut workers: Vec<(BackupWorker, WorkerAction, Option<Result<Vec<File>, StoreError>>)> =
        (0..plan.workers)
            .map(|_| {
                let mut worker = endpoint.spawn_backup_worker(request);
                let action = worker.begin();
                (worker, action, None)
            })
            .collect();
    let mut responses = Vec::new();
    let mut running = true;
    while running {
        running = false;
        for (worker, action, result) in workers.iter_mut() {
            let reply = match std::mem::replace(action, WorkerAction::Exit) {
                WorkerAction::Exit => continue,
                WorkerAction::TakeRanges(limit) => {
                    WorkerReply::Ranges(store.forward(&mut plan.progress, limit))
                }
                WorkerAction::CreateStorage => WorkerReply::StorageCreated,
                WorkerAction::CheckCancel => {
                    WorkerReply::Canceled(request.cancel.load(Ordering::SeqCst))
                }
                WorkerAction::DigestKey { key, decode: raw } => {
                    assert!(raw);
                    WorkerReply::Digest(Some(decode(key.as_encoded())))
                }
                WorkerAction::Backup(mut backup) => {
                    let outcome = store.back_up(&mut backup);
                    let ok = outcome.is_ok();
                    *result = Some(outcome);
                    WorkerReply::BackedUp { ok }
                }
                WorkerAction::Report(range) => {
                    let decoded = |bound: &Option<Key>| match bound {
                        Some(key) => decode(key.as_encoded()),
                        None => Vec::new(),
                    };
                    let start = decoded(&range.start_key);
                    let end = decoded(&range.end_key);
                    let outcome = result.take().unwrap();
                    responses.push(request.respond(&range, start, end, outcome));
                    WorkerReply::Reported
                }
            };
            running = true;
            *action = worker.resume(reply);
        }
    }
    responses
}

fn request(start: &[u8], end: &[u8], version: u64, concurrency: u32) -> BackupRequest<String> {
    BackupRequest {
        start_key: start.to_vec(),
        end_key: end.to_vec(),
        start_version: version,
        end_version: version,
        storage_backend: "local".to_string(),
        rate_limit: 0,
        concurrency,
        is_raw_kv: false,
        cf: CF_DEFAULT.to_string(),
    }
}

fn new_task(req: BackupRequest<String>) -> (Task<String>, Arc<AtomicBool>) {
    let cf = Some(req.cf.clone());
    Task::new::<StoreError>(req, cf, None).unwrap()
}

#[test]
fn test_seek_range() {
    let store = MockStore::new(&[
        (b"", b"1", 1),
        (b"1", b"2", 2),
        (b"3", b"4", 3),
        (b"7", b"9", 4),
        (b"9", b"", 5),
    ]);
    let mut endpoint = Endpoint::new(1, 0);
    // Test seek backup range.
    let test_seek_backup_range =
        |store_id: u64, start_key: &[u8], end_key: &[u8], expect: &Vec<(&[u8], &[u8])>| {
            let start_key = request_bound(start_key, false, encode(start_key));
            let end_key = request_bound(end_key, false, encode(end_key));
            let mut prs = Progress::new(
                store_id,
                start_key,
                end_key,
                false,
                CF_DEFAULT.to_string(),
            );

            let mut ranges = Vec::with_capacity(expect.len());
            while ranges.len() != expect.len() {
                let n = (rand::random::<usize>() % 3) + 1;
                let mut r = store.forward(&mut prs, n);
                // The returned backup ranges should <= n
                assert!(r.len() <= n);

                if r.is_empty() {
                    // if return a empty vec then the progress is finished
                    assert_eq!(
                        ranges.len(),
                        expect.len(),
                        "got {:?}, expect {:?}",
                        ranges,
                        expect
                    );
                }
                ranges.append(&mut r);
            }

            for (a, b) in ranges.into_iter().zip(expect) {
                assert_eq!(
                    a.start_key.map_or_else(Vec::new, |k| decode(&k.into_encoded())),
                    b.0
                );
                assert_eq!(
                    a.end_key.map_or_else(Vec::new, |k| decode(&k.into_encoded())),
                    b.1
                );
            }
        };

    // Backup range from case.0 to case.1,
    // the case.2 is the expected results.
    let case: Vec<(&[u8], &[u8], Vec<(&[u8], &[u8])>)> = vec![
        (b"", b"1", vec![(b"", b"1")]),
        (b"", b"2", vec![(b"", b"1"), (b"1", b"2")]),
        (b"1", b"2", vec![(b"1", b"2")]),
        (b"1", b"3", vec![(b"1", b"2")]),
        (b"1", b"4", vec![(b"1", b"2"), (b"3", b"4")]),
        (b"4", b"6", vec![]),
        (b"4", b"5", vec![]),
        (b"2", b"7", vec![(b"3", b"4")]),
        (b"7", b"8", vec![(b"7", b"8")]),
        (b"3", b"", vec![(b"3", b"4"), (b"7", b"9"), (b"9", b"")]),
        (b"5", b"", vec![(b"7", b"9"), (b"9", b"")]),
        (b"7", b"", vec![(b"7", b"9"), (b"9", b"")]),
        (b"8", b"91", vec![(b"8", b"9"), (b"9", b"91")]),
        (b"8", b"", vec![(b"8", b"9"), (b"9", b"")]),
        (
            b"",
            b"",
            vec![
                (b"", b"1"),
                (b"1", b"2"),
                (b"3", b"4"),
                (b"7", b"9"),
                (b"9", b""),
            ],
        ),
    ];
    for (start_key, end_key, expect) in case {
        test_seek_backup_range(endpoint.store_id, start_key, end_key, &expect);

        // Test whether responses contain correct range.
        let (task, _) = new_task(request(start_key, end_key, 1, 4));
        let resps = handle_backup_task(&mut endpoint, &task, &store);
        for a in &resps {
            assert!(
                expect
                    .iter()
                    .any(|b| { a.start_key == b.0 && a.end_key == b.1 }),
                "{:?} {:?}",
                resps,
                expect
            );
        }
        assert_eq!(resps.len(), expect.len());
    }
}

#[test]
fn test_handle_backup_task() {
    let mut store = MockStore::new(&[(b"", b"5", 1)]);
    let mut endpoint = Endpoint::new(1, 0);

    let mut ts = 1u64;
    let mut backup_tss = vec![];
    for len in &[SHORT_VALUE_MAX_LEN - 1, SHORT_VALUE_MAX_LEN * 2] {
        for _ in 0..10u8 {
            ts += 3;
            backup_tss.push((ts, *len));
        }
    }

    for (ts, len) in backup_tss {
        let make_req = || {
            let mut req = request(b"", b"5", 0, 4);
            req.end_version = ts;
            req
        };
        // Empty path should return an error.
        let err = Task::new(make_req(), Some(CF_DEFAULT.to_string()), Some("empty path"));
        assert_eq!(err.unwrap_err(), Error::Storage("empty path"));

        let mut req = make_req();
        if len % 2 == 0 {
            req.rate_limit = 10 * 1024 * 1024;
        }
        let (task, _) = new_task(req);
        if len % 2 == 0 {
            // Make sure the rate limiter is set.
            assert_eq!(task.request.speed_limit, Some(10 * 1024 * 1024));
        }
        // Short values are kept inline, so only long ones need a second file.
        let file_len = if len <= SHORT_VALUE_MAX_LEN { 1 } else { 2 };
        store.files = file_len;
        let resps = handle_backup_task(&mut endpoint, &task, &store);
        assert_eq!(resps.len(), 1, "{:?}", resps);
        let resp = &resps[0];
        assert!(resp.error.is_none(), "{:?}", resp);
        assert_eq!(resp.files.len(), file_len /* default and write */, "{:?}", resp);
        for f in &resp.files {
            assert_eq!(f.start_key, b"");
            assert_eq!(f.end_key, b"5");
            assert_eq!(f.start_version, 0);
            assert_eq!(f.end_version, ts);
            assert_eq!((f.crc64xor, f.total_kvs, f.total_bytes), (3, 4, 5));
        }
    }
}

#[test]
fn test_scan_error() {
    let mut store = MockStore::new(&[(b"", b"5", 1)]);
    let mut endpoint = Endpoint::new(1, 0);

    store.scan_error = Some(StoreError::Locked);
    let (task, _) = new_task(request(b"", b"5", 3, 4));
    let resps = handle_backup_task(&mut endpoint, &task, &store);
    assert_eq!(resps.len(), 1);
    assert_eq!(resps[0].error, Some(StoreError::Locked), "{:?}", resps);
    assert_eq!(resps[0].files.len(), 0, "{:?}", resps);

    // Test whether a snapshot that is not taken on the leader is reported as such.
    store.scan_error = None;
    store.snapshot_error = Some(StoreError::NotLeader);
    let (task, _) = new_task(request(b"", b"5", 5, 4));
    let resps = handle_backup_task(&mut endpoint, &task, &store);
    assert_eq!(resps.len(), 1);
    assert_eq!(resps[0].error, Some(StoreError::NotLeader), "{:?}", resps);
}

#[test]
fn test_cancel() {
    let mut store = MockStore::new(&[(b"", b"5", 1)]);
    let mut endpoint = Endpoint::new(1, 0);

    // Cancel the task before starting the task.
    let (task, cancel) = new_task(request(b"", b"", 4, 4));
    assert!(!task.has_canceled());
    // Cancel the task.
    cancel.store(true, Ordering::SeqCst);
    assert!(task.has_canceled());
    let resps = handle_backup_task(&mut endpoint, &task, &store);
    assert!(resps.is_empty());

    // Cancel the task during backup.
    let (task, cancel) = new_task(request(b"", b"", 4, 4));
    store.cancel_on_seek = Some(cancel);
    let resps = handle_backup_task(&mut endpoint, &task, &store);
    assert!(resps.is_empty());
}

#[test]
fn test_busy() {
    let mut store = MockStore::new(&[(b"", b"5", 1)]);
    let mut endpoint = Endpoint::new(1, 0);

    let (task, _) = new_task(request(b"", b"", 1, 4));
    // A snapshot that times out is reported as a busy server.
    store.snapshot_error = Some(StoreError::ServerIsBusy);
    let resps = handle_backup_task(&mut endpoint, &task, &store);
    assert_eq!(resps.len(), 1);
    assert_eq!(resps[0].error, Some(StoreError::ServerIsBusy), "{:?}", resps);
}

#[test]
fn test_adjust_thread_pool_size() {
    let store = MockStore::new(&[(b"", b"", 1)]);
    let mut endpoint = Endpoint::new(1, 0);

    // at lease spwan one thread
    let (task, _) = new_task(request(b"", b"", 1, 0));
    handle_backup_task(&mut endpoint, &task, &store);
    assert!(endpoint.pool.size() == 1);

    // expand thread pool is needed
    let (task, _) = new_task(request(b"", b"", 1, 15));
    handle_backup_task(&mut endpoint, &task, &store);
    assert!(endpoint.pool.size() == 15);

    // shrink thread pool only if there are too many idle threads
    let (task, _) = new_task(request(b"", b"", 1, 10));
    handle_backup_task(&mut endpoint, &task, &store);
    assert!(endpoint.pool.size() == 15);

    let (task, _) = new_task(request(b"", b"", 1, 3));
    handle_backup_task(&mut endpoint, &task, &store);
    assert!(endpoint.pool.size() == 3);
}

#[test]
fn test_thread_pool_shutdown_when_idle() {
    let mut endpoint = Endpoint::new(1, 0);

    // set the idle threshold to 100ms
    endpoint.pool_idle_threshold = 100;
    assert_eq!(endpoint.new_timer(), 100);

    let (task, _) = new_task(request(b"", b"", 1, 10));

    // if not task arrive after create the thread pool is empty
    assert_eq!(endpoint.pool.size(), 0);

    let plan = endpoint.run(&task, encode(b""), encode(b"")).unwrap();
    assert!(plan.replace_pool);
    endpoint.task_done(10 * MILLI);
    assert_eq!(endpoint.on_timeout(10 * MILLI), (false, 100));
    assert_eq!(endpoint.pool.size(), 10);

    // thread pool not yet shutdown
    assert_eq!(endpoint.on_timeout(60 * MILLI), (false, 100));
    assert_eq!(endpoint.pool.size(), 10);
    assert_eq!(endpoint.on_timeout(110 * MILLI - 1), (false, 100));
    assert_eq!(endpoint.pool.size(), 10);

    // thread pool shutdown if not task arrive for 100ms
    assert_eq!(endpoint.on_timeout(110 * MILLI), (true, 100));
    assert_eq!(endpoint.pool.size(), 0);
    // nothing is left to be dropped
    assert_eq!(endpoint.on_timeout(500 * MILLI), (false, 100));
}

#[test]
fn canceled_task_is_not_run() {
    let mut endpoint = Endpoint::new(1, 0);
    let (task, cancel) = new_task(request(b"", b"", 1, 4));
    cancel.store(true, Ordering::SeqCst);
    assert!(endpoint.run(&task, encode(b""), encode(b"")).is_none());
    assert_eq!(endpoint.pool.size(), 0);
    assert!(endpoint
        .run_unless_canceled(false, &task, encode(b""), encode(b""))
        .is_some());
    assert_eq!(endpoint.pool.size(), 4);
}

#[test]
fn default_idle_threshold_is_half_an_hour() {
    assert_eq!(Endpoint::new(7, 0).new_timer(), 1_800_000);
}

#[test]
fn bounds_of_a_request() {
    assert_eq!(request_bound(b"", false, encode(b"")), None);
    assert_eq!(request_bound(b"", true, vec![9]), None);
    assert_eq!(
        request_bound(b"k", true, vec![9]),
        Some(Key::from_encoded(b"k".to_vec()))
    );
    assert_eq!(
        request_bound(b"k", false, vec![9]),
        Some(Key::from_encoded(vec![9]))
    );
}

#[test]
fn raw_response_keeps_stored_keys() {
    let mut req = request(b"a", b"c", 7, 1);
    req.is_raw_kv = true;
    let (task, _) = new_task(req);
    let info = region_info(b"", b"", 3);
    let range = BackupRange {
        start_key: Some(Key::from_encoded(b"a".to_vec())),
        end_key: None,
        leader: info.region.peers[0],
        region: info.region,
        is_raw_kv: true,
        cf: CF_DEFAULT.to_string(),
    };
    let resp = task
        .request
        .respond::<StoreError>(&range, vec![8], vec![9], Ok(vec![file("f")]));
    assert_eq!(resp.start_key, b"a");
    assert_eq!(resp.end_key, b"");
    assert_eq!(resp.files[0].start_key, b"a");
    assert_eq!(resp.files[0].start_version, 7);
    assert_eq!(resp.files[0].name, "f");
}

#[test]
fn response_gives_the_request_keys_back() {
    let store = MockStore::new(&[(b"", b"", 1)]);
    let cases: Vec<(&[u8], &[u8])> = vec![
        (b"", b""),
        (b"", b"k"),
        (b"a", b""),
        (b"a", b"k"),
        (b"a\x00b", b"\xff\xff\xff\xff\xff\xff\xff\xff\xff"),
    ];
    for is_raw_kv in vec![false, true] {
        for (start, end) in &cases {
            let mut endpoint = Endpoint::new(1, 0);
            let mut req = request(start, end, 1, 2);
            req.is_raw_kv = is_raw_kv;
            let (task, _) = new_task(req);
            let mut plan = endpoint.handle_backup_task(&task, encode(start), encode(end));
            let ranges = store.forward(&mut plan.progress, 6);
            assert_eq!(ranges.len(), 1);
            assert_eq!(plan.progress.seek_key(), None);
            let stored = ranges[0].start_key.as_ref().map(|key| key.as_encoded().clone());
            if !is_raw_kv && !start.is_empty() {
                assert_eq!(stored, Some(encode(start)));
                assert_ne!(stored, Some(start.to_vec()));
            }
            let decoded = |bound: &Option<Key>| match bound {
                Some(key) if !is_raw_kv => decode(key.as_encoded()),
                _ => Vec::new(),
            };
            let resp = task.request.respond::<StoreError>(
                &ranges[0],
                decoded(&ranges[0].start_key),
                decoded(&ranges[0].end_key),
                Ok(Vec::new()),
            );
            assert_eq!(&resp.start_key, start);
            assert_eq!(&resp.end_key, end);
        }
    }
}

#[test]
fn failing_workers_report_no_range_twice() {
    let keys: Vec<Vec<u8>> = (0..15u8).map(|i| if i == 14 { vec![] } else { vec![i] }).collect();
    let regions: Vec<(&[u8], &[u8], u64)> = (0..14)
        .map(|i| {
            let start: &[u8] = if i == 0 { b"" } else { &keys[i] };
            (start, keys[i + 1].as_slice(), i as u64)
        })
        .collect();
    let mut store = MockStore::new(&regions);
    let mut endpoint = Endpoint::new(1, 0);

    let (task, _) = new_task(request(b"", b"", 1, 3));
    let resps = handle_backup_task(&mut endpoint, &task, &store);
    assert_eq!(resps.len(), 14);

    store.scan_error = Some(StoreError::Locked);
    let (task, _) = new_task(request(b"", b"", 1, 3));
    let resps = handle_backup_task(&mut endpoint, &task, &store);
    // Each worker takes its share and stops at the first range of it.
    assert_eq!(resps.len(), 3);
    for (i, a) in resps.iter().enumerate() {
        assert!(regions.iter().any(|r| a.start_key == r.0 && a.end_key == r.1));
        for b in &resps[i + 1..] {
            assert_ne!(a.start_key, b.start_key);
        }
    }
}
