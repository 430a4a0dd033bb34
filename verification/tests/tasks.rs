use std::sync::atomic::Ordering;

use backup::pool::ControlThreadPool;
use backup::task::{BackupRequest, Error, Task};

fn request(rate_limit: u64) -> BackupRequest<u32> {
    BackupRequest {
        start_key: vec![0xab, 0x01],
        end_key: Vec::new(),
        start_version: 3,
        end_version: 8,
        storage_backend: 77,
        rate_limit,
        concurrency: 2,
        is_raw_kv: true,
        cf: "no_such".to_string(),
    }
}

#[test]
fn task_carries_the_request() {
    let (task, cancel) =
        Task::new::<String>(request(5), Some("default".to_string()), None).unwrap();
    assert_eq!(task.request.start_key, vec![0xab, 0x01]);
    assert!(task.request.end_key.is_empty());
    assert_eq!((task.request.start_ts, task.request.end_ts), (3, 8));
    assert_eq!(task.request.speed_limit, Some(5));
    assert_eq!(task.request.backend, 77);
    assert_eq!(task.request.cf, "default");
    assert!(task.request.is_raw_kv);
    assert_eq!(task.concurrency, 2);
    assert!(!task.has_canceled());
    cancel.store(true, Ordering::SeqCst);
    assert!(task.has_canceled());
}

#[test]
fn zero_rate_is_no_limit() {
    let (task, _) = Task::new::<String>(request(0), Some("default".to_string()), None).unwrap();
    assert_eq!(task.request.speed_limit, None);
}

#[test]
fn unknown_column_family_is_refused_first() {
    let err = Task::new(request(0), None, Some("disk")).unwrap_err();
    assert_eq!(
        err,
        Error::InvalidCf {
            cf: "no_such".to_string()
        }
    );
    let err = Task::new(request(0), Some("default".to_string()), Some("disk")).unwrap_err();
    assert_eq!(err, Error::Storage("disk"));
}

#[test]
fn label_is_in_upper_case_hex() {
    let (task, _) = Task::new::<String>(request(0), Some("default".to_string()), None).unwrap();
    let label = task.label();
    assert_eq!(label.start_key, "AB01");
    assert_eq!(label.end_key, "");
    assert_eq!((label.start_ts, label.end_ts), (3, 8));
    assert!(label.is_raw_kv);
    assert_eq!(label.cf, "default");
    let text = "BackupTask { start_ts: 3, end_ts: 8, start_key: \"AB01\", end_key: \"\", \
                is_raw_kv: true, cf: \"default\" }";
    assert_eq!(task.to_text(), text);
    assert_eq!(label.to_text(), text);
}

#[test]
fn pool_keeps_up_to_ten_idle_workers() {
    let mut pool = ControlThreadPool::new(0);
    assert!(!pool.adjust_with(0));
    assert!(pool.adjust_with(12));
    assert_eq!(pool.size(), 12);
    assert!(!pool.adjust_with(12));
    assert!(!pool.adjust_with(2));
    assert_eq!(pool.size(), 12);
    assert!(pool.adjust_with(1));
    assert_eq!(pool.size(), 1);
    assert!(pool.adjust_with(2));
    assert_eq!(pool.size(), 2);
}

#[test]
fn pool_is_shut_down_when_idle() {
    let mut pool = ControlThreadPool::new(5);
    pool.adjust_with(3);
    assert!(!pool.check_active(14, 10));
    assert_eq!(pool.size(), 3);
    pool.heartbeat(10);
    assert!(!pool.check_active(19, 10));
    assert!(pool.check_active(20, 10));
    assert_eq!(pool.size(), 0);
    assert!(!pool.check_active(40, 10));
    assert!(pool.adjust_with(1));
}
