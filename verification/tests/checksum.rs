use backup::checksum::{
    checksum_crc64_xor, xor_checksum, ChecksumAction, ChecksumAlgorithm, ChecksumContext,
    ChecksumError, ChecksumReply, ChecksumRequest, ChecksumResponse, KeyRange, ReqContext,
};
use backup::snapshot::{IsolationLevel, StoreOptions};

type Row = (Vec<u8>, Vec<u8>);

fn range(start: &[u8], end: &[u8]) -> KeyRange {
    KeyRange {
        start: start.to_vec(),
        end: end.to_vec(),
    }
}

fn row(k: &[u8], v: &[u8]) -> Row {
    (k.to_vec(), v.to_vec())
}

fn context(algorithm: ChecksumAlgorithm, ranges: Vec<KeyRange>) -> ChecksumContext {
    ChecksumContext::new::<String>(
        ChecksumRequest {
            start_ts: 42,
            algorithm,
        },
        ranges,
        &ReqContext {
            isolation_level: IsolationLevel::Si,
            not_fill_cache: true,
        },
    )
    .unwrap()
}

/// Answers a request from a sorted list of rows.
fn answer(ranges: Vec<KeyRange>, rows: &[Row]) -> (ChecksumResponse, Vec<&'static str>) {
    let mut ctx = context(ChecksumAlgorithm::Crc64Xor, ranges);
    let mut scan: Vec<Row> = Vec::new();
    let mut trace = Vec::new();
    let open = |range: KeyRange| -> Vec<Row> {
        rows.iter()
            .rev()
            .filter(|r| range.start <= r.0 && r.0 < range.end)
            .cloned()
            .collect()
    };
    let mut action: ChecksumAction<String> = ctx.handle_request();
    loop {
        let reply = match action {
            ChecksumAction::NewScanner(range) => {
                trace.push("new");
                scan = open(range);
                ChecksumReply::Scanner(Ok(()))
            }
            ChecksumAction::ResetScanner(range) => {
                trace.push("reset");
                scan = open(range);
                ChecksumReply::Scanner(Ok(()))
            }
            ChecksumAction::NextRow => ChecksumReply::Row(Ok(scan.pop())),
            ChecksumAction::CollectStatistics => {
                trace.push("collect");
                ChecksumReply::Collected
            }
            ChecksumAction::Finish(result) => return (result.unwrap(), trace),
        };
        action = ctx.resume(reply);
    }
}

#[test]
fn crc_of_the_check_string() {
    assert_eq!(checksum_crc64_xor(0, b"1234", b"56789"), 0x995d_c9bb_df19_39fa);
    assert_eq!(checksum_crc64_xor(0, b"", b""), 0);
}

#[test]
fn crc_ignores_where_the_key_ends() {
    assert_eq!(
        checksum_crc64_xor(5, b"ab", b"cd"),
        checksum_crc64_xor(5, b"abc", b"d")
    );
}

#[test]
fn xor_of_a_checksum() {
    assert_eq!(xor_checksum(0b1100, 0b1010), 0b0110);
    let once = checksum_crc64_xor(77, b"k", b"v");
    assert_ne!(once, 77);
    assert_eq!(checksum_crc64_xor(once, b"k", b"v"), 77);
}

#[test]
fn request_sums_all_ranges() {
    let rows = vec![row(b"a", b"1"), row(b"b", b"22"), row(b"c", b""), row(b"x", b"9")];
    let (response, trace) = answer(
        vec![range(b"a", b"b"), range(b"m", b"n"), range(b"b", b"d")],
        &rows,
    );
    let mut expected = 0;
    for (k, v) in &rows[..3] {
        expected = checksum_crc64_xor(expected, k, v);
    }
    assert_eq!(
        response,
        ChecksumResponse {
            checksum: expected,
            total_kvs: 3,
            total_bytes: 6,
        }
    );
    assert_eq!(
        trace,
        vec!["new", "collect", "reset", "collect", "reset", "collect"]
    );
}

#[test]
fn order_and_division_do_not_matter() {
    let rows = vec![row(b"a", b"1"), row(b"b", b"2"), row(b"c", b"3")];
    let (whole, _) = answer(vec![range(b"a", b"z")], &rows);
    let (swapped, _) = answer(vec![range(b"b", b"z"), range(b"a", b"b")], &rows);
    assert_eq!(whole, swapped);
    let (left, _) = answer(vec![range(b"a", b"b")], &rows);
    let (right, _) = answer(vec![range(b"b", b"z")], &rows);
    assert_eq!(whole.checksum, left.checksum ^ right.checksum);
    let (twice, _) = answer(vec![range(b"a", b"z"), range(b"a", b"z")], &rows);
    assert_eq!(twice.checksum, 0);
    assert_eq!(twice.total_kvs, 6);
}

#[test]
fn no_range_is_an_empty_sum() {
    let (response, trace) = answer(vec![], &[row(b"a", b"1")]);
    assert_eq!(
        response,
        ChecksumResponse {
            checksum: 0,
            total_kvs: 0,
            total_bytes: 0,
        }
    );
    assert!(trace.is_empty());
}

#[test]
fn unknown_algorithm_is_refused() {
    let mut ctx = context(ChecksumAlgorithm::Unknown(3), vec![range(b"a", b"b")]);
    assert_eq!(
        ctx.handle_request::<String>(),
        ChecksumAction::Finish(Err(ChecksumError::UnknownAlgorithm(
            ChecksumAlgorithm::Unknown(3)
        )))
    );
}

#[test]
fn scanner_errors_are_answered() {
    let failed = || ChecksumAction::Finish(Err(ChecksumError::Scan("io".to_string())));

    let mut ctx = context(ChecksumAlgorithm::Crc64Xor, vec![range(b"a", b"b")]);
    assert_eq!(
        ctx.handle_request::<String>(),
        ChecksumAction::NewScanner(range(b"a", b"b"))
    );
    assert_eq!(ctx.resume(ChecksumReply::Scanner(Err("io".to_string()))), failed());

    let mut ctx = context(ChecksumAlgorithm::Crc64Xor, vec![range(b"a", b"b")]);
    ctx.handle_request::<String>();
    assert_eq!(
        ctx.resume::<String>(ChecksumReply::Scanner(Ok(()))),
        ChecksumAction::NextRow
    );
    assert_eq!(ctx.resume(ChecksumReply::Row(Err("io".to_string()))), failed());
}

#[test]
fn snapshot_is_read_as_the_request_says() {
    let ctx = context(ChecksumAlgorithm::Crc64Xor, vec![]);
    assert_eq!(
        ctx.store_options(),
        StoreOptions {
            start_ts: 42,
            isolation_level: IsolationLevel::Si,
            fill_cache: false,
        }
    );
}

#[test]
fn tally_is_full_at_the_limit() {
    let mut tally = ChecksumResponse {
        checksum: 1,
        total_kvs: 0,
        total_bytes: u64::MAX - 3,
    };
    assert!(!tally.can_add(4));
    assert!(tally.can_add(3));
    tally.add_row(9, 3);
    assert_eq!(
        tally,
        ChecksumResponse {
            checksum: 9,
            total_kvs: 1,
            total_bytes: u64::MAX,
        }
    );
}
