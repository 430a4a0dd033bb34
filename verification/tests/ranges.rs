use backup::keys::{bounds_equal, bytes_equal, copy_bytes, key_less, Key};
use backup::progress::Progress;
use backup::range::{get_max_start_key, get_min_end_key, BackupRange};
use backup::region::{find_peer, Peer, Region, RegionEpoch, RegionInfo, StateRole};

fn peer(store_id: u64, id: u64) -> Peer {
    Peer {
        id,
        store_id,
        is_learner: false,
    }
}

fn region(start: &[u8], end: &[u8]) -> Region {
    Region {
        id: 1,
        start_key: start.to_vec(),
        end_key: end.to_vec(),
        region_epoch: RegionEpoch {
            conf_ver: 1,
            version: 2,
        },
        peers: vec![peer(1, 11)],
    }
}

fn info(start: &[u8], end: &[u8], role: StateRole) -> RegionInfo {
    RegionInfo {
        region: region(start, end),
        role,
    }
}

fn key(bytes: &[u8]) -> Option<Key> {
    Some(Key::from_encoded_slice(bytes))
}

fn progress(start: Option<Key>, end: Option<Key>) -> Progress {
    Progress::new(1, start, end, true, "default".to_string())
}

fn bounds(ranges: &[BackupRange]) -> Vec<(Option<Key>, Option<Key>)> {
    ranges
        .iter()
        .map(|r| (r.start_key.clone(), r.end_key.clone()))
        .collect()
}

/// The regions that reach past a key.
fn seek(regions: &[RegionInfo], from: &[u8]) -> Vec<RegionInfo> {
    regions
        .iter()
        .filter(|i| i.region.end_key.is_empty() || i.region.end_key.as_slice() > from)
        .map(|i| RegionInfo {
            region: i.region.clone(),
            role: i.role,
        })
        .collect()
}

fn drain(regions: &[RegionInfo], mut prs: Progress, limit: usize) -> Vec<BackupRange> {
    let mut all = Vec::new();
    while let Some(from) = prs.seek_key() {
        let found = seek(regions, &from);
        all.append(&mut prs.forward(limit, &found));
    }
    all
}

#[test]
fn keys_are_ordered_like_slices() {
    let samples: Vec<&[u8]> = vec![b"", b"\x00", b"a", b"a\x00", b"ab", b"b", b"\xff", b"\xff\xff"];
    for a in &samples {
        for b in &samples {
            assert_eq!(key_less(a, b), a < b);
            assert_eq!(bytes_equal(a, b), a == b);
        }
        assert_eq!(&copy_bytes(a), a);
    }
}

#[test]
fn bounds_are_compared_by_content() {
    assert!(bounds_equal(&None, &None));
    assert!(bounds_equal(&key(b"a"), &key(b"a")));
    assert!(!bounds_equal(&key(b"a"), &key(b"b")));
    assert!(!bounds_equal(&key(b""), &None));
}

#[test]
fn key_hands_its_bytes_back() {
    let k = Key::from_encoded(b"xy".to_vec());
    assert_eq!(k.as_encoded(), b"xy");
    assert_eq!(k.clone().into_encoded(), b"xy");
}

#[test]
fn min_end_key() {
    let bounded = region(b"b", b"d");
    let open = region(b"b", b"");
    assert_eq!(get_min_end_key(None, &open), None);
    assert_eq!(get_min_end_key(None, &bounded), key(b"d"));
    assert_eq!(get_min_end_key(key(b"c").as_ref(), &open), key(b"c"));
    assert_eq!(get_min_end_key(key(b"c").as_ref(), &bounded), key(b"c"));
    assert_eq!(get_min_end_key(key(b"d").as_ref(), &bounded), key(b"d"));
    assert_eq!(get_min_end_key(key(b"e").as_ref(), &bounded), key(b"d"));
}

#[test]
fn max_start_key() {
    let bounded = region(b"b", b"d");
    let open = region(b"", b"d");
    assert_eq!(get_max_start_key(None, &open), None);
    assert_eq!(get_max_start_key(None, &bounded), key(b"b"));
    assert_eq!(get_max_start_key(key(b"a").as_ref(), &open), key(b"a"));
    assert_eq!(get_max_start_key(key(b"a").as_ref(), &bounded), key(b"b"));
    assert_eq!(get_max_start_key(key(b"b").as_ref(), &bounded), key(b"b"));
    assert_eq!(get_max_start_key(key(b"c").as_ref(), &bounded), key(b"c"));
}

#[test]
fn peer_is_found_by_store() {
    let mut r = region(b"", b"");
    r.peers = vec![peer(3, 30), peer(5, 50), peer(5, 51)];
    assert_eq!(find_peer(&r, 5), Some(peer(5, 50)));
    assert_eq!(find_peer(&r, 3), Some(peer(3, 30)));
    assert_eq!(find_peer(&r, 1), None);
}

#[test]
fn only_led_regions_are_taken() {
    let regions = vec![
        info(b"", b"b", StateRole::Follower),
        info(b"b", b"d", StateRole::Leader),
        info(b"d", b"f", StateRole::Candidate),
        info(b"f", b"", StateRole::PreCandidate),
    ];
    let mut prs = progress(None, None);
    let ranges = prs.forward(9, &regions);
    assert_eq!(bounds(&ranges), vec![(key(b"b"), key(b"d"))]);
    assert_eq!(ranges[0].leader, peer(1, 11));
    assert_eq!(ranges[0].region, region(b"b", b"d"));
    assert!(ranges[0].is_raw_kv);
    assert_eq!(ranges[0].cf, "default");
    // Not known to be finished until a lookup comes back empty.
    assert_eq!(prs.seek_key(), Some(b"d".to_vec()));
    let rest = seek(&regions, b"d");
    assert!(prs.forward(9, &rest).is_empty());
    assert_eq!(prs.seek_key(), None);
    assert!(prs.forward(9, &regions).is_empty());
}

#[test]
fn no_more_than_the_limit() {
    let regions = vec![
        info(b"", b"b", StateRole::Leader),
        info(b"b", b"d", StateRole::Leader),
        info(b"d", b"", StateRole::Leader),
    ];
    let mut prs = progress(None, None);
    assert_eq!(prs.forward(2, &regions).len(), 2);
    assert_eq!(prs.seek_key(), Some(b"d".to_vec()));

    let mut prs = progress(None, None);
    assert!(prs.forward(0, &regions).is_empty());
    assert_eq!(prs.seek_key(), None);
}

#[test]
fn last_region_and_end_key_finish() {
    let mut prs = progress(None, None);
    prs.forward(5, &[info(b"", b"", StateRole::Leader)]);
    assert_eq!(prs.seek_key(), None);

    let mut prs = progress(None, key(b"c"));
    let ranges = prs.forward(5, &[info(b"b", b"d", StateRole::Leader)]);
    assert_eq!(bounds(&ranges), vec![(key(b"b"), key(b"c"))]);
    assert_eq!(prs.seek_key(), None);
}

#[test]
fn steps_of_any_size_give_the_same_ranges() {
    let regions = vec![
        info(b"", b"b", StateRole::Leader),
        info(b"b", b"d", StateRole::Follower),
        info(b"d", b"f", StateRole::Leader),
        info(b"h", b"k", StateRole::Leader),
        info(b"k", b"", StateRole::Leader),
    ];
    for (start, end) in vec![
        (None, None),
        (key(b"a"), key(b"z")),
        (key(b"e"), key(b"i")),
        (key(b"g"), None),
        (None, key(b"d")),
        (key(b"z"), key(b"b")),
    ] {
        let whole = drain(&regions, progress(start.clone(), end.clone()), 100);
        for limit in 1..6 {
            let pieces = drain(&regions, progress(start.clone(), end.clone()), limit);
            assert_eq!(bounds(&pieces), bounds(&whole));
        }
        for pair in whole.windows(2) {
            assert!(pair[0].end_key.as_ref().unwrap().as_encoded()
                <= pair[1].start_key.as_ref().unwrap().as_encoded());
        }
    }
}

#[test]
fn every_led_key_is_in_one_range() {
    let regions = vec![
        info(b"", b"b", StateRole::Leader),
        info(b"b", b"d", StateRole::Follower),
        info(b"d", b"f", StateRole::Leader),
        info(b"g", b"", StateRole::Leader),
    ];
    let ranges = drain(&regions, progress(key(b"a"), key(b"h")), 1);
    let holds = |lo: &[u8], hi: &[u8], k: &[u8]| lo <= k && (hi.is_empty() || k < hi);
    for k in vec![b"0", b"a", b"b", b"c", b"d", b"e", b"f", b"g", b"h", b"i"] {
        let led = regions.iter().any(|i| {
            i.role == StateRole::Leader && holds(&i.region.start_key, &i.region.end_key, k)
        });
        let wanted = led && holds(b"a", b"h", k);
        let found = ranges
            .iter()
            .filter(|r| {
                holds(
                    r.start_key.as_ref().map_or(b"", |s| s.as_encoded()),
                    r.end_key.as_ref().map_or(b"", |e| e.as_encoded()),
                    k,
                )
            })
            .count();
        assert_eq!(found, if wanted { 1 } else { 0 });
    }
}

#[test]
fn split_region_is_not_handed_out_again() {
    let mut prs = progress(None, None);
    let first = prs.forward(1, &[info(b"", b"m", StateRole::Leader)]);
    assert_eq!(bounds(&first), vec![(None, key(b"m"))]);
    // By the time of the next step the regions have been merged.
    let second = prs.forward(1, &[info(b"", b"", StateRole::Leader)]);
    assert_eq!(bounds(&second), vec![(key(b"m"), None)]);
}

#[test]
fn selector_sees_one_region_at_a_time() {
    let prs = progress(None, key(b"d"));
    let mut selector = prs.selector(1);
    assert!(!selector.is_done());
    assert!(selector.can_offer(&info(b"", b"b", StateRole::Follower)));
    assert!(selector.offer(&info(b"", b"b", StateRole::Follower)).is_none());
    assert!(!selector.is_done());
    let led = info(b"b", b"z", StateRole::Leader);
    assert!(selector.can_offer(&led));
    let range = selector.offer(&led).unwrap();
    assert_eq!(range.end_key, key(b"d"));
    assert!(selector.is_done());
    assert!(!selector.can_offer(&led));

    let mut selector = prs.selector(3);
    assert!(selector.offer(&info(b"d", b"z", StateRole::Leader)).is_none());
    assert!(selector.is_done());
}

#[test]
fn selector_refuses_what_cannot_be_a_range() {
    let prs = progress(key(b"c"), key(b"c"));
    let selector = prs.selector(1);
    assert!(!selector.can_offer(&info(b"b", b"z", StateRole::Leader)));

    let prs = progress(None, None);
    let selector = prs.selector(1);
    let mut elsewhere = info(b"", b"", StateRole::Leader);
    elsewhere.region.peers = vec![peer(2, 20)];
    assert!(!selector.can_offer(&elsewhere));
}

#[test]
fn step_is_recorded_when_it_ends() {
    let mut prs = progress(None, None);
    let mut selector = prs.selector(2);
    let range = selector.offer(&info(b"", b"b", StateRole::Leader)).unwrap();
    prs.complete(&[range]);
    assert_eq!(prs.seek_key(), Some(b"b".to_vec()));
    prs.complete(&[]);
    assert_eq!(prs.seek_key(), None);
    assert!(prs.is_raw_kv());
    assert_eq!(prs.cf(), "default");
}
