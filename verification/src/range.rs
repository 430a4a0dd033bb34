//! The part of a region that a backup asks for.

use vstd::prelude::*;

use crate::keys::{
    bound_view, clone_bound, in_range, key_less, key_lt, key_lt_le_transitive, key_lt_transitive,
    max_start, min_end, stored_bound, Key,
};
use crate::region::{Peer, Region, RegionView};

verus! {

/// One region's share of a backup: the keys `[start_key, end_key)` of `region`,
/// to be read from the replica `leader`.
#[derive(Debug, PartialEq, Eq)]
pub struct BackupRange {
    pub start_key: Option<Key>,
    pub end_key: Option<Key>,
    pub region: Region,
    pub leader: Peer,
    pub is_raw_kv: bool,
    pub cf: String,
}

/// The model of a [`BackupRange`].
#[verifier::ext_equal]
pub struct BackupRangeView {
    pub start_key: Option<Seq<u8>>,
    pub end_key: Option<Seq<u8>>,
    pub region: RegionView,
    pub leader: Peer,
    pub is_raw_kv: bool,
    pub cf: Seq<char>,
}

impl View for BackupRange {
    type V = BackupRangeView;

    open spec fn view(&self) -> BackupRangeView {
        BackupRangeView {
            start_key: bound_view(self.start_key),
            end_key: bound_view(self.end_key),
            region: self.region@,
            leader: self.leader,
            is_raw_kv: self.is_raw_kv,
            cf: self.cf@,
        }
    }
}

impl BackupRangeView {
    /// Whether the range asks for key `k`.
    pub open spec fn holds(self, k: Seq<u8>) -> bool {
        in_range(k, self.start_key, self.end_key)
    }
}

impl Clone for BackupRange {
    fn clone(&self) -> (copy: BackupRange)
        ensures
            copy@ == self@,
    {
        BackupRange {
            start_key: clone_bound(&self.start_key),
            end_key: clone_bound(&self.end_key),
            region: self.region.clone(),
            leader: self.leader,
            is_raw_kv: self.is_raw_kv,
            cf: self.cf.clone(),
        }
    }
}

/// Get the min end key from the given `end_key` and `Region`'s end key.
pub fn get_min_end_key(end_key: Option<&Key>, region: &Region) -> (min: Option<Key>)
    ensures
        bound_view(min) == min_end(
            match end_key {
                Some(key) => Some(key@),
                None => None,
            },
            stored_bound(region.end_key@),
        ),
{
    if region.end_key.is_empty() {
        match end_key {
            Some(key) => Some(key.clone()),
            None => None,
        }
    } else {
        match end_key {
            None => Some(Key::from_encoded_slice(region.end_key.as_slice())),
            Some(key) => {
                if key_less(key.as_encoded().as_slice(), region.end_key.as_slice()) {
                    Some(key.clone())
                } else {
                    Some(Key::from_encoded_slice(region.end_key.as_slice()))
                }
            },
        }
    }
}

/// Get the max start key from the given `start_key` and `Region`'s start key.
pub fn get_max_start_key(start_key: Option<&Key>, region: &Region) -> (max: Option<Key>)
    ensures
        bound_view(max) == max_start(
            match start_key {
                Some(key) => Some(key@),
                None => None,
            },
            stored_bound(region.start_key@),
        ),
{
    match start_key {
        None => {
            if region.start_key.is_empty() {
                None
            } else {
                Some(Key::from_encoded_slice(region.start_key.as_slice()))
            }
        },
        Some(key) => {
            if key_less(key.as_encoded().as_slice(), region.start_key.as_slice()) {
                Some(Key::from_encoded_slice(region.start_key.as_slice()))
            } else {
                Some(key.clone())
            }
        },
    }
}

/// Clipping is intersection: the range between the higher of two starts and the
/// lower of two ends holds exactly the keys that both ranges hold.
pub proof fn clip_is_intersection(
    k: Seq<u8>,
    start: Option<Seq<u8>>,
    end: Option<Seq<u8>>,
    other_start: Option<Seq<u8>>,
    other_end: Option<Seq<u8>>,
)
    ensures
        in_range(k, max_start(start, other_start), min_end(end, other_end)) <==> in_range(
            k,
            start,
            end,
        ) && in_range(k, other_start, other_end),
{
    if let (Some(s), Some(o)) = (start, other_start) {
        if key_lt(s, o) {
            if key_lt(k, s) {
                key_lt_transitive(k, s, o);
            }
        } else if key_lt(k, o) {
            key_lt_le_transitive(k, o, s);
        }
    }
    if let (Some(e), Some(o)) = (end, other_end) {
        if key_lt(e, o) {
            if key_lt(k, e) {
                key_lt_transitive(k, e, o);
            }
        } else if key_lt(k, o) {
            key_lt_le_transitive(k, o, e);
        }
    }
}

} // verus!
