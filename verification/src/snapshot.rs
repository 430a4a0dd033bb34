//! How a snapshot of the store is read.

use vstd::prelude::*;

verus! {

/// How reads are isolated from concurrent writes.
#[derive(Clone, Copy, Debug, PartialEq, Eq, Structural)]
pub enum IsolationLevel {
    Si,
    Rc,
}

/// How the snapshot is to be read: as of which time, how isolated, and whether
/// what is read goes into the cache.
#[derive(Clone, Copy, Debug, PartialEq, Eq)]
pub struct StoreOptions {
    pub start_ts: u64,
    pub isolation_level: IsolationLevel,
    pub fill_cache: bool,
}

} // verus!
