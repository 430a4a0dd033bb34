//! Regions: the pieces the key space is split into, and who leads them.

use vstd::prelude::*;

use crate::keys::{copy_bytes, in_range, stored_bound};

verus! {

/// A replica of a region.
#[derive(Clone, Copy, Debug, PartialEq, Eq)]
pub struct Peer {
    pub id: u64,
    pub store_id: u64,
    pub is_learner: bool,
}

/// The version of a region's boundaries and membership.
#[derive(Clone, Copy, Debug, PartialEq, Eq)]
pub struct RegionEpoch {
    pub conf_ver: u64,
    pub version: u64,
}

/// What a replica does in its consensus group.
#[derive(Clone, Copy, Debug, PartialEq, Eq, Structural)]
pub enum StateRole {
    Follower,
    Candidate,
    Leader,
    PreCandidate,
}

/// A contiguous piece of the key space. Its bounds are stored keys, and an empty
/// bound is infinite.
#[derive(Debug, PartialEq, Eq)]
pub struct Region {
    pub id: u64,
    pub start_key: Vec<u8>,
    pub end_key: Vec<u8>,
    pub region_epoch: RegionEpoch,
    pub peers: Vec<Peer>,
}

/// The model of a [`Region`].
#[verifier::ext_equal]
pub struct RegionView {
    pub id: u64,
    pub start_key: Seq<u8>,
    pub end_key: Seq<u8>,
    pub region_epoch: RegionEpoch,
    pub peers: Seq<Peer>,
}

impl View for Region {
    type V = RegionView;

    open spec fn view(&self) -> RegionView {
        RegionView {
            id: self.id,
            start_key: self.start_key@,
            end_key: self.end_key@,
            region_epoch: self.region_epoch,
            peers: self.peers@,
        }
    }
}

impl RegionView {
    /// Whether the region holds key `k`.
    pub open spec fn holds(self, k: Seq<u8>) -> bool {
        in_range(k, stored_bound(self.start_key), stored_bound(self.end_key))
    }

    /// Whether some peer of the region is on store `store_id`.
    pub open spec fn has_peer_on(self, store_id: u64) -> bool {
        exists|i: int| 0 <= i < self.peers.len() && (#[trigger] self.peers[i]).store_id == store_id
    }

    /// The first peer of the region on store `store_id`.
    pub open spec fn peer_on(self, store_id: u64) -> Option<Peer> {
        first_on_store(self.peers, store_id)
    }
}

/// The first of `peers` on store `store_id`.
pub open spec fn first_on_store(peers: Seq<Peer>, store_id: u64) -> Option<Peer>
    decreases peers.len(),
{
    if peers.len() == 0 {
        None
    } else if peers[0].store_id == store_id {
        Some(peers[0])
    } else {
        first_on_store(peers.skip(1), store_id)
    }
}

impl Clone for Region {
    fn clone(&self) -> (copy: Region)
        ensures
            copy@ == self@,
    {
        let mut peers: Vec<Peer> = Vec::with_capacity(self.peers.len());
        let mut i: usize = 0;
        while i < self.peers.len()
            invariant
                i <= self.peers.len(),
                peers@ == self.peers@.take(i as int),
            decreases self.peers.len() - i,
        {
            peers.push(self.peers[i]);
            i = i + 1;
            assert(self.peers@.take(i as int) =~= self.peers@.take(i - 1).push(
                self.peers@[i - 1],
            ));
        }
        assert(self.peers@.take(self.peers@.len() as int) =~= self.peers@);
        Region {
            id: self.id,
            start_key: copy_bytes(self.start_key.as_slice()),
            end_key: copy_bytes(self.end_key.as_slice()),
            region_epoch: self.region_epoch,
            peers,
        }
    }
}

/// Finds the peer of a region that is on the given store.
pub fn find_peer(region: &Region, store_id: u64) -> (peer: Option<Peer>)
    ensures
        peer == region@.peer_on(store_id),
        peer is Some <==> region@.has_peer_on(store_id),
        peer matches Some(p) ==> p.store_id == store_id && region.peers@.contains(p),
{
    let mut i: usize = 0;
    assert(region.peers@.skip(0) =~= region.peers@);
    while i < region.peers.len()
        invariant
            i <= region.peers.len(),
            region@.peer_on(store_id) == first_on_store(region.peers@.skip(i as int), store_id),
            forall|j: int| 0 <= j < i ==> (#[trigger] region.peers@[j]).store_id != store_id,
        decreases region.peers.len() - i,
    {
        if region.peers[i].store_id == store_id {
            assert(region@.peers[i as int].store_id == store_id);
            return Some(region.peers[i]);
        }
        assert(region.peers@.skip(i as int).skip(1) =~= region.peers@.skip(i + 1));
        i = i + 1;
    }
    None
}

/// A region as the store sees it, with the role of the store's own replica.
#[derive(Debug, PartialEq, Eq)]
pub struct RegionInfo {
    pub region: Region,
    pub role: StateRole,
}

/// The model of a [`RegionInfo`].
#[verifier::ext_equal]
pub struct RegionInfoView {
    pub region: RegionView,
    pub role: StateRole,
}

impl View for RegionInfo {
    type V = RegionInfoView;

    open spec fn view(&self) -> RegionInfoView {
        RegionInfoView { region: self.region@, role: self.role }
    }
}

/// The peer that is found for a store is on that store and is one of the region's, and
/// no peer before it is on that store. One is found exactly if there is one.
pub proof fn peer_is_on_the_store(region: RegionView, store_id: u64)
    ensures
        region.peer_on(store_id) is Some <==> region.has_peer_on(store_id),
        region.peer_on(store_id) matches Some(p) ==> {
            &&& p.store_id == store_id
            &&& region.peers.contains(p)
            &&& exists|i: int|
                {
                    &&& 0 <= i < region.peers.len()
                    &&& #[trigger] region.peers[i] == p
                    &&& forall|j: int| 0 <= j < i ==> (#[trigger] region.peers[j]).store_id != store_id
                }
        },
{
    lemma_first_on_store(region.peers, store_id);
}

proof fn lemma_first_on_store(peers: Seq<Peer>, store_id: u64)
    ensures
        match first_on_store(peers, store_id) {
            Some(p) => p.store_id == store_id && exists|i: int|
                {
                    &&& 0 <= i < peers.len()
                    &&& #[trigger] peers[i] == p
                    &&& forall|j: int| 0 <= j < i ==> (#[trigger] peers[j]).store_id != store_id
                },
            None => forall|i: int| 0 <= i < peers.len() ==> (#[trigger] peers[i]).store_id != store_id,
        },
    decreases peers.len(),
{
    if peers.len() > 0 {
        let rest = peers.skip(1);
        lemma_first_on_store(rest, store_id);
        match first_on_store(peers, store_id) {
            Some(p) => {
                if peers[0].store_id == store_id {
                    assert(peers[0] == p);
                } else {
                    let i = choose|i: int|
                        {
                            &&& 0 <= i < rest.len()
                            &&& #[trigger] rest[i] == p
                            &&& forall|j: int|
                                0 <= j < i ==> (#[trigger] rest[j]).store_id != store_id
                        };
                    assert(peers[i + 1] == p);
                    assert forall|j: int| 0 <= j < i + 1 implies (#[trigger] peers[j]).store_id
                        != store_id by {
                        if j > 0 {
                            assert(rest[j - 1] == peers[j]);
                        }
                    }
                }
            },
            None => {
                assert forall|i: int| 0 <= i < peers.len() implies (#[trigger] peers[i]).store_id
                    != store_id by {
                    if i > 0 {
                        assert(rest[i - 1] == peers[i]);
                    }
                }
            },
        }
    }
}

} // verus!
