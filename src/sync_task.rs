use std::collections::VecDeque;
use vstd::prelude::*;

verus! {

/// A peer's identity, as the network layer numbers it.
#[derive(Debug, Clone, Copy, PartialEq, Eq, Structural, Hash)]
pub struct PeerId {
    pub id: u64,
}

/// Work waiting to be requested, in order, and the work each peer has been asked for.
pub struct SyncTask<T> {
    wait_2_sync: VecDeque<T>,
    syncing_nodes: Vec<(PeerId, T)>,
    requested: Ghost<Map<PeerId, T>>,
}

/// Peers are unique among `entries`, and `m` holds exactly the entries.
pub open spec fn requests_wf<T>(entries: Seq<(PeerId, T)>, m: Map<PeerId, T>) -> bool {
    &&& forall|i: int, j: int|
        0 <= i < j < entries.len() ==> #[trigger] entries[i].0 != #[trigger] entries[j].0
    &&& forall|i: int|
        0 <= i < entries.len() ==> m.contains_key(#[trigger] entries[i].0) && m[entries[i].0]
            == entries[i].1
    &&& forall|k: PeerId|
        #[trigger] m.contains_key(k) ==> exists|i: int| 0 <= i < entries.len() && #[trigger] entries[i].0 == k
}

impl<T: Copy> SyncTask<T> {
    /// Peers are unique among the requests, and the map holds exactly the requests.
    pub closed spec fn wf(&self) -> bool {
        requests_wf(self.syncing_nodes@, self.requested@)
    }

    /// The work waiting, front first.
    pub closed spec fn pending(&self) -> Seq<T> {
        self.wait_2_sync@
    }

    /// The work requested from each peer.
    pub closed spec fn in_flight(&self) -> Map<PeerId, T> {
        self.requested@
    }

    pub fn new() -> (r: SyncTask<T>)
        ensures
            r.wf(),
            r.pending() == Seq::<T>::empty(),
            r.in_flight() == Map::<PeerId, T>::empty(),
    {
        SyncTask { wait_2_sync: VecDeque::new(), syncing_nodes: Vec::new(), requested: Ghost(Map::empty()) }
    }

    /// Nothing waits and nothing is requested.
    pub fn is_empty(&self) -> (r: bool)
        requires
            self.wf(),
        ensures
            r == (self.pending().len() == 0 && self.in_flight().dom().len() == 0),
    {
        proof {
            if self.syncing_nodes@.len() > 0 {
                assert(self.requested@.contains_key(self.syncing_nodes@[0].0));
                assert(self.requested@.dom().contains(self.syncing_nodes@[0].0));
                self.lemma_finite();
            } else {
                assert(self.requested@.dom() =~= Set::<PeerId>::empty());
            }
        }
        self.wait_2_sync.len() == 0 && self.syncing_nodes.len() == 0
    }

    proof fn lemma_finite(&self)
        requires
            self.wf(),
        ensures
            self.requested@.dom().finite(),
    {
        let s = self.syncing_nodes@.map_values(|e: (PeerId, T)| e.0).to_set();
        assert forall|k: PeerId| self.requested@.dom().contains(k) implies s.contains(k) by {
            let i = choose|i: int|
                0 <= i < self.syncing_nodes@.len() && #[trigger] self.syncing_nodes@[i].0 == k;
            assert(self.syncing_nodes@.map_values(|e: (PeerId, T)| e.0)[i] == k);
        }
        vstd::set_lib::lemma_len_subset(self.requested@.dom(), s);
    }

    /// With no requested peer counted, no peer has a request.
    pub proof fn lemma_no_requests(&self)
        requires
            self.wf(),
            self.in_flight().dom().len() == 0,
        ensures
            self.in_flight() == Map::<PeerId, T>::empty(),
    {
        self.lemma_finite();
        vstd::set_lib::lemma_set_empty_equivalency_len(self.requested@.dom());
        assert(self.requested@ =~= Map::<PeerId, T>::empty());
    }

    /// Queues `value` at the back.
    pub fn push_back(&mut self, value: T)
        requires
            old(self).wf(),
        ensures
            final(self).wf(),
            final(self).pending() == old(self).pending().push(value),
            final(self).in_flight() == old(self).in_flight(),
    {
        self.wait_2_sync.push_back(value);
    }

    /// Takes the front of the queue.
    pub fn pop_front(&mut self) -> (r: Option<T>)
        requires
            old(self).wf(),
        ensures
            final(self).wf(),
            final(self).in_flight() == old(self).in_flight(),
            old(self).pending().len() == 0 ==> r is None && *final(self) == *old(self),
            old(self).pending().len() > 0 ==> r == Some(old(self).pending()[0]) && final(self).pending() == old(self).pending().drop_first(),
    {
        if self.wait_2_sync.len() == 0 {
            return None;
        }
        let r = self.wait_2_sync.pop_front();
        assert(self.wait_2_sync@ =~= old(self).wait_2_sync@.drop_first());
        r
    }

    /// Drops all waiting and requested work.
    pub fn clear(&mut self)
        ensures
            final(self).wf(),
            final(self).pending() == Seq::<T>::empty(),
            final(self).in_flight() == Map::<PeerId, T>::empty(),
    {
        self.wait_2_sync.clear();
        self.syncing_nodes.clear();
        self.requested = Ghost(Map::empty());
    }

    fn find(&self, peer_id: &PeerId) -> (r: Option<usize>)
        requires
            self.wf(),
        ensures
            match r {
                Some(i) => i < self.syncing_nodes@.len() && self.syncing_nodes@[i as int].0
                    == *peer_id,
                None => !self.in_flight().contains_key(*peer_id),
            },
    {
        let mut i: usize = 0;
        while i < self.syncing_nodes.len()
            invariant
                self.wf(),
                i <= self.syncing_nodes@.len(),
                forall|j: int| 0 <= j < i ==> self.syncing_nodes@[j].0 != *peer_id,
            decreases self.syncing_nodes@.len() - i,
        {
            if self.syncing_nodes[i].0 == *peer_id {
                return Some(i);
            }
            i += 1;
        }
        None
    }

    /// Records that `value` was requested from `peer_id`, returning what was recorded before.
    pub fn insert(&mut self, peer_id: PeerId, value: T) -> (r: Option<T>)
        requires
            old(self).wf(),
        ensures
            final(self).wf(),
            final(self).pending() == old(self).pending(),
            final(self).in_flight() == old(self).in_flight().insert(peer_id, value),
            r == old(self).in_flight().get(peer_id),
    {
        let ghost mut idx: int = 0;
        let r = match self.find(&peer_id) {
            Some(i) => {
                let prev = self.syncing_nodes[i].1;
                self.syncing_nodes.set(i, (peer_id, value));
                proof {
                    idx = i as int;
                }
                Some(prev)
            },
            None => {
                proof {
                    idx = self.syncing_nodes@.len() as int;
                }
                self.syncing_nodes.push((peer_id, value));
                None
            },
        };
        self.requested = Ghost(self.requested@.insert(peer_id, value));
        assert forall|k: PeerId| #[trigger] self.requested@.contains_key(k) implies exists|i: int|
            0 <= i < self.syncing_nodes@.len() && #[trigger] self.syncing_nodes@[i].0 == k by {
            if k != peer_id {
                let j = choose|j: int|
                    0 <= j < old(self).syncing_nodes@.len() && #[trigger] old(self).syncing_nodes@[j].0 == k;
                assert(self.syncing_nodes@[j].0 == k);
            } else {
                assert(self.syncing_nodes@[idx].0 == peer_id);
            }
        }
        r
    }

    /// What was requested from `peer_id`, if anything.
    pub fn get(&self, peer_id: &PeerId) -> (r: Option<T>)
        requires
            self.wf(),
        ensures
            r == self.in_flight().get(*peer_id),
    {
        match self.find(peer_id) {
            Some(i) => Some(self.syncing_nodes[i].1),
            None => None,
        }
    }

    /// Forgets the request to `peer_id`, returning it.
    pub fn remove(&mut self, peer_id: &PeerId) -> (r: Option<T>)
        requires
            old(self).wf(),
        ensures
            final(self).wf(),
            final(self).pending() == old(self).pending(),
            final(self).in_flight() == old(self).in_flight().remove(*peer_id),
            r == old(self).in_flight().get(*peer_id),
    {
        match self.find(peer_id) {
            Some(i) => {
                let (_, v) = self.syncing_nodes.remove(i);
                let ghost old_entries = old(self).syncing_nodes@;
                self.requested = Ghost(self.requested@.remove(*peer_id));
                assert forall|a: int, b: int|
                    0 <= a < b < self.syncing_nodes@.len() implies #[trigger] self.syncing_nodes@[a].0
                    != #[trigger] self.syncing_nodes@[b].0 by {
                    let a0 = if a < i { a } else { a + 1 };
                    let b0 = if b < i { b } else { b + 1 };
                    assert(self.syncing_nodes@[a] == old_entries[a0]);
                    assert(self.syncing_nodes@[b] == old_entries[b0]);
                }
                assert forall|a: int| 0 <= a < self.syncing_nodes@.len() implies self.requested@.contains_key(
                    #[trigger] self.syncing_nodes@[a].0,
                ) && self.requested@[self.syncing_nodes@[a].0] == self.syncing_nodes@[a].1 by {
                    let a0 = if a < i { a } else { a + 1 };
                    assert(self.syncing_nodes@[a] == old_entries[a0]);
                    assert(a0 != i);
                }
                assert forall|k: PeerId| #[trigger] self.requested@.contains_key(k) implies exists|
                    a: int,
                |
                    0 <= a < self.syncing_nodes@.len() && #[trigger] self.syncing_nodes@[a].0
                        == k by {
                    let j = choose|j: int|
                        0 <= j < old_entries.len() && #[trigger] old_entries[j].0 == k;
                    assert(j != i);
                    let a = if j < i { j } else { j - 1 };
                    assert(self.syncing_nodes@[a] == old_entries[j]);
                }
                Some(v)
            },
            None => {
                assert(self.requested@.remove(*peer_id) =~= self.requested@);
                None
            },
        }
    }
}

} // verus!
