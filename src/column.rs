use crate::hash::HashValue;
use vstd::prelude::*;

verus! {

/// One namespace of the store, keyed by hash, holding encoded values.
pub struct HashColumn {
    entries: Vec<(HashValue, Vec<u8>)>,
    contents: Ghost<Map<HashValue, Seq<u8>>>,
}

impl View for HashColumn {
    type V = Map<HashValue, Seq<u8>>;

    closed spec fn view(&self) -> Map<HashValue, Seq<u8>> {
        self.contents@
    }
}

impl HashColumn {
    /// Keys are unique, and the map holds exactly the entries.
    pub closed spec fn wf(&self) -> bool {
        &&& forall|i: int, j: int|
            0 <= i < j < self.entries@.len() ==> #[trigger] self.entries@[i].0
                != #[trigger] self.entries@[j].0
        &&& forall|i: int|
            0 <= i < self.entries@.len() ==> self.contents@.contains_key(#[trigger] self.entries@[i].0)
                && self.contents@[self.entries@[i].0] == self.entries@[i].1@
        &&& forall|k: HashValue|
            #[trigger] self.contents@.contains_key(k) ==> exists|i: int|
                0 <= i < self.entries@.len() && #[trigger] self.entries@[i].0 == k
    }

    /// How many keys the column holds.
    pub closed spec fn count(&self) -> nat {
        self.entries@.len()
    }

    pub proof fn lemma_count(&self, k: HashValue)
        requires
            self.wf(),
            self@.contains_key(k),
        ensures
            self.count() >= 1,
    {
    }

    pub fn new() -> (r: HashColumn)
        ensures
            r.wf(),
            r@ == Map::<HashValue, Seq<u8>>::empty(),
            r.count() == 0,
    {
        HashColumn { entries: Vec::new(), contents: Ghost(Map::empty()) }
    }

    pub fn len(&self) -> (r: usize)
        ensures
            r == self.count(),
    {
        self.entries.len()
    }

    fn find(&self, key: &HashValue) -> (r: Option<usize>)
        requires
            self.wf(),
        ensures
            match r {
                Some(i) => i < self.entries@.len() && self.entries@[i as int].0 == *key,
                None => !self@.contains_key(*key),
            },
    {
        let mut i: usize = 0;
        while i < self.entries.len()
            invariant
                self.wf(),
                i <= self.entries@.len(),
                forall|j: int| 0 <= j < i ==> self.entries@[j].0 != *key,
            decreases self.entries@.len() - i,
        {
            if self.entries[i].0 == *key {
                return Some(i);
            }
            i += 1;
        }
        None
    }

    /// The value stored under `key`, if any.
    pub fn get(&self, key: &HashValue) -> (r: Option<Vec<u8>>)
        requires
            self.wf(),
        ensures
            r is Some <==> self@.contains_key(*key),
            r is Some ==> r->0@ == self@[*key],
    {
        match self.find(key) {
            Some(i) => {
                let v = self.entries[i].1.clone();
                assert(v@ =~= self.entries@[i as int].1@);
                Some(v)
            },
            None => None,
        }
    }

    /// Stores `value` under `key`, replacing what was there.
    pub fn put(&mut self, key: HashValue, value: Vec<u8>)
        requires
            old(self).wf(),
        ensures
            final(self).wf(),
            final(self)@ == old(self)@.insert(key, value@),
            final(self).count() == old(self).count() + if old(self)@.contains_key(key) {
                0int
            } else {
                1int
            },
    {
        let ghost v = value@;
        let ghost mut idx: int = 0;
        match self.find(&key) {
            Some(i) => {
                self.entries.set(i, (key, value));
                proof {
                    idx = i as int;
                }
            },
            None => {
                proof {
                    idx = self.entries@.len() as int;
                }
                self.entries.push((key, value));
            },
        }
        self.contents = Ghost(self.contents@.insert(key, v));
        assert forall|k: HashValue| #[trigger] self.contents@.contains_key(k) implies exists|i: int|
            0 <= i < self.entries@.len() && #[trigger] self.entries@[i].0 == k by {
            if k != key {
                let j = choose|j: int| 0 <= j < old(self).entries@.len() && #[trigger] old(
                    self,
                ).entries@[j].0 == k;
                assert(self.entries@[j].0 == k);
            } else {
                assert(self.entries@[idx].0 == key);
            }
        }
    }

    /// The keys, in the order they were first stored.
    pub fn keys(&self) -> (r: Vec<HashValue>)
        requires
            self.wf(),
        ensures
            r@.to_set() == self@.dom(),
            r@.len() == self.count(),
    {
        let mut r: Vec<HashValue> = Vec::new();
        let mut i: usize = 0;
        while i < self.entries.len()
            invariant
                self.wf(),
                i <= self.entries@.len(),
                r@.len() == i,
                forall|j: int| 0 <= j < i ==> r@[j] == #[trigger] self.entries@[j].0,
            decreases self.entries@.len() - i,
        {
            r.push(self.entries[i].0);
            i += 1;
        }
        assert forall|k: HashValue| r@.to_set().contains(k) <==> self@.dom().contains(k) by {
            if self@.dom().contains(k) {
                let j = choose|j: int| 0 <= j < self.entries@.len() && #[trigger] self.entries@[j].0
                    == k;
                assert(r@[j] == k);
            }
            if r@.to_set().contains(k) {
                let j = choose|j: int| 0 <= j < r@.len() && r@[j] == k;
                assert(self.entries@[j].0 == k);
            }
        }
        assert(r@.to_set() =~= self@.dom());
        r
    }
}

/// The number index: block number to block id.
pub struct NumberColumn {
    entries: Vec<(u64, HashValue)>,
    contents: Ghost<Map<u64, HashValue>>,
}

impl View for NumberColumn {
    type V = Map<u64, HashValue>;

    closed spec fn view(&self) -> Map<u64, HashValue> {
        self.contents@
    }
}

impl NumberColumn {
    /// Keys are unique, and the map holds exactly the entries.
    pub closed spec fn wf(&self) -> bool {
        &&& forall|i: int, j: int|
            0 <= i < j < self.entries@.len() ==> #[trigger] self.entries@[i].0
                != #[trigger] self.entries@[j].0
        &&& forall|i: int|
            0 <= i < self.entries@.len() ==> self.contents@.contains_key(#[trigger] self.entries@[i].0)
                && self.contents@[self.entries@[i].0] == self.entries@[i].1
        &&& forall|k: u64|
            #[trigger] self.contents@.contains_key(k) ==> exists|i: int|
                0 <= i < self.entries@.len() && #[trigger] self.entries@[i].0 == k
    }

    /// How many numbers the index holds.
    pub closed spec fn count(&self) -> nat {
        self.entries@.len()
    }

    pub fn new() -> (r: NumberColumn)
        ensures
            r.wf(),
            r@ == Map::<u64, HashValue>::empty(),
            r.count() == 0,
    {
        NumberColumn { entries: Vec::new(), contents: Ghost(Map::empty()) }
    }

    pub fn len(&self) -> (r: usize)
        ensures
            r == self.count(),
    {
        self.entries.len()
    }

    fn find(&self, key: u64) -> (r: Option<usize>)
        requires
            self.wf(),
        ensures
            match r {
                Some(i) => i < self.entries@.len() && self.entries@[i as int].0 == key,
                None => !self@.contains_key(key),
            },
    {
        let mut i: usize = 0;
        while i < self.entries.len()
            invariant
                self.wf(),
                i <= self.entries@.len(),
                forall|j: int| 0 <= j < i ==> self.entries@[j].0 != key,
            decreases self.entries@.len() - i,
        {
            if self.entries[i].0 == key {
                return Some(i);
            }
            i += 1;
        }
        None
    }

    /// The id stored under `key`, if any.
    pub fn get(&self, key: u64) -> (r: Option<HashValue>)
        requires
            self.wf(),
        ensures
            r is Some <==> self@.contains_key(key),
            r is Some ==> r->0 == self@[key],
    {
        match self.find(key) {
            Some(i) => Some(self.entries[i].1),
            None => None,
        }
    }

    /// Stores `value` under `key`, replacing what was there.
    pub fn put(&mut self, key: u64, value: HashValue)
        requires
            old(self).wf(),
        ensures
            final(self).wf(),
            final(self)@ == old(self)@.insert(key, value),
            final(self).count() == old(self).count() + if old(self)@.contains_key(key) {
                0int
            } else {
                1int
            },
    {
        let ghost mut idx: int = 0;
        match self.find(key) {
            Some(i) => {
                self.entries.set(i, (key, value));
                proof {
                    idx = i as int;
                }
            },
            None => {
                proof {
                    idx = self.entries@.len() as int;
                }
                self.entries.push((key, value));
            },
        }
        self.contents = Ghost(self.contents@.insert(key, value));
        assert forall|k: u64| #[trigger] self.contents@.contains_key(k) implies exists|i: int|
            0 <= i < self.entries@.len() && #[trigger] self.entries@[i].0 == k by {
            if k != key {
                let j = choose|j: int| 0 <= j < old(self).entries@.len() && #[trigger] old(
                    self,
                ).entries@[j].0 == k;
                assert(self.entries@[j].0 == k);
            } else {
                assert(self.entries@[idx].0 == key);
            }
        }
    }
}

/// The per-branch number index: (branch id, block number) to block id.
pub struct BranchNumberColumn {
    entries: Vec<((HashValue, u64), HashValue)>,
    contents: Ghost<Map<(HashValue, u64), HashValue>>,
}

impl View for BranchNumberColumn {
    type V = Map<(HashValue, u64), HashValue>;

    closed spec fn view(&self) -> Map<(HashValue, u64), HashValue> {
        self.contents@
    }
}

impl BranchNumberColumn {
    /// Keys are unique, and the map holds exactly the entries.
    pub closed spec fn wf(&self) -> bool {
        &&& forall|i: int, j: int|
            0 <= i < j < self.entries@.len() ==> #[trigger] self.entries@[i].0
                != #[trigger] self.entries@[j].0
        &&& forall|i: int|
            0 <= i < self.entries@.len() ==> self.contents@.contains_key(#[trigger] self.entries@[i].0)
                && self.contents@[self.entries@[i].0] == self.entries@[i].1
        &&& forall|k: (HashValue, u64)|
            #[trigger] self.contents@.contains_key(k) ==> exists|i: int|
                0 <= i < self.entries@.len() && #[trigger] self.entries@[i].0 == k
    }

    /// How many entries the index holds.
    pub closed spec fn count(&self) -> nat {
        self.entries@.len()
    }

    pub fn new() -> (r: BranchNumberColumn)
        ensures
            r.wf(),
            r@ == Map::<(HashValue, u64), HashValue>::empty(),
            r.count() == 0,
    {
        BranchNumberColumn { entries: Vec::new(), contents: Ghost(Map::empty()) }
    }

    pub fn len(&self) -> (r: usize)
        ensures
            r == self.count(),
    {
        self.entries.len()
    }

    fn find(&self, key: (HashValue, u64)) -> (r: Option<usize>)
        requires
            self.wf(),
        ensures
            match r {
                Some(i) => i < self.entries@.len() && self.entries@[i as int].0 == key,
                None => !self@.contains_key(key),
            },
    {
        let mut i: usize = 0;
        while i < self.entries.len()
            invariant
                self.wf(),
                i <= self.entries@.len(),
                forall|j: int| 0 <= j < i ==> self.entries@[j].0 != key,
            decreases self.entries@.len() - i,
        {
            if self.entries[i].0.0 == key.0 && self.entries[i].0.1 == key.1 {
                return Some(i);
            }
            i += 1;
        }
        None
    }

    /// The id stored under `key`, if any.
    pub fn get(&self, key: (HashValue, u64)) -> (r: Option<HashValue>)
        requires
            self.wf(),
        ensures
            r is Some <==> self@.contains_key(key),
            r is Some ==> r->0 == self@[key],
    {
        match self.find(key) {
            Some(i) => Some(self.entries[i].1),
            None => None,
        }
    }

    /// Stores `value` under `key`, replacing what was there.
    pub fn put(&mut self, key: (HashValue, u64), value: HashValue)
        requires
            old(self).wf(),
        ensures
            final(self).wf(),
            final(self)@ == old(self)@.insert(key, value),
            final(self).count() == old(self).count() + if old(self)@.contains_key(key) {
                0int
            } else {
                1int
            },
    {
        let ghost mut idx: int = 0;
        match self.find(key) {
            Some(i) => {
                self.entries.set(i, (key, value));
                proof {
                    idx = i as int;
                }
            },
            None => {
                proof {
                    idx = self.entries@.len() as int;
                }
                self.entries.push((key, value));
            },
        }
        self.contents = Ghost(self.contents@.insert(key, value));
        assert forall|k: (HashValue, u64)| #[trigger] self.contents@.contains_key(k) implies exists|i: int|
            0 <= i < self.entries@.len() && #[trigger] self.entries@[i].0 == k by {
            if k != key {
                let j = choose|j: int| 0 <= j < old(self).entries@.len() && #[trigger] old(
                    self,
                ).entries@[j].0 == k;
                assert(self.entries@[j].0 == k);
            } else {
                assert(self.entries@[idx].0 == key);
            }
        }
    }
}

} // verus!
