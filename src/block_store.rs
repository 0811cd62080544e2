use crate::block::{
    block_decoded, body_decoded, header_decoded, header_id,
    law_block_round_trip, law_body_round_trip, law_header_round_trip, Block, BlockBody,
    BlockHeader, BlockHeaderView, BlockNumber, BlockView,
};
use crate::column::{HashColumn, NumberColumn};
use crate::hash::{hash_bytes, lemma_parse_hash, parse_hash, read_hash, write_hash, HashValue};
use crate::codec::{holds_at, lemma_u64_be_len};
use vstd::prelude::*;

verus! {

broadcast use lemma_u64_be_len;

/// Why a store lookup failed.
#[derive(Debug, Clone, Copy, PartialEq, Eq, Structural)]
pub enum StoreError {
    /// A hash that the walk reached has no header.
    MissingHeader,
    /// A hash that the walk reached has no sons entry.
    MissingSons,
    /// The number index has no entry for the number asked.
    MissingNumber,
    /// The walk reached the zero hash, which stands for "no block".
    ZeroHash,
    /// The walk met more headers than the store holds: the parent links loop.
    Cycle,
    /// A stored value does not decode.
    Decode,
}

/// The encoding of a list of hashes: their bytes, one after another.
pub open spec fn hashes_enc(v: Seq<HashValue>) -> Seq<u8>
    decreases v.len(),
{
    if v.len() == 0 {
        Seq::empty()
    } else {
        hashes_enc(v.drop_last()) + hash_bytes(v.last())
    }
}

/// The hashes read from consecutive 32-byte chunks; a shorter tail is ignored.
pub open spec fn hashes_decoded(s: Seq<u8>) -> Seq<HashValue> {
    Seq::new(s.len() / 32, |i: int| parse_hash(s, 32 * i).unwrap().0)
}

pub proof fn lemma_hashes_enc_len(v: Seq<HashValue>)
    ensures
        hashes_enc(v).len() == 32 * v.len(),
    decreases v.len(),
{
    if v.len() > 0 {
        lemma_hashes_enc_len(v.drop_last());
    }
}

pub proof fn lemma_hashes_enc_at(v: Seq<HashValue>, i: int)
    requires
        0 <= i < v.len(),
    ensures
        holds_at(hashes_enc(v), 32 * i, hash_bytes(v[i])),
    decreases v.len(),
{
    let init = v.drop_last();
    lemma_hashes_enc_len(init);
    lemma_hashes_enc_len(v);
    let e = hashes_enc(v);
    assert(e == hashes_enc(init) + hash_bytes(v.last()));
    if i == v.len() - 1 {
        assert(e.subrange(32 * i, 32 * i + 32) =~= hash_bytes(v.last()));
    } else {
        lemma_hashes_enc_at(init, i);
        assert(e.subrange(32 * i, 32 * i + 32) =~= hashes_enc(init).subrange(32 * i, 32 * i + 32));
    }
}

/// The encoding of a list of hashes is whole 32-byte chunks.
pub proof fn lemma_hashes_enc_whole(v: Seq<HashValue>)
    ensures
        hashes_enc(v).len() % 32 == 0,
{
    lemma_hashes_enc_len(v);
    let n = v.len();
    assert((32 * n) % 32 == 0) by (nonlinear_arith);
}

/// Decoding the encoding of a list of hashes gives the list back.
pub proof fn lemma_hashes_round_trip(v: Seq<HashValue>)
    ensures
        hashes_decoded(hashes_enc(v)) == v,
{
    lemma_hashes_enc_len(v);
    let e = hashes_enc(v);
    assert forall|i: int| 0 <= i < v.len() implies hashes_decoded(e)[i] == v[i] by {
        lemma_hashes_enc_at(v, i);
        lemma_parse_hash(e, 32 * i, v[i]);
    }
    assert(hashes_decoded(e) =~= v);
}

pub fn encode_hashes(v: &Vec<HashValue>) -> (r: Vec<u8>)
    ensures
        r@ == hashes_enc(v@),
{
    let mut out: Vec<u8> = Vec::new();
    let mut i: usize = 0;
    while i < v.len()
        invariant
            i <= v@.len(),
            out@ == hashes_enc(v@.subrange(0, i as int)),
        decreases v@.len() - i,
    {
        write_hash(&mut out, &v[i]);
        proof {
            let s = v@.subrange(0, i + 1);
            assert(s.drop_last() =~= v@.subrange(0, i as int));
        }
        i += 1;
    }
    assert(v@.subrange(0, v@.len() as int) =~= v@);
    out
}

pub fn decode_hashes(data: &Vec<u8>) -> (r: Option<Vec<HashValue>>)
    ensures
        r is Some <==> data@.len() % 32 == 0,
        r is Some ==> r->0@ == hashes_decoded(data@),
{
    if data.len() % 32 != 0 {
        return None;
    }
    let n = data.len() / 32;
    let mut r: Vec<HashValue> = Vec::new();
    let mut i: usize = 0;
    while i < n
        invariant
            n == data.len() / 32,
            i <= n,
            r@ == hashes_decoded(data@).subrange(0, i as int),
        decreases n - i,
    {
        assert(32 * i + 32 <= data.len()) by (nonlinear_arith)
            requires
                i < n,
                n == data.len() / 32,
        ;
        let (h, _) = read_hash(data, 32 * i).unwrap();
        r.push(h);
        i += 1;
        assert(r@ =~= hashes_decoded(data@).subrange(0, i as int));
    }
    assert(hashes_decoded(data@).subrange(0, n as int) =~= hashes_decoded(data@));
    Some(r)
}

fn hashes_contain(v: &Vec<HashValue>, x: &HashValue) -> (r: bool)
    ensures
        r == v@.contains(*x),
{
    let mut i: usize = 0;
    while i < v.len()
        invariant
            i <= v@.len(),
            forall|j: int| 0 <= j < i ==> v@[j] != *x,
        decreases v@.len() - i,
    {
        if v[i] == *x {
            return true;
        }
        i += 1;
    }
    false
}

/// The sons index after recording `son` under `parent`; a son already there is not repeated.
pub open spec fn sons_after_put(
    sons: Map<HashValue, Seq<HashValue>>,
    parent: HashValue,
    son: HashValue,
) -> Map<HashValue, Seq<HashValue>> {
    if sons.contains_key(parent) {
        if sons[parent].contains(son) {
            sons
        } else {
            sons.insert(parent, sons[parent].push(son))
        }
    } else {
        sons.insert(parent, seq![son])
    }
}

/// Ids visited walking parent links up from `id`, up to and including the first block whose
/// parent has more than one recorded son. `fuel` bounds the number of headers visited.
pub open spec fn branch_walk(
    hs: Map<HashValue, BlockHeaderView>,
    sons: Map<HashValue, Seq<HashValue>>,
    id: HashValue,
    fuel: nat,
) -> Result<Seq<HashValue>, StoreError>
    decreases fuel,
{
    if fuel == 0 {
        Err(StoreError::Cycle)
    } else if !hs.contains_key(id) {
        Err(StoreError::MissingHeader)
    } else {
        let p = hs[id].parent_hash;
        if !sons.contains_key(p) {
            Err(StoreError::MissingSons)
        } else if sons[p].len() > 1 {
            Ok(seq![id])
        } else {
            match branch_walk(hs, sons, p, (fuel - 1) as nat) {
                Ok(rest) => Ok(seq![id] + rest),
                Err(e) => Err(e),
            }
        }
    }
}

/// Walks up from `p2` until it reaches one of `sons1`.
pub open spec fn find_in_sons(
    hs: Map<HashValue, BlockHeaderView>,
    sons1: Seq<HashValue>,
    p2: HashValue,
    fuel: nat,
) -> Result<(), StoreError>
    decreases fuel,
{
    if fuel == 0 {
        Err(StoreError::Cycle)
    } else if p2 == HashValue::spec_zero() {
        Err(StoreError::ZeroHash)
    } else if sons1.contains(p2) {
        Ok(())
    } else if !hs.contains_key(p2) {
        Err(StoreError::MissingHeader)
    } else {
        find_in_sons(hs, sons1, hs[p2].parent_hash, (fuel - 1) as nat)
    }
}

/// Walks up from `p1` to the first ancestor with more than one recorded son, then looks for
/// `b`'s ancestry among those sons.
pub open spec fn ancestor_walk(
    hs: Map<HashValue, BlockHeaderView>,
    sons: Map<HashValue, Seq<HashValue>>,
    p1: HashValue,
    b: HashValue,
    fuel: nat,
    inner_fuel: nat,
) -> Result<HashValue, StoreError>
    decreases fuel,
{
    if fuel == 0 {
        Err(StoreError::Cycle)
    } else if !hs.contains_key(p1) {
        Err(StoreError::MissingHeader)
    } else {
        let p = hs[p1].parent_hash;
        if p == HashValue::spec_zero() {
            Err(StoreError::ZeroHash)
        } else if !sons.contains_key(p) {
            Err(StoreError::MissingSons)
        } else if sons[p].len() > 1 {
            match find_in_sons(hs, sons[p], b, inner_fuel) {
                Ok(()) => Ok(p),
                Err(e) => Err(e),
            }
        } else {
            ancestor_walk(hs, sons, p, b, (fuel - 1) as nat, inner_fuel)
        }
    }
}

/// Whether `a` has `b` as a recorded son.
pub open spec fn is_parent_of(sons: Map<HashValue, Seq<HashValue>>, a: HashValue, b: HashValue) -> bool {
    sons.contains_key(a) && sons[a].contains(b)
}

/// The common ancestor of `a` and `b`: either one if it is the other's recorded parent, else the
/// fork point found by `ancestor_walk`.
pub open spec fn common_ancestor(
    hs: Map<HashValue, BlockHeaderView>,
    sons: Map<HashValue, Seq<HashValue>>,
    a: HashValue,
    b: HashValue,
    fuel: nat,
) -> Result<HashValue, StoreError> {
    if is_parent_of(sons, a, b) {
        Ok(a)
    } else if is_parent_of(sons, b, a) {
        Ok(b)
    } else {
        ancestor_walk(hs, sons, a, b, fuel, fuel)
    }
}

/// Every recorded son has a header whose parent is the key it is recorded under.
pub open spec fn sons_consistent(
    hs: Map<HashValue, BlockHeaderView>,
    sons: Map<HashValue, Seq<HashValue>>,
) -> bool {
    forall|p: HashValue, c: HashValue|
        #[trigger] is_parent_of(sons, p, c) ==> hs.contains_key(c) && hs[c].parent_hash == p
}

/// Blocks, headers, bodies, the sons index and the number index, each in a column of encoded
/// values.
pub struct BlockStore {
    block_store: HashColumn,
    header_store: HashColumn,
    sons_store: HashColumn,
    body_store: HashColumn,
    number_store: NumberColumn,
}

impl BlockStore {
    /// Each column is well formed and every stored value decodes.
    pub closed spec fn wf(&self) -> bool {
        &&& self.block_store.wf()
        &&& self.header_store.wf()
        &&& self.sons_store.wf()
        &&& self.body_store.wf()
        &&& self.number_store.wf()
        &&& forall|k: HashValue| #[trigger]
            self.header_store@.contains_key(k) ==> header_decoded(self.header_store@[k]) is Some
                && header_id(header_decoded(self.header_store@[k])->0) == k
        &&& forall|k: HashValue| #[trigger]
            self.sons_store@.contains_key(k) ==> self.sons_store@[k].len() % 32 == 0
        &&& forall|k: HashValue| #[trigger]
            self.body_store@.contains_key(k) ==> body_decoded(self.body_store@[k]) is Some
        &&& forall|k: HashValue| #[trigger]
            self.block_store@.contains_key(k) ==> block_decoded(self.block_store@[k]) is Some
    }

    /// Headers by id.
    pub closed spec fn headers(&self) -> Map<HashValue, BlockHeaderView> {
        self.header_store@.map_values(|b: Seq<u8>| header_decoded(b)->0)
    }

    /// Recorded sons by parent id.
    pub closed spec fn sons(&self) -> Map<HashValue, Seq<HashValue>> {
        self.sons_store@.map_values(|b: Seq<u8>| hashes_decoded(b))
    }

    /// Bodies by block id.
    pub closed spec fn bodies(&self) -> Map<HashValue, Seq<Seq<u8>>> {
        self.body_store@.map_values(|b: Seq<u8>| body_decoded(b)->0)
    }

    /// Blocks by block id.
    pub closed spec fn blocks(&self) -> Map<HashValue, BlockView> {
        self.block_store@.map_values(|b: Seq<u8>| block_decoded(b)->0)
    }

    /// Block ids by number.
    pub closed spec fn numbers(&self) -> Map<u64, HashValue> {
        self.number_store@
    }

    /// How many entries the number index holds.
    pub closed spec fn number_count(&self) -> nat {
        self.number_store.count()
    }

    /// How many entries the number index holds.
    pub fn number_count_exec(&self) -> (r: usize)
        ensures
            r == self.number_count(),
    {
        self.number_store.len()
    }

    /// The bound on parent walks: one more than the number of stored headers.
    pub closed spec fn fuel(&self) -> nat {
        self.header_store.count() + 1
    }

    /// Every header is stored under its own id.
    pub proof fn lemma_stored_under_id(&self, k: HashValue)
        requires
            self.wf(),
            self.headers().contains_key(k),
        ensures
            header_id(self.headers()[k]) == k,
    {
    }

    /// A walk may visit at least one header when the store holds one.
    pub proof fn lemma_fuel(&self, id: HashValue)
        requires
            self.wf(),
            self.headers().contains_key(id),
        ensures
            self.fuel() >= 2,
    {
        self.header_store.lemma_count(id);
    }

    /// An empty store.
    pub fn new() -> (r: BlockStore)
        ensures
            r.wf(),
            r.headers() == Map::<HashValue, BlockHeaderView>::empty(),
            r.sons() == Map::<HashValue, Seq<HashValue>>::empty(),
            r.bodies() == Map::<HashValue, Seq<Seq<u8>>>::empty(),
            r.blocks() == Map::<HashValue, BlockView>::empty(),
            r.numbers() == Map::<u64, HashValue>::empty(),
            r.number_count() == 0,
    {
        let r = BlockStore {
            block_store: HashColumn::new(),
            header_store: HashColumn::new(),
            sons_store: HashColumn::new(),
            body_store: HashColumn::new(),
            number_store: NumberColumn::new(),
        };
        assert(r.headers() =~= Map::<HashValue, BlockHeaderView>::empty());
        assert(r.sons() =~= Map::<HashValue, Seq<HashValue>>::empty());
        assert(r.bodies() =~= Map::<HashValue, Seq<Seq<u8>>>::empty());
        assert(r.blocks() =~= Map::<HashValue, BlockView>::empty());
        r
    }

    /// The sons recorded under `parent_hash`; an absent entry is an error.
    pub fn get_sons(&self, parent_hash: HashValue) -> (r: Result<Vec<HashValue>, StoreError>)
        requires
            self.wf(),
        ensures
            r is Ok <==> self.sons().contains_key(parent_hash),
            r is Ok ==> r->Ok_0@ == self.sons()[parent_hash],
            r is Err ==> r->Err_0 == StoreError::MissingSons,
    {
        match self.sons_store.get(&parent_hash) {
            Some(bytes) => match decode_hashes(&bytes) {
                Some(v) => Ok(v),
                None => Err(StoreError::Decode),
            },
            None => Err(StoreError::MissingSons),
        }
    }

    /// Records `son_hash` under `parent_hash`, once.
    fn put_sons(&mut self, parent_hash: HashValue, son_hash: HashValue)
        requires
            old(self).wf(),
        ensures
            final(self).wf(),
            final(self).sons() == sons_after_put(old(self).sons(), parent_hash, son_hash),
            final(self).headers() == old(self).headers(),
            final(self).bodies() == old(self).bodies(),
            final(self).blocks() == old(self).blocks(),
            final(self).numbers() == old(self).numbers(),
            final(self).number_count() == old(self).number_count(),
            final(self).fuel() == old(self).fuel(),
    {
        let ghost before = self.sons();
        match self.sons_store.get(&parent_hash) {
            Some(bytes) => {
                let mut v = match decode_hashes(&bytes) {
                    Some(v) => v,
                    None => {
                        return;
                    },
                };
                if !hashes_contain(&v, &son_hash) {
                    v.push(son_hash);
                    let e = encode_hashes(&v);
                    proof {
                        lemma_hashes_round_trip(v@);
                        lemma_hashes_enc_whole(v@);
                    }
                    self.sons_store.put(parent_hash, e);
                    assert(self.sons() =~= before.insert(parent_hash, v@));
                }
            },
            None => {
                let mut v: Vec<HashValue> = Vec::new();
                v.push(son_hash);
                let e = encode_hashes(&v);
                proof {
                    lemma_hashes_round_trip(v@);
                    lemma_hashes_enc_whole(v@);
                    assert(v@ =~= seq![son_hash]);
                }
                self.sons_store.put(parent_hash, e);
                assert(self.sons() =~= before.insert(parent_hash, v@));
            },
        }
    }

    /// Stores a header under its id and records it as a son of its parent.
    pub fn save_header(&mut self, header: BlockHeader)
        requires
            old(self).wf(),
        ensures
            final(self).wf(),
            final(self).headers() == old(self).headers().insert(header_id(header@), header@),
            final(self).sons() == sons_after_put(
                old(self).sons(),
                header.parent_hash,
                header_id(header@),
            ),
            final(self).bodies() == old(self).bodies(),
            final(self).blocks() == old(self).blocks(),
            final(self).numbers() == old(self).numbers(),
            final(self).number_count() == old(self).number_count(),
    {
        let id = header.id();
        let parent = header.parent_hash;
        let ghost before = self.headers();
        let e = header.encode();
        proof {
            law_header_round_trip(&header);
        }
        self.header_store.put(id, e);
        assert(self.headers() =~= before.insert(header_id(header@), header@));
        self.put_sons(parent, id);
    }

    /// Stores a body under a block id.
    pub fn save_body(&mut self, block_id: HashValue, body: BlockBody)
        requires
            old(self).wf(),
        ensures
            final(self).wf(),
            final(self).bodies() == old(self).bodies().insert(block_id, body@),
            final(self).headers() == old(self).headers(),
            final(self).sons() == old(self).sons(),
            final(self).blocks() == old(self).blocks(),
            final(self).numbers() == old(self).numbers(),
            final(self).number_count() == old(self).number_count(),
            final(self).fuel() == old(self).fuel(),
    {
        let ghost before = self.bodies();
        let e = body.encode();
        proof {
            law_body_round_trip(&body);
        }
        self.body_store.put(block_id, e);
        assert(self.bodies() =~= before.insert(block_id, body@));
    }

    /// Records `block_id` as the block with `number`.
    pub fn save_number(&mut self, number: BlockNumber, block_id: HashValue)
        requires
            old(self).wf(),
        ensures
            final(self).wf(),
            final(self).numbers() == old(self).numbers().insert(number, block_id),
            final(self).number_count() == old(self).number_count() + if old(self).numbers().contains_key(number) {
                0int
            } else {
                1int
            },
            final(self).headers() == old(self).headers(),
            final(self).sons() == old(self).sons(),
            final(self).bodies() == old(self).bodies(),
            final(self).blocks() == old(self).blocks(),
            final(self).fuel() == old(self).fuel(),
    {
        self.number_store.put(number, block_id);
    }

    /// Stores a whole block under its header's id.
    pub fn save(&mut self, block: Block)
        requires
            old(self).wf(),
        ensures
            final(self).wf(),
            final(self).blocks() == old(self).blocks().insert(header_id(block.header@), block@),
            final(self).headers() == old(self).headers(),
            final(self).sons() == old(self).sons(),
            final(self).bodies() == old(self).bodies(),
            final(self).numbers() == old(self).numbers(),
            final(self).number_count() == old(self).number_count(),
            final(self).fuel() == old(self).fuel(),
    {
        let ghost before = self.blocks();
        let id = block.header.id();
        let e = block.encode();
        proof {
            law_block_round_trip(&block);
        }
        self.block_store.put(id, e);
        assert(self.blocks() =~= before.insert(header_id(block.header@), block@));
    }

    /// Stores a block's header, number, body and the block itself.
    pub fn commit_block(&mut self, block: Block)
        requires
            old(self).wf(),
        ensures
            final(self).wf(),
            final(self).headers() == old(self).headers().insert(
                header_id(block.header@),
                block.header@,
            ),
            final(self).sons() == sons_after_put(
                old(self).sons(),
                block.header.parent_hash,
                header_id(block.header@),
            ),
            final(self).numbers() == old(self).numbers().insert(
                block.header.number,
                header_id(block.header@),
            ),
            final(self).bodies() == old(self).bodies().insert(header_id(block.header@), block.body@),
            final(self).blocks() == old(self).blocks().insert(header_id(block.header@), block@),
            final(self).number_count() == old(self).number_count() + if old(self).numbers().contains_key(block.header.number) {
                0int
            } else {
                1int
            },
    {
        let id = block.header.id();
        let number = block.header.number;
        let header = block.header.duplicate();
        let body = block.body.duplicate();
        self.save_header(header);
        self.save_number(number, id);
        self.save_body(id, body);
        self.save(block);
    }

    /// The header stored under `block_id`.
    pub fn get_block_header_by_hash(&self, block_id: HashValue) -> (r: Result<
        Option<BlockHeader>,
        StoreError,
    >)
        requires
            self.wf(),
        ensures
            r is Ok,
            r->Ok_0 is Some <==> self.headers().contains_key(block_id),
            r->Ok_0 is Some ==> r->Ok_0->0@ == self.headers()[block_id],
    {
        match self.header_store.get(&block_id) {
            Some(bytes) => match BlockHeader::decode(&bytes) {
                Ok(h) => Ok(Some(h)),
                Err(_) => Err(StoreError::Decode),
            },
            None => Ok(None),
        }
    }

    /// The body stored under `block_id`.
    pub fn get_body(&self, block_id: HashValue) -> (r: Result<Option<BlockBody>, StoreError>)
        requires
            self.wf(),
        ensures
            r is Ok,
            r->Ok_0 is Some <==> self.bodies().contains_key(block_id),
            r->Ok_0 is Some ==> r->Ok_0->0@ == self.bodies()[block_id],
    {
        match self.body_store.get(&block_id) {
            Some(bytes) => match BlockBody::decode(&bytes) {
                Ok(b) => Ok(Some(b)),
                Err(_) => Err(StoreError::Decode),
            },
            None => Ok(None),
        }
    }

    /// The block stored under `block_id`.
    pub fn get(&self, block_id: HashValue) -> (r: Result<Option<Block>, StoreError>)
        requires
            self.wf(),
        ensures
            r is Ok,
            r->Ok_0 is Some <==> self.blocks().contains_key(block_id),
            r->Ok_0 is Some ==> r->Ok_0->0@ == self.blocks()[block_id],
    {
        match self.block_store.get(&block_id) {
            Some(bytes) => match Block::decode(&bytes) {
                Ok(b) => Ok(Some(b)),
                Err(_) => Err(StoreError::Decode),
            },
            None => Ok(None),
        }
    }

    /// The block stored under `block_id`.
    pub fn get_block_by_hash(&self, block_id: HashValue) -> (r: Result<Option<Block>, StoreError>)
        requires
            self.wf(),
        ensures
            r is Ok,
            r->Ok_0 is Some <==> self.blocks().contains_key(block_id),
            r->Ok_0 is Some ==> r->Ok_0->0@ == self.blocks()[block_id],
    {
        self.get(block_id)
    }

    /// The block id recorded for `number`.
    pub fn get_number(&self, number: u64) -> (r: Result<Option<HashValue>, StoreError>)
        requires
            self.wf(),
        ensures
            r == Ok::<Option<HashValue>, StoreError>(self.numbers().get(number)),
    {
        match self.number_store.get(number) {
            Some(id) => Ok(Some(id)),
            None => Ok(None),
        }
    }

    /// The header of the block recorded for `number`; a number with no entry is an error.
    pub fn get_block_header_by_number(&self, number: u64) -> (r: Result<
        Option<BlockHeader>,
        StoreError,
    >)
        requires
            self.wf(),
        ensures
            r is Ok <==> self.numbers().contains_key(number),
            r is Err ==> r->Err_0 == StoreError::MissingNumber,
            r is Ok ==> (r->Ok_0 is Some <==> self.headers().contains_key(
                self.numbers()[number],
            )),
            r is Ok && r->Ok_0 is Some ==> r->Ok_0->0@ == self.headers()[self.numbers()[number]],
    {
        match self.number_store.get(number) {
            Some(block_id) => self.get_block_header_by_hash(block_id),
            None => Err(StoreError::MissingNumber),
        }
    }

    /// The block recorded for `number`, if any.
    pub fn get_block_by_number(&self, number: u64) -> (r: Result<Option<Block>, StoreError>)
        requires
            self.wf(),
        ensures
            r is Ok,
            r->Ok_0 is Some <==> (self.numbers().contains_key(number)
                && self.blocks().contains_key(self.numbers()[number])),
            r->Ok_0 is Some ==> r->Ok_0->0@ == self.blocks()[self.numbers()[number]],
    {
        match self.number_store.get(number) {
            Some(block_id) => self.get(block_id),
            None => Ok(None),
        }
    }

    /// The header at the top of the number index: the one recorded for the index's size less
    /// one. An empty index gives `None`.
    pub fn get_latest_block_header(&self) -> (r: Result<Option<BlockHeader>, StoreError>)
        requires
            self.wf(),
        ensures
            self.number_count() == 0 ==> r == Ok::<Option<BlockHeader>, StoreError>(None),
            self.number_count() > 0 ==> {
                let n = (self.number_count() - 1) as u64;
                &&& (r is Ok <==> self.numbers().contains_key(n))
                &&& (r is Err ==> r->Err_0 == StoreError::MissingNumber)
                &&& (r is Ok ==> (r->Ok_0 is Some <==> self.headers().contains_key(
                    self.numbers()[n],
                )))
                &&& (r is Ok && r->Ok_0 is Some ==> r->Ok_0->0@ == self.headers()[self.numbers()[n]])
            },
    {
        let max_number = self.number_store.len();
        if max_number == 0 {
            return Ok(None);
        }
        self.get_block_header_by_number((max_number - 1) as u64)
    }

    /// The block at the top of the number index, if there is one.
    pub fn get_latest_block(&self) -> (r: Result<Option<Block>, StoreError>)
        requires
            self.wf(),
        ensures
            r is Ok,
            self.number_count() == 0 ==> r->Ok_0 is None,
            self.number_count() > 0 ==> {
                let n = (self.number_count() - 1) as u64;
                &&& (r->Ok_0 is Some <==> (self.numbers().contains_key(n)
                    && self.blocks().contains_key(self.numbers()[n])))
                &&& (r->Ok_0 is Some ==> r->Ok_0->0@ == self.blocks()[self.numbers()[n]])
            },
    {
        let max_number = self.number_store.len();
        if max_number == 0 {
            return Ok(None);
        }
        self.get_block_by_number((max_number - 1) as u64)
    }

    /// The ids of all stored headers.
    pub fn get_headers(&self) -> (r: Vec<HashValue>)
        requires
            self.wf(),
        ensures
            r@.to_set() == self.headers().dom(),
    {
        let r = self.header_store.keys();
        assert(self.headers().dom() =~= self.header_store@.dom());
        r
    }

    /// The ids from `block_id` up to the first block whose parent is a fork point.
    pub fn get_branch_hashes(&self, block_id: HashValue) -> (r: Result<Vec<HashValue>, StoreError>)
        requires
            self.wf(),
        ensures
            match r {
                Ok(v) => branch_walk(self.headers(), self.sons(), block_id, self.fuel()) == Ok::<
                    Seq<HashValue>,
                    StoreError,
                >(v@),
                Err(e) => branch_walk(self.headers(), self.sons(), block_id, self.fuel()) == Err::<
                    Seq<HashValue>,
                    StoreError,
                >(e),
            },
    {
        let fuel: u128 = self.header_store.len() as u128 + 1;
        self.branch_walk(block_id, fuel)
    }

    /// The ids from `id` up to the first block whose parent is a fork point, visiting at most
    /// `fuel` headers.
    fn branch_walk(&self, id: HashValue, fuel: u128) -> (r: Result<Vec<HashValue>, StoreError>)
        requires
            self.wf(),
        ensures
            match r {
                Ok(v) => branch_walk(self.headers(), self.sons(), id, fuel as nat) == Ok::<
                    Seq<HashValue>,
                    StoreError,
                >(v@),
                Err(e) => branch_walk(self.headers(), self.sons(), id, fuel as nat) == Err::<
                    Seq<HashValue>,
                    StoreError,
                >(e),
            },
        decreases fuel,
    {
        if fuel == 0 {
            return Err(StoreError::Cycle);
        }
        let header = match self.get_block_header_by_hash(id) {
            Ok(Some(h)) => h,
            Ok(None) => {
                return Err(StoreError::MissingHeader);
            },
            Err(e) => {
                return Err(e);
            },
        };
        let parent = header.parent_hash;
        let sons_of_parent = match self.get_sons(parent) {
            Ok(v) => v,
            Err(e) => {
                return Err(e);
            },
        };
        let mut v: Vec<HashValue> = Vec::new();
        v.push(id);
        if sons_of_parent.len() > 1 {
            assert(v@ =~= seq![id]);
            return Ok(v);
        }
        match self.branch_walk(parent, fuel - 1) {
            Ok(mut rest) => {
                let ghost tail = rest@;
                v.append(&mut rest);
                assert(v@ =~= seq![id] + tail);
                Ok(v)
            },
            Err(e) => Err(e),
        }
    }

    /// `Some(a)` when `a` has `b` as a recorded son.
    fn get_relationship(&self, block_id1: HashValue, block_id2: HashValue) -> (r: Option<HashValue>)
        requires
            self.wf(),
        ensures
            r is Some <==> is_parent_of(self.sons(), block_id1, block_id2),
            r is Some ==> r->0 == block_id1,
    {
        match self.get_sons(block_id1) {
            Ok(sons) => {
                if hashes_contain(&sons, &block_id2) {
                    return Some(block_id1);
                }
            },
            Err(_) => {},
        }
        None
    }

    /// Walks up from `p2` until it reaches one of `sons1`.
    fn find_in_sons(&self, sons1: &Vec<HashValue>, p2: HashValue, fuel: u128) -> (r: Result<
        (),
        StoreError,
    >)
        requires
            self.wf(),
        ensures
            r == find_in_sons(self.headers(), sons1@, p2, fuel as nat),
        decreases fuel,
    {
        if fuel == 0 {
            return Err(StoreError::Cycle);
        }
        if p2.is_zero() {
            return Err(StoreError::ZeroHash);
        }
        if hashes_contain(sons1, &p2) {
            return Ok(());
        }
        match self.get_block_header_by_hash(p2) {
            Ok(Some(header2)) => self.find_in_sons(sons1, header2.parent_hash, fuel - 1),
            Ok(None) => Err(StoreError::MissingHeader),
            Err(e) => Err(e),
        }
    }

    /// Walks up from `parent_id1` to the first ancestor with more than one recorded son, then
    /// looks for `block_id2`'s ancestry among those sons.
    fn ancestor_walk(
        &self,
        parent_id1: HashValue,
        block_id2: HashValue,
        fuel: u128,
        inner_fuel: u128,
    ) -> (r: Result<HashValue, StoreError>)
        requires
            self.wf(),
        ensures
            r == ancestor_walk(
                self.headers(),
                self.sons(),
                parent_id1,
                block_id2,
                fuel as nat,
                inner_fuel as nat,
            ),
        decreases fuel,
    {
        if fuel == 0 {
            return Err(StoreError::Cycle);
        }
        let header = match self.get_block_header_by_hash(parent_id1) {
            Ok(Some(h)) => h,
            Ok(None) => {
                return Err(StoreError::MissingHeader);
            },
            Err(e) => {
                return Err(e);
            },
        };
        let parent = header.parent_hash;
        if parent.is_zero() {
            return Err(StoreError::ZeroHash);
        }
        let sons1 = match self.get_sons(parent) {
            Ok(v) => v,
            Err(e) => {
                return Err(e);
            },
        };
        if sons1.len() > 1 {
            match self.find_in_sons(&sons1, block_id2, inner_fuel) {
                Ok(()) => Ok(parent),
                Err(e) => Err(e),
            }
        } else {
            self.ancestor_walk(parent, block_id2, fuel - 1, inner_fuel)
        }
    }

    /// The common ancestor of two blocks.
    pub fn get_common_ancestor(&self, block_id1: HashValue, block_id2: HashValue) -> (r: Result<
        Option<HashValue>,
        StoreError,
    >)
        requires
            self.wf(),
        ensures
            match common_ancestor(self.headers(), self.sons(), block_id1, block_id2, self.fuel()) {
                Ok(a) => r == Ok::<Option<HashValue>, StoreError>(Some(a)),
                Err(e) => r == Err::<Option<HashValue>, StoreError>(e),
            },
    {
        if let Some(hash) = self.get_relationship(block_id1, block_id2) {
            return Ok(Some(hash));
        }
        if let Some(hash) = self.get_relationship(block_id2, block_id1) {
            return Ok(Some(hash));
        }
        let n: u128 = self.header_store.len() as u128 + 1;
        match self.ancestor_walk(block_id1, block_id2, n, n) {
            Ok(a) => Ok(Some(a)),
            Err(e) => Err(e),
        }
    }
}

/// Saving the same header twice leaves the header map and the sons index as saving it once.
pub proof fn law_save_header_idempotent(
    headers: Map<HashValue, BlockHeaderView>,
    sons: Map<HashValue, Seq<HashValue>>,
    h: BlockHeaderView,
)
    ensures
        headers.insert(header_id(h), h).insert(header_id(h), h) == headers.insert(header_id(h), h),
        sons_after_put(sons_after_put(sons, h.parent_hash, header_id(h)), h.parent_hash, header_id(h))
            == sons_after_put(sons, h.parent_hash, header_id(h)),
{
    let id = header_id(h);
    let p = h.parent_hash;
    assert(headers.insert(id, h).insert(id, h) =~= headers.insert(id, h));
    let once = sons_after_put(sons, p, id);
    assert(once.contains_key(p));
    if sons.contains_key(p) && !sons[p].contains(id) {
        assert(once[p] == sons[p].push(id));
        assert(once[p][sons[p].len() as int] == id);
    } else if !sons.contains_key(p) {
        assert(once[p] == seq![id]);
        assert(once[p][0] == id);
    }
    assert(once[p].contains(id));
}

/// Two distinct members make a sequence longer than one.
proof fn lemma_two_members(s: Seq<HashValue>, x: HashValue, y: HashValue)
    requires
        s.contains(x),
        s.contains(y),
        x != y,
    ensures
        s.len() > 1,
{
    let i = choose|i: int| 0 <= i < s.len() && s[i] == x;
    let j = choose|j: int| 0 <= j < s.len() && s[j] == y;
    assert(i != j);
}

/// When a block's parent has another recorded son, the branch of that block is the block alone.
pub proof fn law_branch_hashes_stop_at_fork(
    st: &BlockStore,
    parent: HashValue,
    c1: HashValue,
    c2: HashValue,
)
    requires
        st.wf(),
        st.headers().contains_key(c1),
        st.headers()[c1].parent_hash == parent,
        st.sons().contains_key(parent),
        st.sons()[parent].contains(c1),
        st.sons()[parent].contains(c2),
        c1 != c2,
    ensures
        branch_walk(st.headers(), st.sons(), c1, st.fuel()) == Ok::<Seq<HashValue>, StoreError>(
            seq![c1],
        ),
{
    st.lemma_fuel(c1);
    lemma_two_members(st.sons()[parent], c1, c2);
}

/// For a fork where C is built on A, B is A's other son and D is built on B, the common ancestor
/// of C and D is A.
pub proof fn law_common_ancestor_of_fork(
    st: &BlockStore,
    a: HashValue,
    b: HashValue,
    c: HashValue,
    d: HashValue,
)
    requires
        st.wf(),
        sons_consistent(st.headers(), st.sons()),
        st.headers().contains_key(c),
        st.headers().contains_key(b),
        st.headers().contains_key(d),
        st.headers()[c].parent_hash == a,
        st.headers()[b].parent_hash == a,
        st.headers()[d].parent_hash == b,
        st.sons().contains_key(a),
        st.sons()[a].contains(b),
        st.sons()[a].contains(c),
        a != HashValue::spec_zero(),
        b != HashValue::spec_zero(),
        d != HashValue::spec_zero(),
        a != b && a != c && a != d && b != c && b != d && c != d,
    ensures
        common_ancestor(st.headers(), st.sons(), c, d, st.fuel()) == Ok::<HashValue, StoreError>(a),
{
    let hs = st.headers();
    let sons = st.sons();
    let f = st.fuel();
    st.lemma_fuel(c);
    lemma_two_members(sons[a], b, c);
    if is_parent_of(sons, c, d) {
        assert(hs[d].parent_hash == c);
    }
    if is_parent_of(sons, d, c) {
        assert(hs[c].parent_hash == d);
    }
    if sons[a].contains(d) {
        assert(is_parent_of(sons, a, d));
        assert(hs[d].parent_hash == a);
    }
    assert(find_in_sons(hs, sons[a], b, (f - 1) as nat) == Ok::<(), StoreError>(()));
    assert(find_in_sons(hs, sons[a], d, f) == Ok::<(), StoreError>(()));
    assert(ancestor_walk(hs, sons, c, d, f, f) == Ok::<HashValue, StoreError>(a));
}

} // verus!
