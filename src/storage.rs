use crate::block::{block_info_decoded, block_info_enc, law_block_info_round_trip, BlockInfo, SignedUserTransaction};
use crate::block_store::{
    decode_hashes, encode_hashes, hashes_decoded, lemma_hashes_enc_whole, lemma_hashes_round_trip,
    BlockStore, StoreError,
};
use crate::column::{BranchNumberColumn, HashColumn};
use crate::hash::{digest_hash, HashValue};
use crate::state_sync::StateNodeStore;
use vstd::prelude::*;

verus! {

/// Why a byte string has the wrong length.
#[derive(Debug, Clone, Copy, PartialEq, Eq, Structural)]
pub struct LengthError {
    pub actual: usize,
    pub expected: usize,
}

/// Fails unless `data` is exactly `len` bytes long.
pub fn ensure_slice_len_eq(data: &[u8], len: usize) -> (r: Result<(), LengthError>)
    ensures
        r is Ok <==> data@.len() == len,
        r is Err ==> r->Err_0 == (LengthError { actual: data@.len() as usize, expected: len }),
{
    if data.len() != len {
        return Err(LengthError { actual: data.len(), expected: len });
    }
    Ok(())
}

/// The store a node keeps: blocks and their indexes, the number index of each branch, state
/// nodes, transactions by hash, each block's transaction hashes, block infos, and the pointer to the head block
/// read at startup.
pub struct Storage {
    pub block_storage: BlockStore,
    pub state_node_storage: StateNodeStore,
    pub transaction_storage: HashColumn,
    pub block_transactions: HashColumn,
    pub branch_numbers: BranchNumberColumn,
    pub block_info_storage: HashColumn,
    pub startup_info: Option<HashValue>,
}

impl Storage {
    /// Every part is well formed; each list of transaction hashes is whole 32-byte chunks.
    pub open spec fn wf(&self) -> bool {
        &&& self.block_storage.wf()
        &&& self.state_node_storage.wf()
        &&& self.transaction_storage.wf()
        &&& self.block_transactions.wf()
        &&& self.branch_numbers.wf()
        &&& self.block_info_storage.wf()
        &&& forall|k: HashValue| #[trigger]
            self.block_info_storage@.contains_key(k) ==> block_info_decoded(self.block_info_storage@[k]) is Some
        &&& forall|k: HashValue| #[trigger]
            self.block_transactions@.contains_key(k) ==> self.block_transactions@[k].len() % 32 == 0
    }

    /// Transactions by hash, as their bytes.
    pub open spec fn transactions(&self) -> Map<HashValue, Seq<u8>> {
        self.transaction_storage@
    }

    /// The transaction hashes of each block, in order.
    pub open spec fn block_transaction_lists(&self) -> Map<HashValue, Seq<HashValue>> {
        self.block_transactions@.map_values(|b: Seq<u8>| hashes_decoded(b))
    }

    /// Block infos by block id: (block id, frozen roots, leaves, nodes).
    pub open spec fn block_infos(&self) -> Map<HashValue, (HashValue, Seq<HashValue>, u64, u64)> {
        self.block_info_storage@.map_values(|b: Seq<u8>| block_info_decoded(b)->0)
    }

    /// An empty store.
    pub fn new() -> (r: Storage)
        ensures
            r.wf(),
            r.block_storage.number_count() == 0,
            r.block_storage.headers() == Map::<HashValue, crate::block::BlockHeaderView>::empty(),
            r.transactions() == Map::<HashValue, Seq<u8>>::empty(),
            r.block_transaction_lists() == Map::<HashValue, Seq<HashValue>>::empty(),
            r.branch_numbers@ == Map::<(HashValue, u64), HashValue>::empty(),
            r.block_infos() == Map::<HashValue, (HashValue, Seq<HashValue>, u64, u64)>::empty(),
            r.spec_startup_info() is None,
    {
        let r = Storage {
            block_storage: BlockStore::new(),
            state_node_storage: StateNodeStore::new(),
            transaction_storage: HashColumn::new(),
            block_transactions: HashColumn::new(),
            branch_numbers: BranchNumberColumn::new(),
            block_info_storage: HashColumn::new(),
            startup_info: None,
        };
        assert(r.block_transaction_lists() =~= Map::<HashValue, Seq<HashValue>>::empty());
        assert(r.block_infos() =~= Map::<HashValue, (HashValue, Seq<HashValue>, u64, u64)>::empty());
        r
    }

    /// The head block id saved for the next start.
    pub open spec fn spec_startup_info(&self) -> Option<HashValue> {
        self.startup_info
    }

    pub fn get_startup_info(&self) -> (r: Option<HashValue>)
        ensures
            r == self.spec_startup_info(),
    {
        self.startup_info
    }

    pub fn save_startup_info(&mut self, head_block_id: HashValue)
        ensures
            *final(self) == (Storage { startup_info: Some(head_block_id), ..*old(self) }),
    {
        self.startup_info = Some(head_block_id);
    }

    /// Stores a transaction under its hash.
    pub fn save_transaction(&mut self, txn: SignedUserTransaction)
        requires
            old(self).wf(),
        ensures
            final(self).wf(),
            final(self).transactions() == old(self).transactions().insert(digest_hash(txn@), txn@),
            *final(self) == (Storage { transaction_storage: final(self).transaction_storage, ..*old(self) }),
    {
        let id = txn.id();
        self.transaction_storage.put(id, txn.raw);
    }

    /// Stores each transaction under its hash.
    pub fn save_transaction_batch(&mut self, txns: Vec<SignedUserTransaction>)
        requires
            old(self).wf(),
        ensures
            final(self).wf(),
            forall|k: HashValue| old(self).transactions().contains_key(k) ==> final(self).transactions().contains_key(k),
            forall|i: int| 0 <= i < txns@.len() ==> final(self).transactions().contains_key(digest_hash(#[trigger] txns@[i]@)),
            *final(self) == (Storage { transaction_storage: final(self).transaction_storage, ..*old(self) }),
    {
        let mut i: usize = 0;
        while i < txns.len()
            invariant
                self.wf(),
                i <= txns@.len(),
                *self == (Storage { transaction_storage: self.transaction_storage, ..*old(self) }),
                forall|k: HashValue| old(self).transactions().contains_key(k) ==> self.transactions().contains_key(k),
                forall|j: int| 0 <= j < i ==> self.transactions().contains_key(digest_hash(#[trigger] txns@[j]@)),
            decreases txns@.len() - i,
        {
            let t = txns[i].duplicate();
            self.save_transaction(t);
            i += 1;
        }
    }

    /// The transaction stored under `hash`.
    pub fn get_transaction(&self, hash: HashValue) -> (r: Option<SignedUserTransaction>)
        requires
            self.wf(),
        ensures
            r is Some <==> self.transactions().contains_key(hash),
            r is Some ==> r->0@ == self.transactions()[hash],
    {
        match self.transaction_storage.get(&hash) {
            Some(raw) => Some(SignedUserTransaction { raw }),
            None => None,
        }
    }

    /// Records the hashes of a block's transactions, in order.
    pub fn save_block_transactions(&mut self, block_id: HashValue, transactions: Vec<HashValue>)
        requires
            old(self).wf(),
        ensures
            final(self).wf(),
            final(self).block_transaction_lists() == old(self).block_transaction_lists().insert(
                block_id,
                transactions@,
            ),
            *final(self) == (Storage { block_transactions: final(self).block_transactions, ..*old(self) }),
    {
        let ghost before = self.block_transaction_lists();
        let e = encode_hashes(&transactions);
        proof {
            lemma_hashes_round_trip(transactions@);
            lemma_hashes_enc_whole(transactions@);
        }
        self.block_transactions.put(block_id, e);
        assert(self.block_transaction_lists() =~= before.insert(block_id, transactions@));
    }

    /// The hashes of a block's transactions, if they were recorded.
    pub fn get_block_transactions(&self, block_id: HashValue) -> (r: Result<Option<Vec<HashValue>>, StoreError>)
        requires
            self.wf(),
        ensures
            r is Ok,
            r->Ok_0 is Some <==> self.block_transaction_lists().contains_key(block_id),
            r->Ok_0 is Some ==> r->Ok_0->0@ == self.block_transaction_lists()[block_id],
    {
        match self.block_transactions.get(&block_id) {
            Some(bytes) => match decode_hashes(&bytes) {
                Some(v) => Ok(Some(v)),
                None => Err(StoreError::Decode),
            },
            None => Ok(None),
        }
    }

    /// Records `block_id` as the block with `number` on branch `branch_id`.
    pub fn save_branch_number(&mut self, branch_id: HashValue, number: u64, block_id: HashValue)
        requires
            old(self).wf(),
        ensures
            final(self).wf(),
            final(self).branch_numbers@ == old(self).branch_numbers@.insert((branch_id, number), block_id),
            *final(self) == (Storage { branch_numbers: final(self).branch_numbers, ..*old(self) }),
    {
        self.branch_numbers.put((branch_id, number), block_id);
    }

    /// The block recorded with `number` on branch `branch_id`.
    pub fn get_branch_number(&self, branch_id: HashValue, number: u64) -> (r: Option<HashValue>)
        requires
            self.wf(),
        ensures
            r == self.branch_numbers@.get((branch_id, number)),
    {
        self.branch_numbers.get((branch_id, number))
    }

    /// Stores a block info under its block id.
    pub fn save_block_info(&mut self, info: BlockInfo)
        requires
            old(self).wf(),
        ensures
            final(self).wf(),
            final(self).block_infos() == old(self).block_infos().insert(
                info.block_id,
                (info.block_id, info.frozen_subtree_roots@, info.num_leaves, info.num_nodes),
            ),
            *final(self) == (Storage { block_info_storage: final(self).block_info_storage, ..*old(self) }),
    {
        let ghost before = self.block_infos();
        let e = info.encode();
        proof {
            assert(info.frozen_subtree_roots@.len() == info.frozen_subtree_roots.len());
            law_block_info_round_trip(
                info.block_id,
                info.frozen_subtree_roots@,
                info.num_leaves,
                info.num_nodes,
            );
        }
        self.block_info_storage.put(info.block_id, e);
        assert(self.block_infos() =~= before.insert(
            info.block_id,
            (info.block_id, info.frozen_subtree_roots@, info.num_leaves, info.num_nodes),
        ));
    }

    /// The block info stored under `block_id`.
    pub fn get_block_info(&self, block_id: HashValue) -> (r: Result<Option<BlockInfo>, StoreError>)
        requires
            self.wf(),
        ensures
            r is Ok,
            r->Ok_0 is Some <==> self.block_infos().contains_key(block_id),
            r->Ok_0 is Some ==> (r->Ok_0->0.block_id, r->Ok_0->0.frozen_subtree_roots@,
                r->Ok_0->0.num_leaves, r->Ok_0->0.num_nodes) == self.block_infos()[block_id],
    {
        match self.block_info_storage.get(&block_id) {
            Some(bytes) => match BlockInfo::decode(&bytes) {
                Some(info) => Ok(Some(info)),
                None => Err(StoreError::Decode),
            },
            None => Ok(None),
        }
    }
}

} // verus!
