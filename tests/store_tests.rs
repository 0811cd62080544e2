use chain_core::account_address::AccountAddress;
use chain_core::block::{Block, BlockBody, BlockHeader, BlockInfo, SignedUserTransaction};
use chain_core::chain::ApplyError;
use chain_core::chain_service::ChainServiceImpl;
use chain_core::block_store::{BlockStore, StoreError};
use chain_core::hash::HashValue;
use chain_core::storage::{ensure_slice_len_eq, LengthError, Storage};
use chain_core::u256::U256;

fn header(parent: HashValue, number: u64, tag: u64) -> BlockHeader {
    BlockHeader::new(
        parent,
        tag,
        number,
        AccountAddress::new([1u8; 16]),
        HashValue { w0: tag, w1: 0, w2: 0, w3: 1 },
        HashValue { w0: tag, w1: 0, w2: 0, w3: 2 },
        0,
        1000,
        U256::from_u64(1),
        U256::from_u64(number + 1),
        vec![],
    )
}

#[test]
fn latest_header_of_empty_and_genesis_store() {
    let mut store = BlockStore::new();
    assert_eq!(store.get_latest_block_header(), Ok(None));
    assert_eq!(store.get_latest_block(), Ok(None));
    let zero = HashValue::zero();
    let genesis = Block::genesis_block(zero, zero, vec![]);
    store.commit_block(genesis.clone());
    let latest = store.get_latest_block_header().unwrap().unwrap();
    assert_eq!(latest.number(), 0);
    assert_eq!(latest, genesis.header);
    assert_eq!(store.get_latest_block().unwrap().unwrap(), genesis);
    let id = genesis.header.id();
    assert_eq!(store.get_number(0), Ok(Some(id)));
    assert_eq!(store.get_body(id).unwrap().unwrap(), BlockBody::empty());
    assert_eq!(store.get_block_by_number(0).unwrap().unwrap(), genesis);
    assert_eq!(store.get_block_by_number(1), Ok(None));
    assert_eq!(store.get_block_header_by_number(1), Err(StoreError::MissingNumber));
    assert_eq!(store.get_headers(), vec![id]);
}

#[test]
fn save_header_twice_keeps_one_son() {
    let mut store = BlockStore::new();
    let h = header(HashValue::zero(), 0, 1);
    store.save_header(h.clone());
    store.save_header(h.clone());
    assert_eq!(store.get_sons(HashValue::zero()), Ok(vec![h.id()]));
    assert_eq!(store.get_block_header_by_hash(h.id()), Ok(Some(h)));
}

#[test]
fn branch_hashes_stop_at_fork() {
    let mut store = BlockStore::new();
    let a = header(HashValue::zero(), 0, 1);
    let b = header(a.id(), 1, 2);
    let c1 = header(b.id(), 2, 3);
    let c2 = header(b.id(), 2, 4);
    for h in [&a, &b, &c1, &c2] {
        store.save_header(h.clone());
    }
    assert_eq!(store.get_sons(b.id()), Ok(vec![c1.id(), c2.id()]));
    assert_eq!(store.get_branch_hashes(c1.id()), Ok(vec![c1.id()]));
    assert_eq!(store.get_branch_hashes(c2.id()), Ok(vec![c2.id()]));
}

#[test]
fn branch_hashes_errors() {
    let mut store = BlockStore::new();
    let a = header(HashValue::zero(), 0, 1);
    let b = header(a.id(), 1, 2);
    store.save_header(a.clone());
    store.save_header(b.clone());
    // No fork on the way down: the walk passes genesis and finds no header for the zero hash.
    assert_eq!(store.get_branch_hashes(b.id()), Err(StoreError::MissingHeader));
    let unknown = HashValue { w0: 9, w1: 9, w2: 9, w3: 9 };
    assert_eq!(store.get_branch_hashes(unknown), Err(StoreError::MissingHeader));
}

#[test]
fn common_ancestor_of_fork() {
    let mut store = BlockStore::new();
    let g = header(HashValue::zero(), 0, 1);
    let a = header(g.id(), 1, 2);
    let c = header(a.id(), 2, 3);
    let b = header(a.id(), 2, 4);
    let d = header(b.id(), 3, 5);
    for h in [&g, &a, &c, &b, &d] {
        store.save_header(h.clone());
    }
    assert_eq!(store.get_common_ancestor(c.id(), d.id()), Ok(Some(a.id())));
    // Parent and child: the fast path.
    assert_eq!(store.get_common_ancestor(b.id(), d.id()), Ok(Some(b.id())));
    assert_eq!(store.get_common_ancestor(d.id(), b.id()), Ok(Some(b.id())));
}

#[test]
fn common_ancestor_errors() {
    let mut store = BlockStore::new();
    let g = header(HashValue::zero(), 0, 1);
    let a = header(g.id(), 1, 2);
    store.save_header(g.clone());
    store.save_header(a.clone());
    // Walking up from genesis reaches the zero hash.
    assert_eq!(store.get_common_ancestor(g.id(), HashValue { w0: 5, w1: 0, w2: 0, w3: 0 }), Err(StoreError::ZeroHash));
    let missing = HashValue { w0: 8, w1: 0, w2: 0, w3: 0 };
    assert_eq!(store.get_common_ancestor(missing, a.id()), Err(StoreError::MissingHeader));
}

#[test]
fn common_ancestor_missing_sons() {
    let mut store = BlockStore::new();
    let orphan_parent = HashValue { w0: 4, w1: 4, w2: 4, w3: 4 };
    let o = header(orphan_parent, 5, 1);
    store.save(Block::new(o.clone(), BlockBody::empty()));
    store.save_body(o.id(), BlockBody::empty());
    assert_eq!(store.get_sons(orphan_parent), Err(StoreError::MissingSons));
}

#[test]
fn slice_length_check() {
    assert_eq!(ensure_slice_len_eq(&[1, 2, 3], 3), Ok(()));
    assert_eq!(
        ensure_slice_len_eq(&[1, 2], 3),
        Err(LengthError { actual: 2, expected: 3 })
    );
}

#[test]
fn startup_info() {
    let mut storage = Storage::new();
    assert_eq!(storage.get_startup_info(), None);
    let id = HashValue { w0: 1, w1: 2, w2: 3, w3: 4 };
    storage.save_startup_info(id);
    assert_eq!(storage.get_startup_info(), Some(id));
}

#[test]
fn transactions_and_block_transactions() {
    let mut storage = Storage::new();
    let t1 = SignedUserTransaction::new(vec![1, 2, 3]);
    let t2 = SignedUserTransaction::new(vec![4]);
    storage.save_transaction(t1.clone());
    assert_eq!(storage.get_transaction(t1.id()), Some(t1.clone()));
    assert_eq!(storage.get_transaction(t2.id()), None);
    storage.save_transaction_batch(vec![t1.clone(), t2.clone()]);
    assert_eq!(storage.get_transaction(t2.id()), Some(t2.clone()));
    let block_id = HashValue { w0: 5, w1: 5, w2: 5, w3: 5 };
    assert_eq!(storage.get_block_transactions(block_id), Ok(None));
    storage.save_block_transactions(block_id, vec![t1.id(), t2.id()]);
    assert_eq!(storage.get_block_transactions(block_id), Ok(Some(vec![t1.id(), t2.id()])));
}

#[test]
fn branch_numbers() {
    let mut storage = Storage::new();
    let branch = HashValue { w0: 1, w1: 0, w2: 0, w3: 0 };
    let other = HashValue { w0: 2, w1: 0, w2: 0, w3: 0 };
    let id = HashValue { w0: 9, w1: 9, w2: 9, w3: 9 };
    storage.save_branch_number(branch, 3, id);
    assert_eq!(storage.get_branch_number(branch, 3), Some(id));
    assert_eq!(storage.get_branch_number(other, 3), None);
    assert_eq!(storage.get_branch_number(branch, 4), None);
}

#[test]
fn service_refuses_missing_latest_header() {
    let mut store = BlockStore::new();
    store.save_number(0, HashValue { w0: 7, w1: 7, w2: 7, w3: 7 });
    let zero = HashValue::zero();
    let r = ChainServiceImpl::new(store, Block::genesis_block(zero, zero, vec![]));
    assert!(matches!(r, Err(ApplyError::Store(StoreError::MissingHeader))));
}

#[test]
fn block_infos() {
    let mut storage = Storage::new();
    let id = HashValue { w0: 3, w1: 1, w2: 4, w3: 1 };
    assert_eq!(storage.get_block_info(id), Ok(None));
    let info = BlockInfo::new(id, vec![HashValue { w0: 5, w1: 9, w2: 2, w3: 6 }], 1, 1);
    storage.save_block_info(info.clone());
    assert_eq!(storage.get_block_info(id), Ok(Some(info.clone())));
    assert_eq!(BlockInfo::decode(&info.encode()), Some(info.clone()));
    let mut bad = info.encode();
    bad.push(0);
    assert_eq!(BlockInfo::decode(&bad), None);
}
