use chain_core::account_address::AccountAddress;
use chain_core::block::{Block, BlockBody, BlockHeader};
use chain_core::block_store::BlockStore;
use chain_core::chain::{ApplyError, BlockChain, BlockVerdict};
use chain_core::chain_service::{ChainServiceImpl, ForkTarget};
use chain_core::hash::HashValue;
use chain_core::u256::U256;

fn child(parent: &BlockHeader, tag: u64, total: u64) -> Block {
    let header = BlockHeader::new(
        parent.id(),
        tag,
        parent.number() + 1,
        AccountAddress::new([2u8; 16]),
        HashValue { w0: tag, w1: 1, w2: 0, w3: 0 },
        HashValue { w0: tag, w1: 2, w2: 0, w3: 0 },
        0,
        1000,
        U256::from_u64(1),
        U256::from_u64(total),
        vec![],
    );
    Block::new(header, BlockBody::empty())
}

fn good(block: &Block) -> BlockVerdict {
    BlockVerdict::Executed {
        state_root: block.header.state_root(),
        accumulator_root: block.header.accumulator_root(),
    }
}

fn service() -> (ChainServiceImpl, BlockHeader) {
    let zero = HashValue::zero();
    let genesis = Block::genesis_block(zero, zero, vec![]);
    let g = genesis.header.clone();
    let svc = ChainServiceImpl::new(BlockStore::new(), genesis).unwrap();
    (svc, g)
}

#[test]
fn starts_at_genesis() {
    let (svc, g) = service();
    assert_eq!(svc.current_header(), g);
    assert_eq!(svc.branches_len(), 0);
    assert_eq!(svc.get_header(g.id()).unwrap(), Some(g));
}

#[test]
fn extends_head() {
    let (mut svc, g) = service();
    let b1 = child(&g, 1, 1);
    assert_eq!(svc.try_connect(b1.clone(), good(&b1)), Ok(()));
    assert_eq!(svc.current_header(), b1.header);
    assert_eq!(svc.get_block(b1.header.id()).unwrap(), Some(b1));
}

#[test]
fn heavier_fork_becomes_head() {
    let (mut svc, g) = service();
    let a1 = child(&g, 1, 1);
    svc.try_connect(a1.clone(), good(&a1)).unwrap();
    // A second child of genesis with more total difficulty forks and wins.
    let b1 = child(&g, 2, 5);
    assert!(matches!(svc.find_or_fork(&b1.header), Ok(ForkTarget::Fork(_))));
    svc.try_connect(b1.clone(), good(&b1)).unwrap();
    assert_eq!(svc.current_header(), b1.header);
    assert_eq!(svc.branches_len(), 1);
    // Extending the demoted branch past the head makes it the head again.
    let a2 = child(&a1.header, 3, 9);
    assert!(matches!(svc.find_or_fork(&a2.header), Ok(ForkTarget::Branch(0))));
    svc.try_connect(a2.clone(), good(&a2)).unwrap();
    assert_eq!(svc.current_header(), a2.header);
    assert_eq!(svc.branches_len(), 1);
}

#[test]
fn lighter_fork_stays_a_branch() {
    let (mut svc, g) = service();
    let a1 = child(&g, 1, 10);
    svc.try_connect(a1.clone(), good(&a1)).unwrap();
    let b1 = child(&g, 2, 3);
    svc.try_connect(b1.clone(), good(&b1)).unwrap();
    assert_eq!(svc.current_header(), a1.header);
    assert_eq!(svc.branches_len(), 1);
}

#[test]
fn rejected_blocks_change_nothing() {
    let (mut svc, g) = service();
    let b1 = child(&g, 1, 1);
    assert_eq!(svc.try_connect(b1.clone(), BlockVerdict::HeaderRejected), Err(ApplyError::InvalidHeader));
    assert_eq!(svc.try_connect(b1.clone(), BlockVerdict::ExecutionFailed), Err(ApplyError::ExecutionFailed));
    let wrong_state = BlockVerdict::Executed {
        state_root: HashValue::zero(),
        accumulator_root: b1.header.accumulator_root(),
    };
    assert_eq!(svc.try_connect(b1.clone(), wrong_state), Err(ApplyError::StateRootMismatch));
    let wrong_acc = BlockVerdict::Executed {
        state_root: b1.header.state_root(),
        accumulator_root: HashValue::zero(),
    };
    assert_eq!(svc.try_connect(b1.clone(), wrong_acc), Err(ApplyError::AccumulatorRootMismatch));
    assert_eq!(svc.current_header(), g);
    assert_eq!(svc.get_header(b1.header.id()).unwrap(), None);
    let orphan = child(&b1.header, 2, 2);
    assert_eq!(svc.try_connect(orphan.clone(), good(&orphan)), Err(ApplyError::UnknownParent));
}

#[test]
fn apply_checks_the_parent() {
    let zero = HashValue::zero();
    let genesis = Block::genesis_block(zero, zero, vec![]);
    let mut store = BlockStore::new();
    store.commit_block(genesis.clone());
    let mut chain = BlockChain::new(genesis.header.clone());
    let b1 = child(&genesis.header, 1, 1);
    let b2 = child(&b1.header, 2, 2);
    assert_eq!(chain.apply(&mut store, b2.clone(), good(&b2)), Err(ApplyError::NotOnBranch));
    assert_eq!(chain.apply(&mut store, b1.clone(), good(&b1)), Ok(()));
    assert_eq!(chain.current_header(), b1.header);
    assert_eq!(chain.head_id(), b1.header.id());
}

#[test]
fn reader_lookups() {
    let (mut svc, g) = service();
    let b1 = child(&g, 1, 1);
    svc.try_connect(b1.clone(), good(&b1)).unwrap();
    assert_eq!(svc.head_block().unwrap(), Some(b1.clone()));
    assert_eq!(svc.get_header_by_number(1).unwrap(), Some(b1.header.clone()));
    assert_eq!(svc.get_block_by_number(0).unwrap().unwrap().header, g);
    assert!(svc.get_header_by_number(5).is_err());
    assert_eq!(chain_core::block::header_ids(&vec![g.clone(), b1.header.clone()]), vec![g.id(), b1.header.id()]);
}
