use crate::block::{header_id, Block, BlockHeader, BlockHeaderView};
use crate::block_store::{sons_after_put, BlockStore, StoreError};
use crate::hash::{hash_lt, HashValue};
use vstd::prelude::*;

verus! {

/// What checking and executing a block against its parent state gave. The consensus check and
/// the executor run outside this library; their outcome is handed in.
#[derive(Debug, Clone, Copy, PartialEq, Eq, Structural)]
pub enum BlockVerdict {
    /// Consensus rejected the header.
    HeaderRejected,
    /// The executor rejected a transaction.
    ExecutionFailed,
    /// The transactions ran; these are the roots they produced.
    Executed { state_root: HashValue, accumulator_root: HashValue },
}

/// Why a block was not applied.
#[derive(Debug, Clone, Copy, PartialEq, Eq, Structural)]
pub enum ApplyError {
    /// The block's parent is not the branch's head.
    NotOnBranch,
    /// Consensus rejected the header.
    InvalidHeader,
    /// The executor rejected a transaction.
    ExecutionFailed,
    /// The executed state root differs from the header's.
    StateRootMismatch,
    /// The executed accumulator root differs from the header's.
    AccumulatorRootMismatch,
    /// The block's parent is not in the store.
    UnknownParent,
    /// The store failed.
    Store(StoreError),
}

/// What `apply` decides for a block on a branch whose head has id `head_id`.
pub open spec fn apply_outcome(head_id: HashValue, h: BlockHeaderView, verdict: BlockVerdict) -> Result<
    (),
    ApplyError,
> {
    if h.parent_hash != head_id {
        Err(ApplyError::NotOnBranch)
    } else {
        match verdict {
            BlockVerdict::HeaderRejected => Err(ApplyError::InvalidHeader),
            BlockVerdict::ExecutionFailed => Err(ApplyError::ExecutionFailed),
            BlockVerdict::Executed { state_root, accumulator_root } => if state_root
                != h.state_root {
                Err(ApplyError::StateRootMismatch)
            } else if accumulator_root != h.accumulator_root {
                Err(ApplyError::AccumulatorRootMismatch)
            } else {
                Ok(())
            },
        }
    }
}

/// One branch: a view of the chain ending at `head`.
pub struct BlockChain {
    head: BlockHeader,
    head_id: HashValue,
}

impl BlockChain {
    /// The id is the head header's id.
    pub closed spec fn wf(&self) -> bool {
        self.head_id == header_id(self.head@)
    }

    /// The branch's head header.
    pub closed spec fn head_view(&self) -> BlockHeaderView {
        self.head@
    }

    /// The id of the branch's head.
    pub open spec fn spec_head_id(&self) -> HashValue {
        header_id(self.head_view())
    }

    /// A branch ending at `head`.
    pub fn new(head: BlockHeader) -> (r: BlockChain)
        ensures
            r.wf(),
            r.head_view() == head@,
    {
        let head_id = head.id();
        BlockChain { head, head_id }
    }

    /// The header at the branch's head.
    pub fn current_header(&self) -> (r: BlockHeader)
        ensures
            r@ == self.head_view(),
    {
        self.head.duplicate()
    }

    /// The id of the header at the branch's head.
    pub fn head_id(&self) -> (r: HashValue)
        requires
            self.wf(),
        ensures
            r == self.spec_head_id(),
    {
        self.head_id
    }

    /// Total difficulty at the branch's head.
    pub fn total_difficulty(&self) -> (r: crate::u256::U256)
        ensures
            r == self.head_view().total_difficult,
    {
        self.head.total_difficult
    }

    /// Applies a block whose parent is this branch's head: with a good verdict and matching
    /// roots the block is committed to the store and becomes the head; otherwise nothing changes.
    pub fn apply(&mut self, store: &mut BlockStore, block: Block, verdict: BlockVerdict) -> (r:
        Result<(), ApplyError>)
        requires
            old(self).wf(),
            old(store).wf(),
        ensures
            r == apply_outcome(old(self).spec_head_id(), block.header@, verdict),
            r is Ok ==> {
                &&& final(self).wf()
                &&& final(self).head_view() == block.header@
                &&& final(store).wf()
                &&& final(store).headers() == old(store).headers().insert(
                    header_id(block.header@),
                    block.header@,
                )
                &&& final(store).sons() == sons_after_put(
                    old(store).sons(),
                    block.header.parent_hash,
                    header_id(block.header@),
                )
                &&& final(store).numbers() == old(store).numbers().insert(
                    block.header.number,
                    header_id(block.header@),
                )
                &&& final(store).bodies() == old(store).bodies().insert(
                    header_id(block.header@),
                    block.body@,
                )
                &&& final(store).blocks() == old(store).blocks().insert(
                    header_id(block.header@),
                    block@,
                )
            },
            r is Err ==> *final(self) == *old(self) && *final(store) == *old(store),
    {
        if block.header.parent_hash != self.head_id {
            return Err(ApplyError::NotOnBranch);
        }
        match verdict {
            BlockVerdict::HeaderRejected => {
                return Err(ApplyError::InvalidHeader);
            },
            BlockVerdict::ExecutionFailed => {
                return Err(ApplyError::ExecutionFailed);
            },
            BlockVerdict::Executed { state_root, accumulator_root } => {
                if state_root != block.header.state_root {
                    return Err(ApplyError::StateRootMismatch);
                }
                if accumulator_root != block.header.accumulator_root {
                    return Err(ApplyError::AccumulatorRootMismatch);
                }
            },
        }
        let new_head = block.header.duplicate();
        let new_id = block.header.id();
        store.commit_block(block);
        self.head = new_head;
        self.head_id = new_id;
        Ok(())
    }
}

/// The order in which branches compete: the greater total difficulty wins; between equal
/// difficulties the head whose id orders later by its bytes wins, so the choice never depends on
/// the order in which branches were seen.
pub open spec fn heavier(a: BlockHeaderView, b: BlockHeaderView) -> bool {
    a.total_difficult.value() > b.total_difficult.value() || (a.total_difficult.value()
        == b.total_difficult.value() && hash_lt(header_id(b), header_id(a)))
}

} // verus!
