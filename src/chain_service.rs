use crate::block::{header_id, Block, BlockHeader, BlockHeaderView};
use crate::block_store::{sons_after_put, BlockStore, StoreError};
use crate::chain::{apply_outcome, heavier, ApplyError, BlockChain, BlockVerdict};
use crate::hash::HashValue;
use vstd::prelude::*;

verus! {

/// Where a new block goes.
pub enum ForkTarget {
    /// On the head chain.
    Head,
    /// On the branch at this index.
    Branch(usize),
    /// On a new branch whose head is the block's parent.
    Fork(BlockChain),
}

/// `heavier` never holds both ways.
pub proof fn lemma_heavier_asymmetric(a: BlockHeaderView, b: BlockHeaderView)
    ensures
        !(heavier(a, b) && heavier(b, a)),
{
}

/// `heavier` is transitive.
pub proof fn lemma_heavier_transitive(a: BlockHeaderView, b: BlockHeaderView, c: BlockHeaderView)
    requires
        heavier(a, b),
        heavier(b, c),
    ensures
        heavier(a, c),
{
}

/// The canonical head chain, the candidate branches, and the store they share. No branch is
/// `heavier` than the head.
pub struct ChainServiceImpl {
    head: BlockChain,
    branches: Vec<BlockChain>,
    storage: BlockStore,
}

impl ChainServiceImpl {
    /// Every chain and the store are well formed.
    pub closed spec fn parts_wf(&self) -> bool {
        &&& self.head.wf()
        &&& self.storage.wf()
        &&& forall|i: int| 0 <= i < self.branches@.len() ==> (#[trigger] self.branches@[i]).wf()
    }

    /// Every chain is well formed, and no branch is heavier than the head.
    pub closed spec fn wf(&self) -> bool {
        &&& self.parts_wf()
        &&& forall|i: int|
            0 <= i < self.branches@.len() ==> !heavier(
                (#[trigger] self.branches@[i]).head_view(),
                self.head.head_view(),
            )
    }

    /// The head chain's current header.
    pub closed spec fn head_view(&self) -> BlockHeaderView {
        self.head.head_view()
    }

    /// The current headers of the branches, in order.
    pub closed spec fn branch_views(&self) -> Seq<BlockHeaderView> {
        self.branches@.map_values(|c: BlockChain| c.head_view())
    }

    /// The shared store.
    pub closed spec fn store(&self) -> BlockStore {
        self.storage
    }

    /// Starts from the store's latest header (an error if the number index names a header the
    /// store lacks), or commits `genesis` to an empty store and starts
    /// from it.
    pub fn new(storage: BlockStore, genesis: Block) -> (r: Result<ChainServiceImpl, ApplyError>)
        requires
            storage.wf(),
        ensures
            r is Ok ==> r->Ok_0.wf() && r->Ok_0.branch_views().len() == 0,
            storage.number_count() == 0 ==> r is Ok && r->Ok_0.head_view() == genesis.header@,
            storage.number_count() > 0 && storage.numbers().contains_key(
                (storage.number_count() - 1) as u64,
            ) && storage.headers().contains_key(
                storage.numbers()[(storage.number_count() - 1) as u64],
            ) ==> r is Ok && r->Ok_0.head_view() == storage.headers()[storage.numbers()[(
            storage.number_count() - 1) as u64]],
            storage.number_count() > 0 && !storage.numbers().contains_key(
                (storage.number_count() - 1) as u64,
            ) ==> r == Err::<ChainServiceImpl, ApplyError>(ApplyError::Store(StoreError::MissingNumber)),
            storage.number_count() > 0 && storage.numbers().contains_key(
                (storage.number_count() - 1) as u64,
            ) && !storage.headers().contains_key(
                storage.numbers()[(storage.number_count() - 1) as u64],
            ) ==> r == Err::<ChainServiceImpl, ApplyError>(ApplyError::Store(StoreError::MissingHeader)),
    {
        let mut storage = storage;
        let head = match storage.get_latest_block_header() {
            Ok(Some(h)) => BlockChain::new(h),
            Ok(None) => {
                if storage.number_count_exec() != 0 {
                    return Err(ApplyError::Store(StoreError::MissingHeader));
                }
                let h = genesis.header.duplicate();
                storage.commit_block(genesis);
                BlockChain::new(h)
            },
            Err(e) => {
                return Err(ApplyError::Store(e));
            },
        };
        let r = ChainServiceImpl { head, branches: Vec::new(), storage };
        assert(r.branch_views() =~= Seq::<BlockHeaderView>::empty());
        Ok(r)
    }

    /// Finds the chain whose head is `header`'s parent, or forks a new one at the parent.
    pub fn find_or_fork(&self, header: &BlockHeader) -> (r: Result<ForkTarget, ApplyError>)
        requires
            self.wf(),
        ensures
            r matches Ok(ForkTarget::Head) ==> header_id(self.head_view()) == header.parent_hash,
            r matches Ok(ForkTarget::Branch(_)) ==> header_id(self.head_view()) != header.parent_hash,
            r matches Ok(ForkTarget::Branch(k)) ==> k < self.branch_views().len(),
            r matches Ok(ForkTarget::Branch(k)) ==> header_id(self.branch_views()[k as int])
                == header.parent_hash,
            r matches Ok(ForkTarget::Branch(k)) ==> forall|j: int|
                0 <= j < k ==> header_id(#[trigger] self.branch_views()[j]) != header.parent_hash,
            r matches Ok(ForkTarget::Fork(c)) ==> header_id(c.head_view()) == header.parent_hash,
            r matches Ok(ForkTarget::Fork(c)) ==> (c.wf() && self.store().headers().contains_key(
                header.parent_hash,
            ) && c.head_view() == self.store().headers()[header.parent_hash]),
            (r matches Ok(ForkTarget::Fork(_)) || r is Err) ==> (header_id(self.head_view())
                != header.parent_hash && forall|j: int|
                0 <= j < self.branch_views().len() ==> header_id(#[trigger] self.branch_views()[j])
                    != header.parent_hash),
            r is Err ==> (!self.store().headers().contains_key(header.parent_hash) && r->Err_0
                == ApplyError::UnknownParent),
    {
        let parent = header.parent_hash;
        if self.head.head_id() == parent {
            return Ok(ForkTarget::Head);
        }
        let mut i: usize = 0;
        while i < self.branches.len()
            invariant
                self.wf(),
                self.head.spec_head_id() != parent,
                parent == header.parent_hash,
                i <= self.branches@.len(),
                forall|j: int| 0 <= j < i ==> (#[trigger] self.branches@[j]).spec_head_id() != parent,
            decreases self.branches@.len() - i,
        {
            if self.branches[i].head_id() == parent {
                assert(self.branch_views().len() == self.branches@.len());
                assert(self.branch_views()[i as int] == self.branches@[i as int].head_view());
                assert(self.head.spec_head_id() != parent);
                assert(self.branches@[i as int].wf());
                assert(header_id(self.branch_views()[i as int]) == parent);
                assert forall|j: int| 0 <= j < i implies header_id(
                    #[trigger] self.branch_views()[j],
                ) != parent by {
                    assert(self.branch_views()[j] == self.branches@[j].head_view());
                }
                return Ok(ForkTarget::Branch(i));
            }
            i += 1;
        }
        assert forall|j: int| 0 <= j < self.branch_views().len() implies header_id(
            #[trigger] self.branch_views()[j],
        ) != parent by {
            assert(self.branch_views()[j] == self.branches@[j].head_view());
        }
        match self.storage.get_block_header_by_hash(parent) {
            Ok(Some(h)) => {
                proof {
                    self.storage.lemma_stored_under_id(parent);
                }
                Ok(ForkTarget::Fork(BlockChain::new(h)))
            },
            Ok(None) => Err(ApplyError::UnknownParent),
            Err(e) => Err(ApplyError::Store(e)),
        }
    }

    /// The head chain's current header.
    pub fn current_header(&self) -> (r: BlockHeader)
        ensures
            r@ == self.head_view(),
    {
        self.head.current_header()
    }

    /// How many candidate branches there are besides the head.
    pub fn branches_len(&self) -> (r: usize)
        ensures
            r == self.branch_views().len(),
    {
        self.branches.len()
    }

    /// The header stored under `hash`.
    pub fn get_header(&self, hash: HashValue) -> (r: Result<Option<BlockHeader>, StoreError>)
        requires
            self.wf(),
        ensures
            r is Ok,
            r->Ok_0 is Some <==> self.store().headers().contains_key(hash),
            r->Ok_0 is Some ==> r->Ok_0->0@ == self.store().headers()[hash],
    {
        self.storage.get_block_header_by_hash(hash)
    }

    /// The block stored under `hash`.
    pub fn get_block(&self, hash: HashValue) -> (r: Result<Option<Block>, StoreError>)
        requires
            self.wf(),
        ensures
            r is Ok,
            r->Ok_0 is Some <==> self.store().blocks().contains_key(hash),
            r->Ok_0 is Some ==> r->Ok_0->0@ == self.store().blocks()[hash],
    {
        self.storage.get(hash)
    }

    /// The head block.
    pub fn head_block(&self) -> (r: Result<Option<Block>, StoreError>)
        requires
            self.wf(),
        ensures
            r is Ok,
            r->Ok_0 is Some <==> self.store().blocks().contains_key(header_id(self.head_view())),
            r->Ok_0 is Some ==> r->Ok_0->0@ == self.store().blocks()[header_id(self.head_view())],
    {
        self.storage.get(self.head.head_id())
    }

    /// The header recorded for `number`; a number with no entry is an error.
    pub fn get_header_by_number(&self, number: u64) -> (r: Result<Option<BlockHeader>, StoreError>)
        requires
            self.wf(),
        ensures
            r is Ok <==> self.store().numbers().contains_key(number),
            r is Err ==> r->Err_0 == StoreError::MissingNumber,
            r is Ok ==> (r->Ok_0 is Some <==> self.store().headers().contains_key(
                self.store().numbers()[number],
            )),
            r is Ok && r->Ok_0 is Some ==> r->Ok_0->0@ == self.store().headers()[self.store().numbers()[number]],
    {
        self.storage.get_block_header_by_number(number)
    }

    /// The block recorded for `number`, if any.
    pub fn get_block_by_number(&self, number: u64) -> (r: Result<Option<Block>, StoreError>)
        requires
            self.wf(),
        ensures
            r is Ok,
            r->Ok_0 is Some <==> (self.store().numbers().contains_key(number)
                && self.store().blocks().contains_key(self.store().numbers()[number])),
            r->Ok_0 is Some ==> r->Ok_0->0@ == self.store().blocks()[self.store().numbers()[number]],
    {
        self.storage.get_block_by_number(number)
    }

    /// Whether chain `a` is heavier than chain `b`.
    fn is_heavier(a: &BlockChain, b: &BlockChain) -> (r: bool)
        requires
            a.wf(),
            b.wf(),
        ensures
            r == heavier(a.head_view(), b.head_view()),
    {
        let ta = a.total_difficulty();
        let tb = b.total_difficulty();
        tb.lt(&ta) || (!ta.lt(&tb) && b.head_id().lt(&a.head_id()))
    }

    /// Makes the heaviest chain the head: the heaviest branch, if it is heavier than the head,
    /// swaps places with it.
    pub fn select_head(&mut self)
        requires
            old(self).parts_wf(),
        ensures
            final(self).wf(),
            final(self).store() == old(self).store(),
            (forall|i: int|
                0 <= i < old(self).branch_views().len() ==> !heavier(
                    #[trigger] old(self).branch_views()[i],
                    old(self).head_view(),
                )) ==> *final(self) == *old(self),
            head_selected(
                old(self).head_view(),
                old(self).branch_views(),
                final(self).head_view(),
                final(self).branch_views(),
            ),
    {
        let ghost before = *self;
        let mut best: usize = 0;
        let mut found = false;
        let mut i: usize = 0;
        while i < self.branches.len()
            invariant
                *self == before,
                self.head.wf(),
                forall|k: int| 0 <= k < self.branches@.len() ==> (#[trigger] self.branches@[k]).wf(),
                i <= self.branches@.len(),
                found ==> best < i,
                found ==> heavier(self.branches@[best as int].head_view(), self.head.head_view()),
                forall|j: int|
                    0 <= j < i ==> !heavier(
                        (#[trigger] self.branches@[j]).head_view(),
                        if found {
                            self.branches@[best as int].head_view()
                        } else {
                            self.head.head_view()
                        },
                    ),
            decreases self.branches@.len() - i,
        {
            let cand = if found {
                &self.branches[best]
            } else {
                &self.head
            };
            if Self::is_heavier(&self.branches[i], cand) {
                proof {
                    let nb = self.branches@[i as int].head_view();
                    let ob = if found {
                        self.branches@[best as int].head_view()
                    } else {
                        self.head.head_view()
                    };
                    assert forall|j: int| 0 <= j < i implies !heavier(
                        (#[trigger] self.branches@[j]).head_view(),
                        nb,
                    ) by {
                        if heavier(self.branches@[j].head_view(), nb) {
                            lemma_heavier_transitive(self.branches@[j].head_view(), nb, ob);
                        }
                    }
                    if found {
                        lemma_heavier_transitive(nb, ob, self.head.head_view());
                    }
                }
                best = i;
                found = true;
            }
            i += 1;
        }
        if found {
            let promoted = BlockChain::new(self.branches[best].current_header());
            let demoted = BlockChain::new(self.head.current_header());
            let ghost old_branches = self.branches@;
            let ghost ob = before.head.head_view();
            let ghost nb = old_branches[best as int].head_view();
            self.branches.set(best, demoted);
            self.head = promoted;
            proof {
                assert(before.branch_views()[best as int] == nb);
                lemma_heavier_asymmetric(nb, ob);
                assert forall|j: int| 0 <= j < self.branches@.len() implies !heavier(
                    (#[trigger] self.branches@[j]).head_view(),
                    self.head.head_view(),
                ) by {
                    if j != best {
                        assert(self.branches@[j] == old_branches[j]);
                    }
                }
                assert(self.branch_views() =~= before.branch_views().update(best as int, ob));
                assert(self.head_view() == before.branch_views()[best as int]);
                assert(heavier(before.branch_views()[best as int], before.head_view()));
            }
        } else {
            assert forall|j: int| 0 <= j < self.branches@.len() implies !heavier(
                (#[trigger] self.branches@[j]).head_view(),
                self.head.head_view(),
            ) by {}
            assert forall|j: int| 0 <= j < before.branch_views().len() implies !heavier(
                #[trigger] before.branch_views()[j],
                before.head_view(),
            ) by {
                assert(before.branch_views()[j] == before.branches@[j].head_view());
            }
        }
    }

    /// Connects a block: finds or forks its branch, applies it there, then reselects the head.
    /// A block that is rejected changes nothing.
    pub fn try_connect(&mut self, block: Block, verdict: BlockVerdict) -> (r: Result<(), ApplyError>)
        requires
            old(self).wf(),
        ensures
            final(self).wf(),
            r is Err ==> *final(self) == *old(self),
            parent_known(old(self).head_view(), old(self).branch_views(), old(self).store().headers(), block.header.parent_hash)
                ==> r == apply_outcome(block.header.parent_hash, block.header@, verdict),
            !parent_known(old(self).head_view(), old(self).branch_views(), old(self).store().headers(), block.header.parent_hash)
                ==> r == Err::<(), ApplyError>(ApplyError::UnknownParent),
            r is Ok ==> head_selected(
                chains_after_apply(old(self).head_view(), old(self).branch_views(), block.header@).0,
                chains_after_apply(old(self).head_view(), old(self).branch_views(), block.header@).1,
                final(self).head_view(),
                final(self).branch_views(),
            ),
            r is Ok ==> final(self).store().headers() == old(self).store().headers().insert(
                header_id(block.header@),
                block.header@,
            ),
            r is Ok ==> final(self).store().sons() == sons_after_put(
                old(self).store().sons(),
                block.header.parent_hash,
                header_id(block.header@),
            ),
            r is Ok ==> final(self).store().blocks() == old(self).store().blocks().insert(
                header_id(block.header@),
                block@,
            ),
    {
        let target = match self.find_or_fork(&block.header) {
            Ok(t) => t,
            Err(e) => {
                return Err(e);
            },
        };
        match target {
            ForkTarget::Head => {
                let r = self.head.apply(&mut self.storage, block, verdict);
                if r.is_err() {
                    return r;
                }
            },
            ForkTarget::Branch(i) => {
                let check = Self::check(&self.branches[i], &block.header, verdict);
                if check.is_err() {
                    return check;
                }
                let ghost old_branches = self.branches@;
                let ghost e = block.header@;
                proof {
                    lemma_first_with_id(self.branch_views(), block.header.parent_hash, i as int);
                }
                let mut chain = self.branches.remove(i);
                let _ = chain.apply(&mut self.storage, block, verdict);
                self.branches.insert(i, chain);
                proof {
                    assert(self.branches@ =~= old_branches.update(i as int, self.branches@[i as int]));
                    assert(self.branch_views() =~= old_branches.map_values(
                        |c: BlockChain| c.head_view(),
                    ).update(i as int, e));
                }
            },
            ForkTarget::Fork(chain) => {
                let mut chain = chain;
                let r = chain.apply(&mut self.storage, block, verdict);
                if r.is_err() {
                    return r;
                }
                let ghost old_branches = self.branches@;
                self.branches.push(chain);
                proof {
                    assert(self.branch_views() =~= old_branches.map_values(
                        |c: BlockChain| c.head_view(),
                    ).push(block.header@));
                }
            },
        }
        self.select_head();
        Ok(())
    }

    /// What `apply` would decide for this block on `chain`, without applying it.
    fn check(chain: &BlockChain, header: &BlockHeader, verdict: BlockVerdict) -> (r: Result<
        (),
        ApplyError,
    >)
        requires
            chain.wf(),
        ensures
            r == apply_outcome(chain.spec_head_id(), header@, verdict),
    {
        if header.parent_hash != chain.head_id() {
            return Err(ApplyError::NotOnBranch);
        }
        match verdict {
            BlockVerdict::HeaderRejected => Err(ApplyError::InvalidHeader),
            BlockVerdict::ExecutionFailed => Err(ApplyError::ExecutionFailed),
            BlockVerdict::Executed { state_root, accumulator_root } => {
                if state_root != header.state_root {
                    Err(ApplyError::StateRootMismatch)
                } else if accumulator_root != header.accumulator_root {
                    Err(ApplyError::AccumulatorRootMismatch)
                } else {
                    Ok(())
                }
            },
        }
    }
}

/// The fork-choice step from head `h` and branches `bs` to head `fh` and branches `fbs`: with
/// no branch heavier than `h` nothing moves; otherwise the new head is a branch heavier than `h`,
/// and `h` takes its place among the branches.
pub open spec fn head_selected(
    h: BlockHeaderView,
    bs: Seq<BlockHeaderView>,
    fh: BlockHeaderView,
    fbs: Seq<BlockHeaderView>,
) -> bool {
    &&& (forall|i: int| 0 <= i < bs.len() ==> !heavier(#[trigger] bs[i], h)) ==> fh == h && fbs
        == bs
    &&& (exists|i: int| 0 <= i < bs.len() && heavier(#[trigger] bs[i], h)) ==> exists|i: int|
        0 <= i < bs.len() && fh == #[trigger] bs[i] && heavier(bs[i], h) && fbs == bs.update(i, h)
}

/// The first branch whose head has id `id`.
pub open spec fn first_with_id(bs: Seq<BlockHeaderView>, id: HashValue) -> int {
    choose|i: int|
        0 <= i < bs.len() && header_id(bs[i]) == id && forall|j: int|
            0 <= j < i ==> header_id(#[trigger] bs[j]) != id
}

/// The block's parent is the head, a branch head, or a stored header.
pub open spec fn parent_known(
    h: BlockHeaderView,
    bs: Seq<BlockHeaderView>,
    headers: Map<HashValue, BlockHeaderView>,
    parent: HashValue,
) -> bool {
    header_id(h) == parent || (exists|i: int| 0 <= i < bs.len() && header_id(#[trigger] bs[i]) == parent)
        || headers.contains_key(parent)
}

/// Head and branches once block header `e` has been applied: it extends the head, else the
/// first branch ending at its parent, else it starts a new branch.
pub open spec fn chains_after_apply(
    h: BlockHeaderView,
    bs: Seq<BlockHeaderView>,
    e: BlockHeaderView,
) -> (BlockHeaderView, Seq<BlockHeaderView>) {
    if header_id(h) == e.parent_hash {
        (e, bs)
    } else if exists|i: int| 0 <= i < bs.len() && header_id(#[trigger] bs[i]) == e.parent_hash {
        (h, bs.update(first_with_id(bs, e.parent_hash), e))
    } else {
        (h, bs.push(e))
    }
}

proof fn lemma_first_with_id(bs: Seq<BlockHeaderView>, id: HashValue, k: int)
    requires
        0 <= k < bs.len(),
        header_id(bs[k]) == id,
        forall|j: int| 0 <= j < k ==> header_id(#[trigger] bs[j]) != id,
    ensures
        first_with_id(bs, id) == k,
{
    let c = first_with_id(bs, id);
    if c < k {
        assert(header_id(bs[c]) != id);
    } else if c > k {
        assert(header_id(bs[k]) != id);
    }
}

/// After any sequence of connected blocks, no branch is heavier than the head: in particular
/// no branch has a greater total difficulty.
pub proof fn law_head_is_heaviest(svc: &ChainServiceImpl)
    requires
        svc.wf(),
    ensures
        forall|i: int|
            0 <= i < svc.branch_views().len() ==> (#[trigger] svc.branch_views()[i]).total_difficult.value()
                <= svc.head_view().total_difficult.value(),
{
    assert forall|i: int| 0 <= i < svc.branch_views().len() implies (
    #[trigger] svc.branch_views()[i]).total_difficult.value()
        <= svc.head_view().total_difficult.value() by {
        assert(svc.branch_views()[i] == svc.branches@[i].head_view());
    }
}

} // verus!
