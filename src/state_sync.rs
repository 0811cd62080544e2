use crate::hash::HashValue;
use crate::sync_task::{PeerId, SyncTask};
use vstd::prelude::*;

verus! {

/// A node of the state tree, as the sync reads it: an internal node's children, or a leaf's
/// account storage roots.
pub enum StateNode {
    Null,
    Internal { children: Vec<HashValue> },
    Leaf { storage_roots: Vec<Option<HashValue>> },
}

/// What a state node holds, as values.
pub enum StateNodeView {
    Null,
    Internal(Seq<HashValue>),
    Leaf(Seq<Option<HashValue>>),
}

impl View for StateNode {
    type V = StateNodeView;

    open spec fn view(&self) -> StateNodeView {
        match self {
            StateNode::Null => StateNodeView::Null,
            StateNode::Internal { children } => StateNodeView::Internal(children@),
            StateNode::Leaf { storage_roots } => StateNodeView::Leaf(storage_roots@),
        }
    }
}

impl StateNode {
    /// A copy with the same contents.
    pub fn duplicate(&self) -> (r: StateNode)
        ensures
            r@ == self@,
    {
        match self {
            StateNode::Null => StateNode::Null,
            StateNode::Internal { children } => {
                let mut v: Vec<HashValue> = Vec::new();
                let mut i: usize = 0;
                while i < children.len()
                    invariant
                        i <= children@.len(),
                        v@ == children@.subrange(0, i as int),
                    decreases children@.len() - i,
                {
                    v.push(children[i]);
                    i += 1;
                    assert(v@ =~= children@.subrange(0, i as int));
                }
                assert(v@ =~= children@);
                StateNode::Internal { children: v }
            },
            StateNode::Leaf { storage_roots } => {
                let mut v: Vec<Option<HashValue>> = Vec::new();
                let mut i: usize = 0;
                while i < storage_roots.len()
                    invariant
                        i <= storage_roots@.len(),
                        v@ == storage_roots@.subrange(0, i as int),
                    decreases storage_roots@.len() - i,
                {
                    v.push(storage_roots[i]);
                    i += 1;
                    assert(v@ =~= storage_roots@.subrange(0, i as int));
                }
                assert(v@ =~= storage_roots@);
                StateNode::Leaf { storage_roots: v }
            },
        }
    }
}

/// A node of the accumulator tree.
#[derive(Debug, Clone, Copy, PartialEq, Eq, Structural)]
pub enum AccumulatorNode {
    Empty,
    Leaf { value: HashValue },
    Internal { left: HashValue, right: HashValue },
}

/// The (key, global) pairs a state node leads to: an internal node's children keep the flag; a
/// leaf in the global tree leads to each present storage root other than the placeholder, outside
/// the global tree.
pub open spec fn child_pairs(n: StateNodeView, global: bool, placeholder: HashValue) -> Set<
    (HashValue, bool),
> {
    Set::new(
        |p: (HashValue, bool)|
            match n {
                StateNodeView::Internal(children) => children.contains(p.0) && p.1 == global,
                StateNodeView::Leaf(roots) => global && !p.1 && p.0 != placeholder
                    && roots.contains(Some(p.0)),
                StateNodeView::Null => false,
            },
    )
}

/// The pairs a state node leads to, in the order they are queued: an internal node's children
/// with the same flag; in the global tree a leaf's present storage roots other than the
/// placeholder, outside the global tree.
pub open spec fn child_seq(n: StateNodeView, global: bool, placeholder: HashValue) -> Seq<
    (HashValue, bool),
> {
    match n {
        StateNodeView::Internal(children) => children.map_values(|c: HashValue| (c, global)),
        StateNodeView::Leaf(roots) => if global {
            leaf_children(roots, placeholder)
        } else {
            Seq::empty()
        },
        StateNodeView::Null => Seq::empty(),
    }
}

/// The present storage roots other than the placeholder, in order, outside the global tree.
pub open spec fn leaf_children(roots: Seq<Option<HashValue>>, placeholder: HashValue) -> Seq<
    (HashValue, bool),
>
    decreases roots.len(),
{
    if roots.len() == 0 {
        Seq::empty()
    } else {
        leaf_children(roots.drop_last(), placeholder) + match roots.last() {
            Some(h) => if h != placeholder {
                seq![(h, false)]
            } else {
                Seq::empty()
            },
            None => Seq::empty(),
        }
    }
}

/// Locally stored state nodes, by key. An entry, once stored, does not change.
pub struct StateNodeStore {
    entries: Vec<(HashValue, StateNode)>,
    contents: Ghost<Map<HashValue, StateNodeView>>,
}

/// Keys are unique among `entries`, and `m` holds exactly the entries' views.
pub open spec fn state_entries_wf(entries: Seq<(HashValue, StateNode)>, m: Map<HashValue, StateNodeView>) -> bool {
    &&& forall|i: int, j: int|
        0 <= i < j < entries.len() ==> #[trigger] entries[i].0 != #[trigger] entries[j].0
    &&& forall|i: int|
        0 <= i < entries.len() ==> m.contains_key(#[trigger] entries[i].0) && m[entries[i].0]
            == entries[i].1@
    &&& forall|k: HashValue|
        #[trigger] m.contains_key(k) ==> exists|i: int| 0 <= i < entries.len() && #[trigger] entries[i].0 == k
}

impl StateNodeStore {
    pub closed spec fn wf(&self) -> bool {
        state_entries_wf(self.entries@, self.contents@)
    }

    /// The stored nodes by key.
    pub closed spec fn nodes(&self) -> Map<HashValue, StateNodeView> {
        self.contents@
    }

    pub fn new() -> (r: StateNodeStore)
        ensures
            r.wf(),
            r.nodes() == Map::<HashValue, StateNodeView>::empty(),
    {
        StateNodeStore { entries: Vec::new(), contents: Ghost(Map::empty()) }
    }

    fn find(&self, key: &HashValue) -> (r: Option<usize>)
        requires
            self.wf(),
        ensures
            match r {
                Some(i) => i < self.entries@.len() && self.entries@[i as int].0 == *key
                    && self.nodes().contains_key(*key),
                None => !self.nodes().contains_key(*key),
            },
    {
        let mut i: usize = 0;
        while i < self.entries.len()
            invariant
                self.wf(),
                i <= self.entries@.len(),
                forall|j: int| 0 <= j < i ==> self.entries@[j].0 != *key,
            decreases self.entries@.len() - i,
        {
            if self.entries[i].0 == *key {
                return Some(i);
            }
            i += 1;
        }
        None
    }

    /// Whether a node is stored under `key`.
    pub fn contains(&self, key: &HashValue) -> (r: bool)
        requires
            self.wf(),
        ensures
            r == self.nodes().contains_key(*key),
    {
        self.find(key).is_some()
    }

    /// The node stored under `key`.
    pub fn get(&self, key: &HashValue) -> (r: Option<StateNode>)
        requires
            self.wf(),
        ensures
            r is Some <==> self.nodes().contains_key(*key),
            r is Some ==> r->0@ == self.nodes()[*key],
    {
        match self.find(key) {
            Some(i) => Some(self.entries[i].1.duplicate()),
            None => None,
        }
    }

    /// Stores `node` under `key` unless a node is already there; returns the node now stored.
    pub fn put_if_absent(&mut self, key: HashValue, node: StateNode) -> (r: StateNode)
        requires
            old(self).wf(),
        ensures
            final(self).wf(),
            old(self).nodes().contains_key(key) ==> final(self).nodes() == old(self).nodes(),
            !old(self).nodes().contains_key(key) ==> final(self).nodes() == old(self).nodes().insert(
                key,
                node@,
            ),
            final(self).nodes().contains_key(key),
            r@ == final(self).nodes()[key],
    {
        match self.find(&key) {
            Some(i) => self.entries[i].1.duplicate(),
            None => {
                let ghost v = node@;
                let copy = node.duplicate();
                let ghost idx = self.entries@.len() as int;
                self.entries.push((key, node));
                self.contents = Ghost(self.contents@.insert(key, v));
                assert forall|k: HashValue| #[trigger] self.contents@.contains_key(k) implies exists|
                    i: int,
                | 0 <= i < self.entries@.len() && #[trigger] self.entries@[i].0 == k by {
                    if k != key {
                        let j = choose|j: int|
                            0 <= j < old(self).entries@.len() && #[trigger] old(self).entries@[j].0 == k;
                        assert(self.entries@[j].0 == k);
                    } else {
                        assert(self.entries@[idx].0 == key);
                    }
                }
                copy
            },
        }
    }
}

/// The roots being synced.
pub struct Roots {
    pub state: HashValue,
    pub accumulator: HashValue,
}

impl Roots {
    pub fn new(state: HashValue, accumulator: HashValue) -> (r: Roots)
        ensures
            r.state == state,
            r.accumulator == accumulator,
    {
        Roots { state, accumulator }
    }
}

/// Which tree an event is about.
#[derive(Debug, Clone, Copy, PartialEq, Eq, Structural)]
pub enum TaskType {
    State,
    Accumulator,
}

/// A node delivered by a peer (or found locally) for a key that was requested from it. The
/// network side checks that the node's own hash is the key and delivers `None` otherwise.
pub struct StateSyncTaskEvent {
    pub peer_id: PeerId,
    pub node_key: HashValue,
    pub state_node: Option<StateNode>,
    pub accumulator_node: Option<AccumulatorNode>,
    pub task_type: TaskType,
}

impl StateSyncTaskEvent {
    pub fn new_state(peer_id: PeerId, node_key: HashValue, state_node: Option<StateNode>) -> (r:
        StateSyncTaskEvent)
        ensures
            r.peer_id == peer_id,
            r.node_key == node_key,
            r.state_node == state_node,
            r.accumulator_node is None,
            r.task_type == TaskType::State,
    {
        StateSyncTaskEvent {
            peer_id,
            node_key,
            state_node,
            accumulator_node: None,
            task_type: TaskType::State,
        }
    }

    pub fn new_accumulator(
        peer_id: PeerId,
        node_key: HashValue,
        accumulator_node: Option<AccumulatorNode>,
    ) -> (r: StateSyncTaskEvent)
        ensures
            r.peer_id == peer_id,
            r.node_key == node_key,
            r.state_node is None,
            r.accumulator_node == accumulator_node,
            r.task_type == TaskType::Accumulator,
    {
        StateSyncTaskEvent {
            peer_id,
            node_key,
            state_node: None,
            accumulator_node,
            task_type: TaskType::Accumulator,
        }
    }

    pub fn is_state(&self) -> (r: bool)
        ensures
            r == (self.task_type == TaskType::State),
    {
        self.task_type == TaskType::State
    }
}

/// What one dispatch step did; the caller carries out a `Fetch`.
#[derive(Debug, Clone, Copy, PartialEq, Eq, Structural)]
pub enum SyncStep {
    /// Nothing was waiting.
    Idle,
    /// The node was already stored locally and was processed at once.
    Local { key: HashValue },
    /// The node should be requested from this peer.
    Fetch { peer: PeerId, key: HashValue },
    /// No other peer is available, or the best peer is busy; the key went back in the queue.
    Requeued { key: HashValue },
}

/// A state-tree pair is waiting, requested from some peer, or already processed.
pub open spec fn covered(
    done: Set<(HashValue, bool)>,
    pending: Seq<(HashValue, bool)>,
    in_flight: Map<PeerId, (HashValue, bool)>,
    p: (HashValue, bool),
) -> bool {
    done.contains(p) || pending.contains(p) || exists|peer: PeerId|
        #[trigger] in_flight.contains_key(peer) && in_flight[peer] == p
}

/// Every pair of `src` is stored, and what it leads to is covered by `done`, `pending` and
/// `in_flight`.
pub open spec fn children_covered(
    nodes: Map<HashValue, StateNodeView>,
    placeholder: HashValue,
    src: Set<(HashValue, bool)>,
    done: Set<(HashValue, bool)>,
    pending: Seq<(HashValue, bool)>,
    in_flight: Map<PeerId, (HashValue, bool)>,
) -> bool {
    forall|p: (HashValue, bool)| #[trigger]
        src.contains(p) ==> nodes.contains_key(p.0) && forall|c: (HashValue, bool)|
            #[trigger] child_pairs(nodes[p.0], p.1, placeholder).contains(c) ==> covered(
                done,
                pending,
                in_flight,
                c,
            )
}

/// Every processed pair is stored, and what it leads to is covered.
pub open spec fn closed_under_children(
    nodes: Map<HashValue, StateNodeView>,
    placeholder: HashValue,
    done: Set<(HashValue, bool)>,
    pending: Seq<(HashValue, bool)>,
    in_flight: Map<PeerId, (HashValue, bool)>,
) -> bool {
    children_covered(nodes, placeholder, done, done, pending, in_flight)
}

/// Coverage carries over to any state that covers at least as much.
proof fn lemma_cover_transfer(
    nodes: Map<HashValue, StateNodeView>,
    ph: HashValue,
    src: Set<(HashValue, bool)>,
    d1: Set<(HashValue, bool)>,
    p1: Seq<(HashValue, bool)>,
    f1: Map<PeerId, (HashValue, bool)>,
    d2: Set<(HashValue, bool)>,
    p2: Seq<(HashValue, bool)>,
    f2: Map<PeerId, (HashValue, bool)>,
)
    requires
        children_covered(nodes, ph, src, d1, p1, f1),
        forall|c: (HashValue, bool)| covered(d1, p1, f1, c) ==> covered(d2, p2, f2, c),
    ensures
        children_covered(nodes, ph, src, d2, p2, f2),
{
    assert forall|q: (HashValue, bool)| #[trigger] src.contains(q) implies nodes.contains_key(q.0)
        && forall|c: (HashValue, bool)|
        #[trigger] child_pairs(nodes[q.0], q.1, ph).contains(c) ==> covered(d2, p2, f2, c) by {
        assert forall|c: (HashValue, bool)| #[trigger]
            child_pairs(nodes[q.0], q.1, ph).contains(c) implies covered(d2, p2, f2, c) by {
            assert(covered(d1, p1, f1, c));
        }
    }
}

/// Storing more nodes keeps coverage, as long as stored nodes do not change.
proof fn lemma_cover_nodes_grow(
    n1: Map<HashValue, StateNodeView>,
    n2: Map<HashValue, StateNodeView>,
    ph: HashValue,
    src: Set<(HashValue, bool)>,
    d: Set<(HashValue, bool)>,
    p: Seq<(HashValue, bool)>,
    f: Map<PeerId, (HashValue, bool)>,
)
    requires
        children_covered(n1, ph, src, d, p, f),
        forall|k: HashValue| n1.contains_key(k) ==> n2.contains_key(k) && n2[k] == n1[k],
    ensures
        children_covered(n2, ph, src, d, p, f),
{
    assert forall|q: (HashValue, bool)| #[trigger] src.contains(q) implies n2.contains_key(q.0)
        && forall|c: (HashValue, bool)|
        #[trigger] child_pairs(n2[q.0], q.1, ph).contains(c) ==> covered(d, p, f, c) by {
        assert(n1.contains_key(q.0));
        assert(n2[q.0] == n1[q.0]);
    }
}

/// A path down the stored state tree: each pair is stored and leads to the next.
pub open spec fn state_path(
    nodes: Map<HashValue, StateNodeView>,
    placeholder: HashValue,
    path: Seq<(HashValue, bool)>,
) -> bool {
    forall|i: int|
        0 <= i < path.len() - 1 ==> nodes.contains_key(#[trigger] path[i].0) && child_pairs(
            nodes[path[i].0],
            path[i].1,
            placeholder,
        ).contains(path[i + 1])
}

/// Syncs the state tree (and the accumulator tree) from given roots, node by node.
pub struct StateSyncTaskActor {
    self_peer_id: PeerId,
    roots: Roots,
    state_nodes: StateNodeStore,
    accumulator_nodes: Vec<(HashValue, AccumulatorNode)>,
    state_sync_task: SyncTask<(HashValue, bool)>,
    accumulator_sync_task: SyncTask<HashValue>,
    sparse_placeholder: HashValue,
    accumulator_placeholder: HashValue,
    done: Ghost<Set<(HashValue, bool)>>,
}

impl StateSyncTaskActor {
    pub closed spec fn wf(&self) -> bool {
        &&& self.state_nodes.wf()
        &&& self.state_sync_task.wf()
        &&& self.accumulator_sync_task.wf()
        &&& closed_under_children(
            self.state_nodes.nodes(),
            self.sparse_placeholder,
            self.done@,
            self.state_sync_task.pending(),
            self.state_sync_task.in_flight(),
        )
        &&& covered(
            self.done@,
            self.state_sync_task.pending(),
            self.state_sync_task.in_flight(),
            (self.roots.state, true),
        )
    }

    /// The stored state nodes.
    pub closed spec fn nodes(&self) -> Map<HashValue, StateNodeView> {
        self.state_nodes.nodes()
    }

    /// State-tree work waiting.
    pub closed spec fn pending(&self) -> Seq<(HashValue, bool)> {
        self.state_sync_task.pending()
    }

    /// State-tree work requested from peers.
    pub closed spec fn in_flight(&self) -> Map<PeerId, (HashValue, bool)> {
        self.state_sync_task.in_flight()
    }

    /// Accumulator work waiting.
    pub closed spec fn accumulator_pending(&self) -> Seq<HashValue> {
        self.accumulator_sync_task.pending()
    }

    /// The state root being synced.
    pub closed spec fn state_root(&self) -> HashValue {
        self.roots.state
    }

    /// The accumulator root being synced.
    pub closed spec fn accumulator_root(&self) -> HashValue {
        self.roots.accumulator
    }

    /// The hash that marks an absent subtree of the state tree.
    pub closed spec fn placeholder(&self) -> HashValue {
        self.sparse_placeholder
    }

    /// This node's own peer id.
    pub closed spec fn self_peer(&self) -> PeerId {
        self.self_peer_id
    }

    /// A task that syncs towards `root` = (state root, accumulator root), starting from the nodes
    /// already in `state_nodes`.
    pub fn launch(
        self_peer_id: PeerId,
        root: (HashValue, HashValue),
        state_nodes: StateNodeStore,
        sparse_placeholder: HashValue,
        accumulator_placeholder: HashValue,
    ) -> (r: StateSyncTaskActor)
        requires
            state_nodes.wf(),
        ensures
            r.wf(),
            r.nodes() == state_nodes.nodes(),
            r.pending() == seq![(root.0, true)],
            r.in_flight() == Map::<PeerId, (HashValue, bool)>::empty(),
            r.accumulator_pending() == seq![root.1],
            r.state_root() == root.0,
            r.placeholder() == sparse_placeholder,
            r.self_peer() == self_peer_id,
    {
        let roots = Roots::new(root.0, root.1);
        let mut state_sync_task = SyncTask::new();
        state_sync_task.push_back((root.0, true));
        let mut accumulator_sync_task = SyncTask::new();
        accumulator_sync_task.push_back(root.1);
        let r = StateSyncTaskActor {
            self_peer_id,
            roots,
            state_nodes,
            accumulator_nodes: Vec::new(),
            state_sync_task,
            accumulator_sync_task,
            sparse_placeholder,
            accumulator_placeholder,
            done: Ghost(Set::empty()),
        };
        assert(r.state_sync_task.pending()[0] == (root.0, true));
        assert(seq![(root.0, true)] =~= Seq::<(HashValue, bool)>::empty().push((root.0, true)));
        assert(seq![root.1] =~= Seq::<HashValue>::empty().push(root.1));
        r
    }

    /// Whether a state node is stored under `key`.
    pub fn contains_state_node(&self, key: &HashValue) -> (r: bool)
        requires
            self.wf(),
        ensures
            r == self.nodes().contains_key(*key),
    {
        self.state_nodes.contains(key)
    }

    /// The state tree is synced: nothing waits and nothing is requested.
    pub fn sync_end(&self) -> (r: bool)
        requires
            self.wf(),
        ensures
            r == (self.pending().len() == 0 && self.in_flight().dom().len() == 0),
    {
        self.state_sync_task.is_empty()
    }

    /// Marks `(key, global)` processed with `node` stored under `key`, and queues what it leads to.
    fn process_state_node(&mut self, key: HashValue, global: bool, node: &StateNode)
        requires
            old(self).state_nodes.wf(),
            old(self).state_sync_task.wf(),
            old(self).accumulator_sync_task.wf(),
            old(self).state_nodes.nodes().contains_key(key),
            old(self).state_nodes.nodes()[key] == node@,
            children_covered(
                old(self).state_nodes.nodes(),
                old(self).sparse_placeholder,
                old(self).done@,
                old(self).done@.insert((key, global)),
                old(self).state_sync_task.pending(),
                old(self).state_sync_task.in_flight(),
            ),
            covered(
                old(self).done@.insert((key, global)),
                old(self).state_sync_task.pending(),
                old(self).state_sync_task.in_flight(),
                (old(self).roots.state, true),
            ),
        ensures
            final(self).wf(),
            final(self).nodes() == old(self).nodes(),
            final(self).in_flight() == old(self).in_flight(),
            final(self).pending() == old(self).pending() + child_seq(
                node@,
                global,
                old(self).sparse_placeholder,
            ),
            final(self).accumulator_pending() == old(self).accumulator_pending(),
            final(self).accumulator_in_flight() == old(self).accumulator_in_flight(),
            final(self).accumulator_nodes() == old(self).accumulator_nodes(),
            final(self).state_root() == old(self).state_root(),
            final(self).accumulator_root() == old(self).accumulator_root(),
            final(self).placeholder() == old(self).placeholder(),
            final(self).accumulator_placeholder() == old(self).accumulator_placeholder(),
            final(self).self_peer() == old(self).self_peer(),
    {
        let ghost nodes = self.state_nodes.nodes();
        let ghost ph = self.sparse_placeholder;
        let ghost p = (key, global);
        let ghost start = self.state_sync_task.pending();
        let ghost old_done = self.done@;
        self.done = Ghost(self.done@.insert(p));
        let ghost kids = child_pairs(node@, global, ph);
        match node {
            StateNode::Internal { children } => {
                let mut i: usize = 0;
                while i < children.len()
                    invariant
                        self.state_sync_task.wf(),
                        self.done@ == old_done.insert(p),
                        self.state_nodes == old(self).state_nodes,
                        self.sparse_placeholder == old(self).sparse_placeholder,
                        self.roots == old(self).roots,
                        self.accumulator_sync_task == old(self).accumulator_sync_task,
                        self.self_peer_id == old(self).self_peer_id,
                        self.accumulator_nodes == old(self).accumulator_nodes,
                        self.accumulator_placeholder == old(self).accumulator_placeholder,
                        i <= children@.len(),
                        node@ == StateNodeView::Internal(children@),
                        self.state_sync_task.pending() == start + children@.subrange(0, i as int).map_values(
                            |c: HashValue| (c, global),
                        ),
                        start.is_prefix_of(self.state_sync_task.pending()),
                        self.state_sync_task.in_flight() == old(self).state_sync_task.in_flight(),
                        forall|j: int|
                            0 <= j < i ==> self.state_sync_task.pending().contains(
                                (#[trigger] children@[j], global),
                            ),
                    decreases children@.len() - i,
                {
                    let ghost before = self.state_sync_task.pending();
                    self.state_sync_task.push_back((children[i], global));
                    proof {
                        let now = self.state_sync_task.pending();
                        assert(now[before.len() as int] == (children@[i as int], global));
                        assert forall|j: int| 0 <= j <= i implies now.contains(
                            (#[trigger] children@[j], global),
                        ) by {
                            if j < i {
                                let k = choose|k: int|
                                    0 <= k < before.len() && before[k] == (children@[j], global);
                                assert(now[k] == before[k]);
                            }
                        }
                        assert(start.is_prefix_of(now)) by {
                            assert forall|k: int| 0 <= k < start.len() implies start[k] == now[k] by {
                                assert(before[k] == start[k]);
                            }
                        }
                        assert(now =~= start + children@.subrange(0, i + 1).map_values(
                            |c: HashValue| (c, global),
                        ));
                    }
                    i += 1;
                }
                proof {
                    assert(children@.subrange(0, children@.len() as int) =~= children@);
                    assert forall|c: (HashValue, bool)| #[trigger] kids.contains(c) implies self.state_sync_task.pending().contains(c) by {
                        let j = choose|j: int| 0 <= j < children@.len() && children@[j] == c.0;
                        assert(self.state_sync_task.pending().contains((children@[j], global)));
                    }
                }
            },
            StateNode::Leaf { storage_roots } => {
                let mut i: usize = 0;
                while i < storage_roots.len()
                    invariant
                        self.state_sync_task.wf(),
                        self.done@ == old_done.insert(p),
                        self.state_nodes == old(self).state_nodes,
                        self.sparse_placeholder == old(self).sparse_placeholder,
                        self.roots == old(self).roots,
                        self.accumulator_sync_task == old(self).accumulator_sync_task,
                        self.self_peer_id == old(self).self_peer_id,
                        self.accumulator_nodes == old(self).accumulator_nodes,
                        self.accumulator_placeholder == old(self).accumulator_placeholder,
                        i <= storage_roots@.len(),
                        node@ == StateNodeView::Leaf(storage_roots@),
                        ph == self.sparse_placeholder,
                        self.state_sync_task.pending() == start + if global {
                            leaf_children(storage_roots@.subrange(0, i as int), ph)
                        } else {
                            Seq::<(HashValue, bool)>::empty()
                        },
                        start.is_prefix_of(self.state_sync_task.pending()),
                        self.state_sync_task.in_flight() == old(self).state_sync_task.in_flight(),
                        forall|j: int|
                            0 <= j < i && global && (#[trigger] storage_roots@[j]) is Some
                                && storage_roots@[j]->0 != ph ==> self.state_sync_task.pending().contains(
                                (storage_roots@[j]->0, false),
                            ),
                    decreases storage_roots@.len() - i,
                {
                    let ghost prev_pending = self.state_sync_task.pending();
                    proof {
                        let sub = storage_roots@.subrange(0, i + 1);
                        assert(sub.drop_last() =~= storage_roots@.subrange(0, i as int));
                        assert(sub.last() == storage_roots@[i as int]);
                    }
                    if global {
                        if let Some(h) = storage_roots[i] {
                            if h != self.sparse_placeholder {
                                let ghost before = self.state_sync_task.pending();
                                self.state_sync_task.push_back((h, false));
                                proof {
                                    let now = self.state_sync_task.pending();
                                    assert(now[before.len() as int] == (h, false));
                                    assert forall|j: int|
                                        0 <= j <= i && global && (#[trigger] storage_roots@[j]) is Some
                                            && storage_roots@[j]->0 != ph implies now.contains(
                                        (storage_roots@[j]->0, false),
                                    ) by {
                                        if j < i {
                                            let k = choose|k: int|
                                                0 <= k < before.len() && before[k] == (
                                                    storage_roots@[j]->0,
                                                    false,
                                                );
                                            assert(now[k] == before[k]);
                                        }
                                    }
                                    assert(start.is_prefix_of(now)) by {
                                        assert forall|k: int| 0 <= k < start.len() implies start[k]
                                            == now[k] by {
                                            assert(before[k] == start[k]);
                                        }
                                    }
                                }
                            }
                        }
                    }
                    proof {
                        let now = self.state_sync_task.pending();
                        if global {
                            assert(now =~= start + leaf_children(
                                storage_roots@.subrange(0, i + 1),
                                ph,
                            ));
                        } else {
                            assert(now =~= prev_pending);
                        }
                    }
                    i += 1;
                }
                proof {
                    assert(storage_roots@.subrange(0, storage_roots@.len() as int) =~= storage_roots@);
                    assert forall|c: (HashValue, bool)| #[trigger] kids.contains(c) implies self.state_sync_task.pending().contains(c) by {
                        let j = choose|j: int| 0 <= j < storage_roots@.len() && storage_roots@[j] == Some(c.0);
                        assert(storage_roots@[j] is Some);
                    }
                }
            },
            StateNode::Null => {
                assert(self.state_sync_task.pending() =~= start + child_seq(node@, global, ph));
            },
        }
        proof {
            let pend = self.state_sync_task.pending();
            let fl = self.state_sync_task.in_flight();
            let d1 = old_done.insert(p);
            assert forall|q: (HashValue, bool)| covered(d1, start, fl, q) implies covered(
                self.done@,
                pend,
                fl,
                q,
            ) by {
                if start.contains(q) {
                    let k = choose|k: int| 0 <= k < start.len() && start[k] == q;
                    assert(pend[k] == q);
                }
            }
            lemma_cover_transfer(nodes, ph, old_done, d1, start, fl, self.done@, pend, fl);
            assert forall|q: (HashValue, bool)| #[trigger] self.done@.contains(q) implies nodes.contains_key(q.0)
                && forall|c: (HashValue, bool)|
                #[trigger] child_pairs(nodes[q.0], q.1, ph).contains(c) ==> covered(
                    self.done@,
                    pend,
                    fl,
                    c,
                ) by {
                if q != p {
                    assert(old_done.contains(q));
                } else {
                    assert forall|c: (HashValue, bool)| #[trigger]
                        child_pairs(nodes[q.0], q.1, ph).contains(c) implies covered(
                        self.done@,
                        pend,
                        fl,
                        c,
                    ) by {
                        assert(kids.contains(c));
                    }
                }
            }
        }
    }

    /// Takes the next state-tree key and processes it from the local store, asks `best_peer`
    /// for it, or puts it back when no other peer is free.
    pub fn exe_state_sync_task(&mut self, best_peer: Option<PeerId>) -> (r: SyncStep)
        requires
            old(self).wf(),
        ensures
            final(self).wf(),
            final(self).state_root() == old(self).state_root(),
            final(self).placeholder() == old(self).placeholder(),
            final(self).self_peer() == old(self).self_peer(),
            old(self).pending().len() == 0 ==> r == SyncStep::Idle && *final(self) == *old(self),
            r matches SyncStep::Local { key } ==> key == old(self).pending()[0].0
                && old(self).nodes().contains_key(key) && final(self).in_flight() == old(self).in_flight(),
            r matches SyncStep::Local { key } ==> final(self).nodes() == old(self).nodes()
                && final(self).pending() == old(self).pending().drop_first() + child_seq(
                old(self).nodes()[key],
                old(self).pending()[0].1,
                old(self).placeholder(),
            ),
            r matches SyncStep::Fetch { peer, key } ==> key == old(self).pending()[0].0
                && !old(self).nodes().contains_key(key) && best_peer == Some(peer)
                && peer != old(self).self_peer() && !old(self).in_flight().contains_key(peer)
                && final(self).in_flight() == old(self).in_flight().insert(peer, old(self).pending()[0])
                && final(self).pending() == old(self).pending().drop_first(),
            r matches SyncStep::Requeued { key } ==> key == old(self).pending()[0].0
                && !old(self).nodes().contains_key(key) && final(self).pending() == old(self).pending().drop_first().push(old(self).pending()[0]) && final(self).in_flight() == old(self).in_flight(),
            old(self).pending().len() > 0 ==> r != SyncStep::Idle,
            old(self).pending().len() > 0 && !old(self).nodes().contains_key(old(self).pending()[0].0) ==> (
            r is Fetch <==> (best_peer is Some && best_peer->0 != old(self).self_peer()
                && !old(self).in_flight().contains_key(best_peer->0))),
    {
        let ghost before = self.state_sync_task.pending();
        let value = self.state_sync_task.pop_front();
        let (node_key, is_global) = match value {
            None => {
                return SyncStep::Idle;
            },
            Some(v) => v,
        };
        proof {
            let p = (node_key, is_global);
            let fl = self.state_sync_task.in_flight();
            let d = self.done@;
            assert(before[0] == p);
            assert forall|q: (HashValue, bool)| covered(d, before, fl, q) implies covered(
                d.insert(p),
                before.drop_first(),
                fl,
                q,
            ) by {
                if before.contains(q) && q != p {
                    let k = choose|k: int| 0 <= k < before.len() && before[k] == q;
                    assert(k != 0);
                    assert(before.drop_first()[k - 1] == q);
                }
            }
            lemma_cover_transfer(
                self.state_nodes.nodes(),
                self.sparse_placeholder,
                d,
                d,
                before,
                fl,
                d.insert(p),
                before.drop_first(),
                fl,
            );
        }
        match self.state_nodes.get(&node_key) {
            Some(state_node) => {
                self.process_state_node(node_key, is_global, &state_node);
                SyncStep::Local { key: node_key }
            },
            None => {
                let ghost mid = self.state_sync_task.pending();
                match best_peer {
                    Some(peer) => {
                        if peer != self.self_peer_id && self.state_sync_task.get(&peer).is_none() {
                            self.state_sync_task.insert(peer, (node_key, is_global));
                            proof {
                                let fl = self.state_sync_task.in_flight();
                                assert(fl.contains_key(peer) && fl[peer] == (node_key, is_global));
                                assert forall|q: (HashValue, bool)| covered(
                                    self.done@,
                                    mid,
                                    old(self).state_sync_task.in_flight(),
                                    q,
                                ) implies covered(self.done@, mid, fl, q) by {
                                    if exists|pr: PeerId|
                                        #[trigger] old(self).state_sync_task.in_flight().contains_key(pr)
                                            && old(self).state_sync_task.in_flight()[pr] == q {
                                        let pr = choose|pr: PeerId|
                                            #[trigger] old(self).state_sync_task.in_flight().contains_key(pr)
                                                && old(self).state_sync_task.in_flight()[pr] == q;
                                        assert(pr != peer);
                                        assert(fl.contains_key(pr) && fl[pr] == q);
                                    }
                                }
                            }
                            return SyncStep::Fetch { peer, key: node_key };
                        }
                    },
                    None => {},
                }
                self.state_sync_task.push_back((node_key, is_global));
                proof {
                    let now = self.state_sync_task.pending();
                    assert(now[mid.len() as int] == (node_key, is_global));
                    assert forall|q: (HashValue, bool)| covered(
                        self.done@,
                        mid,
                        self.state_sync_task.in_flight(),
                        q,
                    ) implies covered(self.done@, now, self.state_sync_task.in_flight(), q) by {
                        if mid.contains(q) {
                            let k = choose|k: int| 0 <= k < mid.len() && mid[k] == q;
                            assert(now[k] == q);
                        }
                    }
                }
                SyncStep::Requeued { key: node_key }
            },
        }
    }

    /// Takes a state node that `event.peer_id` delivered. A delivery that answers the peer's
    /// request stores the node (unless one is stored already) and queues what it leads to; an
    /// empty delivery puts the key back in the queue; any other event is ignored.
    pub fn handle_state_sync(&mut self, event: StateSyncTaskEvent)
        requires
            old(self).wf(),
        ensures
            final(self).wf(),
            state_event_effect(*old(self), *final(self), event),
    {
        let (key, is_global) = match self.state_sync_task.get(&event.peer_id) {
            Some(v) => v,
            None => {
                return;
            },
        };
        if key != event.node_key {
            return;
        }
        let ghost p = (key, is_global);
        let ghost before_pending = self.state_sync_task.pending();
        let ghost before_flight = self.state_sync_task.in_flight();
        let _ = self.state_sync_task.remove(&event.peer_id);
        proof {
            let fl = self.state_sync_task.in_flight();
            assert forall|q: (HashValue, bool)| covered(self.done@, before_pending, before_flight, q)
                && q != p implies covered(self.done@, before_pending, fl, q) by {
                if !self.done@.contains(q) && !before_pending.contains(q) {
                    let pr = choose|pr: PeerId|
                        #[trigger] before_flight.contains_key(pr) && before_flight[pr] == q;
                    assert(pr != event.peer_id);
                    assert(fl.contains_key(pr) && fl[pr] == q);
                }
            }
        }
        match event.state_node {
            None => {
                self.state_sync_task.push_back((key, is_global));
                proof {
                    let now = self.state_sync_task.pending();
                    assert(now[before_pending.len() as int] == p);
                    assert forall|q: (HashValue, bool)| covered(
                        self.done@,
                        before_pending,
                        self.state_sync_task.in_flight(),
                        q,
                    ) implies covered(self.done@, now, self.state_sync_task.in_flight(), q) by {
                        if before_pending.contains(q) {
                            let k = choose|k: int| 0 <= k < before_pending.len() && before_pending[k] == q;
                            assert(now[k] == q);
                        }
                    }
                }
            },
            Some(state_node) => {
                let stored = self.state_nodes.put_if_absent(key, state_node);
                proof {
                    let nodes = self.state_nodes.nodes();
                    let old_nodes = old(self).state_nodes.nodes();
                    assert forall|q: (HashValue, bool)| #[trigger] self.done@.contains(q) implies nodes.contains_key(q.0)
                        && nodes[q.0] == old_nodes[q.0] by {}
                }
                self.process_state_node(key, is_global, &stored);
            },
        }
    }

    /// Starts over towards new roots: all waiting and requested work of both trees is dropped and
    /// the two new roots are queued. Stored nodes stay.
    pub fn reset(&mut self, state_root: &HashValue, accumulator_root: &HashValue)
        requires
            old(self).wf(),
        ensures
            final(self).wf(),
            final(self).nodes() == old(self).nodes(),
            final(self).pending() == seq![(*state_root, true)],
            final(self).in_flight() == Map::<PeerId, (HashValue, bool)>::empty(),
            final(self).state_root() == *state_root,
            final(self).accumulator_root() == *accumulator_root,
            final(self).accumulator_pending() == seq![*accumulator_root],
            final(self).accumulator_in_flight() == Map::<PeerId, HashValue>::empty(),
            final(self).accumulator_nodes() == old(self).accumulator_nodes(),
            final(self).placeholder() == old(self).placeholder(),
            final(self).accumulator_placeholder() == old(self).accumulator_placeholder(),
            final(self).self_peer() == old(self).self_peer(),
    {
        self.state_sync_task.clear();
        self.accumulator_sync_task.clear();
        self.roots = Roots::new(*state_root, *accumulator_root);
        self.state_sync_task.push_back((*state_root, true));
        self.accumulator_sync_task.push_back(*accumulator_root);
        self.done = Ghost(Set::empty());
        proof {
            assert(self.state_sync_task.pending()[0] == (*state_root, true));
            assert(self.state_sync_task.pending() =~= seq![(*state_root, true)]);
            assert(self.accumulator_sync_task.pending() =~= seq![*accumulator_root]);
        }
    }

    /// The stored accumulator nodes, in the order they were stored.
    pub closed spec fn accumulator_nodes(&self) -> Seq<(HashValue, AccumulatorNode)> {
        self.accumulator_nodes@
    }

    /// Accumulator work requested from peers.
    pub closed spec fn accumulator_in_flight(&self) -> Map<PeerId, HashValue> {
        self.accumulator_sync_task.in_flight()
    }

    /// The accumulator placeholder hash.
    pub closed spec fn accumulator_placeholder(&self) -> HashValue {
        self.accumulator_placeholder
    }

    /// The accumulator node stored under `key`, if any.
    fn get_accumulator_node(&self, key: &HashValue) -> (r: Option<AccumulatorNode>)
        ensures
            r is Some <==> stored_accumulator_node(self.accumulator_nodes(), *key) is Some,
            r is Some ==> r == stored_accumulator_node(self.accumulator_nodes(), *key),
    {
        let mut i: usize = 0;
        while i < self.accumulator_nodes.len()
            invariant
                i <= self.accumulator_nodes@.len(),
                forall|j: int| 0 <= j < i ==> self.accumulator_nodes@[j].0 != *key,
            decreases self.accumulator_nodes@.len() - i,
        {
            if self.accumulator_nodes[i].0 == *key {
                proof {
                    lemma_first_stored(self.accumulator_nodes@, *key, i as int);
                }
                return Some(self.accumulator_nodes[i].1);
            }
            i += 1;
        }
        proof {
            lemma_none_stored(self.accumulator_nodes@, *key);
        }
        None
    }

    /// Queues the accumulator children of `node`.
    fn push_accumulator_children(&mut self, node: AccumulatorNode)
        requires
            old(self).accumulator_sync_task.wf(),
        ensures
            final(self).accumulator_sync_task.wf(),
            final(self).accumulator_pending() == old(self).accumulator_pending() + accumulator_children(
                node,
                old(self).accumulator_placeholder,
            ),
            final(self).accumulator_in_flight() == old(self).accumulator_in_flight(),
            final(self).state_sync_task == old(self).state_sync_task,
            final(self).state_nodes == old(self).state_nodes,
            final(self).done == old(self).done,
            final(self).roots == old(self).roots,
            final(self).sparse_placeholder == old(self).sparse_placeholder,
            final(self).accumulator_placeholder == old(self).accumulator_placeholder,
            final(self).accumulator_nodes == old(self).accumulator_nodes,
            final(self).self_peer_id == old(self).self_peer_id,
    {
        match node {
            AccumulatorNode::Internal { left, right } => {
                if left != self.accumulator_placeholder {
                    self.accumulator_sync_task.push_back(left);
                }
                if right != self.accumulator_placeholder {
                    self.accumulator_sync_task.push_back(right);
                }
                assert(self.accumulator_pending() =~= old(self).accumulator_pending()
                    + accumulator_children(node, self.accumulator_placeholder));
            },
            _ => {
                assert(self.accumulator_pending() =~= old(self).accumulator_pending()
                    + accumulator_children(node, self.accumulator_placeholder));
            },
        }
    }

    /// Takes the next accumulator key and processes it from the local store, asks `best_peer`
    /// for it, or puts it back when no other peer is free.
    pub fn exe_accumulator_sync_task(&mut self, best_peer: Option<PeerId>) -> (r: SyncStep)
        requires
            old(self).wf(),
        ensures
            final(self).wf(),
            final(self).nodes() == old(self).nodes(),
            final(self).pending() == old(self).pending(),
            final(self).in_flight() == old(self).in_flight(),
            final(self).state_root() == old(self).state_root(),
            final(self).placeholder() == old(self).placeholder(),
            final(self).self_peer() == old(self).self_peer(),
            final(self).accumulator_placeholder() == old(self).accumulator_placeholder(),
            old(self).accumulator_pending().len() == 0 ==> r == SyncStep::Idle,
            r matches SyncStep::Local { key } ==> key == old(self).accumulator_pending()[0]
                && stored_accumulator_node(old(self).accumulator_nodes(), key) is Some
                && final(self).accumulator_pending() == old(self).accumulator_pending().drop_first()
                + accumulator_children(
                stored_accumulator_node(old(self).accumulator_nodes(), key)->0,
                old(self).accumulator_placeholder(),
            ),
            r matches SyncStep::Fetch { peer, key } ==> key == old(self).accumulator_pending()[0]
                && best_peer == Some(peer) && peer != old(self).self_peer()
                && !old(self).accumulator_in_flight().contains_key(peer)
                && final(self).accumulator_in_flight() == old(self).accumulator_in_flight().insert(
                peer,
                key,
            ) && final(self).accumulator_pending() == old(self).accumulator_pending().drop_first(),
            r matches SyncStep::Requeued { key } ==> key == old(self).accumulator_pending()[0]
                && final(self).accumulator_pending() == old(self).accumulator_pending().drop_first().push(
                key,
            ),
            old(self).accumulator_pending().len() > 0 ==> r != SyncStep::Idle,
    {
        let node_key = match self.accumulator_sync_task.pop_front() {
            None => {
                return SyncStep::Idle;
            },
            Some(k) => k,
        };
        match self.get_accumulator_node(&node_key) {
            Some(node) => {
                self.push_accumulator_children(node);
                SyncStep::Local { key: node_key }
            },
            None => {
                if let Some(peer) = best_peer {
                    if peer != self.self_peer_id && self.accumulator_sync_task.get(&peer).is_none() {
                        self.accumulator_sync_task.insert(peer, node_key);
                        return SyncStep::Fetch { peer, key: node_key };
                    }
                }
                self.accumulator_sync_task.push_back(node_key);
                SyncStep::Requeued { key: node_key }
            },
        }
    }

    /// Takes an accumulator node that `event.peer_id` delivered, as `handle_state_sync` does for
    /// state nodes.
    pub fn handle_accumulator_sync(&mut self, event: StateSyncTaskEvent)
        requires
            old(self).wf(),
        ensures
            final(self).wf(),
            accumulator_event_effect(*old(self), *final(self), event),
    {
        match self.accumulator_sync_task.get(&event.peer_id) {
            Some(k) => {
                if k != event.node_key {
                    return;
                }
            },
            None => {
                return;
            },
        }
        let key = event.node_key;
        let _ = self.accumulator_sync_task.remove(&event.peer_id);
        match event.accumulator_node {
            None => {
                self.accumulator_sync_task.push_back(key);
            },
            Some(node) => {
                let stored = match self.get_accumulator_node(&key) {
                    Some(n) => n,
                    None => {
                        let ghost before = self.accumulator_nodes@;
                        self.accumulator_nodes.push((key, node));
                        proof {
                            lemma_none_stored(before, key);
                            lemma_first_stored(self.accumulator_nodes@, key, before.len() as int);
                            assert(before.is_prefix_of(self.accumulator_nodes@));
                        }
                        node
                    },
                };
                self.push_accumulator_children(stored);
            },
        }
    }

    /// Takes a delivered node of either tree; returns whether the state-tree sync has ended.
    pub fn handle(&mut self, task_event: StateSyncTaskEvent) -> (r: bool)
        requires
            old(self).wf(),
        ensures
            final(self).wf(),
            task_event.task_type == TaskType::State ==> state_event_effect(
                *old(self),
                *final(self),
                task_event,
            ),
            task_event.task_type == TaskType::Accumulator ==> accumulator_event_effect(
                *old(self),
                *final(self),
                task_event,
            ),
            r == (final(self).pending().len() == 0 && final(self).in_flight().dom().len() == 0),
    {
        if task_event.is_state() {
            self.handle_state_sync(task_event);
        } else {
            self.handle_accumulator_sync(task_event);
        }
        self.sync_end()
    }
}

/// A fetched state node is accepted only when its own hash, `node_hash`, is the key it was asked
/// for; otherwise the delivery counts as failed.
pub fn accept_state_node(key: HashValue, node_hash: HashValue, node: StateNode) -> (r: Option<
    StateNode,
>)
    ensures
        r is Some <==> node_hash == key,
        r is Some ==> r->0@ == node@,
{
    if node_hash == key {
        Some(node)
    } else {
        None
    }
}

/// A fetched accumulator node is accepted only when its own hash is the key it was asked for.
pub fn accept_accumulator_node(key: HashValue, node_hash: HashValue, node: AccumulatorNode) -> (r:
    Option<AccumulatorNode>)
    ensures
        r == (if node_hash == key {
            Some(node)
        } else {
            None
        }),
{
    if node_hash == key {
        Some(node)
    } else {
        None
    }
}

/// What taking a delivered state node does. An event that does not answer the request its peer
/// holds changes nothing. One that does clears that request; an empty delivery queues the pair
/// again; a node is stored under the key unless one is there already, and the pairs the stored node
/// leads to are queued in order. Roots, placeholders, the own peer id, the accumulator side and
/// the nodes already stored are kept.
pub open spec fn state_event_effect(
    o: StateSyncTaskActor,
    f: StateSyncTaskActor,
    e: StateSyncTaskEvent,
) -> bool {
    let answers = o.in_flight().contains_key(e.peer_id) && o.in_flight()[e.peer_id].0 == e.node_key;
    let pair = o.in_flight()[e.peer_id];
    &&& f.state_root() == o.state_root()
    &&& f.accumulator_root() == o.accumulator_root()
    &&& f.placeholder() == o.placeholder()
    &&& f.accumulator_placeholder() == o.accumulator_placeholder()
    &&& f.self_peer() == o.self_peer()
    &&& f.accumulator_pending() == o.accumulator_pending()
    &&& f.accumulator_in_flight() == o.accumulator_in_flight()
    &&& f.accumulator_nodes() == o.accumulator_nodes()
    &&& forall|k: HashValue|
        o.nodes().contains_key(k) ==> f.nodes().contains_key(k) && f.nodes()[k] == o.nodes()[k]
    &&& !answers ==> f == o
    &&& answers ==> f.in_flight() == o.in_flight().remove(e.peer_id)
    &&& answers && e.state_node is None ==> f.pending() == o.pending().push(pair) && f.nodes()
        == o.nodes()
    &&& answers && e.state_node is Some && o.nodes().contains_key(e.node_key) ==> f.nodes()
        == o.nodes()
    &&& answers && e.state_node is Some && !o.nodes().contains_key(e.node_key) ==> f.nodes()
        == o.nodes().insert(e.node_key, e.state_node->0@)
    &&& answers && e.state_node is Some ==> f.pending() == o.pending() + child_seq(
        f.nodes()[e.node_key],
        pair.1,
        o.placeholder(),
    )
}

/// What taking a delivered accumulator node does, as `state_event_effect` for the other tree:
/// an answering delivery clears the request; an empty one queues the key again; a node is stored
/// unless one is stored under the key already, and its children other than the placeholder are
/// queued, left first. The state side is kept.
pub open spec fn accumulator_event_effect(
    o: StateSyncTaskActor,
    f: StateSyncTaskActor,
    e: StateSyncTaskEvent,
) -> bool {
    let answers = o.accumulator_in_flight().get(e.peer_id) == Some(e.node_key);
    &&& f.state_root() == o.state_root()
    &&& f.accumulator_root() == o.accumulator_root()
    &&& f.placeholder() == o.placeholder()
    &&& f.accumulator_placeholder() == o.accumulator_placeholder()
    &&& f.self_peer() == o.self_peer()
    &&& f.nodes() == o.nodes()
    &&& f.pending() == o.pending()
    &&& f.in_flight() == o.in_flight()
    &&& o.accumulator_nodes().is_prefix_of(f.accumulator_nodes())
    &&& !answers ==> f == o
    &&& answers ==> f.accumulator_in_flight() == o.accumulator_in_flight().remove(e.peer_id)
    &&& answers && e.accumulator_node is None ==> f.accumulator_pending()
        == o.accumulator_pending().push(e.node_key) && f.accumulator_nodes()
        == o.accumulator_nodes()
    &&& answers && e.accumulator_node is Some && stored_accumulator_node(
        o.accumulator_nodes(),
        e.node_key,
    ) is Some ==> f.accumulator_nodes() == o.accumulator_nodes()
    &&& answers && e.accumulator_node is Some && stored_accumulator_node(
        o.accumulator_nodes(),
        e.node_key,
    ) is None ==> stored_accumulator_node(f.accumulator_nodes(), e.node_key)
        == e.accumulator_node
    &&& answers && e.accumulator_node is Some ==> stored_accumulator_node(
        f.accumulator_nodes(),
        e.node_key,
    ) is Some && f.accumulator_pending() == o.accumulator_pending() + accumulator_children(
        stored_accumulator_node(f.accumulator_nodes(), e.node_key)->0,
        o.accumulator_placeholder(),
    )
}

/// The first accumulator node stored under `key`, if any.
pub open spec fn stored_accumulator_node(entries: Seq<(HashValue, AccumulatorNode)>, key: HashValue) -> Option<
    AccumulatorNode,
> {
    if exists|i: int| 0 <= i < entries.len() && entries[i].0 == key {
        let i = choose|i: int|
            0 <= i < entries.len() && entries[i].0 == key && forall|j: int|
                0 <= j < i ==> entries[j].0 != key;
        Some(entries[i].1)
    } else {
        None
    }
}

proof fn lemma_first_stored(entries: Seq<(HashValue, AccumulatorNode)>, key: HashValue, i: int)
    requires
        0 <= i < entries.len(),
        entries[i].0 == key,
        forall|j: int| 0 <= j < i ==> entries[j].0 != key,
    ensures
        stored_accumulator_node(entries, key) == Some(entries[i].1),
{
    let k = choose|k: int|
        0 <= k < entries.len() && entries[k].0 == key && forall|j: int|
            0 <= j < k ==> entries[j].0 != key;
    assert(k == i);
}

proof fn lemma_none_stored(entries: Seq<(HashValue, AccumulatorNode)>, key: HashValue)
    requires
        forall|j: int| 0 <= j < entries.len() ==> entries[j].0 != key,
    ensures
        stored_accumulator_node(entries, key) is None,
        forall|e: (HashValue, AccumulatorNode)|
            stored_accumulator_node(entries.push(e), key) == if e.0 == key {
                Some(e.1)
            } else {
                None
            },
{
    assert forall|e: (HashValue, AccumulatorNode)|
        stored_accumulator_node(entries.push(e), key) == if e.0 == key {
            Some(e.1)
        } else {
            None
        } by {
        let s = entries.push(e);
        if e.0 == key {
            lemma_first_stored(s, key, entries.len() as int);
        } else {
            assert forall|j: int| 0 <= j < s.len() implies s[j].0 != key by {
                if j < entries.len() {
                    assert(s[j] == entries[j]);
                }
            }
        }
    }
}

/// The children of an accumulator node that still need syncing: those that are not the
/// placeholder, left first.
pub open spec fn accumulator_children(n: AccumulatorNode, placeholder: HashValue) -> Seq<HashValue> {
    match n {
        AccumulatorNode::Internal { left, right } => (if left != placeholder {
            seq![left]
        } else {
            Seq::empty()
        }) + (if right != placeholder {
            seq![right]
        } else {
            Seq::empty()
        }),
        _ => Seq::empty(),
    }
}

/// Once the state-tree sync has ended, every node on every path down from the state root is
/// stored locally.
pub proof fn law_sync_complete(t: &StateSyncTaskActor, path: Seq<(HashValue, bool)>)
    requires
        t.wf(),
        t.pending().len() == 0,
        t.in_flight().dom().len() == 0,
        path.len() > 0,
        path[0] == (t.state_root(), true),
        state_path(t.nodes(), t.placeholder(), path),
    ensures
        forall|i: int| 0 <= i < path.len() ==> t.nodes().contains_key(#[trigger] path[i].0),
{
    t.state_sync_task.lemma_no_requests();
    let done = t.done@;
    assert forall|i: int| 0 <= i < path.len() implies done.contains(#[trigger] path[i]) by {
        lemma_path_done(t, path, i);
    }
    assert forall|i: int| 0 <= i < path.len() implies t.nodes().contains_key(#[trigger] path[i].0) by {
        assert(done.contains(path[i]));
    }
}

proof fn lemma_path_done(t: &StateSyncTaskActor, path: Seq<(HashValue, bool)>, i: int)
    requires
        t.wf(),
        t.pending().len() == 0,
        t.in_flight() == Map::<PeerId, (HashValue, bool)>::empty(),
        0 <= i < path.len(),
        path[0] == (t.state_root(), true),
        state_path(t.nodes(), t.placeholder(), path),
    ensures
        t.done@.contains(path[i]),
    decreases i,
{
    if i > 0 {
        lemma_path_done(t, path, i - 1);
        let q = path[i - 1];
        assert(child_pairs(t.nodes()[q.0], q.1, t.placeholder()).contains(path[i]));
        assert(covered(t.done@, t.pending(), t.in_flight(), path[i]));
    }
}

} // verus!
