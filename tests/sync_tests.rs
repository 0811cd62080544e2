use chain_core::hash::HashValue;
use chain_core::state_sync::{
    accept_accumulator_node, accept_state_node,
    AccumulatorNode, StateNode, StateNodeStore, StateSyncTaskActor, StateSyncTaskEvent, SyncStep,
};
use chain_core::sync_task::{PeerId, SyncTask};

fn h(n: u64) -> HashValue {
    HashValue { w0: n, w1: 0, w2: 0, w3: 0 }
}

const PLACEHOLDER: u64 = 999;

fn task() -> StateSyncTaskActor {
    StateSyncTaskActor::launch(PeerId { id: 0 }, (h(1), h(50)), StateNodeStore::new(), h(PLACEHOLDER), h(PLACEHOLDER))
}

/// Answers every fetch from a fixed tree until the sync ends.
fn run_to_end(t: &mut StateSyncTaskActor, peer: PeerId, tree: &dyn Fn(HashValue) -> StateNode) -> usize {
    let mut steps = 0;
    loop {
        steps += 1;
        assert!(steps < 100);
        match t.exe_state_sync_task(Some(peer)) {
            SyncStep::Fetch { peer: p, key } => {
                assert_eq!(p, peer);
                if t.handle(StateSyncTaskEvent::new_state(p, key, Some(tree(key)))) {
                    return steps;
                }
            }
            SyncStep::Local { .. } => {
                if t.sync_end() {
                    return steps;
                }
            }
            SyncStep::Idle => return steps,
            SyncStep::Requeued { .. } => panic!("peer unexpectedly busy"),
        }
    }
}

fn tree(key: HashValue) -> StateNode {
    match key.w0 {
        1 => StateNode::Internal { children: vec![h(2), h(3)] },
        2 => StateNode::Leaf { storage_roots: vec![Some(h(4)), None, Some(h(PLACEHOLDER))] },
        3 => StateNode::Leaf { storage_roots: vec![] },
        4 => StateNode::Internal { children: vec![h(5)] },
        _ => StateNode::Null,
    }
}

#[test]
fn sync_fetches_whole_tree() {
    let mut t = task();
    let peer = PeerId { id: 7 };
    run_to_end(&mut t, peer, &tree);
    assert!(t.sync_end());
    for k in [1, 2, 3, 4, 5] {
        assert!(t.contains_state_node(&h(k)), "node {} missing", k);
    }
    assert!(!t.contains_state_node(&h(PLACEHOLDER)));
}

#[test]
fn no_peer_requeues() {
    let mut t = task();
    assert_eq!(t.exe_state_sync_task(None), SyncStep::Requeued { key: h(1) });
    assert_eq!(t.exe_state_sync_task(Some(PeerId { id: 0 })), SyncStep::Requeued { key: h(1) });
    assert!(!t.sync_end());
}

#[test]
fn failed_delivery_requeues_and_stray_events_are_ignored() {
    let mut t = task();
    let peer = PeerId { id: 3 };
    assert_eq!(t.exe_state_sync_task(Some(peer)), SyncStep::Fetch { peer, key: h(1) });
    // Another peer's answer and an answer for another key are ignored.
    assert!(!t.handle(StateSyncTaskEvent::new_state(PeerId { id: 4 }, h(1), Some(tree(h(1))))));
    assert!(!t.handle(StateSyncTaskEvent::new_state(peer, h(2), Some(tree(h(2))))));
    assert!(!t.contains_state_node(&h(1)));
    // A delivery that failed its hash check comes as None and puts the key back.
    assert!(!t.handle(StateSyncTaskEvent::new_state(peer, h(1), None)));
    assert_eq!(t.exe_state_sync_task(Some(peer)), SyncStep::Fetch { peer, key: h(1) });
}

#[test]
fn busy_peer_requeues() {
    let mut t = task();
    let peer = PeerId { id: 3 };
    t.exe_state_sync_task(Some(peer));
    t.handle(StateSyncTaskEvent::new_state(peer, h(1), Some(tree(h(1)))));
    assert_eq!(t.exe_state_sync_task(Some(peer)), SyncStep::Fetch { peer, key: h(2) });
    assert_eq!(t.exe_state_sync_task(Some(peer)), SyncStep::Requeued { key: h(3) });
}

#[test]
fn local_nodes_are_not_fetched() {
    let mut t = task();
    let peer = PeerId { id: 3 };
    run_to_end(&mut t, peer, &tree);
    t.reset(&h(1), &h(50));
    assert!(!t.sync_end());
    assert_eq!(t.exe_state_sync_task(Some(peer)), SyncStep::Local { key: h(1) });
    let mut locals = 1;
    while !t.sync_end() {
        match t.exe_state_sync_task(Some(peer)) {
            SyncStep::Local { .. } => locals += 1,
            other => panic!("unexpected step {:?}", other),
        }
    }
    assert_eq!(locals, 5);
}

#[test]
fn accumulator_sync() {
    let mut t = task();
    let peer = PeerId { id: 3 };
    assert_eq!(t.exe_accumulator_sync_task(Some(peer)), SyncStep::Fetch { peer, key: h(50) });
    let node = AccumulatorNode::Internal { left: h(51), right: h(PLACEHOLDER) };
    t.handle(StateSyncTaskEvent::new_accumulator(peer, h(50), Some(node)));
    assert_eq!(t.exe_accumulator_sync_task(Some(peer)), SyncStep::Fetch { peer, key: h(51) });
    t.handle(StateSyncTaskEvent::new_accumulator(peer, h(51), Some(AccumulatorNode::Leaf { value: h(7) })));
    assert_eq!(t.exe_accumulator_sync_task(Some(peer)), SyncStep::Idle);
}

#[test]
fn sync_task_queue() {
    let mut q: SyncTask<u64> = SyncTask::new();
    assert!(q.is_empty());
    q.push_back(1);
    q.push_back(2);
    assert_eq!(q.pop_front(), Some(1));
    let p = PeerId { id: 9 };
    assert_eq!(q.insert(p, 5), None);
    assert_eq!(q.insert(p, 6), Some(5));
    assert_eq!(q.get(&p), Some(6));
    assert_eq!(q.remove(&p), Some(6));
    assert_eq!(q.get(&p), None);
    assert!(!q.is_empty());
    q.clear();
    assert!(q.is_empty());
    assert_eq!(q.pop_front(), None);
}

#[test]
fn accepts_only_matching_hashes() {
    use_accept();
}

fn use_accept() {
    let n = accept_state_node(h(1), h(1), StateNode::Null);
    assert!(n.is_some());
    assert!(accept_state_node(h(1), h(2), StateNode::Null).is_none());
    let a = AccumulatorNode::Leaf { value: h(3) };
    assert_eq!(accept_accumulator_node(h(4), h(4), a), Some(a));
    assert_eq!(accept_accumulator_node(h(4), h(5), a), None);
}

#[test]
fn reset_restarts_both_trees() {
    let mut t = task();
    let peer = PeerId { id: 3 };
    assert_eq!(t.exe_accumulator_sync_task(Some(peer)), SyncStep::Fetch { peer, key: h(50) });
    t.reset(&h(1), &h(60));
    assert_eq!(t.exe_accumulator_sync_task(Some(peer)), SyncStep::Fetch { peer, key: h(60) });
    assert_eq!(t.exe_accumulator_sync_task(Some(peer)), SyncStep::Idle);
}
