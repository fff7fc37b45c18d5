//! Historical storage queries: the initial snapshot, per-block diffs, and
//! the range errors.

use state_rpc::chain::{Block, Chain};
use state_rpc::error::{DenyUnsafe, Error};
use state_rpc::state::{State, StateBackend, StateRequest, StateResponse, StorageChangeSet};
use state_rpc::storage_map::StorageMap;

fn map_of(entries: &[(&[u8], &[u8])]) -> StorageMap {
    let mut m = StorageMap::new();
    for (k, v) in entries {
        assert!(m.append(k.to_vec(), v.to_vec()));
    }
    m
}

/// Three blocks: key "a" changes at every block, key "b" never changes, key
/// "c" is deleted at the second block.
fn three_block_chain() -> Chain {
    let b1 = Block::new(
        1,
        map_of(&[(b"a", b"a1"), (b"b", b"b0"), (b"c", b"c0")]),
        Vec::new(),
        Vec::new(),
    );
    let b2 = Block::new(2, map_of(&[(b"a", b"a2"), (b"b", b"b0")]), Vec::new(), Vec::new());
    let b3 = Block::new(
        3,
        map_of(&[(b"a", b"a3"), (b"b", b"b0"), (b"c", b"c3")]),
        Vec::new(),
        Vec::new(),
    );
    let mut chain = Chain::new(b1);
    assert!(chain.push_block(b2));
    assert!(chain.push_block(b3));
    chain
}

fn full_state(chain: Chain) -> State {
    State { backend: StateBackend::Full(chain), deny_unsafe: DenyUnsafe::No }
}

fn query(state: &State, from: u64, to: Option<u64>, keys: &[&[u8]]) -> Result<
    Vec<StorageChangeSet>,
    Error,
> {
    let req = StateRequest::QueryStorage {
        keys: keys.iter().map(|k| k.to_vec()).collect(),
        from,
        to,
    };
    match state.handle(&req) {
        Ok(StateResponse::ChangeSets(sets)) => Ok(sets),
        Ok(_) => panic!("unexpected response kind"),
        Err(e) => Err(e),
    }
}

#[test]
fn first_change_set_is_the_full_snapshot() {
    let state = full_state(three_block_chain());
    let sets = query(&state, 1, Some(3), &[b"a", b"b", b"c", b"missing"]).unwrap();
    assert_eq!(sets.len(), 3);
    assert_eq!(sets[0].block, 1);
    assert_eq!(
        sets[0].changes,
        vec![
            (b"a".to_vec(), Some(b"a1".to_vec())),
            (b"b".to_vec(), Some(b"b0".to_vec())),
            (b"c".to_vec(), Some(b"c0".to_vec())),
            (b"missing".to_vec(), None),
        ]
    );
}

#[test]
fn later_change_sets_hold_exactly_the_changed_keys() {
    let state = full_state(three_block_chain());
    let sets = query(&state, 1, Some(3), &[b"a", b"b", b"c"]).unwrap();
    // At block 2, "a" changed and "c" was deleted; "b" did not change.
    assert_eq!(sets[1].block, 2);
    assert_eq!(
        sets[1].changes,
        vec![(b"a".to_vec(), Some(b"a2".to_vec())), (b"c".to_vec(), None)]
    );
    // At block 3, "a" changed and "c" reappeared.
    assert_eq!(sets[2].block, 3);
    assert_eq!(
        sets[2].changes,
        vec![
            (b"a".to_vec(), Some(b"a3".to_vec())),
            (b"c".to_vec(), Some(b"c3".to_vec())),
        ]
    );
}

#[test]
fn constant_key_appears_only_in_the_snapshot() {
    let state = full_state(three_block_chain());
    let sets = query(&state, 1, None, &[b"b"]).unwrap();
    assert_eq!(sets.len(), 3);
    assert_eq!(sets[0].changes.len(), 1);
    assert_eq!(sets[1].changes.len(), 0);
    assert_eq!(sets[2].changes.len(), 0);
}

#[test]
fn absent_to_means_the_best_block() {
    let state = full_state(three_block_chain());
    let sets = query(&state, 2, None, &[b"a"]).unwrap();
    assert_eq!(sets.len(), 2);
    assert_eq!(sets[0].block, 2);
    assert_eq!(sets[1].block, 3);
}

#[test]
fn reversed_range_is_invalid_params() {
    let state = full_state(three_block_chain());
    let e = query(&state, 3, Some(1), &[b"a"]).unwrap_err();
    assert_eq!(e, Error::InvalidParams);
}

#[test]
fn unknown_from_block_fails() {
    let state = full_state(three_block_chain());
    let e = query(&state, 99, None, &[b"a"]).unwrap_err();
    assert_eq!(e, Error::UnknownBlock);
}

#[test]
fn query_storage_at_returns_one_snapshot() {
    let state = full_state(three_block_chain());
    let req = StateRequest::QueryStorageAt { keys: vec![b"a".to_vec(), b"x".to_vec()], at: Some(2) };
    match state.handle(&req) {
        Ok(StateResponse::ChangeSets(sets)) => {
            assert_eq!(sets.len(), 1);
            assert_eq!(sets[0].block, 2);
            assert_eq!(
                sets[0].changes,
                vec![(b"a".to_vec(), Some(b"a2".to_vec())), (b"x".to_vec(), None)]
            );
        },
        _ => panic!("expected change sets"),
    }
}

#[test]
fn storage_notification_reports_only_changing_blocks() {
    let state = full_state(three_block_chain());
    let keys: Vec<Vec<u8>> = vec![b"b".to_vec()];
    // "b" never changes: no block delivers a set for it.
    assert!(state.storage_notification(1, &keys).unwrap().is_none());
    assert!(state.storage_notification(2, &keys).unwrap().is_none());
    assert!(state.storage_notification(3, &keys).unwrap().is_none());
    // "a" changes at blocks 2 and 3.
    let keys: Vec<Vec<u8>> = vec![b"a".to_vec()];
    let set = state.storage_notification(2, &keys).unwrap().unwrap();
    assert_eq!(set.block, 2);
    assert_eq!(set.changes, vec![(b"a".to_vec(), Some(b"a2".to_vec()))]);
    assert!(state.storage_notification(99, &keys).is_err());
}
