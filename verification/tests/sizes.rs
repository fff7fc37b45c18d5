//! Size and hash lookups: exact entry length, aggregate prefixed length, and
//! the value digest.

use state_rpc::chain::{Block, Chain};
use state_rpc::error::DenyUnsafe;
use state_rpc::state::{State, StateBackend, StateRequest, StateResponse};
use state_rpc::storage_map::StorageMap;

fn map_of(entries: &[(&[u8], &[u8])]) -> StorageMap {
    let mut m = StorageMap::new();
    for (k, v) in entries {
        assert!(m.append(k.to_vec(), v.to_vec()));
    }
    m
}

fn full_state(entries: &[(&[u8], &[u8])]) -> State {
    let block = Block::new(1, map_of(entries), Vec::new(), Vec::new());
    State { backend: StateBackend::Full(Chain::new(block)), deny_unsafe: DenyUnsafe::No }
}

fn size_of(state: &State, key: &[u8]) -> Option<u64> {
    let req = StateRequest::GetStorageSize { key: key.to_vec(), block: None };
    match state.handle(&req) {
        Ok(StateResponse::Size(n)) => n,
        _ => panic!("expected a size"),
    }
}

#[test]
fn size_sums_strictly_prefixed_entries() {
    // Entries "a:1" -> [0,0] and "a:2" -> [0,0,0], nothing at "a": the size
    // reported for "a" is the summed length 5; for "a:1" the exact length 2.
    let state = full_state(&[(b"a:1", &[0, 0]), (b"a:2", &[0, 0, 0])]);
    assert_eq!(size_of(&state, b"a"), Some(5));
    assert_eq!(size_of(&state, b"a:1"), Some(2));
}

#[test]
fn size_prefers_the_exact_entry() {
    // An entry stands exactly at "a": its own length wins over the aggregate.
    let state = full_state(&[(b"a", &[9u8; 4]), (b"a:1", &[0, 0])]);
    assert_eq!(size_of(&state, b"a"), Some(4));
}

#[test]
fn size_is_absent_when_nothing_matches() {
    let state = full_state(&[(b"a:1", &[0, 0])]);
    assert_eq!(size_of(&state, b"z"), None);
}

#[test]
fn storage_hash_digests_the_stored_value() {
    let state = full_state(&[(b"k", &[0, 0]), (b"l", &[1, 2, 3])]);
    let req = StateRequest::GetStorageHash { key: b"k".to_vec(), block: None };
    match state.handle(&req) {
        Ok(StateResponse::ValueHash(h)) => assert_eq!(h, Some(11078562424329510452)),
        _ => panic!("expected a hash"),
    }
    let req = StateRequest::GetStorageHash { key: b"l".to_vec(), block: None };
    match state.handle(&req) {
        Ok(StateResponse::ValueHash(h)) => assert_eq!(h, Some(11394041827442897012)),
        _ => panic!("expected a hash"),
    }
    let req = StateRequest::GetStorageHash { key: b"missing".to_vec(), block: None };
    match state.handle(&req) {
        Ok(StateResponse::ValueHash(h)) => assert_eq!(h, None),
        _ => panic!("expected no hash"),
    }
}

#[test]
fn pairs_listing_returns_keys_with_values() {
    let state = full_state(&[(b"a:1", b"x"), (b"a:2", b"y"), (b"b", b"z")]);
    let req = StateRequest::GetPairs { prefix: b"a:".to_vec(), block: None };
    match state.handle(&req) {
        Ok(StateResponse::Pairs(ps)) => {
            assert_eq!(
                ps,
                vec![
                    (b"a:1".to_vec(), b"x".to_vec()),
                    (b"a:2".to_vec(), b"y".to_vec()),
                ]
            );
        },
        _ => panic!("expected pairs"),
    }
}

#[test]
fn metadata_returns_the_stored_blob() {
    let block = Block::new(1, StorageMap::new(), Vec::new(), vec![1, 2, 3]);
    let state = State {
        backend: StateBackend::Full(Chain::new(block)),
        deny_unsafe: DenyUnsafe::No,
    };
    let req = StateRequest::GetMetadata { block: None };
    match state.handle(&req) {
        Ok(StateResponse::Metadata(m)) => assert_eq!(m, vec![1, 2, 3]),
        _ => panic!("expected metadata"),
    }
}
