//! Paged key listing: ordering, prefix, start key, and the page bound.

use state_rpc::chain::{Block, Chain};
use state_rpc::error::{ClientError, DenyUnsafe, Error};
use state_rpc::state::{State, StateBackend, StateRequest, StateResponse};
use state_rpc::storage_map::StorageMap;

fn map_of(entries: &[(&[u8], &[u8])]) -> StorageMap {
    let mut m = StorageMap::new();
    for (k, v) in entries {
        assert!(m.append(k.to_vec(), v.to_vec()));
    }
    m
}

fn single_block_chain(entries: &[(&[u8], &[u8])]) -> Chain {
    let block = Block::new(7, map_of(entries), Vec::new(), Vec::new());
    Chain::new(block)
}

fn full_state(entries: &[(&[u8], &[u8])], deny: DenyUnsafe) -> State {
    State { backend: StateBackend::Full(single_block_chain(entries)), deny_unsafe: deny }
}

fn paged(
    state: &State,
    prefix: Option<&[u8]>,
    count: u32,
    start_key: Option<&[u8]>,
) -> Result<Vec<Vec<u8>>, Error> {
    let req = StateRequest::GetKeysPaged {
        prefix: prefix.map(|p| p.to_vec()),
        count,
        start_key: start_key.map(|s| s.to_vec()),
        block: None,
    };
    match state.handle(&req) {
        Ok(StateResponse::Keys(ks)) => Ok(ks),
        Ok(_) => panic!("unexpected response kind"),
        Err(e) => Err(e),
    }
}

#[test]
fn paged_keys_are_sorted_and_share_prefix() {
    let state = full_state(
        &[
            (b"a:1", b"x"),
            (b"a:2", b"y"),
            (b"a:3", b"z"),
            (b"b:1", b"w"),
        ],
        DenyUnsafe::No,
    );
    let ks = paged(&state, Some(b"a:"), 10, None).unwrap();
    assert_eq!(ks, vec![b"a:1".to_vec(), b"a:2".to_vec(), b"a:3".to_vec()]);
    for w in ks.windows(2) {
        assert!(w[0] < w[1]);
    }
    for k in &ks {
        assert!(k.starts_with(b"a:"));
    }
}

#[test]
fn paged_keys_start_strictly_after_start_key() {
    let state = full_state(
        &[(b"a:1", b"x"), (b"a:2", b"y"), (b"a:3", b"z")],
        DenyUnsafe::No,
    );
    let ks = paged(&state, Some(b"a:"), 10, Some(b"a:1")).unwrap();
    assert_eq!(ks, vec![b"a:2".to_vec(), b"a:3".to_vec()]);
}

#[test]
fn paged_keys_respect_count() {
    let state = full_state(
        &[(b"a:1", b"x"), (b"a:2", b"y"), (b"a:3", b"z")],
        DenyUnsafe::No,
    );
    let ks = paged(&state, None, 2, None).unwrap();
    assert_eq!(ks, vec![b"a:1".to_vec(), b"a:2".to_vec()]);
}

#[test]
fn count_at_bound_is_accepted() {
    let state = full_state(&[(b"a", b"x")], DenyUnsafe::No);
    let ks = paged(&state, None, 1000, None).unwrap();
    assert_eq!(ks, vec![b"a".to_vec()]);
}

#[test]
fn count_beyond_bound_is_rejected_with_invalid_count() {
    let state = full_state(&[(b"a", b"x")], DenyUnsafe::No);
    let e = paged(&state, None, 1001, None).unwrap_err();
    assert_eq!(e, Error::InvalidCount { value: 1001, max: 1000 });
}

#[test]
fn count_beyond_bound_is_rejected_before_block_resolution() {
    // The bound check runs before any backend work: even an unknown block
    // reference reports the count error, not the block error.
    let state = full_state(&[(b"a", b"x")], DenyUnsafe::No);
    let req = StateRequest::GetKeysPaged {
        prefix: None,
        count: 5000,
        start_key: None,
        block: Some(9999),
    };
    match state.handle(&req) {
        Err(Error::InvalidCount { value: 5000, max: 1000 }) => {},
        other => panic!("expected the count error, got {:?}", other.err()),
    }
}

#[test]
fn unknown_block_is_reported() {
    let state = full_state(&[(b"a", b"x")], DenyUnsafe::No);
    let req = StateRequest::GetStorage { key: b"a".to_vec(), block: Some(1234) };
    match state.handle(&req) {
        Err(Error::UnknownBlock) => {},
        other => panic!("expected UnknownBlock, got {:?}", other.err()),
    }
}

#[test]
fn unbounded_key_listing_works_on_a_full_node() {
    let state = full_state(&[(b"a", b"x"), (b"b", b"y")], DenyUnsafe::No);
    let req = StateRequest::GetKeys { prefix: Vec::new(), block: None };
    match state.handle(&req) {
        Ok(StateResponse::Keys(ks)) => {
            assert_eq!(ks, vec![b"a".to_vec(), b"b".to_vec()]);
        },
        _ => panic!("expected keys"),
    }
}

#[test]
fn unbounded_key_listing_is_refused_on_a_light_node() {
    let chain = single_block_chain(&[(b"a", b"x")]);
    let state = State { backend: StateBackend::Light(chain), deny_unsafe: DenyUnsafe::No };
    let req = StateRequest::GetKeys { prefix: Vec::new(), block: None };
    match state.handle(&req) {
        Err(Error::Client(ClientError::LightUnsupported)) => {},
        other => panic!("expected the light refusal, got {:?}", other.err()),
    }
}

#[test]
fn point_lookup_works_on_a_light_node() {
    let chain = single_block_chain(&[(b"a", b"x")]);
    let state = State { backend: StateBackend::Light(chain), deny_unsafe: DenyUnsafe::No };
    let req = StateRequest::GetStorage { key: b"a".to_vec(), block: None };
    match state.handle(&req) {
        Ok(StateResponse::Value(Some(v))) => assert_eq!(v, b"x".to_vec()),
        _ => panic!("expected the stored value"),
    }
}

#[test]
fn paged_listing_works_on_a_light_node() {
    let chain = single_block_chain(&[(b"a", b"x"), (b"b", b"y")]);
    let state = State { backend: StateBackend::Light(chain), deny_unsafe: DenyUnsafe::No };
    let ks = paged(&state, None, 1, None).unwrap();
    assert_eq!(ks, vec![b"a".to_vec()]);
}
