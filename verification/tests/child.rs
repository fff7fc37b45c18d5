//! Child storage: namespaced lookups, independence of namespaces, and the
//! light-node asymmetry.

use state_rpc::chain::{Block, Chain};
use state_rpc::child::{ChildRequest, ChildResponse, ChildState, ChildStateBackend};
use state_rpc::error::{ClientError, Error};
use state_rpc::storage_map::StorageMap;

fn map_of(entries: &[(&[u8], &[u8])]) -> StorageMap {
    let mut m = StorageMap::new();
    for (k, v) in entries {
        assert!(m.append(k.to_vec(), v.to_vec()));
    }
    m
}

fn chain_with_children() -> Chain {
    let mut block = Block::new(1, StorageMap::new(), Vec::new(), Vec::new());
    assert!(block.add_child(b"ns1".to_vec(), map_of(&[(b"k", b"v1"), (b"l", b"w")])));
    assert!(block.add_child(b"ns2".to_vec(), map_of(&[(b"k", b"v2")])));
    Chain::new(block)
}

fn full_child() -> ChildState {
    ChildState { backend: ChildStateBackend::Full(chain_with_children()) }
}

fn get(cs: &ChildState, ns: &[u8], key: &[u8]) -> Option<Vec<u8>> {
    let req = ChildRequest::GetStorage {
        storage_key: ns.to_vec(),
        key: key.to_vec(),
        block: None,
    };
    match cs.handle(&req) {
        Ok(ChildResponse::Value(v)) => v,
        _ => panic!("expected a value"),
    }
}

#[test]
fn namespaces_are_independent() {
    let cs = full_child();
    assert_eq!(get(&cs, b"ns1", b"k"), Some(b"v1".to_vec()));
    assert_eq!(get(&cs, b"ns2", b"k"), Some(b"v2".to_vec()));
    assert_eq!(get(&cs, b"ns2", b"l"), None);
}

#[test]
fn missing_namespace_reads_as_empty() {
    let cs = full_child();
    assert_eq!(get(&cs, b"nope", b"k"), None);
    let req = ChildRequest::GetKeys {
        storage_key: b"nope".to_vec(),
        prefix: Vec::new(),
        block: None,
    };
    match cs.handle(&req) {
        Ok(ChildResponse::Keys(ks)) => assert!(ks.is_empty()),
        _ => panic!("expected keys"),
    }
}

#[test]
fn child_keys_are_listed_in_order() {
    let cs = full_child();
    let req = ChildRequest::GetKeys {
        storage_key: b"ns1".to_vec(),
        prefix: Vec::new(),
        block: None,
    };
    match cs.handle(&req) {
        Ok(ChildResponse::Keys(ks)) => assert_eq!(ks, vec![b"k".to_vec(), b"l".to_vec()]),
        _ => panic!("expected keys"),
    }
}

#[test]
fn child_size_is_the_entry_length() {
    let cs = full_child();
    let req = ChildRequest::GetStorageSize {
        storage_key: b"ns1".to_vec(),
        key: b"k".to_vec(),
        block: None,
    };
    match cs.handle(&req) {
        Ok(ChildResponse::Size(n)) => assert_eq!(n, Some(2)),
        _ => panic!("expected a size"),
    }
    let req = ChildRequest::GetStorageSize {
        storage_key: b"ns1".to_vec(),
        key: b"missing".to_vec(),
        block: None,
    };
    match cs.handle(&req) {
        Ok(ChildResponse::Size(n)) => assert_eq!(n, None),
        _ => panic!("expected no size"),
    }
}

#[test]
fn child_hash_digests_the_stored_value() {
    let cs = full_child();
    let req = ChildRequest::GetStorageHash {
        storage_key: b"ns1".to_vec(),
        key: b"k".to_vec(),
        block: None,
    };
    match cs.handle(&req) {
        Ok(ChildResponse::ValueHash(h)) => assert_eq!(h, Some(11078562424329514159)),
        _ => panic!("expected a hash"),
    }
}

#[test]
fn child_key_listing_is_refused_on_a_light_node() {
    let cs = ChildState { backend: ChildStateBackend::Light(chain_with_children()) };
    let req = ChildRequest::GetKeys {
        storage_key: b"ns1".to_vec(),
        prefix: Vec::new(),
        block: None,
    };
    match cs.handle(&req) {
        Err(Error::Client(ClientError::LightUnsupported)) => {},
        _ => panic!("expected the light refusal"),
    }
    // Point reads still work.
    assert_eq!(get(&cs, b"ns1", b"k"), Some(b"v1".to_vec()));
}

#[test]
fn unknown_block_fails_child_lookups() {
    let cs = full_child();
    let req = ChildRequest::GetStorage {
        storage_key: b"ns1".to_vec(),
        key: b"k".to_vec(),
        block: Some(77),
    };
    match cs.handle(&req) {
        Err(Error::UnknownBlock) => {},
        _ => panic!("expected UnknownBlock"),
    }
}

#[test]
fn child_proof_admission_resolves_the_block() {
    let cs = full_child();
    assert_eq!(cs.backend.read_child_proof_target(&None).unwrap(), 1);
    assert_eq!(
        cs.backend.read_child_proof_target(&Some(9)).unwrap_err(),
        Error::UnknownBlock
    );
}
