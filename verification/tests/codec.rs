//! The stored runtime-version blob: its layout, the decode round trip, and
//! the decode error.

use state_rpc::chain::{Block, Chain};
use state_rpc::codec::{decode_version, encode_version};
use state_rpc::error::{DenyUnsafe, Error};
use state_rpc::state::{State, StateBackend, StateRequest, StateResponse};
use state_rpc::storage_map::StorageMap;
use state_rpc::version::RuntimeVersion;

fn sample_version() -> RuntimeVersion {
    RuntimeVersion {
        spec_name: b"node".to_vec(),
        spec_version: 258,
        impl_version: 1,
        transaction_version: 2,
        apis: vec![(5, 1)],
    }
}

#[test]
fn encoding_is_length_prefixed_little_endian() {
    let blob = encode_version(&sample_version());
    let expected: Vec<u8> = vec![
        4, 0, 0, 0, // name length
        b'n', b'o', b'd', b'e', // name
        2, 1, 0, 0, // spec version 258
        1, 0, 0, 0, // impl version
        2, 0, 0, 0, // transaction version
        1, 0, 0, 0, // api count
        5, 0, 0, 0, 1, 0, 0, 0, // one api entry
    ];
    assert_eq!(blob, expected);
}

#[test]
fn decoding_inverts_encoding() {
    let v = sample_version();
    let blob = encode_version(&v);
    let back = decode_version(&blob).unwrap();
    assert_eq!(back, v);
}

#[test]
fn empty_name_and_no_apis_round_trip() {
    let v = RuntimeVersion {
        spec_name: Vec::new(),
        spec_version: 0,
        impl_version: 0,
        transaction_version: 0,
        apis: Vec::new(),
    };
    let blob = encode_version(&v);
    assert_eq!(blob.len(), 20);
    assert_eq!(decode_version(&blob).unwrap(), v);
}

#[test]
fn truncated_blobs_are_rejected() {
    assert!(decode_version(&Vec::new()).is_none());
    assert!(decode_version(&vec![1, 2, 3]).is_none());
    let mut blob = encode_version(&sample_version());
    blob.pop();
    assert!(decode_version(&blob).is_none());
}

#[test]
fn trailing_bytes_are_rejected() {
    let mut blob = encode_version(&sample_version());
    blob.push(0);
    assert!(decode_version(&blob).is_none());
}

#[test]
fn malformed_stored_blob_surfaces_as_decode_error() {
    let block = Block::new(1, StorageMap::new(), vec![1, 2, 3], Vec::new());
    let state = State {
        backend: StateBackend::Full(Chain::new(block)),
        deny_unsafe: DenyUnsafe::No,
    };
    let req = StateRequest::GetRuntimeVersion { block: None };
    match state.handle(&req) {
        Err(Error::DecodeError) => {},
        _ => panic!("expected the decode error"),
    }
}

#[test]
fn stored_blob_decodes_back_to_the_version() {
    let v = sample_version();
    let block = Block::new(1, StorageMap::new(), encode_version(&v), Vec::new());
    let state = State {
        backend: StateBackend::Full(Chain::new(block)),
        deny_unsafe: DenyUnsafe::No,
    };
    let req = StateRequest::GetRuntimeVersion { block: None };
    match state.handle(&req) {
        Ok(StateResponse::Version(got)) => assert_eq!(got, v),
        _ => panic!("expected the version"),
    }
}
