//! The safety-policy gate: every gated method fails with `Unsafe` when the
//! policy denies unsafe calls, before any backend work.

use state_rpc::chain::{Block, Chain};
use state_rpc::codec::encode_version;
use state_rpc::error::{ClientError, DenyUnsafe, Error};
use state_rpc::state::{
    complete_call, complete_read_proof, complete_trace_block, new_full, new_light, State,
    StateBackend, StateRequest, StateResponse,
};
use state_rpc::storage_map::StorageMap;
use state_rpc::version::RuntimeVersion;

fn sample_version() -> RuntimeVersion {
    RuntimeVersion {
        spec_name: b"node".to_vec(),
        spec_version: 4,
        impl_version: 1,
        transaction_version: 2,
        apis: vec![(10, 1), (11, 3)],
    }
}

fn one_block_chain() -> Chain {
    let mut m = StorageMap::new();
    assert!(m.append(b"a".to_vec(), b"x".to_vec()));
    let blob = encode_version(&sample_version());
    Chain::new(Block::new(1, m, blob, vec![7]))
}

fn denying_state() -> State {
    State { backend: StateBackend::Full(one_block_chain()), deny_unsafe: DenyUnsafe::Yes }
}

#[test]
fn every_gated_method_fails_with_unsafe_when_denied() {
    let state = denying_state();
    let gated: Vec<StateRequest> = vec![
        StateRequest::GetPairs { prefix: Vec::new(), block: None },
        StateRequest::GetRuntimeVersion { block: None },
        StateRequest::QueryStorage { keys: vec![b"a".to_vec()], from: 1, to: None },
        StateRequest::QueryStorageAt { keys: vec![b"a".to_vec()], at: None },
    ];
    for req in &gated {
        match state.handle(req) {
            Err(Error::Unsafe) => {},
            _ => panic!("expected the Unsafe error"),
        }
    }
    assert_eq!(state.read_proof_target(&None).unwrap_err(), Error::Unsafe);
    assert_eq!(state.trace_block_target(1).unwrap_err(), Error::Unsafe);
}

#[test]
fn gate_runs_before_parameter_validity() {
    // A denying policy answers before the range is examined.
    let state = denying_state();
    let req = StateRequest::QueryStorage { keys: Vec::new(), from: 9999, to: None };
    match state.handle(&req) {
        Err(Error::Unsafe) => {},
        _ => panic!("expected the Unsafe error"),
    }
}

#[test]
fn ungated_methods_pass_a_denying_policy() {
    let state = denying_state();
    let req = StateRequest::GetStorage { key: b"a".to_vec(), block: None };
    match state.handle(&req) {
        Ok(StateResponse::Value(Some(v))) => assert_eq!(v, b"x".to_vec()),
        _ => panic!("expected the stored value"),
    }
    let req = StateRequest::GetKeysPaged { prefix: None, count: 10, start_key: None, block: None };
    match state.handle(&req) {
        Ok(StateResponse::Keys(ks)) => assert_eq!(ks, vec![b"a".to_vec()]),
        _ => panic!("expected keys"),
    }
}

#[test]
fn gated_methods_work_when_allowed() {
    let state = State {
        backend: StateBackend::Full(one_block_chain()),
        deny_unsafe: DenyUnsafe::No,
    };
    let req = StateRequest::GetRuntimeVersion { block: None };
    match state.handle(&req) {
        Ok(StateResponse::Version(v)) => assert_eq!(v, sample_version()),
        _ => panic!("expected the version"),
    }
    let at = state.read_proof_target(&None).unwrap();
    assert_eq!(at, 1);
    assert_eq!(state.trace_block_target(1).unwrap(), 1);
    assert_eq!(state.trace_block_target(42).unwrap_err(), Error::UnknownBlock);
}

#[test]
fn external_outcomes_map_into_the_envelope() {
    let r = complete_call(Ok(vec![1, 2])).unwrap();
    assert_eq!(r, vec![1, 2]);
    let e = complete_call(Err(ClientError::Failure)).unwrap_err();
    assert_eq!(e, Error::Client(ClientError::Failure));

    let p = complete_read_proof(5, Ok(vec![vec![9], vec![8]])).unwrap();
    assert_eq!(p.at, 5);
    assert_eq!(p.blobs, vec![vec![9], vec![8]]);
    let e = complete_read_proof(5, Err(ClientError::Failure)).unwrap_err();
    assert_eq!(e, Error::Client(ClientError::Failure));

    let t = complete_trace_block(Ok(vec![3])).unwrap();
    assert_eq!(t, vec![3]);
    let e = complete_trace_block(Err(ClientError::Failure)).unwrap_err();
    assert_eq!(e, Error::Client(ClientError::Failure));
}

#[test]
fn call_target_resolves_before_execution() {
    let state = State {
        backend: StateBackend::Full(one_block_chain()),
        deny_unsafe: DenyUnsafe::Yes,
    };
    // state_call is not safety-gated: it resolves even under a denying policy.
    assert_eq!(state.call_target(&None).unwrap(), 1);
    assert_eq!(state.call_target(&Some(9)).unwrap_err(), Error::UnknownBlock);
}

#[test]
fn constructors_pick_the_variant() {
    let (full, full_child) = new_full(one_block_chain(), one_block_chain(), DenyUnsafe::No);
    let req = StateRequest::GetKeys { prefix: Vec::new(), block: None };
    assert!(full.handle(&req).is_ok());
    let creq = state_rpc::child::ChildRequest::GetKeys {
        storage_key: b"ns".to_vec(),
        prefix: Vec::new(),
        block: None,
    };
    assert!(full_child.handle(&creq).is_ok());

    let (light, light_child) = new_light(one_block_chain(), one_block_chain(), DenyUnsafe::No);
    match light.handle(&req) {
        Err(Error::Client(ClientError::LightUnsupported)) => {},
        _ => panic!("expected the light refusal"),
    }
    match light_child.handle(&creq) {
        Err(Error::Client(ClientError::LightUnsupported)) => {},
        _ => panic!("expected the light refusal"),
    }
}
