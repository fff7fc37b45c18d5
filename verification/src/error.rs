//! The service's error taxonomy and its safety policy.
//!
//! Admission failures (`InvalidParams`, `InvalidCount`, `Unsafe`) are detected
//! and returned before any backend work; backend-originated failures surface
//! as `UnknownBlock`, `Client` or `DecodeError`.

use vstd::prelude::*;

verus! {

/// The cause carried by a `Client` error: an opaque failure of the underlying
/// storage or execution machinery, or an operation a light node cannot serve.
#[derive(Clone, Copy, Debug, PartialEq, Eq, Structural)]
pub enum ClientError {
    /// An enumeration-style query that proofs alone cannot answer.
    LightUnsupported,
    /// The underlying storage, network or execution machinery failed.
    Failure,
}

/// Everything a request can fail with.
#[derive(Clone, Copy, Debug, PartialEq, Eq, Structural)]
pub enum Error {
    /// The request's parameters are malformed.
    InvalidParams,
    /// A page was requested beyond the configured bound.
    InvalidCount { value: u32, max: u32 },
    /// The block reference does not resolve to a known block.
    UnknownBlock,
    /// An underlying collaborator failed or refused the operation.
    Client(ClientError),
    /// A stored blob (runtime version) is malformed.
    DecodeError,
    /// The safety policy denies the operation to this caller.
    Unsafe,
}

/// The immutable, per-service safety policy: whether calls classified as
/// unsafe are denied to the connected caller.
#[derive(Clone, Copy, Debug, PartialEq, Eq, Structural)]
pub enum DenyUnsafe {
    /// Unsafe calls are denied.
    Yes,
    /// Unsafe calls are allowed.
    No,
}

impl DenyUnsafe {
    /// The admission gate: fails with `Unsafe` exactly when the policy denies
    /// unsafe calls.
    pub fn check_if_safe(&self) -> (r: Result<(), Error>)
        ensures
            r == (match self {
                DenyUnsafe::Yes => Err::<(), Error>(Error::Unsafe),
                DenyUnsafe::No => Ok::<(), Error>(()),
            }),
    {
        match self {
            DenyUnsafe::Yes => Err(Error::Unsafe),
            DenyUnsafe::No => Ok(()),
        }
    }
}

} // verus!
