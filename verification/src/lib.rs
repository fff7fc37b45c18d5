//! A verified state-query service for a blockchain node.
//!
//! The library exposes read access to a node's key/value state at arbitrary
//! historical blocks behind a named-method dispatch surface.  Requests pass
//! admission control (a safety-policy gate and a page-size bound) before any
//! backend work happens; the backend answers from an ordered model of the
//! chain's storage; a long-lived watch delivers distinct runtime-version
//! transitions exactly once each.
//!
//! The RPC transport, the trie engine with its Merkle-proof primitives, the
//! network fetcher of a light node and the runtime executor are external
//! collaborators: the library receives decoded parameters and the outcomes of
//! external work as plain values and is verified for every such value.

pub mod bytes;
pub mod chain;
pub mod child;
pub mod codec;
pub mod error;
pub mod state;
pub mod storage_map;
pub mod version;
pub mod watch;
