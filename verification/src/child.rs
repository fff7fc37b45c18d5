//! The child-state API: the query surface scoped to a namespaced sub-trie.
//!
//! Every operation additionally names the child namespace; distinct
//! namespaces are logically independent key spaces, and a namespace no block
//! carries reads as an empty one.

use vstd::prelude::*;

use crate::bytes::hash_fold;
use crate::bytes::lemma_bytes_deep;
use crate::bytes::opt_view;
use crate::bytes::value_hash;
use crate::chain::BlockView;
use crate::chain::Chain;
use crate::chain::child_entries;
use crate::chain::lemma_hash_index_unique;
use crate::chain::resolve_spec;
use crate::error::ClientError;
use crate::error::Error;
use crate::state::lemma_opt_deep;
use crate::state::res_deep;
use crate::storage_map::map_get;
use crate::storage_map::selected_keys;
use crate::storage_map::StorageMap;

verus! {

/// The entries of the child storage named `ns` at block `bi`.
pub open spec fn child_state_at(c: Seq<BlockView>, bi: int, ns: Seq<u8>) -> Seq<(Vec<u8>, Vec<u8>)> {
    child_entries(c[bi].children, ns)
}

/// The child-state backend: the same closed pair of variants as the state
/// backend, chosen once at construction.
pub enum ChildStateBackend {
    /// A full node: answers from local state.
    Full(Chain),
    /// A light node: point reads are answered from proof-verified remote
    /// data, while unbounded enumeration is refused.
    Light(Chain),
}

impl ChildStateBackend {
    /// The chain the backend answers from.
    pub open spec fn chain_view(&self) -> Seq<BlockView> {
        match self {
            ChildStateBackend::Full(c) => c@,
            ChildStateBackend::Light(c) => c@,
        }
    }

    /// Whether this is the light variant.
    pub open spec fn is_light(&self) -> bool {
        match self {
            ChildStateBackend::Full(_) => false,
            ChildStateBackend::Light(_) => true,
        }
    }

    /// Well-formedness of the underlying chain.
    pub open spec fn wf(&self) -> bool {
        match self {
            ChildStateBackend::Full(c) => c.wf(),
            ChildStateBackend::Light(c) => c.wf(),
        }
    }

    /// The underlying chain.
    fn chain(&self) -> (r: &Chain)
        ensures
            r@ == self.chain_view(),
            self.wf() ==> r.wf(),
    {
        match self {
            ChildStateBackend::Full(c) => c,
            ChildStateBackend::Light(c) => c,
        }
    }

    /// Resolves a block reference as `resolve_spec` says.
    fn resolve_index(&self, block: &Option<u64>) -> (r: Result<usize, Error>)
        requires
            self.wf(),
        ensures
            match r {
                Ok(i) => i < self.chain_view().len() && resolve_spec(self.chain_view(), *block)
                    == Ok::<int, Error>(i as int),
                Err(e) => resolve_spec(self.chain_view(), *block) == Err::<int, Error>(e),
            },
    {
        let c = self.chain();
        let r = c.resolve(block);
        proof {
            match r {
                Ok(i) => {
                    match block {
                        Some(h) => {
                            lemma_hash_index_unique(self.chain_view(), *h, i as int);
                        },
                        None => {},
                    }
                },
                Err(_) => {},
            }
        }
        r
    }

    /// The child storage named `storage_key` at the resolved block; a
    /// namespace no block carries is an empty storage.
    fn child_map<'a>(&'a self, bi: usize, storage_key: &Vec<u8>) -> (r: Option<&'a StorageMap>)
        requires
            self.wf(),
            bi < self.chain_view().len(),
        ensures
            match r {
                Some(m) => m@ == child_state_at(self.chain_view(), bi as int, storage_key@)
                    && crate::storage_map::map_wf(m@),
                None => child_state_at(self.chain_view(), bi as int, storage_key@) == Seq::<
                    (Vec<u8>, Vec<u8>),
                >::empty(),
            },
    {
        self.chain().block_at(bi).find_child(storage_key)
    }
}

/// What listing child keys returns: refused on a light node; else all keys
/// of the named child storage carrying the prefix, in order.
pub open spec fn child_storage_keys_spec(
    c: Seq<BlockView>,
    light: bool,
    block: Option<u64>,
    ns: Seq<u8>,
    prefix: Seq<u8>,
    r: Result<Seq<Seq<u8>>, Error>,
) -> bool {
    if light {
        r == Err::<Seq<Seq<u8>>, Error>(Error::Client(ClientError::LightUnsupported))
    } else {
        match resolve_spec(c, block) {
            Ok(bi) => r == Ok::<Seq<Seq<u8>>, Error>(
                selected_keys(child_state_at(c, bi, ns), Some(prefix), None),
            ),
            Err(e) => r == Err::<Seq<Seq<u8>>, Error>(e),
        }
    }
}

/// What a child point lookup returns: the value stored at the key in the
/// named child storage, if any.
pub open spec fn child_storage_spec(
    c: Seq<BlockView>,
    block: Option<u64>,
    ns: Seq<u8>,
    key: Seq<u8>,
    r: Result<Option<Seq<u8>>, Error>,
) -> bool {
    match resolve_spec(c, block) {
        Ok(bi) => r == Ok::<Option<Seq<u8>>, Error>(map_get(child_state_at(c, bi, ns), key)),
        Err(e) => r == Err::<Option<Seq<u8>>, Error>(e),
    }
}

/// What a child hash lookup returns: the digest of the stored value, if one
/// is stored.
pub open spec fn child_storage_hash_spec(
    c: Seq<BlockView>,
    block: Option<u64>,
    ns: Seq<u8>,
    key: Seq<u8>,
    r: Result<Option<u64>, Error>,
) -> bool {
    match resolve_spec(c, block) {
        Ok(bi) => (match (r, map_get(child_state_at(c, bi, ns), key)) {
            (Ok(Some(h)), Some(v)) => h == hash_fold(v),
            (Ok(None), None) => true,
            _ => false,
        }),
        Err(e) => r == Err::<Option<u64>, Error>(e),
    }
}

/// What a child size lookup returns: the exact length of the entry at the
/// key, if one is stored.
pub open spec fn child_storage_size_spec(
    c: Seq<BlockView>,
    block: Option<u64>,
    ns: Seq<u8>,
    key: Seq<u8>,
    r: Result<Option<u64>, Error>,
) -> bool {
    match resolve_spec(c, block) {
        Ok(bi) => (match (r, map_get(child_state_at(c, bi, ns), key)) {
            (Ok(Some(n)), Some(v)) => n == v.len(),
            (Ok(None), None) => true,
            _ => false,
        }),
        Err(e) => r == Err::<Option<u64>, Error>(e),
    }
}

impl ChildStateBackend {
    /// Returns the keys with the given prefix from a child storage.
    pub fn storage_keys(&self, block: &Option<u64>, storage_key: &Vec<u8>, prefix: &Vec<u8>) -> (r:
        Result<Vec<Vec<u8>>, Error>)
        requires
            self.wf(),
        ensures
            child_storage_keys_spec(
                self.chain_view(),
                self.is_light(),
                *block,
                storage_key@,
                prefix@,
                res_deep(r),
            ),
    {
        match self {
            ChildStateBackend::Full(_) => {},
            ChildStateBackend::Light(_) => {
                return Err(Error::Client(ClientError::LightUnsupported));
            },
        }
        match self.resolve_index(block) {
            Ok(bi) => {
                match self.child_map(bi, storage_key) {
                    Some(m) => Ok(m.keys_with_prefix(prefix)),
                    None => {
                        let r: Vec<Vec<u8>> = Vec::new();
                        proof {
                            assert(r.deep_view() =~= selected_keys(
                                child_state_at(self.chain_view(), bi as int, storage_key@),
                                Some(prefix@),
                                None,
                            ));
                        }
                        Ok(r)
                    },
                }
            },
            Err(e) => Err(e),
        }
    }

    /// Returns a child storage entry at `key`, if any.
    pub fn storage(&self, block: &Option<u64>, storage_key: &Vec<u8>, key: &Vec<u8>) -> (r: Result<
        Option<Vec<u8>>,
        Error,
    >)
        requires
            self.wf(),
        ensures
            child_storage_spec(self.chain_view(), *block, storage_key@, key@, res_deep(r)),
    {
        match self.resolve_index(block) {
            Ok(bi) => {
                match self.child_map(bi, storage_key) {
                    Some(m) => {
                        let v = m.get(key);
                        proof {
                            lemma_opt_deep(v);
                        }
                        Ok(v)
                    },
                    None => Ok(None),
                }
            },
            Err(e) => Err(e),
        }
    }

    /// Returns the digest of a child storage entry at `key`, if any.
    pub fn storage_hash(&self, block: &Option<u64>, storage_key: &Vec<u8>, key: &Vec<u8>) -> (r:
        Result<Option<u64>, Error>)
        requires
            self.wf(),
        ensures
            child_storage_hash_spec(self.chain_view(), *block, storage_key@, key@, r),
    {
        match self.resolve_index(block) {
            Ok(bi) => {
                match self.child_map(bi, storage_key) {
                    Some(m) => {
                        match m.get(key) {
                            Some(v) => Ok(Some(value_hash(&v))),
                            None => Ok(None),
                        }
                    },
                    None => Ok(None),
                }
            },
            Err(e) => Err(e),
        }
    }

    /// Returns the size of a child storage entry at `key`: its value's exact
    /// length, when one is stored.
    pub fn storage_size(&self, block: &Option<u64>, storage_key: &Vec<u8>, key: &Vec<u8>) -> (r:
        Result<Option<u64>, Error>)
        requires
            self.wf(),
        ensures
            child_storage_size_spec(self.chain_view(), *block, storage_key@, key@, r),
    {
        match self.storage(block, storage_key, key) {
            Ok(Some(v)) => Ok(Some(v.len() as u64)),
            Ok(None) => Ok(None),
            Err(e) => Err(e),
        }
    }

    /// Admission for a child read proof: the named block must resolve.  Proof
    /// generation stands outside; its outcome goes through
    /// `complete_read_proof`.
    pub fn read_child_proof_target(&self, block: &Option<u64>) -> (r: Result<u64, Error>)
        requires
            self.wf(),
        ensures
            match r {
                Ok(h) => resolve_spec(self.chain_view(), *block) matches Ok(bi)
                    && self.chain_view()[bi].hash == h,
                Err(e) => resolve_spec(self.chain_view(), *block) == Err::<int, Error>(e),
            },
    {
        match self.resolve_index(block) {
            Ok(i) => Ok(self.chain().block_at(i).hash()),
            Err(e) => Err(e),
        }
    }
}

/// One request of the child-state method surface; none is safety-gated.
pub enum ChildRequest {
    /// Point value lookup in a child storage (`childstate_getStorage`).
    GetStorage { storage_key: Vec<u8>, key: Vec<u8>, block: Option<u64> },
    /// List a child storage's keys by prefix (`childstate_getKeys`).
    GetKeys { storage_key: Vec<u8>, prefix: Vec<u8>, block: Option<u64> },
    /// Point value-hash lookup in a child storage
    /// (`childstate_getStorageHash`).
    GetStorageHash { storage_key: Vec<u8>, key: Vec<u8>, block: Option<u64> },
    /// Point size lookup in a child storage (`childstate_getStorageSize`).
    GetStorageSize { storage_key: Vec<u8>, key: Vec<u8>, block: Option<u64> },
}

/// One response of the child-state method surface.
pub enum ChildResponse {
    /// An optional value.
    Value(Option<Vec<u8>>),
    /// Keys.
    Keys(Vec<Vec<u8>>),
    /// An optional value digest.
    ValueHash(Option<u64>),
    /// An optional size.
    Size(Option<u64>),
}

/// What an admitted child request returns, method by method.
pub open spec fn child_dispatched_spec(
    c: Seq<BlockView>,
    light: bool,
    req: ChildRequest,
    r: Result<ChildResponse, Error>,
) -> bool {
    match req {
        ChildRequest::GetStorage { storage_key, key, block } => (match r {
            Ok(ChildResponse::Value(v)) => child_storage_spec(
                c,
                block,
                storage_key@,
                key@,
                Ok(v.deep_view()),
            ),
            Err(e) => child_storage_spec(c, block, storage_key@, key@, Err(e)),
            _ => false,
        }),
        ChildRequest::GetKeys { storage_key, prefix, block } => (match r {
            Ok(ChildResponse::Keys(ks)) => child_storage_keys_spec(
                c,
                light,
                block,
                storage_key@,
                prefix@,
                Ok(ks.deep_view()),
            ),
            Err(e) => child_storage_keys_spec(c, light, block, storage_key@, prefix@, Err(e)),
            _ => false,
        }),
        ChildRequest::GetStorageHash { storage_key, key, block } => (match r {
            Ok(ChildResponse::ValueHash(h)) => child_storage_hash_spec(
                c,
                block,
                storage_key@,
                key@,
                Ok(h),
            ),
            Err(e) => child_storage_hash_spec(c, block, storage_key@, key@, Err(e)),
            _ => false,
        }),
        ChildRequest::GetStorageSize { storage_key, key, block } => (match r {
            Ok(ChildResponse::Size(n)) => child_storage_size_spec(c, block, storage_key@, key@, Ok(n)),
            Err(e) => child_storage_size_spec(c, block, storage_key@, key@, Err(e)),
            _ => false,
        }),
    }
}

/// The child-state API: one backend, chosen at construction and immutable.
pub struct ChildState {
    /// The backend answering the queries.
    pub backend: ChildStateBackend,
}

impl ChildState {
    /// Handles one decoded child-state request.  No child method is
    /// safety-gated, so every request reaches the backend.
    pub fn handle(&self, req: &ChildRequest) -> (r: Result<ChildResponse, Error>)
        requires
            self.backend.wf(),
        ensures
            child_dispatched_spec(self.backend.chain_view(), self.backend.is_light(), *req, r),
            r != Err::<ChildResponse, Error>(Error::Unsafe),
    {
        match req {
            ChildRequest::GetStorage { storage_key, key, block } => {
                match self.backend.storage(block, storage_key, key) {
                    Ok(v) => Ok(ChildResponse::Value(v)),
                    Err(e) => Err(e),
                }
            },
            ChildRequest::GetKeys { storage_key, prefix, block } => {
                match self.backend.storage_keys(block, storage_key, prefix) {
                    Ok(ks) => Ok(ChildResponse::Keys(ks)),
                    Err(e) => Err(e),
                }
            },
            ChildRequest::GetStorageHash { storage_key, key, block } => {
                match self.backend.storage_hash(block, storage_key, key) {
                    Ok(h) => Ok(ChildResponse::ValueHash(h)),
                    Err(e) => Err(e),
                }
            },
            ChildRequest::GetStorageSize { storage_key, key, block } => {
                match self.backend.storage_size(block, storage_key, key) {
                    Ok(n) => Ok(ChildResponse::Size(n)),
                    Err(e) => Err(e),
                }
            },
        }
    }
}

} // verus!
