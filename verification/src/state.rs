//! The state backend and its dispatch surface.
//!
//! One backend is chosen at construction — a full node answering from local
//! state, or a light node answering point queries from proof-verified remote
//! data — and held immutably for the service's lifetime.  A light backend
//! cannot serve unbounded enumeration queries by proofs alone and refuses
//! them; this asymmetry is deliberate and part of the contract.  The dispatch
//! surface checks the safety policy and the page bound before any backend
//! work.

use vstd::prelude::*;

use crate::bytes::copy_bytes;
use crate::bytes::hash_fold;
use crate::bytes::lemma_bytes_deep;
use crate::bytes::opt_view;
use crate::bytes::value_hash;
use crate::chain::BlockView;
use crate::chain::Chain;
use crate::chain::hash_found;
use crate::chain::lemma_hash_index_unique;
use crate::chain::resolve_spec;
use crate::chain::value_at;
use crate::codec::decode_version;
use crate::codec::encoded_version;
use crate::codec::version_fits;
use crate::error::ClientError;
use crate::error::DenyUnsafe;
use crate::error::Error;
use crate::storage_map::map_size;
use crate::storage_map::paged_keys;
use crate::storage_map::selected_keys;
use crate::storage_map::selected_pairs;
use crate::version::RuntimeVersion;
use crate::version::VersionView;

verus! {

/// The page bound: no paged key listing returns more than this many keys,
/// and requests beyond it are rejected before the backend runs.
pub const STORAGE_KEYS_PAGED_MAX_COUNT: u32 = 1000;

/// A result with its payload seen mathematically.
pub open spec fn res_deep<T: DeepView>(r: Result<T, Error>) -> Result<T::V, Error> {
    match r {
        Ok(v) => Ok(v.deep_view()),
        Err(e) => Err(e),
    }
}

/// An optional byte vector's deep view is its optional byte sequence.
pub proof fn lemma_opt_deep(o: Option<Vec<u8>>)
    ensures
        o.deep_view() == opt_view(o),
{
    match o {
        Some(v) => {
            lemma_bytes_deep(v);
        },
        None => {},
    }
}

/// The blob is the encoding of this descriptor.
pub open spec fn decodes_to(blob: Seq<u8>, w: VersionView) -> bool {
    version_fits(w) && blob == encoded_version(w)
}

/// The state backend: a closed set of two variants behind one operation set,
/// chosen once at service construction.
pub enum StateBackend {
    /// A full node: every operation is answered from local state.
    Full(Chain),
    /// A light node: point reads are answered from proof-verified remote
    /// data (modelled by the verified view the fetcher maintains), while
    /// unbounded enumeration is refused.
    Light(Chain),
}

impl StateBackend {
    /// The chain the backend answers from.
    pub open spec fn chain_view(&self) -> Seq<BlockView> {
        match self {
            StateBackend::Full(c) => c@,
            StateBackend::Light(c) => c@,
        }
    }

    /// Whether this is the light variant.
    pub open spec fn is_light(&self) -> bool {
        match self {
            StateBackend::Full(_) => false,
            StateBackend::Light(_) => true,
        }
    }

    /// Well-formedness of the underlying chain.
    pub open spec fn wf(&self) -> bool {
        match self {
            StateBackend::Full(c) => c.wf(),
            StateBackend::Light(c) => c.wf(),
        }
    }

    /// The underlying chain.
    fn chain(&self) -> (r: &Chain)
        ensures
            r@ == self.chain_view(),
            self.wf() ==> r.wf(),
    {
        match self {
            StateBackend::Full(c) => c,
            StateBackend::Light(c) => c,
        }
    }

    /// Resolves a block reference as `resolve_spec` says.
    fn resolve_index(&self, block: &Option<u64>) -> (r: Result<usize, Error>)
        requires
            self.wf(),
        ensures
            match r {
                Ok(i) => i < self.chain_view().len() && resolve_spec(self.chain_view(), *block)
                    == Ok::<int, Error>(i as int),
                Err(e) => resolve_spec(self.chain_view(), *block) == Err::<int, Error>(e),
            },
    {
        let c = self.chain();
        let r = c.resolve(block);
        proof {
            let cv = self.chain_view();
            match r {
                Ok(i) => {
                    match block {
                        Some(h) => {
                            lemma_hash_index_unique(cv, *h, i as int);
                        },
                        None => {},
                    }
                },
                Err(_) => {},
            }
        }
        r
    }
}

/// Mathematical content of a `StorageChangeSet`.
pub struct ChangeSetView {
    pub block: u64,
    pub changes: Seq<(Seq<u8>, Option<Seq<u8>>)>,
}

/// The changes observed at one block: for each reported key, its value there
/// (absent means deleted or never present).
#[derive(Debug)]
pub struct StorageChangeSet {
    /// The block the changes belong to.
    pub block: u64,
    /// The reported keys with their values.
    pub changes: Vec<(Vec<u8>, Option<Vec<u8>>)>,
}

impl View for StorageChangeSet {
    type V = ChangeSetView;

    open spec fn view(&self) -> ChangeSetView {
        ChangeSetView { block: self.block, changes: self.changes.deep_view() }
    }
}

impl DeepView for StorageChangeSet {
    type V = ChangeSetView;

    open spec fn deep_view(&self) -> ChangeSetView {
        self@
    }
}

/// The change list is the complete snapshot of the requested keys at block
/// `bi`: one entry per key, in request order, present-or-absent.
pub open spec fn is_snapshot(
    ch: Seq<(Seq<u8>, Option<Seq<u8>>)>,
    c: Seq<BlockView>,
    bi: int,
    kv: Seq<Seq<u8>>,
) -> bool {
    ch.len() == kv.len() && forall|j: int|
        0 <= j < kv.len() ==> #[trigger] ch[j] == (kv[j], value_at(c, bi, kv[j]))
}

/// The requested keys whose value at block `bi` differs from the block
/// before, in request order.
pub open spec fn changed_keys(c: Seq<BlockView>, bi: int, kv: Seq<Seq<u8>>) -> Seq<Seq<u8>>
    decreases kv.len(),
{
    if kv.len() == 0 {
        Seq::empty()
    } else {
        let rest = changed_keys(c, bi, kv.drop_last());
        if value_at(c, bi, kv.last()) != value_at(c, bi - 1, kv.last()) {
            rest.push(kv.last())
        } else {
            rest
        }
    }
}

/// The change list holds exactly the keys whose value changed at block `bi`,
/// each with its value there.
pub open spec fn is_diff(
    ch: Seq<(Seq<u8>, Option<Seq<u8>>)>,
    c: Seq<BlockView>,
    bi: int,
    kv: Seq<Seq<u8>>,
) -> bool {
    let ck = changed_keys(c, bi, kv);
    ch.len() == ck.len() && forall|j: int|
        0 <= j < ck.len() ==> #[trigger] ch[j] == (ck[j], value_at(c, bi, ck[j]))
}

/// What a historical range query returns: per block of the resolved range,
/// first the snapshot at `from`, then one diff per following block.
pub open spec fn query_storage_spec(
    c: Seq<BlockView>,
    from: u64,
    to: Option<u64>,
    kv: Seq<Seq<u8>>,
    r: Result<Seq<ChangeSetView>, Error>,
) -> bool {
    match (resolve_spec(c, Some(from)), resolve_spec(c, to)) {
        (Ok(fi), Ok(ti)) => {
            if fi > ti {
                r == Err::<Seq<ChangeSetView>, Error>(Error::InvalidParams)
            } else {
                &&& r matches Ok(sets)
                &&& (r matches Ok(sets) ==> {
                    &&& sets.len() == ti - fi + 1
                    &&& (forall|t: int|
                        0 <= t < sets.len() ==> (#[trigger] sets[t]).block == c[fi + t].hash)
                    &&& is_snapshot(sets[0].changes, c, fi, kv)
                    &&& (forall|t: int|
                        1 <= t < sets.len() ==> is_diff((#[trigger] sets[t]).changes, c, fi + t, kv))
                })
            }
        },
        (Err(e), _) => r == Err::<Seq<ChangeSetView>, Error>(e),
        (Ok(_), Err(e)) => r == Err::<Seq<ChangeSetView>, Error>(e),
    }
}

/// What a point-in-time query returns: a single change set holding the
/// snapshot of the requested keys at the resolved block.
pub open spec fn query_storage_at_spec(
    c: Seq<BlockView>,
    at: Option<u64>,
    kv: Seq<Seq<u8>>,
    r: Result<Seq<ChangeSetView>, Error>,
) -> bool {
    match resolve_spec(c, at) {
        Ok(ai) => {
            &&& r matches Ok(sets)
            &&& (r matches Ok(sets) ==> sets.len() == 1 && sets[0].block == c[ai].hash
                && is_snapshot(sets[0].changes, c, ai, kv))
        },
        Err(e) => r == Err::<Seq<ChangeSetView>, Error>(e),
    }
}

/// Builds the snapshot of `keys` at block `bi`.
fn snapshot_changes(chain: &Chain, bi: usize, keys: &Vec<Vec<u8>>) -> (ch: Vec<
    (Vec<u8>, Option<Vec<u8>>),
>)
    requires
        chain.wf(),
        bi < chain@.len(),
    ensures
        is_snapshot(ch.deep_view(), chain@, bi as int, keys.deep_view()),
{
    let ghost c = chain@;
    let ghost kd = keys.deep_view();
    let state = chain.block_at(bi).state();
    let mut ch: Vec<(Vec<u8>, Option<Vec<u8>>)> = Vec::new();
    let mut j: usize = 0;
    while j < keys.len()
        invariant
            chain.wf(),
            c == chain@,
            kd == keys.deep_view(),
            bi < c.len(),
            state@ == c[bi as int].state,
            j <= keys@.len(),
            ch.deep_view().len() == j,
            forall|x: int|
                0 <= x < j ==> #[trigger] ch.deep_view()[x] == (kd[x], value_at(c, bi as int, kd[x])),
        decreases keys@.len() - j,
    {
        let k = copy_bytes(&keys[j]);
        let v = state.get(&keys[j]);
        proof {
            lemma_bytes_deep(k);
            lemma_bytes_deep(keys@[j as int]);
            lemma_opt_deep(v);
        }
        let ghost pre = ch.deep_view();
        ch.push((k, v));
        proof {
            assert(ch.deep_view() =~= pre.push((kd[j as int], value_at(c, bi as int, kd[
                j as int]))));
        }
        j = j + 1;
    }
    ch
}

/// Builds the diff of `keys` at block `bi` against the block before.
fn diff_changes(chain: &Chain, bi: usize, keys: &Vec<Vec<u8>>) -> (ch: Vec<
    (Vec<u8>, Option<Vec<u8>>),
>)
    requires
        chain.wf(),
        1 <= bi < chain@.len(),
    ensures
        is_diff(ch.deep_view(), chain@, bi as int, keys.deep_view()),
{
    let ghost c = chain@;
    let ghost kd = keys.deep_view();
    let state = chain.block_at(bi).state();
    let prev_state = chain.block_at(bi - 1).state();
    let mut ch: Vec<(Vec<u8>, Option<Vec<u8>>)> = Vec::new();
    let mut j: usize = 0;
    proof {
        assert(kd.take(0) =~= Seq::<Seq<u8>>::empty());
    }
    while j < keys.len()
        invariant
            chain.wf(),
            c == chain@,
            kd == keys.deep_view(),
            1 <= bi < c.len(),
            state@ == c[bi as int].state,
            prev_state@ == c[bi as int - 1].state,
            j <= keys@.len(),
            is_diff(ch.deep_view(), c, bi as int, kd.take(j as int)),
        decreases keys@.len() - j,
    {
        proof {
            crate::bytes::lemma_take_step(kd, j as int);
            lemma_bytes_deep(keys@[j as int]);
        }
        let cur = state.get(&keys[j]);
        let prev = prev_state.get(&keys[j]);
        proof {
            lemma_opt_deep(cur);
            lemma_opt_deep(prev);
        }
        if !crate::bytes::opt_bytes_eq(&cur, &prev) {
            let k = copy_bytes(&keys[j]);
            proof {
                lemma_bytes_deep(k);
            }
            let ghost pre = ch.deep_view();
            ch.push((k, cur));
            proof {
                assert(ch.deep_view() =~= pre.push((kd[j as int], value_at(c, bi as int, kd[
                    j as int]))));
            }
        }
        j = j + 1;
    }
    proof {
        assert(kd.take(keys@.len() as int) =~= kd);
    }
    ch
}

/// What listing keys by prefix returns: refused on a light node; else all
/// keys of the resolved block's state carrying the prefix, in order.
pub open spec fn storage_keys_spec(
    c: Seq<BlockView>,
    light: bool,
    block: Option<u64>,
    prefix: Seq<u8>,
    r: Result<Seq<Seq<u8>>, Error>,
) -> bool {
    if light {
        r == Err::<Seq<Seq<u8>>, Error>(Error::Client(ClientError::LightUnsupported))
    } else {
        match resolve_spec(c, block) {
            Ok(bi) => r == Ok::<Seq<Seq<u8>>, Error>(selected_keys(c[bi].state, Some(prefix), None)),
            Err(e) => r == Err::<Seq<Seq<u8>>, Error>(e),
        }
    }
}

/// What listing pairs by prefix returns: refused on a light node; else all
/// entries of the resolved block's state whose key carries the prefix.
pub open spec fn storage_pairs_spec(
    c: Seq<BlockView>,
    light: bool,
    block: Option<u64>,
    prefix: Seq<u8>,
    r: Result<Seq<(Seq<u8>, Seq<u8>)>, Error>,
) -> bool {
    if light {
        r == Err::<Seq<(Seq<u8>, Seq<u8>)>, Error>(Error::Client(ClientError::LightUnsupported))
    } else {
        match resolve_spec(c, block) {
            Ok(bi) => r == Ok::<Seq<(Seq<u8>, Seq<u8>)>, Error>(selected_pairs(c[bi].state, prefix)),
            Err(e) => r == Err::<Seq<(Seq<u8>, Seq<u8>)>, Error>(e),
        }
    }
}

/// What a paged key listing returns: the filtered keys of the resolved
/// block's state, cut to `count`.
pub open spec fn keys_paged_spec(
    c: Seq<BlockView>,
    block: Option<u64>,
    prefix: Option<Seq<u8>>,
    count: int,
    start: Option<Seq<u8>>,
    r: Result<Seq<Seq<u8>>, Error>,
) -> bool {
    match resolve_spec(c, block) {
        Ok(bi) => r == Ok::<Seq<Seq<u8>>, Error>(paged_keys(c[bi].state, prefix, start, count)),
        Err(e) => r == Err::<Seq<Seq<u8>>, Error>(e),
    }
}

/// What a point lookup returns: the value stored at the key in the resolved
/// block's state, if any.
pub open spec fn storage_spec(
    c: Seq<BlockView>,
    block: Option<u64>,
    key: Seq<u8>,
    r: Result<Option<Seq<u8>>, Error>,
) -> bool {
    match resolve_spec(c, block) {
        Ok(bi) => r == Ok::<Option<Seq<u8>>, Error>(value_at(c, bi, key)),
        Err(e) => r == Err::<Option<Seq<u8>>, Error>(e),
    }
}

/// What a hash lookup returns: the digest of the stored value, if one is
/// stored.
pub open spec fn storage_hash_spec(
    c: Seq<BlockView>,
    block: Option<u64>,
    key: Seq<u8>,
    r: Result<Option<u64>, Error>,
) -> bool {
    match resolve_spec(c, block) {
        Ok(bi) => (match (r, value_at(c, bi, key)) {
            (Ok(Some(h)), Some(v)) => h == hash_fold(v),
            (Ok(None), None) => true,
            _ => false,
        }),
        Err(e) => r == Err::<Option<u64>, Error>(e),
    }
}

/// What a size lookup returns: the exact length of the entry at the key, or
/// the summed length of the strictly prefixed entries, or nothing.
pub open spec fn storage_size_spec(
    c: Seq<BlockView>,
    block: Option<u64>,
    key: Seq<u8>,
    r: Result<Option<u64>, Error>,
) -> bool {
    match resolve_spec(c, block) {
        Ok(bi) => (match (r, map_size(c[bi].state, key)) {
            (Ok(Some(n)), Some(m)) => n == m,
            (Ok(None), None) => true,
            _ => false,
        }),
        Err(e) => r == Err::<Option<u64>, Error>(e),
    }
}

/// What a metadata request returns: the blob stored at the resolved block.
pub open spec fn metadata_spec(
    c: Seq<BlockView>,
    block: Option<u64>,
    r: Result<Seq<u8>, Error>,
) -> bool {
    match resolve_spec(c, block) {
        Ok(bi) => r == Ok::<Seq<u8>, Error>(c[bi].metadata),
        Err(e) => r == Err::<Seq<u8>, Error>(e),
    }
}

/// What a version request returns: the descriptor the resolved block's blob
/// encodes, or a decode error when the blob encodes none.
pub open spec fn runtime_version_spec(
    c: Seq<BlockView>,
    block: Option<u64>,
    r: Result<VersionView, Error>,
) -> bool {
    match resolve_spec(c, block) {
        Ok(bi) => (match r {
            Ok(v) => decodes_to(c[bi].version_blob, v),
            Err(e) => e == Error::DecodeError && (forall|w: VersionView|
                !decodes_to(c[bi].version_blob, w)),
        }),
        Err(e) => r == Err::<VersionView, Error>(e),
    }
}

impl StateBackend {
    /// Returns the keys with the given prefix, without a bound.
    pub fn storage_keys(&self, block: &Option<u64>, prefix: &Vec<u8>) -> (r: Result<
        Vec<Vec<u8>>,
        Error,
    >)
        requires
            self.wf(),
        ensures
            storage_keys_spec(self.chain_view(), self.is_light(), *block, prefix@, res_deep(r)),
    {
        let chain = match self {
            StateBackend::Full(c) => c,
            StateBackend::Light(_) => {
                return Err(Error::Client(ClientError::LightUnsupported));
            },
        };
        match self.resolve_index(block) {
            Ok(bi) => Ok(chain.block_at(bi).state().keys_with_prefix(prefix)),
            Err(e) => Err(e),
        }
    }

    /// Returns the keys with the given prefix along with their values.
    pub fn storage_pairs(&self, block: &Option<u64>, prefix: &Vec<u8>) -> (r: Result<
        Vec<(Vec<u8>, Vec<u8>)>,
        Error,
    >)
        requires
            self.wf(),
        ensures
            storage_pairs_spec(self.chain_view(), self.is_light(), *block, prefix@, res_deep(r)),
    {
        let chain = match self {
            StateBackend::Full(c) => c,
            StateBackend::Light(_) => {
                return Err(Error::Client(ClientError::LightUnsupported));
            },
        };
        match self.resolve_index(block) {
            Ok(bi) => Ok(chain.block_at(bi).state().pairs_with_prefix(prefix)),
            Err(e) => Err(e),
        }
    }

    /// Returns the keys with the given prefix, starting strictly after
    /// `start_key`, at most `count` of them.
    pub fn storage_keys_paged(
        &self,
        block: &Option<u64>,
        prefix: &Option<Vec<u8>>,
        count: u32,
        start_key: &Option<Vec<u8>>,
    ) -> (r: Result<Vec<Vec<u8>>, Error>)
        requires
            self.wf(),
        ensures
            keys_paged_spec(
                self.chain_view(),
                *block,
                opt_view(*prefix),
                count as int,
                opt_view(*start_key),
                res_deep(r),
            ),
    {
        match self.resolve_index(block) {
            Ok(bi) => Ok(self.chain().block_at(bi).state().keys_paged(prefix, count, start_key)),
            Err(e) => Err(e),
        }
    }

    /// Returns the storage entry at `key`, if any.
    pub fn storage(&self, block: &Option<u64>, key: &Vec<u8>) -> (r: Result<Option<Vec<u8>>, Error>)
        requires
            self.wf(),
        ensures
            storage_spec(self.chain_view(), *block, key@, res_deep(r)),
    {
        match self.resolve_index(block) {
            Ok(bi) => {
                let v = self.chain().block_at(bi).state().get(key);
                proof {
                    lemma_opt_deep(v);
                }
                Ok(v)
            },
            Err(e) => Err(e),
        }
    }

    /// Returns the digest of the storage entry at `key`, if any.
    pub fn storage_hash(&self, block: &Option<u64>, key: &Vec<u8>) -> (r: Result<Option<u64>, Error>)
        requires
            self.wf(),
        ensures
            storage_hash_spec(self.chain_view(), *block, key@, r),
    {
        match self.resolve_index(block) {
            Ok(bi) => {
                match self.chain().block_at(bi).state().get(key) {
                    Some(v) => Ok(Some(value_hash(&v))),
                    None => Ok(None),
                }
            },
            Err(e) => Err(e),
        }
    }

    /// Returns the size reported for `key`: the entry's exact length, or the
    /// summed length of the entries it strictly prefixes.
    pub fn storage_size(&self, block: &Option<u64>, key: &Vec<u8>) -> (r: Result<Option<u64>, Error>)
        requires
            self.wf(),
        ensures
            storage_size_spec(self.chain_view(), *block, key@, r),
    {
        match self.resolve_index(block) {
            Ok(bi) => Ok(self.chain().block_at(bi).state().size_of(key)),
            Err(e) => Err(e),
        }
    }

    /// Returns the runtime metadata blob stored at the block.
    pub fn metadata(&self, block: &Option<u64>) -> (r: Result<Vec<u8>, Error>)
        requires
            self.wf(),
        ensures
            metadata_spec(self.chain_view(), *block, res_deep(r)),
    {
        match self.resolve_index(block) {
            Ok(bi) => {
                let m = self.chain().block_at(bi).metadata();
                proof {
                    lemma_bytes_deep(m);
                }
                Ok(m)
            },
            Err(e) => Err(e),
        }
    }

    /// Queries historical storage entries for `keys` over the block range
    /// from `from` to `to` (absent: the current best block).  The first
    /// change set is a complete snapshot of every key at `from`; each later
    /// one holds exactly the keys whose value differs from the block before.
    pub fn query_storage(&self, from: u64, to: &Option<u64>, keys: &Vec<Vec<u8>>) -> (r: Result<
        Vec<StorageChangeSet>,
        Error,
    >)
        requires
            self.wf(),
        ensures
            query_storage_spec(self.chain_view(), from, *to, keys.deep_view(), res_deep(r)),
    {
        let ghost c = self.chain_view();
        let ghost kd = keys.deep_view();
        let from_ref = Some(from);
        let fi = match self.resolve_index(&from_ref) {
            Ok(i) => i,
            Err(e) => {
                return Err(e);
            },
        };
        let ti = match self.resolve_index(to) {
            Ok(i) => i,
            Err(e) => {
                return Err(e);
            },
        };
        if fi > ti {
            return Err(Error::InvalidParams);
        }
        let chain = self.chain();
        let n = chain.len();
        let mut sets: Vec<StorageChangeSet> = Vec::new();
        let ch0 = snapshot_changes(chain, fi, keys);
        sets.push(StorageChangeSet { block: chain.block_at(fi).hash(), changes: ch0 });
        let mut t = fi + 1;
        while t <= ti
            invariant
                self.wf(),
                c == self.chain_view(),
                chain.wf(),
                chain@ == c,
                n == c.len(),
                kd == keys.deep_view(),
                fi <= ti < c.len(),
                fi + 1 <= t <= ti + 1,
                sets@.len() == t - fi,
                forall|x: int| 0 <= x < sets@.len() ==> (#[trigger] sets@[x])@.block == c[fi + x].hash,
                is_snapshot(sets@[0]@.changes, c, fi as int, kd),
                forall|x: int|
                    1 <= x < sets@.len() ==> is_diff((#[trigger] sets@[x])@.changes, c, fi + x, kd),
            decreases ti + 1 - t,
        {
            let ch = diff_changes(chain, t, keys);
            sets.push(StorageChangeSet { block: chain.block_at(t).hash(), changes: ch });
            t = t + 1;
        }
        proof {
            let sv = sets.deep_view();
            assert(forall|x: int| 0 <= x < sets@.len() ==> sv[x] == (#[trigger] sets@[x])@);
        }
        Ok(sets)
    }

    /// Queries storage entries for `keys` at one block: a single change set
    /// holding the snapshot of every key there.
    pub fn query_storage_at(&self, keys: &Vec<Vec<u8>>, at: &Option<u64>) -> (r: Result<
        Vec<StorageChangeSet>,
        Error,
    >)
        requires
            self.wf(),
        ensures
            query_storage_at_spec(self.chain_view(), *at, keys.deep_view(), res_deep(r)),
    {
        let ai = match self.resolve_index(at) {
            Ok(i) => i,
            Err(e) => {
                return Err(e);
            },
        };
        let chain = self.chain();
        let ch = snapshot_changes(chain, ai, keys);
        let mut sets: Vec<StorageChangeSet> = Vec::new();
        sets.push(StorageChangeSet { block: chain.block_at(ai).hash(), changes: ch });
        proof {
            assert(sets.deep_view()[0] == sets@[0]@);
        }
        Ok(sets)
    }

    /// Returns the runtime version active at the block, decoded from the
    /// stored blob.
    pub fn runtime_version(&self, block: &Option<u64>) -> (r: Result<RuntimeVersion, Error>)
        requires
            self.wf(),
        ensures
            runtime_version_spec(
                self.chain_view(),
                *block,
                match r {
                    Ok(v) => Ok(v@),
                    Err(e) => Err(e),
                },
            ),
    {
        match self.resolve_index(block) {
            Ok(bi) => {
                match decode_version(self.chain().block_at(bi).version_blob()) {
                    Some(v) => Ok(v),
                    None => Err(Error::DecodeError),
                }
            },
            Err(e) => Err(e),
        }
    }
}

/// A key whose value at block `bi` equals its value at the block before is
/// never among the changed keys, whatever keys were requested.
pub proof fn lemma_constant_key_never_diffed(
    c: Seq<BlockView>,
    bi: int,
    kv: Seq<Seq<u8>>,
    k: Seq<u8>,
)
    requires
        value_at(c, bi, k) == value_at(c, bi - 1, k),
    ensures
        forall|j: int|
            0 <= j < changed_keys(c, bi, kv).len() ==> #[trigger] changed_keys(c, bi, kv)[j] != k,
    decreases kv.len(),
{
    if kv.len() > 0 {
        lemma_constant_key_never_diffed(c, bi, kv.drop_last(), k);
        let rest = changed_keys(c, bi, kv.drop_last());
        let whole = changed_keys(c, bi, kv);
        assert forall|j: int| 0 <= j < whole.len() implies #[trigger] whole[j] != k by {
            if j < rest.len() {
                assert(whole[j] == rest[j]);
            } else {
                assert(whole[j] == kv.last());
            }
        }
    }
}

/// A key whose value never changes across the queried range appears in no
/// change set after the initial snapshot, whatever keys were requested.
pub proof fn lemma_constant_key_only_in_snapshot(
    c: Seq<BlockView>,
    sets: Seq<ChangeSetView>,
    fi: int,
    kv: Seq<Seq<u8>>,
    k: Seq<u8>,
)
    requires
        forall|t: int|
            1 <= t < sets.len() ==> is_diff((#[trigger] sets[t]).changes, c, fi + t, kv),
        forall|t: int|
            1 <= t < sets.len() ==> #[trigger] value_at(c, fi + t, k) == value_at(
                c,
                fi + t - 1,
                k,
            ),
    ensures
        forall|t: int, j: int|
            1 <= t < sets.len() && 0 <= j < sets[t].changes.len() ==> (#[trigger] sets[t].changes[
                j
            ]).0 != k,
{
    assert forall|t: int, j: int|
        1 <= t < sets.len() && 0 <= j < sets[t].changes.len() implies (#[trigger] sets[t].changes[
        j
    ]).0 != k by {
        lemma_constant_key_never_diffed(c, fi + t, kv, k);
        let ck = changed_keys(c, fi + t, kv);
        assert(sets[t].changes[j] == (ck[j], value_at(c, fi + t, ck[j])));
    }
}

/// A Merkle-style proof of the requested keys' presence or values, scoped to
/// the state root of one block.  The blobs themselves come from the trie
/// engine and are opaque here.
#[derive(Debug)]
pub struct ReadProof {
    /// The block the proof is valid against.
    pub at: u64,
    /// The opaque proof blobs.
    pub blobs: Vec<Vec<u8>>,
}

/// One request of the state method surface, with its decoded parameters.
/// Opaque runtime calls, proofs and traces run in two phases instead (see
/// `call_target`, `read_proof_target`, `trace_block_target`).
pub enum StateRequest {
    /// List keys by prefix, unbounded (`state_getKeys`).
    GetKeys { prefix: Vec<u8>, block: Option<u64> },
    /// List key/value pairs by prefix, unbounded (`state_getPairs`).
    GetPairs { prefix: Vec<u8>, block: Option<u64> },
    /// List keys by prefix, strictly after a start key, at most `count`
    /// (`state_getKeysPaged`).
    GetKeysPaged {
        prefix: Option<Vec<u8>>,
        count: u32,
        start_key: Option<Vec<u8>>,
        block: Option<u64>,
    },
    /// Point value lookup (`state_getStorage`).
    GetStorage { key: Vec<u8>, block: Option<u64> },
    /// Point value-hash lookup (`state_getStorageHash`).
    GetStorageHash { key: Vec<u8>, block: Option<u64> },
    /// Point or aggregate size lookup (`state_getStorageSize`).
    GetStorageSize { key: Vec<u8>, block: Option<u64> },
    /// Opaque runtime metadata (`state_getMetadata`).
    GetMetadata { block: Option<u64> },
    /// Runtime version at a block (`state_getRuntimeVersion`).
    GetRuntimeVersion { block: Option<u64> },
    /// Historical diff over a range (`state_queryStorage`).
    QueryStorage { keys: Vec<Vec<u8>>, from: u64, to: Option<u64> },
    /// Diff at one block (`state_queryStorageAt`).
    QueryStorageAt { keys: Vec<Vec<u8>>, at: Option<u64> },
}

/// One response of the state method surface.
pub enum StateResponse {
    /// Keys, for the listing methods.
    Keys(Vec<Vec<u8>>),
    /// Key/value pairs.
    Pairs(Vec<(Vec<u8>, Vec<u8>)>),
    /// An optional value.
    Value(Option<Vec<u8>>),
    /// An optional value digest.
    ValueHash(Option<u64>),
    /// An optional size.
    Size(Option<u64>),
    /// The metadata blob.
    Metadata(Vec<u8>),
    /// The runtime version.
    Version(RuntimeVersion),
    /// Change sets, for the historical queries.
    ChangeSets(Vec<StorageChangeSet>),
}

/// Whether the safety policy gates this method against unsafe callers.
pub open spec fn is_gated(req: StateRequest) -> bool {
    match req {
        StateRequest::GetPairs { .. } => true,
        StateRequest::GetRuntimeVersion { .. } => true,
        StateRequest::QueryStorage { .. } => true,
        StateRequest::QueryStorageAt { .. } => true,
        _ => false,
    }
}

/// Whether the request asks for a page beyond the bound.
pub open spec fn count_exceeded(req: StateRequest) -> bool {
    match req {
        StateRequest::GetKeysPaged { count, .. } => count > STORAGE_KEYS_PAGED_MAX_COUNT,
        _ => false,
    }
}

/// What an admitted request returns, method by method.
pub open spec fn dispatched_spec(
    c: Seq<BlockView>,
    light: bool,
    req: StateRequest,
    r: Result<StateResponse, Error>,
) -> bool {
    match req {
        StateRequest::GetKeys { prefix, block } => (match r {
            Ok(StateResponse::Keys(ks)) => storage_keys_spec(
                c,
                light,
                block,
                prefix@,
                Ok(ks.deep_view()),
            ),
            Err(e) => storage_keys_spec(c, light, block, prefix@, Err(e)),
            _ => false,
        }),
        StateRequest::GetPairs { prefix, block } => (match r {
            Ok(StateResponse::Pairs(ps)) => storage_pairs_spec(
                c,
                light,
                block,
                prefix@,
                Ok(ps.deep_view()),
            ),
            Err(e) => storage_pairs_spec(c, light, block, prefix@, Err(e)),
            _ => false,
        }),
        StateRequest::GetKeysPaged { prefix, count, start_key, block } => (match r {
            Ok(StateResponse::Keys(ks)) => keys_paged_spec(
                c,
                block,
                opt_view(prefix),
                count as int,
                opt_view(start_key),
                Ok(ks.deep_view()),
            ),
            Err(e) => keys_paged_spec(
                c,
                block,
                opt_view(prefix),
                count as int,
                opt_view(start_key),
                Err(e),
            ),
            _ => false,
        }),
        StateRequest::GetStorage { key, block } => (match r {
            Ok(StateResponse::Value(v)) => storage_spec(c, block, key@, Ok(v.deep_view())),
            Err(e) => storage_spec(c, block, key@, Err(e)),
            _ => false,
        }),
        StateRequest::GetStorageHash { key, block } => (match r {
            Ok(StateResponse::ValueHash(h)) => storage_hash_spec(c, block, key@, Ok(h)),
            Err(e) => storage_hash_spec(c, block, key@, Err(e)),
            _ => false,
        }),
        StateRequest::GetStorageSize { key, block } => (match r {
            Ok(StateResponse::Size(n)) => storage_size_spec(c, block, key@, Ok(n)),
            Err(e) => storage_size_spec(c, block, key@, Err(e)),
            _ => false,
        }),
        StateRequest::GetMetadata { block } => (match r {
            Ok(StateResponse::Metadata(m)) => metadata_spec(c, block, Ok(m.deep_view())),
            Err(e) => metadata_spec(c, block, Err(e)),
            _ => false,
        }),
        StateRequest::GetRuntimeVersion { block } => (match r {
            Ok(StateResponse::Version(v)) => runtime_version_spec(c, block, Ok(v@)),
            Err(e) => runtime_version_spec(c, block, Err(e)),
            _ => false,
        }),
        StateRequest::QueryStorage { keys, from, to } => (match r {
            Ok(StateResponse::ChangeSets(sets)) => query_storage_spec(
                c,
                from,
                to,
                keys.deep_view(),
                Ok(sets.deep_view()),
            ),
            Err(e) => query_storage_spec(c, from, to, keys.deep_view(), Err(e)),
            _ => false,
        }),
        StateRequest::QueryStorageAt { keys, at } => (match r {
            Ok(StateResponse::ChangeSets(sets)) => query_storage_at_spec(
                c,
                at,
                keys.deep_view(),
                Ok(sets.deep_view()),
            ),
            Err(e) => query_storage_at_spec(c, at, keys.deep_view(), Err(e)),
            _ => false,
        }),
    }
}

/// The state API: one backend and the safety policy, both chosen at
/// construction and immutable for the service's lifetime.
pub struct State {
    /// The backend answering the queries.
    pub backend: StateBackend,
    /// Whether calls classified as unsafe are denied.
    pub deny_unsafe: DenyUnsafe,
}

impl State {
    /// Handles one decoded request: the safety gate and the page bound are
    /// checked before any backend work, then the backend answers.
    pub fn handle(&self, req: &StateRequest) -> (r: Result<StateResponse, Error>)
        requires
            self.backend.wf(),
        ensures
            (r == Err::<StateResponse, Error>(Error::Unsafe)) == (self.deny_unsafe
                == DenyUnsafe::Yes && is_gated(*req)),
            count_exceeded(*req) == (r matches Err(Error::InvalidCount { .. })),
            (match *req {
                StateRequest::GetKeysPaged { count, .. } => count > STORAGE_KEYS_PAGED_MAX_COUNT
                    ==> r == Err::<StateResponse, Error>(
                    Error::InvalidCount { value: count, max: STORAGE_KEYS_PAGED_MAX_COUNT },
                ),
                _ => true,
            }),
            !(self.deny_unsafe == DenyUnsafe::Yes && is_gated(*req)) && !count_exceeded(*req)
                ==> dispatched_spec(self.backend.chain_view(), self.backend.is_light(), *req, r),
    {
        let gated = match req {
            StateRequest::GetPairs { .. } => true,
            StateRequest::GetRuntimeVersion { .. } => true,
            StateRequest::QueryStorage { .. } => true,
            StateRequest::QueryStorageAt { .. } => true,
            _ => false,
        };
        if gated {
            match self.deny_unsafe.check_if_safe() {
                Ok(_) => {},
                Err(e) => {
                    return Err(e);
                },
            }
        }
        match req {
            StateRequest::GetKeys { prefix, block } => {
                match self.backend.storage_keys(block, prefix) {
                    Ok(ks) => Ok(StateResponse::Keys(ks)),
                    Err(e) => Err(e),
                }
            },
            StateRequest::GetPairs { prefix, block } => {
                match self.backend.storage_pairs(block, prefix) {
                    Ok(ps) => Ok(StateResponse::Pairs(ps)),
                    Err(e) => Err(e),
                }
            },
            StateRequest::GetKeysPaged { prefix, count, start_key, block } => {
                if *count > STORAGE_KEYS_PAGED_MAX_COUNT {
                    return Err(
                        Error::InvalidCount { value: *count, max: STORAGE_KEYS_PAGED_MAX_COUNT },
                    );
                }
                match self.backend.storage_keys_paged(block, prefix, *count, start_key) {
                    Ok(ks) => Ok(StateResponse::Keys(ks)),
                    Err(e) => Err(e),
                }
            },
            StateRequest::GetStorage { key, block } => {
                match self.backend.storage(block, key) {
                    Ok(v) => Ok(StateResponse::Value(v)),
                    Err(e) => Err(e),
                }
            },
            StateRequest::GetStorageHash { key, block } => {
                match self.backend.storage_hash(block, key) {
                    Ok(h) => Ok(StateResponse::ValueHash(h)),
                    Err(e) => Err(e),
                }
            },
            StateRequest::GetStorageSize { key, block } => {
                match self.backend.storage_size(block, key) {
                    Ok(n) => Ok(StateResponse::Size(n)),
                    Err(e) => Err(e),
                }
            },
            StateRequest::GetMetadata { block } => {
                match self.backend.metadata(block) {
                    Ok(m) => Ok(StateResponse::Metadata(m)),
                    Err(e) => Err(e),
                }
            },
            StateRequest::GetRuntimeVersion { block } => {
                match self.backend.runtime_version(block) {
                    Ok(v) => Ok(StateResponse::Version(v)),
                    Err(e) => Err(e),
                }
            },
            StateRequest::QueryStorage { keys, from, to } => {
                match self.backend.query_storage(*from, to, keys) {
                    Ok(sets) => Ok(StateResponse::ChangeSets(sets)),
                    Err(e) => Err(e),
                }
            },
            StateRequest::QueryStorageAt { keys, at } => {
                match self.backend.query_storage_at(keys, at) {
                    Ok(sets) => Ok(StateResponse::ChangeSets(sets)),
                    Err(e) => Err(e),
                }
            },
        }
    }

    /// One step of a storage subscription watching `keys`: the change set
    /// pushed when block `block` arrives.  A set is delivered exactly when at
    /// least one watched key's value differs from the preceding block; the
    /// first block has no preceding one and delivers nothing.
    pub fn storage_notification(&self, block: u64, keys: &Vec<Vec<u8>>) -> (r: Result<
        Option<StorageChangeSet>,
        Error,
    >)
        requires
            self.backend.wf(),
        ensures
            match resolve_spec(self.backend.chain_view(), Some(block)) {
                Ok(bi) => (match r {
                    Ok(Some(set)) => bi >= 1 && set@.block == block && is_diff(
                        set@.changes,
                        self.backend.chain_view(),
                        bi,
                        keys.deep_view(),
                    ) && set@.changes.len() > 0,
                    Ok(None) => bi == 0 || changed_keys(
                        self.backend.chain_view(),
                        bi,
                        keys.deep_view(),
                    ).len() == 0,
                    Err(_) => false,
                }),
                Err(e) => r == Err::<Option<StorageChangeSet>, Error>(e),
            },
    {
        let block_ref = Some(block);
        let bi = match self.backend.resolve_index(&block_ref) {
            Ok(i) => i,
            Err(e) => {
                return Err(e);
            },
        };
        if bi == 0 {
            return Ok(None);
        }
        let chain = self.backend.chain();
        let ch = diff_changes(chain, bi, keys);
        if ch.len() == 0 {
            proof {
                assert(ch.deep_view().len() == 0);
            }
            return Ok(None);
        }
        Ok(Some(StorageChangeSet { block, changes: ch }))
    }

    /// Admission for an opaque runtime call: resolves the target block before
    /// any execution happens.  The execution itself stands outside; its
    /// outcome goes through `complete_call`.
    pub fn call_target(&self, block: &Option<u64>) -> (r: Result<u64, Error>)
        requires
            self.backend.wf(),
        ensures
            match r {
                Ok(h) => resolve_spec(self.backend.chain_view(), *block) matches Ok(bi)
                    && self.backend.chain_view()[bi].hash == h,
                Err(e) => resolve_spec(self.backend.chain_view(), *block) == Err::<int, Error>(e),
            },
    {
        match self.backend.resolve_index(block) {
            Ok(i) => Ok(self.backend.chain().block_at(i).hash()),
            Err(e) => Err(e),
        }
    }

    /// Admission for a read proof: the safety gate runs first, then the
    /// target block resolves.  Proof generation stands outside; its outcome
    /// goes through `complete_read_proof`.
    pub fn read_proof_target(&self, block: &Option<u64>) -> (r: Result<u64, Error>)
        requires
            self.backend.wf(),
        ensures
            self.deny_unsafe == DenyUnsafe::Yes ==> r == Err::<u64, Error>(Error::Unsafe),
            self.deny_unsafe == DenyUnsafe::No ==> (match r {
                Ok(h) => resolve_spec(self.backend.chain_view(), *block) matches Ok(bi)
                    && self.backend.chain_view()[bi].hash == h,
                Err(e) => resolve_spec(self.backend.chain_view(), *block) == Err::<int, Error>(e),
            }),
    {
        match self.deny_unsafe.check_if_safe() {
            Ok(_) => {},
            Err(e) => {
                return Err(e);
            },
        }
        self.call_target(block)
    }

    /// Admission for an instrumented re-execution: the safety gate runs
    /// first, then the named block must be known.  The tracing stands
    /// outside; its outcome goes through `complete_trace_block`.
    pub fn trace_block_target(&self, block: u64) -> (r: Result<u64, Error>)
        requires
            self.backend.wf(),
        ensures
            self.deny_unsafe == DenyUnsafe::Yes ==> r == Err::<u64, Error>(Error::Unsafe),
            self.deny_unsafe == DenyUnsafe::No ==> (match r {
                Ok(h) => h == block && hash_found(self.backend.chain_view(), block),
                Err(e) => e == Error::UnknownBlock && !hash_found(
                    self.backend.chain_view(),
                    block,
                ),
            }),
    {
        match self.deny_unsafe.check_if_safe() {
            Ok(_) => {},
            Err(e) => {
                return Err(e);
            },
        }
        let block_ref = Some(block);
        match self.backend.resolve_index(&block_ref) {
            Ok(_) => Ok(block),
            Err(e) => Err(e),
        }
    }
}

/// Maps the outcome of an externally executed runtime call into the response
/// envelope: the returned bytes, or a client error.
pub fn complete_call(outcome: Result<Vec<u8>, ClientError>) -> (r: Result<Vec<u8>, Error>)
    ensures
        match outcome {
            Ok(data) => r == Ok::<Vec<u8>, Error>(data),
            Err(f) => r == Err::<Vec<u8>, Error>(Error::Client(f)),
        },
{
    match outcome {
        Ok(data) => Ok(data),
        Err(f) => Err(Error::Client(f)),
    }
}

/// Wraps externally generated proof blobs into a `ReadProof` scoped to the
/// admitted block, or maps the generator's failure to a client error.
pub fn complete_read_proof(at: u64, outcome: Result<Vec<Vec<u8>>, ClientError>) -> (r: Result<
    ReadProof,
    Error,
>)
    ensures
        match outcome {
            Ok(blobs) => r == Ok::<ReadProof, Error>(ReadProof { at, blobs }),
            Err(f) => r == Err::<ReadProof, Error>(Error::Client(f)),
        },
{
    match outcome {
        Ok(blobs) => Ok(ReadProof { at, blobs }),
        Err(f) => Err(Error::Client(f)),
    }
}

/// Maps the outcome of an external instrumented re-execution into the
/// response envelope: the trace blob, or a client error.
pub fn complete_trace_block(outcome: Result<Vec<u8>, ClientError>) -> (r: Result<Vec<u8>, Error>)
    ensures
        match outcome {
            Ok(trace) => r == Ok::<Vec<u8>, Error>(trace),
            Err(f) => r == Err::<Vec<u8>, Error>(Error::Client(f)),
        },
{
    match outcome {
        Ok(trace) => Ok(trace),
        Err(f) => Err(Error::Client(f)),
    }
}

/// Creates the state and child-state APIs of a full node: both answer every
/// operation from local state.
pub fn new_full(chain: Chain, child_chain: Chain, deny_unsafe: DenyUnsafe) -> (r: (
    State,
    crate::child::ChildState,
))
    requires
        chain.wf(),
        child_chain.wf(),
    ensures
        r.0.backend == StateBackend::Full(chain),
        r.0.deny_unsafe == deny_unsafe,
        r.1.backend == crate::child::ChildStateBackend::Full(child_chain),
{
    (
        State { backend: StateBackend::Full(chain), deny_unsafe },
        crate::child::ChildState { backend: crate::child::ChildStateBackend::Full(child_chain) },
    )
}

/// Creates the state and child-state APIs of a light node: point reads are
/// answered from proof-verified remote data, unbounded enumeration is
/// refused.
pub fn new_light(chain: Chain, child_chain: Chain, deny_unsafe: DenyUnsafe) -> (r: (
    State,
    crate::child::ChildState,
))
    requires
        chain.wf(),
        child_chain.wf(),
    ensures
        r.0.backend == StateBackend::Light(chain),
        r.0.deny_unsafe == deny_unsafe,
        r.1.backend == crate::child::ChildStateBackend::Light(child_chain),
{
    (
        State { backend: StateBackend::Light(chain), deny_unsafe },
        crate::child::ChildState { backend: crate::child::ChildStateBackend::Light(child_chain) },
    )
}

} // verus!
