//! The chain model: an ordered run of blocks, each carrying its state.
//!
//! Every block holds its top-level storage, its namespaced child storages,
//! the encoded runtime-version descriptor and the runtime metadata blob.
//! Block references resolve against this model: an absent reference means the
//! current best (last) block.

use vstd::prelude::*;

use crate::bytes::bytes_eq;
use crate::bytes::copy_bytes;
use crate::error::Error;
use crate::storage_map::StorageMap;
use crate::storage_map::map_get;
use crate::storage_map::map_wf;

verus! {

/// Mathematical content of a `Block`.
pub struct BlockView {
    pub hash: u64,
    pub state: Seq<(Vec<u8>, Vec<u8>)>,
    pub children: Seq<(Seq<u8>, Seq<(Vec<u8>, Vec<u8>)>)>,
    pub version_blob: Seq<u8>,
    pub metadata: Seq<u8>,
}

/// One block: its hash, its state, its child storages, and the blobs the
/// runtime exposes at it.
pub struct Block {
    hash: u64,
    state: StorageMap,
    children: Vec<(Vec<u8>, StorageMap)>,
    version_blob: Vec<u8>,
    metadata: Vec<u8>,
}

impl View for Block {
    type V = BlockView;

    closed spec fn view(&self) -> BlockView {
        BlockView {
            hash: self.hash,
            state: self.state@,
            children: Seq::new(
                self.children@.len(),
                |i: int| (self.children@[i].0@, self.children@[i].1@),
            ),
            version_blob: self.version_blob@,
            metadata: self.metadata@,
        }
    }
}

/// Well-formed block: sorted bounded state, distinct child namespaces, each
/// child storage itself sorted and bounded.
pub open spec fn block_view_wf(b: BlockView) -> bool {
    &&& map_wf(b.state)
    &&& (forall|i: int, j: int|
        0 <= i < j < b.children.len() ==> b.children[i].0 != b.children[j].0)
    &&& (forall|i: int| 0 <= i < b.children.len() ==> map_wf(#[trigger] b.children[i].1))
}

/// The entries of the child storage named `ns`; an absent namespace is an
/// empty storage.
pub open spec fn child_entries(cs: Seq<(Seq<u8>, Seq<(Vec<u8>, Vec<u8>)>)>, ns: Seq<u8>) -> Seq<
    (Vec<u8>, Vec<u8>),
>
    decreases cs.len(),
{
    if cs.len() == 0 {
        Seq::empty()
    } else if cs.last().0 == ns {
        cs.last().1
    } else {
        child_entries(cs.drop_last(), ns)
    }
}

/// The value stored at `key` in the state of block `bi`.
pub open spec fn value_at(c: Seq<BlockView>, bi: int, key: Seq<u8>) -> Option<Seq<u8>> {
    map_get(c[bi].state, key)
}

/// Some block carries hash `h`.
pub open spec fn hash_found(c: Seq<BlockView>, h: u64) -> bool {
    exists|i: int| 0 <= i < c.len() && c[i].hash == h
}

/// The index of the block carrying hash `h`.
pub open spec fn hash_index(c: Seq<BlockView>, h: u64) -> int {
    choose|i: int| 0 <= i < c.len() && c[i].hash == h
}

/// How a block reference resolves: an absent reference means the best block,
/// a hash means the block carrying it, an unknown hash fails.
pub open spec fn resolve_spec(c: Seq<BlockView>, block: Option<u64>) -> Result<int, Error> {
    match block {
        None => Ok(c.len() - 1),
        Some(h) => if hash_found(c, h) {
            Ok(hash_index(c, h))
        } else {
            Err(Error::UnknownBlock)
        },
    }
}

/// With distinct hashes, the found index is the only one.
pub proof fn lemma_hash_index_unique(c: Seq<BlockView>, h: u64, i: int)
    requires
        forall|a: int, b: int| 0 <= a < b < c.len() ==> c[a].hash != c[b].hash,
        0 <= i < c.len(),
        c[i].hash == h,
    ensures
        hash_found(c, h),
        hash_index(c, h) == i,
{
    assert(hash_found(c, h));
    let j = hash_index(c, h);
    if j != i {
        assert(c[j].hash == h);
    }
}

impl Block {
    /// Well-formedness of the block's contents.
    pub open spec fn wf(&self) -> bool {
        block_view_wf(self@)
    }

    /// A block without child storages.
    pub fn new(hash: u64, state: StorageMap, version_blob: Vec<u8>, metadata: Vec<u8>) -> (r:
        Block)
        requires
            state.wf(),
        ensures
            r.wf(),
            r@.hash == hash,
            r@.state == state@,
            r@.children == Seq::<(Seq<u8>, Seq<(Vec<u8>, Vec<u8>)>)>::empty(),
            r@.version_blob == version_blob@,
            r@.metadata == metadata@,
    {
        let r = Block { hash, state, children: Vec::new(), version_blob, metadata };
        proof {
            assert(r@.children =~= Seq::<(Seq<u8>, Seq<(Vec<u8>, Vec<u8>)>)>::empty());
        }
        r
    }

    /// Adds a child storage under a fresh namespace; reports whether the
    /// namespace was indeed fresh.
    #[verifier::loop_isolation(false)]
    pub fn add_child(&mut self, ns: Vec<u8>, map: StorageMap) -> (ok: bool)
        requires
            old(self).wf(),
            map.wf(),
        ensures
            final(self).wf(),
            ok == (forall|i: int|
                0 <= i < old(self)@.children.len() ==> old(self)@.children[i].0 != ns@),
            ok ==> final(self)@ == (BlockView {
                children: old(self)@.children.push((ns@, map@)),
                ..old(self)@
            }),
            !ok ==> final(self)@ == old(self)@,
    {
        let mut i: usize = 0;
        while i < self.children.len()
            invariant
                self.wf(),
                i <= self@.children.len(),
                forall|j: int| 0 <= j < i ==> self@.children[j].0 != ns@,
            decreases self@.children.len() - i,
        {
            if bytes_eq(&self.children[i].0, &ns) {
                proof {
                    assert(old(self)@.children[i as int].0 == ns@);
                }
                return false;
            }
            i = i + 1;
        }
        let ghost before = self@;
        self.children.push((ns, map));
        proof {
            assert(self@.children =~= before.children.push((ns@, map@)));
            assert(self@ == (BlockView { children: before.children.push((ns@, map@)), ..before }));
        }
        true
    }

    /// The block's hash.
    pub fn hash(&self) -> (r: u64)
        ensures
            r == self@.hash,
    {
        self.hash
    }

    /// The block's top-level storage.
    pub fn state(&self) -> (r: &StorageMap)
        ensures
            r@ == self@.state,
    {
        &self.state
    }

    /// The stored runtime-version blob.
    pub fn version_blob(&self) -> (r: &Vec<u8>)
        ensures
            r@ == self@.version_blob,
    {
        &self.version_blob
    }

    /// The stored runtime metadata blob.
    pub fn metadata(&self) -> (r: Vec<u8>)
        ensures
            r@ == self@.metadata,
    {
        copy_bytes(&self.metadata)
    }

    /// The child storage named `ns`, when one stands in the block.
    pub fn find_child(&self, ns: &Vec<u8>) -> (r: Option<&StorageMap>)
        requires
            self.wf(),
        ensures
            match r {
                Some(m) => m@ == child_entries(self@.children, ns@) && map_wf(m@),
                None => child_entries(self@.children, ns@) == Seq::<(Vec<u8>, Vec<u8>)>::empty(),
            },
    {
        let ghost cs = self@.children;
        let mut i: usize = 0;
        while i < self.children.len()
            invariant
                self.wf(),
                cs == self@.children,
                i <= self@.children.len(),
                forall|j: int| 0 <= j < i ==> cs[j].0 != ns@,
            decreases self@.children.len() - i,
        {
            if bytes_eq(&self.children[i].0, ns) {
                let m = &self.children[i].1;
                proof {
                    lemma_child_entries_found(cs, ns@, i as int);
                }
                return Some(m);
            }
            i = i + 1;
        }
        proof {
            lemma_child_entries_missing(cs, ns@);
        }
        None
    }
}

/// When the namespace at index `i` matches and no other does, the lookup
/// yields that child's entries.
proof fn lemma_child_entries_found(
    cs: Seq<(Seq<u8>, Seq<(Vec<u8>, Vec<u8>)>)>,
    ns: Seq<u8>,
    i: int,
)
    requires
        0 <= i < cs.len(),
        cs[i].0 == ns,
        forall|a: int, b: int| 0 <= a < b < cs.len() ==> cs[a].0 != cs[b].0,
    ensures
        child_entries(cs, ns) == cs[i].1,
    decreases cs.len(),
{
    if cs.len() > 0 {
        if i == cs.len() - 1 {
        } else {
            assert(cs.last().0 != ns);
            assert(forall|j: int| 0 <= j < cs.drop_last().len() ==> cs.drop_last()[j] == cs[j]);
            lemma_child_entries_found(cs.drop_last(), ns, i);
        }
    }
}

/// When no namespace matches, the lookup yields the empty storage.
proof fn lemma_child_entries_missing(cs: Seq<(Seq<u8>, Seq<(Vec<u8>, Vec<u8>)>)>, ns: Seq<u8>)
    requires
        forall|j: int| 0 <= j < cs.len() ==> cs[j].0 != ns,
    ensures
        child_entries(cs, ns) == Seq::<(Vec<u8>, Vec<u8>)>::empty(),
    decreases cs.len(),
{
    if cs.len() > 0 {
        assert(forall|j: int| 0 <= j < cs.drop_last().len() ==> cs.drop_last()[j] == cs[j]);
        lemma_child_entries_missing(cs.drop_last(), ns);
    }
}

/// The ordered run of blocks the service answers from.
pub struct Chain {
    blocks: Vec<Block>,
}

impl View for Chain {
    type V = Seq<BlockView>;

    closed spec fn view(&self) -> Seq<BlockView> {
        Seq::new(self.blocks@.len(), |i: int| self.blocks@[i]@)
    }
}

impl Chain {
    /// Well-formed chain: at least the genesis block, distinct hashes, every
    /// block well-formed.
    pub open spec fn wf(&self) -> bool {
        &&& self@.len() >= 1
        &&& (forall|i: int, j: int| 0 <= i < j < self@.len() ==> self@[i].hash != self@[j].hash)
        &&& (forall|i: int| 0 <= i < self@.len() ==> block_view_wf(#[trigger] self@[i]))
    }

    /// The index of the current best block.
    pub open spec fn best(&self) -> int {
        self@.len() - 1
    }

    /// A chain holding only its genesis block.
    pub fn new(genesis: Block) -> (r: Chain)
        requires
            genesis.wf(),
        ensures
            r.wf(),
            r@ =~= seq![genesis@],
    {
        let mut blocks: Vec<Block> = Vec::new();
        blocks.push(genesis);
        Chain { blocks }
    }

    /// Appends a block under a fresh hash; reports whether the hash was
    /// indeed fresh.
    #[verifier::loop_isolation(false)]
    pub fn push_block(&mut self, b: Block) -> (ok: bool)
        requires
            old(self).wf(),
            b.wf(),
        ensures
            final(self).wf(),
            ok == (forall|i: int| 0 <= i < old(self)@.len() ==> old(self)@[i].hash != b@.hash),
            ok ==> final(self)@ == old(self)@.push(b@),
            !ok ==> final(self)@ == old(self)@,
    {
        let ghost before = self@;
        let mut i: usize = 0;
        while i < self.blocks.len()
            invariant
                self.wf(),
                before == self@,
                i <= self@.len(),
                forall|j: int| 0 <= j < i ==> self@[j].hash != b@.hash,
            decreases self@.len() - i,
        {
            if self.blocks[i].hash() == b.hash() {
                proof {
                    assert(old(self)@[i as int].hash == b@.hash);
                }
                return false;
            }
            i = i + 1;
        }
        self.blocks.push(b);
        proof {
            assert(self@ =~= before.push(b@));
        }
        true
    }

    /// Number of blocks.
    pub fn len(&self) -> (r: usize)
        ensures
            r == self@.len(),
    {
        self.blocks.len()
    }

    /// The block at index `i`.
    pub fn block_at(&self, i: usize) -> (r: &Block)
        requires
            i < self@.len(),
        ensures
            r@ == self@[i as int],
            self.wf() ==> r.wf(),
    {
        &self.blocks[i]
    }

    /// Resolves a block reference: an absent reference means the current best
    /// block; a hash resolves to the block carrying it, and fails with
    /// `UnknownBlock` when no block does.
    #[verifier::loop_isolation(false)]
    pub fn resolve(&self, block: &Option<u64>) -> (r: Result<usize, Error>)
        requires
            self.wf(),
        ensures
            match r {
                Ok(i) => i < self@.len() && (match block {
                    Some(h) => self@[i as int].hash == h,
                    None => i == self.best(),
                }),
                Err(e) => e == Error::UnknownBlock && (block matches Some(h) && forall|i: int|
                    0 <= i < self@.len() ==> self@[i].hash != h),
            },
    {
        match block {
            None => Ok(self.blocks.len() - 1),
            Some(h) => {
                let mut i: usize = 0;
                while i < self.blocks.len()
                    invariant
                        self.wf(),
                        i <= self@.len(),
                        forall|j: int| 0 <= j < i ==> self@[j].hash != h,
                    decreases self@.len() - i,
                {
                    if self.blocks[i].hash() == *h {
                        return Ok(i);
                    }
                    i = i + 1;
                }
                Err(Error::UnknownBlock)
            },
        }
    }
}

} // verus!
