//! The Merkle commitment over the indexed chunks, and its verifier.
//!
//! A trie from the `trie-db` engine (with the `reference-trie` layout and
//! the Keccak-256 hasher) maps each chunk's index, encoded as 4
//! little-endian bytes, to the 32-byte hash of the chunk. The trie's root
//! commits to the whole set; the nodes that a recorded lookup touches
//! prove one index's hash against the root.

use vstd::prelude::*;
use std::collections::hash_map::RandomState;
use crate::Error;
use crate::seqs_view;
use crate::clone_bytes;
use crate::framing::{spec_le32, le32_bytes, lemma_le32_injective};

verus! {

/// The in-memory, content-addressed node store that the trie engine
/// works over. The store itself is `memory-db`'s; this struct only
/// carries it, opaque to the verifier, which sees it through
/// `trie_ok`, `trie_map` and `store_nodes`.
#[verifier::external_body]
pub struct NodeStore {
    db: memory_db::MemoryDB<
        keccak_hasher::KeccakHasher,
        memory_db::HashKey<keccak_hasher::KeccakHasher>,
        Vec<u8>,
        RandomState,
    >,
}

/// The store holds exactly the trie with the given root, so that the
/// engine's operations on it cannot fail.
pub uninterp spec fn trie_ok(db: NodeStore, root: Seq<u8>) -> bool;

/// The key-value map that the trie with the given root holds.
pub uninterp spec fn trie_map(db: NodeStore, root: Seq<u8>) -> Map<Seq<u8>, Seq<u8>>;

/// The node blobs that were inserted into a store one by one.
pub uninterp spec fn store_nodes(db: NodeStore) -> Seq<Seq<u8>>;

/// What a proof-based lookup makes of a node set, a root and a key:
/// nothing when a needed node is missing or malformed, `Some(None)` when
/// the lookup completes and finds no value, and the value otherwise. The
/// verifier is stateless, so this is a function of the three inputs.
pub uninterp spec fn proof_fetch(nodes: Seq<Seq<u8>>, root: Seq<u8>, key: Seq<u8>) -> Option<
    Option<Seq<u8>>,
>;

/// The 32-byte digest of a byte string.
pub uninterp spec fn hash_of(data: Seq<u8>) -> Seq<u8>;

/// The root hash that the engine commits to for a key-value map. A
/// Merkle trie's shape is canonical for its contents, so the root is a
/// function of the map alone: equal maps give equal roots, on every
/// machine.
pub uninterp spec fn root_of(m: Map<Seq<u8>, Seq<u8>>) -> Seq<u8>;

/// Relies on `memory_db::MemoryDB::default`: a fresh store holds no
/// nodes.
#[verifier::external_body]
fn store_new() -> (r: NodeStore)
    ensures
        store_nodes(r) == Seq::<Seq<u8>>::empty(),
{
    NodeStore { db: memory_db::MemoryDB::default() }
}

/// Relies on `trie_db::TrieDBMutBuilder::new` with the
/// `reference_trie::ExtensionLayout`: building a mutable trie over a
/// store sets the root to the empty trie's root, and dropping it commits
/// that trie to the store. The layout's node format is canonical, so the
/// empty trie's root is one fixed value.
#[verifier::external_body]
fn trie_init(db: &mut NodeStore) -> (root: Vec<u8>)
    ensures
        root@.len() == 32,
        trie_ok(*final(db), root@),
        (trie_map(*final(db), root@) == Map::<Seq<u8>, Seq<u8>>::empty()),
        (root@ == root_of(Map::<Seq<u8>, Seq<u8>>::empty())),
{
    let mut r: [u8; 32] = [0; 32];
    {
        let _t = trie_db::TrieDBMutBuilder::<reference_trie::ExtensionLayout>::new(&mut db.db,
            &mut r).build();
    }
    r.to_vec()
}

/// Relies on `trie_db::TrieDBMutBuilder::from_existing` and
/// `trie_db::TrieDBMut::insert`: on a store that holds the trie at
/// `root`, the insert maps the key to the value, and the commit on drop
/// writes the new nodes and the new root back. The layout's node format
/// is canonical for the trie's contents, so the committed root is a
/// function of the map after the insert.
#[verifier::external_body]
fn trie_insert(db: &mut NodeStore, root: &mut Vec<u8>, key: &Vec<u8>, value: &Vec<u8>)
    requires
        trie_ok(*old(db), old(root)@),
        old(root)@.len() == 32,
    ensures
        final(root)@.len() == 32,
        trie_ok(*final(db), final(root)@),
        trie_map(*final(db), final(root)@) == trie_map(*old(db), old(root)@).insert(key@, value@),
        (final(root)@ == root_of(trie_map(*old(db), old(root)@).insert(key@, value@))),
{
    let mut r: [u8; 32] = root.as_slice().try_into().expect("root is 32 bytes");
    {
        let mut t = trie_db::TrieDBMutBuilder::<reference_trie::ExtensionLayout>::from_existing(
            &mut db.db, &mut r).build();
        trie_db::TrieMut::insert(&mut t, key, value).expect("in-memory trie holds all its nodes");
    }
    *root = r.to_vec();
}

/// Relies on `trie_db::TrieDBBuilder` with a `trie_db::recorder::Recorder`
/// and `trie_db::Trie::get`: the lookup of an inserted key returns its
/// value, and the recorder's drained nodes are the ones the lookup
/// touched, which by themselves prove that value under the root (the
/// engine's documented proof-recording use).
#[verifier::external_body]
fn trie_lookup_recorded(db: &NodeStore, root: &Vec<u8>, key: &Vec<u8>) -> (r: (
    Vec<Vec<u8>>,
    Vec<u8>,
))
    requires
        trie_ok(*db, root@),
        root@.len() == 32,
        trie_map(*db, root@).contains_key(key@),
    ensures
        r.1@ == trie_map(*db, root@)[key@],
        proof_fetch(seqs_view(r.0@), root@, key@) == Some(Some(r.1@)),
{
    let rt: [u8; 32] = root.as_slice().try_into().expect("root is 32 bytes");
    let mut rec = trie_db::recorder::Recorder::<reference_trie::ExtensionLayout>::new();
    let value = {
        let trie = trie_db::TrieDBBuilder::<reference_trie::ExtensionLayout>::new(&db.db, &rt)
            .with_recorder(&mut rec)
            .build();
        trie_db::Trie::get(&trie, key).expect("store holds the trie").expect("key was inserted")
    };
    let nodes = rec.drain().into_iter().map(|x| x.data).collect();
    (nodes, value)
}

/// Relies on `hash_db::HashDB::insert` on `memory_db::MemoryDB`: the
/// node is stored under its own hash, the store's content addressing.
#[verifier::external_body]
fn db_insert_node(db: &mut NodeStore, node: &Vec<u8>)
    ensures
        store_nodes(*final(db)) == store_nodes(*old(db)).push(node@),
{
    hash_db::HashDB::insert(&mut db.db, hash_db::EMPTY_PREFIX, node);
}

/// Relies on `trie_db::TrieDBBuilder` and `trie_db::Trie::get` over a
/// store holding exactly the supplied proof nodes: the outcome depends on
/// those nodes, the root and the key alone. An error means a needed node
/// is missing or malformed (the root's included); `None` means the
/// lookup completed and found no value for the key.
#[verifier::external_body]
fn trie_get(db: &NodeStore, root: &Vec<u8>, key: &Vec<u8>) -> (r: Result<Option<Vec<u8>>, ()>)
    requires
        root@.len() == 32,
    ensures
        (match r {
            Ok(Some(v)) => proof_fetch(store_nodes(*db), root@, key@) == Some(Some(v@)),
            Ok(None) => proof_fetch(store_nodes(*db), root@, key@) == Some(None::<Seq<u8>>),
            Err(()) => proof_fetch(store_nodes(*db), root@, key@) is None,
        }),
{
    let rt: [u8; 32] = root.as_slice().try_into().expect("root is 32 bytes");
    let trie = trie_db::TrieDBBuilder::<reference_trie::ExtensionLayout>::new(&db.db, &rt)
        .build();
    match trie_db::Trie::get(&trie, key) {
        Ok(v) => Ok(v),
        Err(_) => Err(()),
    }
}

/// Relies on `keccak_hasher::KeccakHasher::hash`: a 32-byte digest that
/// is a function of the input bytes alone, the same digest the trie
/// engine addresses its nodes with.
#[verifier::external_body]
pub(crate) fn chunk_hash(data: &Vec<u8>) -> (r: Vec<u8>)
    ensures
        r@ == hash_of(data@),
        r@.len() == 32,
{
    <keccak_hasher::KeccakHasher as hash_db::Hasher>::hash(data).to_vec()
}

/// The map committed to for a chunk list: each index below `count`,
/// encoded little-endian, maps to the hash of its chunk.
pub open spec fn index_hash_map(chunks: Seq<Seq<u8>>, count: int) -> Map<Seq<u8>, Seq<u8>>
    decreases count,
{
    if count <= 0 {
        Map::empty()
    } else {
        index_hash_map(chunks, count - 1).insert(
            spec_le32((count - 1) as u32),
            hash_of(chunks[count - 1]),
        )
    }
}

/// Every index below `count` is in the committed map, with its chunk's
/// hash as value.
pub proof fn lemma_index_map_lookup(chunks: Seq<Seq<u8>>, count: int, i: int)
    requires
        0 <= i < count,
        count <= 0x1_0000_0000,
    ensures
        index_hash_map(chunks, count).contains_key(spec_le32(i as u32)),
        index_hash_map(chunks, count)[spec_le32(i as u32)] == hash_of(chunks[i]),
    decreases count,
{
    if i < count - 1 {
        lemma_index_map_lookup(chunks, count - 1, i);
        if spec_le32(i as u32) == spec_le32((count - 1) as u32) {
            lemma_le32_injective(i as u32, (count - 1) as u32);
        }
    }
}

/// The branches of a chunk list: the committed trie, its root, and a
/// cursor over the chunks, handing out one Merkle branch per chunk.
pub struct Branches {
    store: NodeStore,
    root: Vec<u8>,
    chunks: Vec<Vec<u8>>,
    current_pos: usize,
}

impl Branches {
    /// The store holds the committed trie, its root is the canonical
    /// root of the committed map, and the cursor is in range.
    pub closed spec fn wf(self) -> bool {
        &&& trie_ok(self.store, self.root@)
        &&& self.root@.len() == 32
        &&& trie_map(self.store, self.root@) == index_hash_map(
            seqs_view(self.chunks@),
            self.chunks@.len() as int,
        )
        &&& self.root@ == root_of(index_hash_map(seqs_view(self.chunks@),
            self.chunks@.len() as int))
        &&& forall|i: int| 0 <= i < self.chunks@.len() ==> (#[trigger] hash_of(seqs_view(
            self.chunks@)[i])).len() == 32
        &&& self.chunks@.len() <= 0xffff_ffff
        &&& self.current_pos <= self.chunks@.len()
    }

    /// The committed chunks.
    pub closed spec fn spec_chunks(self) -> Seq<Seq<u8>> {
        seqs_view(self.chunks@)
    }

    /// The committed root.
    pub closed spec fn spec_root(self) -> Seq<u8> {
        self.root@
    }

    /// How many branches were handed out already.
    pub closed spec fn spec_pos(self) -> int {
        self.current_pos as int
    }

    /// Get the trie root.
    pub fn root(&self) -> (r: Vec<u8>)
        requires
            self.wf(),
        ensures
            r@ == self.spec_root(),
            r@.len() == 32,
    {
        clone_bytes(&self.root)
    }

    /// The next Merkle branch: the proof nodes and the chunk at the
    /// cursor, or nothing once every chunk was handed out. The proof
    /// nodes verify against the root to the chunk's hash.
    pub fn next(&mut self) -> (r: Option<(Vec<Vec<u8>>, Vec<u8>)>)
        requires
            old(self).wf(),
        ensures
            final(self).wf(),
            final(self).spec_chunks() == old(self).spec_chunks(),
            final(self).spec_root() == old(self).spec_root(),
            old(self).spec_pos() >= old(self).spec_chunks().len() ==> (r is None && final(
                self).spec_pos() == old(self).spec_pos()),
            old(self).spec_pos() < old(self).spec_chunks().len() ==> ({
                &&& final(self).spec_pos() == old(self).spec_pos() + 1
                &&& (r matches Some(p) && p.1@ == old(self).spec_chunks()[old(self).spec_pos()]
                    && hash_of(p.1@).len() == 32
                    && proof_fetch(seqs_view(p.0@), old(self).spec_root(), spec_le32(old(
                    self).spec_pos() as u32)) == Some(Some(hash_of(p.1@))))
            }),
    {
        if self.current_pos >= self.chunks.len() {
            return None;
        }
        let key = le32_bytes(self.current_pos as u32);
        proof {
            lemma_index_map_lookup(seqs_view(self.chunks@), self.chunks@.len() as int,
                self.current_pos as int);
        }
        let (nodes, value) = trie_lookup_recorded(&self.store, &self.root, &key);
        let chunk = clone_bytes(&self.chunks[self.current_pos]);
        proof {
            assert(value@ == hash_of(chunk@));
        }
        self.current_pos = self.current_pos + 1;
        Some((nodes, chunk))
    }
}

/// Construct a trie from the chunks of an erasure-coded value, mapping
/// each chunk's index to its hash. The result holds the root hash and
/// hands out one Merkle proof per chunk through `next`.
#[verifier::loop_isolation(false)]
pub fn branches(chunks: Vec<Vec<u8>>) -> (r: Branches)
    requires
        chunks@.len() <= 0xffff_ffff,
    ensures
        r.wf(),
        r.spec_chunks() == seqs_view(chunks@),
        r.spec_pos() == 0,
        r.spec_root() == root_of(index_hash_map(seqs_view(chunks@), chunks@.len() as int)),
        r.spec_root().len() == 32,
{
    let mut store = store_new();
    let root_init = trie_init(&mut store);
    let mut root = root_init;
    let n = chunks.len();
    for i in 0..n
        invariant
            trie_ok(store, root@),
            root@.len() == 32,
            trie_map(store, root@) == index_hash_map(seqs_view(chunks@), i as int),
            root@ == root_of(index_hash_map(seqs_view(chunks@), i as int)),
            forall|j: int| 0 <= j < i ==> (#[trigger] hash_of(seqs_view(chunks@)[j])).len() == 32,
    {
        let key = le32_bytes(i as u32);
        let h = chunk_hash(&chunks[i]);
        trie_insert(&mut store, &mut root, &key, &h);
    }
    Branches { store, root, chunks, current_pos: 0 }
}

/// What verifying a branch yields: the 32-byte value committed for the
/// index, or the exact failure.
pub open spec fn branch_hash_result(root: Seq<u8>, nodes: Seq<Seq<u8>>, index: int) -> Result<
    Seq<u8>,
    Error,
> {
    if root.len() != 32 {
        Err(Error::InvalidBranchProof)
    } else {
        match proof_fetch(nodes, root, spec_le32(index as u32)) {
            Option::None => Err(Error::InvalidBranchProof),
            Option::Some(Option::None) => Err(Error::BranchOutOfBounds),
            Option::Some(Option::Some(v)) => if v.len() >= 32 {
                Ok(v.take(32))
            } else {
                Err(Error::InvalidBranchProof)
            },
        }
    }
}

/// Verify a merkle branch, yielding the chunk hash meant to be present
/// at that index.
pub fn branch_hash(root: &Vec<u8>, branch_nodes: &Vec<Vec<u8>>, index: usize) -> (r: Result<
    Vec<u8>,
    Error,
>)
    requires
        index <= 0xffff_ffff,
    ensures
        (match r {
            Ok(h) => branch_hash_result(root@, seqs_view(branch_nodes@), index as int) == Ok::<
                Seq<u8>, Error>(h@),
            Err(e) => branch_hash_result(root@, seqs_view(branch_nodes@), index as int) == Err::<
                Seq<u8>, Error>(e),
        }),
{
    if root.len() != 32 {
        return Err(Error::InvalidBranchProof);
    }
    let mut store = store_new();
    let nlen = branch_nodes.len();
    let mut i: usize = 0;
    while i < nlen
        invariant
            i <= nlen,
            nlen == branch_nodes@.len(),
            store_nodes(store) =~= seqs_view(branch_nodes@).take(i as int),
        decreases nlen - i,
    {
        db_insert_node(&mut store, &branch_nodes[i]);
        i = i + 1;
        proof {
            assert(store_nodes(store) =~= seqs_view(branch_nodes@).take(i as int));
        }
    }
    proof {
        assert(store_nodes(store) =~= seqs_view(branch_nodes@));
    }
    let key = le32_bytes(index as u32);
    match trie_get(&store, root, &key) {
        Err(()) => Err(Error::InvalidBranchProof),
        Ok(None) => Err(Error::BranchOutOfBounds),
        Ok(Some(v)) => {
            if v.len() < 32 {
                Err(Error::InvalidBranchProof)
            } else {
                let mut h: Vec<u8> = Vec::new();
                let mut k: usize = 0;
                while k < 32
                    invariant
                        k <= 32,
                        32 <= v@.len(),
                        h@ =~= v@.take(k as int),
                    decreases 32 - k,
                {
                    h.push(v[k]);
                    k = k + 1;
                    proof {
                        assert(h@ =~= v@.take(k as int));
                    }
                }
                Ok(h)
            }
        },
    }
}

/// Merkle soundness: a branch recorded for a chunk verifies against the
/// root to exactly that chunk's hash.
pub proof fn lemma_merkle_soundness(root: Seq<u8>, nodes: Seq<Seq<u8>>, chunk: Seq<u8>, index: int)
    requires
        root.len() == 32,
        0 <= index <= 0xffff_ffff,
        proof_fetch(nodes, root, spec_le32(index as u32)) == Some(Some(hash_of(chunk))),
        hash_of(chunk).len() == 32,
    ensures
        branch_hash_result(root, nodes, index) == Ok::<Seq<u8>, Error>(hash_of(chunk)),
{
    assert(hash_of(chunk).take(32) =~= hash_of(chunk));
}

} // verus!
