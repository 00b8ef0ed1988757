//! The proof cache that a reader and its server keep in step.
//!
//! Both sides apply the same insertions in the same order, so the server
//! knows which hashes the reader can already chain to a signed root and
//! leaves them out of its proofs.

use vstd::prelude::*;
use crate::config::{CACHE_SIZE, FANOUT};
use crate::crypto;
use crate::crypto::{HashNode, hash_eq, null_hash, spec_hash_node, spec_null_hash};

verus! {

/// The slot of the direct-mapped table that a hash falls into: its first
/// four bytes, read as a little-endian number, modulo the table size.
pub open spec fn spec_cache_index(hash: crypto::Hash) -> int {
    (hash[0] + hash[1] * 0x100 + hash[2] * 0x1_0000 + hash[3] * 0x100_0000) % (CACHE_SIZE as int)
}

/// The slot of the direct-mapped table that a hash falls into.
pub fn cache_index(hash: &crypto::Hash) -> (index: usize)
    ensures
        index == spec_cache_index(*hash),
        index < CACHE_SIZE,
{
    let low: u32 = (hash[0] as u32) + (hash[1] as u32) * 0x100 + (hash[2] as u32) * 0x1_0000
        + (hash[3] as u32) * 0x100_0000;
    (low as usize) % CACHE_SIZE
}

/// What a `ReadState` holds: the table, the last signed root, and the
/// children of the last proven node.
pub struct ReadStateView {
    pub slots: Seq<crypto::Hash>,
    pub last_signed_hash: crypto::Hash,
    pub last_proven_node: Seq<crypto::Hash>,
}

/// The table after each of `hashes` has been written to its slot, in order.
pub open spec fn demote_all(slots: Seq<crypto::Hash>, hashes: Seq<crypto::Hash>) -> Seq<
    crypto::Hash,
>
    decreases hashes.len(),
{
    if hashes.len() == 0 {
        slots
    } else {
        demote_all(slots, hashes.drop_last()).update(
            spec_cache_index(hashes.last()),
            hashes.last(),
        )
    }
}

impl ReadStateView {
    /// The cache that holds nothing: every place is filled with the null
    /// hash, which stands for no hash.
    pub open spec fn empty() -> ReadStateView {
        ReadStateView {
            slots: Seq::new(CACHE_SIZE as nat, |i: int| spec_null_hash()),
            last_signed_hash: spec_null_hash(),
            last_proven_node: Seq::new(FANOUT as nat, |i: int| spec_null_hash()),
        }
    }

    /// A cache has one slot per table index and one child per fanout.
    pub open spec fn wf(self) -> bool {
        &&& self.slots.len() == CACHE_SIZE
        &&& self.last_proven_node.len() == FANOUT
    }

    /// Whether `hash` is a child of the last proven node, sits in its slot
    /// of the table, or is the last signed root. The null hash fills the
    /// places that hold nothing, and is never held itself.
    pub open spec fn contains(self, hash: crypto::Hash) -> bool {
        &&& hash != spec_null_hash()
        &&& {
            ||| self.last_proven_node.contains(hash)
            ||| self.slots[spec_cache_index(hash)] == hash
            ||| self.last_signed_hash == hash
        }
    }

    /// Whether the cache holds no hash at all.
    pub open spec fn holds_nothing(self) -> bool {
        forall|hash: crypto::Hash| !self.contains(hash)
    }

    /// The cache after a signed root was added: the former one moves to its
    /// slot of the table.
    pub open spec fn add_signed_hash(self, hash: crypto::Hash) -> ReadStateView {
        ReadStateView {
            slots: self.slots.update(
                spec_cache_index(self.last_signed_hash),
                self.last_signed_hash,
            ),
            last_signed_hash: hash,
            last_proven_node: self.last_proven_node,
        }
    }

    /// The cache after a proven node was added: the children of the former
    /// one move to their slots of the table.
    pub open spec fn add_proven_node(self, children: Seq<crypto::Hash>) -> ReadStateView {
        ReadStateView {
            slots: demote_all(self.slots, self.last_proven_node),
            last_signed_hash: self.last_signed_hash,
            last_proven_node: children,
        }
    }
}

impl ReadStateView {
    /// The cache after the signed root of a proof, if it has one, was
    /// added.
    pub open spec fn after_root(self, root: Option<(Seq<u8>, crypto::Hash)>) -> ReadStateView {
        match root {
            Some((_, hash)) => self.add_signed_hash(hash),
            None => self,
        }
    }

    /// The cache after each of `nodes` was added as a proven node, in
    /// order.
    pub open spec fn after_nodes(self, nodes: Seq<Seq<crypto::Hash>>) -> ReadStateView
        decreases nodes.len(),
    {
        if nodes.len() == 0 {
            self
        } else {
            self.after_nodes(nodes.drop_last()).add_proven_node(nodes.last())
        }
    }

    /// The cache after a proof was applied: its signed root first, then its
    /// nodes in order.
    pub open spec fn after_proof(
        self,
        root: Option<(Seq<u8>, crypto::Hash)>,
        nodes: Seq<Seq<crypto::Hash>>,
    ) -> ReadStateView {
        self.after_root(root).after_nodes(nodes)
    }

    /// Whether each of `nodes` is proven when its turn comes: the cache, as
    /// it is after the nodes before it, holds the node's name.
    pub open spec fn nodes_proven(self, nodes: Seq<Seq<crypto::Hash>>) -> bool
        decreases nodes.len(),
    {
        if nodes.len() == 0 {
            true
        } else {
            self.nodes_proven(nodes.drop_last()) && self.after_nodes(nodes.drop_last()).contains(
                spec_hash_node(nodes.last()),
            )
        }
    }
}

/// The empty cache holds no hash.
pub proof fn lemma_empty_holds_nothing()
    ensures
        ReadStateView::empty().holds_nothing(),
{
    let state = ReadStateView::empty();
    assert forall|hash: crypto::Hash| !state.contains(hash) by {
        if state.last_proven_node.contains(hash) {
            let i = choose|i: int|
                0 <= i < state.last_proven_node.len() && state.last_proven_node[i] == hash;
            assert(hash == spec_null_hash());
        }
    }
}

/// A cache synchronised between client and server. The larger it is, the
/// less has to be sent again to prove a read.
pub struct ReadState {
    hash_cache: [crypto::Hash; CACHE_SIZE],
    last_signed_hash: crypto::Hash,
    last_proven_node: HashNode,
}

impl View for ReadState {
    type V = ReadStateView;

    closed spec fn view(&self) -> ReadStateView {
        ReadStateView {
            slots: self.hash_cache@,
            last_signed_hash: self.last_signed_hash,
            last_proven_node: self.last_proven_node@,
        }
    }
}

impl Clone for ReadState {
    fn clone(&self) -> (copy: Self)
        ensures
            copy@ == self@,
    {
        ReadState {
            hash_cache: self.hash_cache,
            last_signed_hash: self.last_signed_hash,
            last_proven_node: self.last_proven_node,
        }
    }
}

impl ReadState {
    /// Every cache is well formed.
    pub proof fn lemma_wf(&self)
        ensures
            self@.wf(),
    {
    }

    /// An empty cache: it holds no hash.
    pub fn new() -> (state: ReadState)
        ensures
            state@ == ReadStateView::empty(),
            state@.holds_nothing(),
    {
        let state = ReadState {
            hash_cache: [null_hash();CACHE_SIZE],
            last_signed_hash: null_hash(),
            last_proven_node: [null_hash();FANOUT],
        };
        assert(state@.slots =~= ReadStateView::empty().slots);
        assert(state@.last_proven_node =~= ReadStateView::empty().last_proven_node);
        proof {
            lemma_empty_holds_nothing();
        }
        state
    }

    /// Empties the cache.
    pub fn clear(&mut self)
        ensures
            final(self)@ == ReadStateView::empty(),
    {
        *self = Self::new();
    }

    /// Whether the cache holds `hash`.
    pub fn contains(&self, hash: &crypto::Hash) -> (found: bool)
        ensures
            found == self@.contains(*hash),
    {
        if hash_eq(hash, &null_hash()) {
            return false;
        }
        let mut i: usize = 0;
        while i < FANOUT
            invariant
                i <= FANOUT,
                *hash != spec_null_hash(),
                forall|j: int| 0 <= j < i ==> self.last_proven_node@[j] != *hash,
            decreases FANOUT - i,
        {
            if hash_eq(&self.last_proven_node[i], hash) {
                return true;
            }
            i += 1;
        }
        if hash_eq(&self.hash_cache[cache_index(hash)], hash) {
            return true;
        }
        if hash_eq(&self.last_signed_hash, hash) {
            return true;
        }
        false
    }

    /// Installs `hash` as the last signed root; the former one moves to its
    /// slot of the table.
    pub fn add_signed_hash(&mut self, hash: &crypto::Hash)
        ensures
            final(self)@ == old(self)@.add_signed_hash(*hash),
    {
        let old_hash = self.last_signed_hash;
        self.hash_cache[cache_index(&old_hash)] = old_hash;
        self.last_signed_hash = *hash;
    }

    /// Installs `hashes` as the last proven node; the children of the
    /// former one move to their slots of the table.
    pub fn add_proven_node(&mut self, hashes: &HashNode)
        ensures
            final(self)@ == old(self)@.add_proven_node(hashes@),
    {
        let mut i: usize = 0;
        while i < FANOUT
            invariant
                i <= FANOUT,
                self.last_proven_node == old(self).last_proven_node,
                self.last_signed_hash == old(self).last_signed_hash,
                self.hash_cache@ == demote_all(
                    old(self).hash_cache@,
                    old(self).last_proven_node@.take(i as int),
                ),
            decreases FANOUT - i,
        {
            let h = self.last_proven_node[i];
            proof {
                let node = old(self).last_proven_node@;
                assert(node.take(i as int + 1).drop_last() =~= node.take(i as int));
            }
            self.hash_cache[cache_index(&h)] = h;
            i += 1;
        }
        proof {
            let node = old(self).last_proven_node@;
            assert(node.take(FANOUT as int) =~= node);
        }
        self.last_proven_node = *hashes;
    }
}

} // verus!
