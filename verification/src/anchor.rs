//! Why an accepted proof can be believed: whatever the proof cache holds
//! hangs, node by node, below a hash that the writer has signed.

use vstd::prelude::*;
use crate::crypto;
use crate::crypto::{ecdsa_accepts, spec_hash_node, spec_null_hash};
use crate::readstate::{ReadStateView, demote_all, spec_cache_index};
use crate::tree::client::proof_accepted;

verus! {

/// Whether `path` leads from `hash` up to a trusted hash: the first node
/// of the path holds `hash` among its children, each further node holds the
/// name of the node before it, and the name of the last node is trusted.
/// Without nodes, `hash` itself is trusted.
pub open spec fn anchored_by(
    trusted: Set<crypto::Hash>,
    hash: crypto::Hash,
    path: Seq<Seq<crypto::Hash>>,
) -> bool
    decreases path.len(),
{
    if path.len() == 0 {
        trusted.contains(hash)
    } else {
        path[0].contains(hash) && anchored_by(trusted, spec_hash_node(path[0]), path.skip(1))
    }
}

/// Whether `hash` descends from a trusted hash.
pub open spec fn anchored(trusted: Set<crypto::Hash>, hash: crypto::Hash) -> bool {
    exists|path: Seq<Seq<crypto::Hash>>| anchored_by(trusted, hash, path)
}

/// Whether every hash that the cache holds descends from a trusted hash.
pub open spec fn cache_anchored(state: ReadStateView, trusted: Set<crypto::Hash>) -> bool {
    forall|h: crypto::Hash| #[trigger] state.contains(h) ==> anchored(trusted, h)
}

/// The hashes that a client trusts after it has checked the root of a
/// proof: those it trusted before, and the root.
pub open spec fn trusted_after(
    trusted: Set<crypto::Hash>,
    root: Option<(Seq<u8>, crypto::Hash)>,
) -> Set<crypto::Hash> {
    match root {
        Some((_, hash)) => trusted.insert(hash),
        None => trusted,
    }
}

/// What descends from a trusted hash still does when more is trusted.
pub proof fn lemma_anchored_mono(
    trusted: Set<crypto::Hash>,
    more: Set<crypto::Hash>,
    hash: crypto::Hash,
    path: Seq<Seq<crypto::Hash>>,
)
    requires
        trusted.subset_of(more),
        anchored_by(trusted, hash, path),
    ensures
        anchored_by(more, hash, path),
    decreases path.len(),
{
    if path.len() > 0 {
        lemma_anchored_mono(trusted, more, spec_hash_node(path[0]), path.skip(1));
    }
}

/// A child of a node whose name descends from a trusted hash descends from
/// it too.
pub proof fn lemma_child_anchored(
    trusted: Set<crypto::Hash>,
    children: Seq<crypto::Hash>,
    child: crypto::Hash,
)
    requires
        anchored(trusted, spec_hash_node(children)),
        children.contains(child),
    ensures
        anchored(trusted, child),
{
    let above = choose|path: Seq<Seq<crypto::Hash>>|
        anchored_by(trusted, spec_hash_node(children), path);
    let path = seq![children] + above;
    assert(path[0] == children);
    assert(path.skip(1) =~= above);
    assert(anchored_by(trusted, child, path));
}

/// An empty cache holds nothing, so whatever it holds descends from a
/// trusted hash though no hash is trusted.
pub proof fn lemma_empty_anchored()
    ensures
        cache_anchored(ReadStateView::empty(), Set::<crypto::Hash>::empty()),
{
    crate::readstate::lemma_empty_holds_nothing();
}

/// A client with an empty cache accepts no proof without a signed root.
pub proof fn lemma_fresh_needs_root(
    target: crypto::Hash,
    nodes: Seq<Seq<crypto::Hash>>,
    writer_key: Seq<u8>,
)
    requires
        forall|i: int| 0 <= i < nodes.len() ==> (#[trigger] nodes[i]).len() == crate::config::FANOUT,
    ensures
        !proof_accepted(ReadStateView::empty(), target, None, nodes, writer_key),
{
    let nothing = Set::<crypto::Hash>::empty();
    if proof_accepted(ReadStateView::empty(), target, None, nodes, writer_key) {
        lemma_empty_anchored();
        lemma_accepted_is_anchored(
            ReadStateView::empty(),
            nothing,
            target,
            None,
            nodes,
            writer_key,
        );
        lemma_nothing_anchored(
            target,
            choose|path: Seq<Seq<crypto::Hash>>| anchored_by(nothing, target, path),
        );
    }
}

/// Nothing descends from a trusted hash where no hash is trusted.
pub proof fn lemma_nothing_anchored(hash: crypto::Hash, path: Seq<Seq<crypto::Hash>>)
    ensures
        !anchored_by(Set::<crypto::Hash>::empty(), hash, path),
    decreases path.len(),
{
    if path.len() > 0 {
        lemma_nothing_anchored(spec_hash_node(path[0]), path.skip(1));
    }
}

/// After hashes were written to their slots, a slot holds what it held
/// before or one of those hashes, in its own slot.
pub proof fn lemma_demoted_slot(slots: Seq<crypto::Hash>, hashes: Seq<crypto::Hash>, i: int)
    requires
        slots.len() == crate::config::CACHE_SIZE,
        0 <= i < slots.len(),
    ensures
        demote_all(slots, hashes).len() == slots.len(),
        demote_all(slots, hashes)[i] == slots[i] || (hashes.contains(demote_all(slots, hashes)[i])
            && spec_cache_index(demote_all(slots, hashes)[i]) == i),
    decreases hashes.len(),
{
    if hashes.len() > 0 {
        let rest = hashes.drop_last();
        lemma_demoted_slot(slots, rest, i);
        let lower = demote_all(slots, rest);
        if spec_cache_index(hashes.last()) == i {
            assert(hashes[hashes.len() - 1] == hashes.last());
        } else {
            if lower[i] != slots[i] {
                let j = choose|j: int| 0 <= j < rest.len() && rest[j] == lower[i];
                assert(hashes[j] == lower[i]);
            }
        }
    }
}

/// Adding a signed root keeps the cache below trusted hashes, the root now
/// among them.
pub proof fn lemma_signed_hash_keeps_anchored(
    state: ReadStateView,
    trusted: Set<crypto::Hash>,
    hash: crypto::Hash,
)
    requires
        state.wf(),
        cache_anchored(state, trusted),
    ensures
        state.add_signed_hash(hash).wf(),
        cache_anchored(state.add_signed_hash(hash), trusted.insert(hash)),
{
    let after = state.add_signed_hash(hash);
    let more = trusted.insert(hash);
    assert forall|h: crypto::Hash| #[trigger] after.contains(h) implies anchored(more, h) by {
        if h == hash {
            assert(anchored_by(more, h, Seq::<Seq<crypto::Hash>>::empty()));
        } else {
            assert(state.contains(h)) by {
                if after.slots[spec_cache_index(h)] == h && state.slots[spec_cache_index(h)] != h {
                    assert(h == state.last_signed_hash);
                }
            }
            let path = choose|path: Seq<Seq<crypto::Hash>>| anchored_by(trusted, h, path);
            lemma_anchored_mono(trusted, more, h, path);
        }
    }
}

/// Adding a node whose name the cache holds keeps the cache below trusted
/// hashes.
pub proof fn lemma_proven_node_keeps_anchored(
    state: ReadStateView,
    trusted: Set<crypto::Hash>,
    children: Seq<crypto::Hash>,
)
    requires
        state.wf(),
        children.len() == crate::config::FANOUT,
        cache_anchored(state, trusted),
        state.contains(spec_hash_node(children)),
    ensures
        state.add_proven_node(children).wf(),
        cache_anchored(state.add_proven_node(children), trusted),
{
    let after = state.add_proven_node(children);
    assert forall|h: crypto::Hash| #[trigger] after.contains(h) implies anchored(trusted, h) by {
        if children.contains(h) {
            lemma_child_anchored(trusted, children, h);
        } else if after.last_signed_hash == h {
            assert(state.contains(h));
        } else {
            let i = spec_cache_index(h);
            lemma_demoted_slot(state.slots, state.last_proven_node, i);
            assert(state.contains(h));
        }
    }
    lemma_demoted_slot(state.slots, state.last_proven_node, 0);
}

/// Adding nodes that are proven in their turn keeps the cache below
/// trusted hashes.
pub proof fn lemma_nodes_keep_anchored(
    state: ReadStateView,
    trusted: Set<crypto::Hash>,
    nodes: Seq<Seq<crypto::Hash>>,
)
    requires
        state.wf(),
        forall|i: int| 0 <= i < nodes.len() ==> (#[trigger] nodes[i]).len() == crate::config::FANOUT,
        cache_anchored(state, trusted),
        state.nodes_proven(nodes),
    ensures
        state.after_nodes(nodes).wf(),
        cache_anchored(state.after_nodes(nodes), trusted),
    decreases nodes.len(),
{
    if nodes.len() > 0 {
        let rest = nodes.drop_last();
        assert forall|i: int| 0 <= i < rest.len() implies (#[trigger] rest[i]).len()
            == crate::config::FANOUT by {
            assert(rest[i] == nodes[i]);
        }
        lemma_nodes_keep_anchored(state, trusted, rest);
        assert(nodes.last() == nodes[nodes.len() - 1]);
        lemma_proven_node_keeps_anchored(state.after_nodes(rest), trusted, nodes.last());
    }
}

/// A client whose cache holds nothing but descendants of trusted hashes
/// accepts a proof only for a descendant of a trusted hash, where the
/// signed root of the proof counts as trusted: the writer's key accepts its
/// signature. Afterwards the cache still holds nothing else.
pub proof fn lemma_accepted_is_anchored(
    state: ReadStateView,
    trusted: Set<crypto::Hash>,
    target: crypto::Hash,
    root: Option<(Seq<u8>, crypto::Hash)>,
    nodes: Seq<Seq<crypto::Hash>>,
    writer_key: Seq<u8>,
)
    requires
        state.wf(),
        forall|i: int| 0 <= i < nodes.len() ==> (#[trigger] nodes[i]).len() == crate::config::FANOUT,
        cache_anchored(state, trusted),
        proof_accepted(state, target, root, nodes, writer_key),
    ensures
        root matches Some((sig, hash)) ==> ecdsa_accepts(sig, hash, writer_key),
        anchored(trusted_after(trusted, root), target),
        cache_anchored(state.after_proof(root, nodes), trusted_after(trusted, root)),
{
    let more = trusted_after(trusted, root);
    let rooted = state.after_root(root);
    match root {
        Some((_, hash)) => {
            lemma_signed_hash_keeps_anchored(state, trusted, hash);
        },
        None => {},
    }
    lemma_nodes_keep_anchored(rooted, more, nodes);
    assert(state.after_proof(root, nodes).contains(target));
}

} // verus!
