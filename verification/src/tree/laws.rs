//! What holds of the commit store as a whole: a proof that the server
//! builds over a store whose trees hang together is accepted by the client
//! whose cache the server mirrors.

use vstd::prelude::*;
use crate::config::{FANOUT, SIG_AVOID};
use crate::crypto;
use crate::crypto::{ecdsa_accepts, spec_hash_node, spec_null_hash};
use crate::merkle::{
    RecordBlock, TreeNodeView, bottom_layer, group, layer_at, lemma_layers_end_in_root,
    lemma_next_layer_len, next_layer, node_at, nodes_through, record_blocks,
    spec_merkle_tree_root, tree_depth, tree_nodes, tree_root,
};
use crate::readstate::ReadStateView;
use crate::tree::client::proof_accepted;
use crate::tree::server::{
    TreeStoreView, avoid, climb, spec_build_proof, stored_node, with_nodes, with_parents,
};
use crate::tree::storage::StoredNodeView;

verus! {

/// Whether the stored node `n` hangs in its tree: it stands under the
/// hash of its children, which is not the null hash; its parent, if it has
/// one, is stored and holds it among its children; and its signature, if it
/// is a root, is the writer's over its name.
pub open spec fn node_linked(
    nodes: Map<crypto::Hash, StoredNodeView>,
    n: crypto::Hash,
    writer_key: Seq<u8>,
) -> bool {
    &&& n == spec_hash_node(nodes[n].children)
    &&& n != spec_null_hash()
    &&& nodes[n].parent is Some ==> nodes.dom().contains(nodes[n].parent->Some_0)
        && nodes[nodes[n].parent->Some_0].children.contains(n)
    &&& nodes[n].root_info is Some ==> ecdsa_accepts(nodes[n].root_info->Some_0.1, n, writer_key)
}

/// Whether the trees of a store hang together: every stored node hangs in
/// its tree, and the node that is stored as the parent of a record is
/// stored and holds the record among its children.
pub open spec fn well_linked(store: TreeStoreView, writer_key: Seq<u8>) -> bool {
    &&& forall|r: crypto::Hash| #[trigger]
        store.parents.dom().contains(r) ==> store.nodes.dom().contains(store.parents[r])
            && store.nodes[store.parents[r]].children.contains(r)
    &&& forall|n: crypto::Hash| #[trigger]
        store.nodes.dom().contains(n) ==> node_linked(store.nodes, n, writer_key)
}

/// A store without records hangs together.
pub proof fn lemma_empty_well_linked(writer_key: Seq<u8>)
    ensures
        well_linked(TreeStoreView::empty(), writer_key),
{
}

/// Whether each node of `nodes`, the lowest first, holds the name of the
/// node before it, and no such name is the null hash.
pub open spec fn rises(nodes: Seq<Seq<crypto::Hash>>) -> bool {
    forall|i: int|
        1 <= i < nodes.len() ==> (#[trigger] nodes[i]).contains(spec_hash_node(nodes[i - 1]))
            && spec_hash_node(nodes[i - 1]) != spec_null_hash()
}

/// A client whose cache holds the name of the highest of a run of rising
/// nodes proves them all from the highest down, and then holds the
/// children of the lowest as its last proven node.
pub proof fn lemma_descend(state: ReadStateView, nodes: Seq<Seq<crypto::Hash>>)
    requires
        rises(nodes),
        nodes.len() > 0 ==> state.contains(spec_hash_node(nodes.last())),
    ensures
        state.nodes_proven(nodes.reverse()),
        nodes.len() > 0 ==> state.after_nodes(nodes.reverse()).last_proven_node == nodes[0],
    decreases nodes.len(),
{
    if nodes.len() > 0 {
        let upper = nodes.skip(1);
        assert(nodes.reverse().drop_last() =~= upper.reverse());
        assert(nodes.reverse().last() == nodes[0]);
        assert forall|i: int| 1 <= i < upper.len() implies (#[trigger] upper[i]).contains(
            spec_hash_node(upper[i - 1]),
        ) && spec_hash_node(upper[i - 1]) != spec_null_hash() by {
            assert(upper[i] == nodes[i + 1]);
            assert(upper[i - 1] == nodes[i]);
        }
        if upper.len() > 0 {
            assert(upper.last() == nodes.last());
            assert(upper[0] == nodes[1]);
        }
        lemma_descend(state, upper);
    }
}

/// What a climb over a store whose trees hang together finds: rising
/// nodes, the lowest of which holds the hash that the climb started from,
/// up to a node whose name the cache holds or the writer has signed.
pub proof fn lemma_climb_rises(
    store: TreeStoreView,
    writer_key: Seq<u8>,
    cache: ReadStateView,
    hash: crypto::Hash,
    parent: crypto::Hash,
    fuel: nat,
)
    requires
        well_linked(store, writer_key),
        store.nodes.dom().contains(parent) ==> store.nodes[parent].children.contains(hash),
        climb(store.nodes, cache, hash, parent, fuel) is Some,
    ensures
        ({
            let found = climb(store.nodes, cache, hash, parent, fuel)->Some_0;
            let top = spec_hash_node(found.nodes.last());
            &&& rises(found.nodes)
            &&& found.nodes.len() == 0 ==> cache.contains(hash) && found.root is None
            &&& found.nodes.len() > 0 ==> {
                &&& found.nodes[0].contains(hash)
                &&& top != spec_null_hash()
                &&& found.root is None ==> cache.contains(top)
                &&& found.root is Some ==> {
                    &&& found.root->Some_0.1 == top
                    &&& ecdsa_accepts(found.root->Some_0.0, top, writer_key)
                    &&& store.nodes.dom().contains(top)
                    &&& found.root_parent == store.nodes[top].parent
                }
            }
        }),
    decreases fuel,
{
    let found = climb(store.nodes, cache, hash, parent, fuel)->Some_0;
    if !cache.contains(hash) {
        let pn = store.nodes[parent];
        assert(store.nodes.dom().contains(parent));
        if pn.root_info is None {
            let above = pn.parent->Some_0;
            let rest = climb(store.nodes, cache, parent, above, (fuel - 1) as nat)->Some_0;
            lemma_climb_rises(store, writer_key, cache, parent, above, (fuel - 1) as nat);
            assert(found.nodes =~= seq![pn.children] + rest.nodes);
            assert(found.nodes[0] == pn.children);
            assert forall|i: int| 1 <= i < found.nodes.len() implies (#[trigger] found.nodes[i]).contains(
                spec_hash_node(found.nodes[i - 1]),
            ) && spec_hash_node(found.nodes[i - 1]) != spec_null_hash() by {
                assert(found.nodes[i] == rest.nodes[i - 1]);
                if i > 1 {
                    assert(found.nodes[i - 1] == rest.nodes[i - 2]);
                }
            }
            if rest.nodes.len() > 0 {
                assert(found.nodes.last() == rest.nodes.last());
            }
        } else {
            assert(found.nodes =~= seq![pn.children]);
        }
    }
}

/// What the nodes sent in place of a signature are, over a store whose
/// trees hang together: rising nodes, the lowest of which holds the name
/// `below` of the node under it, up to a node whose name the cache holds.
pub proof fn lemma_avoid_rises(
    store: TreeStoreView,
    writer_key: Seq<u8>,
    cache: ReadStateView,
    above: Option<crypto::Hash>,
    budget: nat,
    below: crypto::Hash,
)
    requires
        well_linked(store, writer_key),
        above is Some && store.nodes.dom().contains(above->Some_0)
            ==> store.nodes[above->Some_0].children.contains(below),
        avoid(store.nodes, cache, above, budget) is Some,
    ensures
        ({
            let extras = avoid(store.nodes, cache, above, budget)->Some_0;
            &&& extras.len() > 0
            &&& rises(extras)
            &&& extras[0].contains(below)
            &&& cache.contains(spec_hash_node(extras.last()))
        }),
    decreases budget,
{
    let extras = avoid(store.nodes, cache, above, budget)->Some_0;
    let p = above->Some_0;
    assert(store.nodes.dom().contains(p));
    if cache.contains(p) {
        assert(extras =~= seq![store.nodes[p].children]);
    } else {
        let rest = avoid(store.nodes, cache, store.nodes[p].parent, (budget - 1) as nat)->Some_0;
        lemma_avoid_rises(
            store,
            writer_key,
            cache,
            store.nodes[p].parent,
            (budget - 1) as nat,
            p,
        );
        assert(extras =~= seq![store.nodes[p].children] + rest);
        assert(extras[0] == store.nodes[p].children);
        assert(extras.last() == rest.last());
        assert forall|i: int| 1 <= i < extras.len() implies (#[trigger] extras[i]).contains(
            spec_hash_node(extras[i - 1]),
        ) && spec_hash_node(extras[i - 1]) != spec_null_hash() by {
            assert(extras[i] == rest[i - 1]);
            if i > 1 {
                assert(extras[i - 1] == rest[i - 2]);
            }
        }
    }
}

/// A proof that the server builds over a store whose trees hang together
/// is accepted by the client whose cache the server mirrors.
pub proof fn lemma_built_proof_accepted(
    store: TreeStoreView,
    writer_key: Seq<u8>,
    cache: ReadStateView,
    target: crypto::Hash,
)
    requires
        well_linked(store, writer_key),
        target != spec_null_hash(),
        spec_build_proof(store, cache, target) is Some,
    ensures
        proof_accepted(
            cache,
            target,
            spec_build_proof(store, cache, target)->Some_0.0,
            spec_build_proof(store, cache, target)->Some_0.1,
            writer_key,
        ),
{
    let built = spec_build_proof(store, cache, target)->Some_0;
    let fuel = store.nodes.dom().len();
    let found = climb(store.nodes, cache, target, store.parents[target], fuel)->Some_0;
    lemma_climb_rises(store, writer_key, cache, target, store.parents[target], fuel);
    let extras = avoid(store.nodes, cache, found.root_parent, SIG_AVOID as nat);
    if found.root is Some && extras is Some {
        let top = spec_hash_node(found.nodes.last());
        let more = extras->Some_0;
        lemma_avoid_rises(store, writer_key, cache, found.root_parent, SIG_AVOID as nat, top);
        let all = found.nodes + more;
        assert(all.last() == more.last());
        assert(all[0] == found.nodes[0]);
        assert forall|i: int| 1 <= i < all.len() implies (#[trigger] all[i]).contains(
            spec_hash_node(all[i - 1]),
        ) && spec_hash_node(all[i - 1]) != spec_null_hash() by {
            if i < found.nodes.len() {
                assert(all[i] == found.nodes[i]);
                assert(all[i - 1] == found.nodes[i - 1]);
            } else if i == found.nodes.len() {
                assert(all[i] == more[0]);
                assert(all[i - 1] == found.nodes.last());
            } else {
                assert(all[i] == more[i - found.nodes.len()]);
                assert(all[i - 1] == more[i - found.nodes.len() - 1]);
            }
        }
        lemma_descend(cache, all);
    } else {
        let rooted = cache.after_root(found.root);
        if found.nodes.len() > 0 && found.root is Some {
            assert(rooted.last_signed_hash == spec_hash_node(found.nodes.last()));
        }
        lemma_descend(rooted, found.nodes);
    }
}

/// After the server has built a proof over a store whose trees hang
/// together, and the client has checked it, both hold the same cache: the
/// client accepts the proof and applies it, as the server did.
pub proof fn lemma_proof_round_trip(
    store: TreeStoreView,
    writer_key: Seq<u8>,
    cache: ReadStateView,
    target: crypto::Hash,
)
    requires
        well_linked(store, writer_key),
        target != spec_null_hash(),
        spec_build_proof(store, cache, target) is Some,
    ensures
        ({
            let (root, nodes) = spec_build_proof(store, cache, target)->Some_0;
            crate::tree::client::client_cache_after(cache, target, root, nodes, writer_key)
                == cache.after_proof(root, nodes)
        }),
{
    lemma_built_proof_accepted(store, writer_key, cache, target);
}

/// Whether a block of `blocks` has the name `n`.
pub open spec fn named(blocks: Seq<TreeNodeView>, n: crypto::Hash) -> bool {
    exists|i: int| 0 <= i < blocks.len() && (#[trigger] blocks[i]).name == n
}

/// Whether the nodes of a new tree come without a clash of names: no name
/// is the null hash, and a name stands for the same children wherever it
/// occurs, in the tree and among the nodes stored before.
pub open spec fn takes_tree(
    nodes: Map<crypto::Hash, StoredNodeView>,
    blocks: Seq<TreeNodeView>,
) -> bool {
    &&& forall|i: int| 0 <= i < blocks.len() ==> (#[trigger] blocks[i]).name != spec_null_hash()
    &&& forall|i: int|
        0 <= i < blocks.len() && nodes.dom().contains((#[trigger] blocks[i]).name)
            ==> nodes[blocks[i].name].children == blocks[i].children
    &&& forall|i: int, j: int|
        0 <= i < blocks.len() && 0 <= j < blocks.len() && (#[trigger] blocks[i]).name == (
        #[trigger] blocks[j]).name ==> blocks[i].children == blocks[j].children
}

/// The place in its tree of the `i`-th of the nodes of layers `1..=k`.
pub proof fn lemma_block_place(
    bottom: Seq<crypto::Hash>,
    k: nat,
    built: nat,
    done: bool,
    i: int,
) -> (at: (nat, int))
    requires
        0 <= i < nodes_through(bottom, k, built, done).len(),
    ensures
        1 <= at.0 <= k,
        0 <= at.1 < layer_at(bottom, at.0).len(),
        nodes_through(bottom, k, built, done)[i] == node_at(bottom, at.0, at.1, built, done),
    decreases k,
{
    let lower = nodes_through(bottom, (k - 1) as nat, built, done);
    if i < lower.len() {
        lemma_block_place(bottom, (k - 1) as nat, built, done, i)
    } else {
        (k, i - lower.len())
    }
}

/// The node at a place in layers `1..=k` is among the nodes of these
/// layers.
pub proof fn lemma_place_block(
    bottom: Seq<crypto::Hash>,
    k: nat,
    built: nat,
    done: bool,
    d: nat,
    g: int,
) -> (i: int)
    requires
        1 <= d <= k,
        0 <= g < layer_at(bottom, d).len(),
    ensures
        0 <= i < nodes_through(bottom, k, built, done).len(),
        nodes_through(bottom, k, built, done)[i] == node_at(bottom, d, g, built, done),
    decreases k,
{
    let lower = nodes_through(bottom, (k - 1) as nat, built, done);
    if d < k {
        lemma_place_block(bottom, (k - 1) as nat, built, done, d, g)
    } else {
        lower.len() + g
    }
}

/// What stands under a name after the nodes of a tree were stored: the
/// node of that name that was stored last, or what stood there before.
pub proof fn lemma_with_nodes(
    nodes: Map<crypto::Hash, StoredNodeView>,
    blocks: Seq<TreeNodeView>,
    depth: u8,
    signature: Seq<u8>,
    n: crypto::Hash,
)
    ensures
        with_nodes(nodes, blocks, depth, signature).dom().contains(n) <==> nodes.dom().contains(n)
            || named(blocks, n),
        named(blocks, n) ==> exists|i: int|
            0 <= i < blocks.len() && (#[trigger] blocks[i]).name == n && with_nodes(
                nodes,
                blocks,
                depth,
                signature,
            )[n] == stored_node(blocks[i], depth, signature),
        !named(blocks, n) && nodes.dom().contains(n) ==> with_nodes(
            nodes,
            blocks,
            depth,
            signature,
        )[n] == nodes[n],
    decreases blocks.len(),
{
    if blocks.len() > 0 {
        let rest = blocks.drop_last();
        lemma_with_nodes(nodes, rest, depth, signature, n);
        let out = with_nodes(nodes, blocks, depth, signature);
        if blocks.last().name == n {
            assert(blocks[blocks.len() - 1].name == n);
            assert(out[n] == stored_node(blocks[blocks.len() - 1], depth, signature));
        } else if named(rest, n) {
            let i = choose|i: int|
                0 <= i < rest.len() && (#[trigger] rest[i]).name == n && with_nodes(
                    nodes,
                    rest,
                    depth,
                    signature,
                )[n] == stored_node(rest[i], depth, signature);
            assert(blocks[i] == rest[i]);
        } else {
            assert forall|i: int| 0 <= i < blocks.len() implies (#[trigger] blocks[i]).name
                != n by {
                if i < rest.len() {
                    assert(rest[i] == blocks[i]);
                }
            }
        }
    }
}

/// What stands as the parent of a record after the records of a commit
/// were stored: the parent of the record of that name that was stored last,
/// or what stood there before.
pub proof fn lemma_with_parents(
    parents: Map<crypto::Hash, crypto::Hash>,
    blocks: Seq<RecordBlock>,
    r: crypto::Hash,
)
    ensures
        with_parents(parents, blocks).dom().contains(r) ==> (parents.dom().contains(r)
            && with_parents(parents, blocks)[r] == parents[r]) || (exists|i: int|
            0 <= i < blocks.len() && (#[trigger] blocks[i]).name == r && with_parents(
                parents,
                blocks,
            )[r] == blocks[i].parent),
    decreases blocks.len(),
{
    if blocks.len() > 0 {
        let rest = blocks.drop_last();
        lemma_with_parents(parents, rest, r);
        let out = with_parents(parents, blocks);
        if blocks.last().name == r {
            assert(blocks[blocks.len() - 1].name == r);
        } else if out.dom().contains(r) && !(parents.dom().contains(r) && out[r] == parents[r]) {
            let i = choose|i: int|
                0 <= i < rest.len() && (#[trigger] rest[i]).name == r && with_parents(
                    parents,
                    rest,
                )[r] == rest[i].parent;
            assert(blocks[i] == rest[i]);
        }
    }
}

/// The shape of a node of a finished tree: it stands under the hash of
/// its children; below the top it has a parent, the node above that holds
/// it among its children; at the top it is the signed root.
pub proof fn lemma_node_shape(bottom: Seq<crypto::Hash>, d: nat, g: int)
    requires
        bottom.len() >= 1,
        1 <= d <= tree_depth(bottom),
        0 <= g < layer_at(bottom, d).len(),
    ensures
        ({
            let top = tree_depth(bottom);
            let node = node_at(bottom, d, g, top, true);
            &&& node.name == spec_hash_node(node.children)
            &&& d < top ==> {
                &&& !node.signed
                &&& 0 <= g / (FANOUT as int) < layer_at(bottom, d + 1).len()
                &&& node.parent == Some(
                    node_at(bottom, d + 1, g / (FANOUT as int), top, true).name,
                )
                &&& node_at(bottom, d + 1, g / (FANOUT as int), top, true).children.contains(
                    node.name,
                )
            }
            &&& d == top ==> node.signed && node.parent is None && node.name == tree_root(bottom)
        }),
{
    let top = tree_depth(bottom);
    let layer = layer_at(bottom, d);
    lemma_layers_end_in_root(bottom, d);
    lemma_layers_end_in_root(bottom, (d - 1) as nat);
    assert(layer == next_layer(layer_at(bottom, (d - 1) as nat)));
    if d < top {
        lemma_layers_end_in_root(bottom, d + 1);
        assert(tree_depth(layer) >= 1);
        lemma_next_layer_len(layer);
        let up = g / (FANOUT as int);
        let above = node_at(bottom, d + 1, up, top, true);
        assert(above.children == group(layer, up));
        assert(group(layer, up)[g % (FANOUT as int)] == layer[g]);
    } else {
        assert(tree_depth(layer) == 0);
        assert(layer.len() == 1);
    }
}

/// A commit keeps the trees of a store hanging together, where the
/// writer's signature over its root is good and its nodes come without a
/// clash of names.
pub proof fn lemma_commit_keeps_linked(
    store: TreeStoreView,
    hashes: Seq<crypto::Hash>,
    additional_hash: crypto::Hash,
    signature: Seq<u8>,
    writer_key: Seq<u8>,
)
    requires
        well_linked(store, writer_key),
        ecdsa_accepts(signature, spec_merkle_tree_root(hashes, additional_hash), writer_key),
        takes_tree(store.nodes, tree_nodes(bottom_layer(hashes, additional_hash))),
    ensures
        well_linked(store.committed(hashes, additional_hash, signature), writer_key),
{
    let bottom = bottom_layer(hashes, additional_hash);
    let top = tree_depth(bottom);
    let blocks = tree_nodes(bottom);
    let depth = top as u8;
    let placed = with_nodes(store.nodes, blocks, depth, signature);
    let out = store.committed(hashes, additional_hash, signature);
    assert(bottom.len() >= 1);
    assert(bottom[0] == additional_hash);

    // what stands under each name afterwards
    assert forall|q: crypto::Hash| out.nodes.dom().contains(q) implies {
        &&& store.nodes.dom().contains(q) || named(blocks, q)
        &&& store.nodes.dom().contains(q) ==> #[trigger] out.nodes[q].children
            == store.nodes[q].children
        &&& forall|j: int|
            0 <= j < blocks.len() && (#[trigger] blocks[j]).name == q ==> out.nodes[q].children
                == blocks[j].children
    } by {
        lemma_with_nodes(store.nodes, blocks, depth, signature, q);
        assert(out.nodes[q].children == placed[q].children);
    }
    assert forall|q: crypto::Hash| store.nodes.dom().contains(q) || named(blocks, q) implies
        #[trigger] out.nodes.dom().contains(q) by {
        lemma_with_nodes(store.nodes, blocks, depth, signature, q);
    }

    assert forall|n: crypto::Hash| #[trigger] out.nodes.dom().contains(n) implies node_linked(
        out.nodes,
        n,
        writer_key,
    ) by {
        lemma_with_nodes(store.nodes, blocks, depth, signature, n);
        let stitched_here = blocks.len() > 0 && n == additional_hash && placed[n].parent is None;
        if stitched_here {
            // the carried-in hash now hangs below the first node of the tree
            assert(top >= 1);
            lemma_layers_end_in_root(bottom, 1);
            let first = lemma_place_block(bottom, top, top, true, 1, 0);
            assert(blocks[first].name == next_layer(bottom)[0]);
            assert(blocks[first].children == group(bottom, 0));
            assert(group(bottom, 0)[0] == additional_hash);
            assert(named(blocks, blocks[first].name));
        }
        if named(blocks, n) {
            let i = choose|i: int|
                0 <= i < blocks.len() && (#[trigger] blocks[i]).name == n && placed[n]
                    == stored_node(blocks[i], depth, signature);
            let at = lemma_block_place(bottom, top, top, true, i);
            lemma_node_shape(bottom, at.0, at.1);
            if at.0 < top {
                let up = lemma_place_block(
                    bottom,
                    top,
                    top,
                    true,
                    at.0 + 1,
                    at.1 / (FANOUT as int),
                );
                assert(named(blocks, blocks[up].name));
            }
        } else {
            assert(node_linked(store.nodes, n, writer_key));
        }
    }

    assert forall|r: crypto::Hash| #[trigger] out.parents.dom().contains(r) implies
        out.nodes.dom().contains(out.parents[r]) && out.nodes[out.parents[r]].children.contains(
        r,
    ) by {
        let records = record_blocks(hashes, additional_hash);
        lemma_with_parents(store.parents, records, r);
        if store.parents.dom().contains(r) && out.parents[r] == store.parents[r] {
            assert(store.nodes.dom().contains(store.parents[r]));
        } else {
            let i = choose|i: int|
                0 <= i < records.len() && (#[trigger] records[i]).name == r && out.parents[r]
                    == records[i].parent;
            let g = (i + 1) / (FANOUT as int);
            assert(bottom.len() > 1);
            assert(top >= 1);
            lemma_next_layer_len(bottom);
            lemma_layers_end_in_root(bottom, 1);
            let first = lemma_place_block(bottom, top, top, true, 1, g);
            assert(blocks[first].name == out.parents[r]);
            assert(blocks[first].children == group(bottom, g));
            assert(group(bottom, g)[(i + 1) % (FANOUT as int)] == bottom[i + 1]);
            assert(bottom[i + 1] == hashes[i]);
            assert(named(blocks, blocks[first].name));
        }
    }
}

} // verus!
