//! Commit trees: a Merkle tree over a batch of record hashes and the root of
//! the previous commit.
//!
//! The bottom layer is `[A, R1, .., Rn]`, where `A` is the carried-in hash.
//! Each layer above holds the names of the groups of `FANOUT` hashes of the
//! layer below, the last group padded with the null hash, until a layer of
//! one hash is left: the root.

use vstd::prelude::*;
use vstd::arithmetic::power2::{pow2, lemma_pow2_unfold, lemma2_to64, lemma2_to64_rest, lemma_pow2_strictly_increases};
use crate::config::FANOUT;
use crate::crypto;
use crate::crypto::{HashNode, hash_node, null_hash, spec_hash_node, spec_null_hash};

verus! {

/// An interior node of a commit tree, as it is stored.
#[derive(Clone, Copy, Debug)]
pub struct TreeNode {
    pub name: crypto::Hash,
    pub parent: Option<crypto::Hash>,
    pub signed: bool,
    pub children: HashNode,
}

/// What a `TreeNode` holds, with the children as a sequence.
pub struct TreeNodeView {
    pub name: crypto::Hash,
    pub parent: Option<crypto::Hash>,
    pub signed: bool,
    pub children: Seq<crypto::Hash>,
}

impl View for TreeNode {
    type V = TreeNodeView;

    open spec fn view(&self) -> TreeNodeView {
        TreeNodeView {
            name: self.name,
            parent: self.parent,
            signed: self.signed,
            children: self.children@,
        }
    }
}

/// A committed record and the node that holds its hash.
#[derive(Clone, Copy, Debug)]
pub struct RecordBlock {
    pub name: crypto::Hash,
    pub parent: crypto::Hash,
}

/// The bottom layer of a commit: the carried-in hash, then the records.
pub open spec fn bottom_layer(hashes: Seq<crypto::Hash>, additional_hash: crypto::Hash) -> Seq<
    crypto::Hash,
> {
    seq![additional_hash] + hashes
}

/// How many groups of `FANOUT` a layer of `len` hashes falls into.
pub open spec fn group_count(len: nat) -> nat {
    if len == 0 {
        0
    } else {
        ((len - 1) / (FANOUT as int) + 1) as nat
    }
}

/// The `g`-th group of a layer, padded with the null hash.
pub open spec fn group(layer: Seq<crypto::Hash>, g: int) -> Seq<crypto::Hash> {
    Seq::new(
        FANOUT as nat,
        |j: int|
            if g * FANOUT + j < layer.len() {
                layer[g * FANOUT + j]
            } else {
                spec_null_hash()
            },
    )
}

/// The layer above `layer`: the names of its groups.
pub open spec fn next_layer(layer: Seq<crypto::Hash>) -> Seq<crypto::Hash> {
    Seq::new(group_count(layer.len()), |g: int| spec_hash_node(group(layer, g)))
}

/// The `d`-th layer above the bottom layer `bottom`.
pub open spec fn layer_at(bottom: Seq<crypto::Hash>, d: nat) -> Seq<crypto::Hash>
    decreases d,
{
    if d == 0 {
        bottom
    } else {
        next_layer(layer_at(bottom, (d - 1) as nat))
    }
}

/// The number of layers above the bottom layer.
pub open spec fn tree_depth(layer: Seq<crypto::Hash>) -> nat
    decreases layer.len(),
{
    if layer.len() <= 1 {
        0
    } else {
        1 + tree_depth(next_layer(layer))
    }
}

/// The root of the tree over the bottom layer `layer`.
pub open spec fn tree_root(layer: Seq<crypto::Hash>) -> crypto::Hash
    decreases layer.len(),
{
    if layer.len() <= 1 {
        layer[0]
    } else {
        tree_root(next_layer(layer))
    }
}

/// The root of the commit over `hashes` that carries `additional_hash`.
pub open spec fn spec_merkle_tree_root(
    hashes: Seq<crypto::Hash>,
    additional_hash: crypto::Hash,
) -> crypto::Hash {
    tree_root(bottom_layer(hashes, additional_hash))
}

/// The `g`-th node of layer `d >= 1`, in a tree of which `built` layers
/// stand. A node of the highest layer built has no parent yet, and once the
/// tree is `done` the node of its highest layer is the signed one.
pub open spec fn node_at(
    bottom: Seq<crypto::Hash>,
    d: nat,
    g: int,
    built: nat,
    done: bool,
) -> TreeNodeView {
    TreeNodeView {
        name: layer_at(bottom, d)[g],
        parent: if d < built {
            Some(layer_at(bottom, d + 1)[g / (FANOUT as int)])
        } else {
            None
        },
        signed: done && d == built,
        children: group(layer_at(bottom, (d - 1) as nat), g),
    }
}

/// The nodes of layer `d`, left to right.
pub open spec fn level_nodes(bottom: Seq<crypto::Hash>, d: nat, built: nat, done: bool) -> Seq<
    TreeNodeView,
> {
    Seq::new(layer_at(bottom, d).len(), |g: int| node_at(bottom, d, g, built, done))
}

/// The nodes of layers `1..=k`, lower layers first.
pub open spec fn nodes_through(bottom: Seq<crypto::Hash>, k: nat, built: nat, done: bool) -> Seq<
    TreeNodeView,
>
    decreases k,
{
    if k == 0 {
        Seq::empty()
    } else {
        nodes_through(bottom, (k - 1) as nat, built, done) + level_nodes(bottom, k, built, done)
    }
}

/// All interior nodes of the finished tree over `bottom`, lower layers
/// first: each below the top with its parent, the top one marked as signed.
pub open spec fn tree_nodes(bottom: Seq<crypto::Hash>) -> Seq<TreeNodeView> {
    nodes_through(bottom, tree_depth(bottom), tree_depth(bottom), true)
}

/// The records of a commit, each with the first-layer node that holds it.
pub open spec fn record_blocks(hashes: Seq<crypto::Hash>, additional_hash: crypto::Hash) -> Seq<
    RecordBlock,
> {
    let first = next_layer(bottom_layer(hashes, additional_hash));
    Seq::new(
        hashes.len(),
        |i: int| RecordBlock { name: hashes[i], parent: first[(i + 1) / (FANOUT as int)] },
    )
}

/// The node that holds the carried-in hash: the first node of the first
/// layer, or the null hash where the commit has no layer above the bottom.
pub open spec fn additional_parent(
    hashes: Seq<crypto::Hash>,
    additional_hash: crypto::Hash,
) -> crypto::Hash {
    if hashes.len() == 0 {
        spec_null_hash()
    } else {
        next_layer(bottom_layer(hashes, additional_hash))[0]
    }
}

/// A layer of more than one hash has a shorter layer above it, which is not
/// empty and at most half as long.
pub proof fn lemma_next_layer_len(layer: Seq<crypto::Hash>)
    requires
        layer.len() > 1,
    ensures
        1 <= next_layer(layer).len() < layer.len(),
        2 * next_layer(layer).len() <= layer.len(),
{
}

/// The depth and root of a tree, read off its layers: the layer at
/// `tree_depth` holds one hash, the root.
pub proof fn lemma_layers_end_in_root(bottom: Seq<crypto::Hash>, d: nat)
    requires
        bottom.len() >= 1,
    ensures
        d <= tree_depth(bottom) ==> {
            &&& layer_at(bottom, d).len() >= 1
            &&& tree_depth(bottom) == d + tree_depth(layer_at(bottom, d))
            &&& tree_root(bottom) == tree_root(layer_at(bottom, d))
        },
    decreases d,
{
    if d > 0 {
        let prev = (d - 1) as nat;
        lemma_layers_end_in_root(bottom, prev);
        if d <= tree_depth(bottom) {
            let below = layer_at(bottom, prev);
            assert(tree_depth(below) >= 1);
            lemma_next_layer_len(below);
        }
    }
}

/// Nodes of layers below `k` do not depend on how far above `k` the tree
/// has been built.
proof fn lemma_nodes_through_stable(
    bottom: Seq<crypto::Hash>,
    k: nat,
    built1: nat,
    built2: nat,
    done: bool,
)
    requires
        k < built1,
        k < built2,
    ensures
        nodes_through(bottom, k, built1, false) == nodes_through(bottom, k, built2, done),
    decreases k,
{
    if k > 0 {
        lemma_nodes_through_stable(bottom, (k - 1) as nat, built1, built2, done);
        assert(level_nodes(bottom, k, built1, false) =~= level_nodes(bottom, k, built2, done));
    }
}

/// The length of the run of nodes of layers `1..=k`.
pub open spec fn nodes_len(bottom: Seq<crypto::Hash>, k: nat) -> nat
    decreases k,
{
    if k == 0 {
        0
    } else {
        nodes_len(bottom, (k - 1) as nat) + layer_at(bottom, k).len()
    }
}

proof fn lemma_nodes_through_len(bottom: Seq<crypto::Hash>, k: nat, built: nat, done: bool)
    ensures
        nodes_through(bottom, k, built, done).len() == nodes_len(bottom, k),
    decreases k,
{
    if k > 0 {
        lemma_nodes_through_len(bottom, (k - 1) as nat, built, done);
    }
}

/// Builds the `g`-th group of `layer`, padded with the null hash.
fn build_group(layer: &Vec<crypto::Hash>, g: usize) -> (children: HashNode)
    requires
        g * FANOUT < layer.len(),
    ensures
        children@ == group(layer@, g as int),
{
    let mut children: HashNode = [null_hash();FANOUT];
    let start: usize = g * FANOUT;
    let mut j: usize = 0;
    while j < FANOUT
        invariant
            j <= FANOUT,
            start == g * FANOUT,
            start < layer.len(),
            forall|t: int| 0 <= t < j ==> children@[t] == group(layer@, g as int)[t],
            forall|t: int| j <= t < FANOUT ==> children@[t] == spec_null_hash(),
        decreases FANOUT - j,
    {
        if j < layer.len() - start {
            children[j] = layer[start + j];
        }
        j += 1;
    }
    assert(children@ =~= group(layer@, g as int));
    children
}

/// Builds the layer above `layer`, and appends its nodes to `treeblocks`,
/// without parents and unsigned.
fn build_next_layer(
    layer: &Vec<crypto::Hash>,
    treeblocks: &mut Vec<TreeNode>,
    Ghost(bottom): Ghost<Seq<crypto::Hash>>,
    Ghost(d): Ghost<nat>,
) -> (next: Vec<crypto::Hash>)
    requires
        layer.len() >= 1,
        layer@ == layer_at(bottom, d),
    ensures
        next@ == next_layer(layer@),
        next@ == layer_at(bottom, d + 1),
        final(treeblocks)@.map_values(|t: TreeNode| t@) == old(treeblocks)@.map_values(
            |t: TreeNode| t@,
        ) + level_nodes(bottom, d + 1, d + 1, false),
{
    let len_next: usize = (layer.len() - 1) / FANOUT + 1;
    let mut next: Vec<crypto::Hash> = Vec::new();
    let mut g: usize = 0;
    let ghost target = level_nodes(bottom, d + 1, d + 1, false);
    while g < len_next
        invariant
            g <= len_next,
            layer.len() >= 1,
            len_next == group_count(layer.len() as nat),
            layer@ == layer_at(bottom, d),
            target == level_nodes(bottom, d + 1, d + 1, false),
            next@ == next_layer(layer@).take(g as int),
            treeblocks@.map_values(|t: TreeNode| t@) == old(treeblocks)@.map_values(
                |t: TreeNode| t@,
            ) + target.take(g as int),
        decreases len_next - g,
    {
        let children = build_group(layer, g);
        let name = hash_node(&children);
        let ghost before = treeblocks@;
        next.push(name);
        treeblocks.push(TreeNode { name, parent: None, signed: false, children });
        proof {
            let nl = next_layer(layer@);
            assert(nl.take(g as int + 1) =~= nl.take(g as int).push(nl[g as int]));
            assert(target.take(g as int + 1) =~= target.take(g as int).push(target[g as int]));
            assert(treeblocks@.map_values(|t: TreeNode| t@) =~= before.map_values(
                |t: TreeNode| t@,
            ).push(target[g as int]));
        }
        g += 1;
    }
    proof {
        assert(next_layer(layer@).take(len_next as int) =~= next_layer(layer@));
        assert(target.take(len_next as int) =~= target);
    }
    next
}

/// Lays out the bottom layer: the carried-in hash, then the records.
fn build_bottom_layer(hashes: &[crypto::Hash], additional_hash: &crypto::Hash) -> (layer: Vec<
    crypto::Hash,
>)
    ensures
        layer@ == bottom_layer(hashes@, *additional_hash),
{
    let mut layer: Vec<crypto::Hash> = Vec::new();
    layer.push(*additional_hash);
    let mut i: usize = 0;
    while i < hashes.len()
        invariant
            i <= hashes.len(),
            layer@ == seq![*additional_hash] + hashes@.take(i as int),
        decreases hashes.len() - i,
    {
        layer.push(hashes[i]);
        assert(hashes@.take(i as int + 1) =~= hashes@.take(i as int).push(hashes@[i as int]));
        i += 1;
    }
    assert(hashes@.take(hashes.len() as int) =~= hashes@);
    layer
}

/// Returns the root of the commit tree over `[additional_hash] + hashes`.
pub fn merkle_tree_root(hashes: &[crypto::Hash], additional_hash: &crypto::Hash) -> (root:
    crypto::Hash)
    requires
        hashes.len() < usize::MAX,
    ensures
        root == spec_merkle_tree_root(hashes@, *additional_hash),
{
    let ghost bottom = bottom_layer(hashes@, *additional_hash);
    let mut current_layer = build_bottom_layer(hashes, additional_hash);
    while current_layer.len() > 1
        invariant
            current_layer.len() >= 1,
            tree_root(current_layer@) == tree_root(bottom),
        decreases current_layer.len(),
    {
        let ghost layer = current_layer@;
        let len_next: usize = (current_layer.len() - 1) / FANOUT + 1;
        let mut next: Vec<crypto::Hash> = Vec::new();
        let mut g: usize = 0;
        while g < len_next
            invariant
                g <= len_next,
                current_layer.len() >= 1,
                len_next == group_count(current_layer.len() as nat),
                next@ == next_layer(current_layer@).take(g as int),
            decreases len_next - g,
        {
            let children = build_group(&current_layer, g);
            next.push(hash_node(&children));
            proof {
                let nl = next_layer(current_layer@);
                assert(nl.take(g as int + 1) =~= nl.take(g as int).push(nl[g as int]));
            }
            g += 1;
        }
        proof {
            assert(next_layer(layer).take(len_next as int) =~= next_layer(layer));
            lemma_next_layer_len(layer);
        }
        current_layer = next;
    }
    current_layer[0]
}

/// The depth of a tree is below 64 wherever the bottom layer fits in memory.
proof fn lemma_depth_bound(bottom: Seq<crypto::Hash>, d: nat)
    requires
        1 <= bottom.len() <= usize::MAX,
        d <= tree_depth(bottom),
    ensures
        layer_at(bottom, d).len() * pow2(d) <= bottom.len(),
        d < 64,
    decreases d,
{
    lemma2_to64();
    lemma2_to64_rest();
    if d == 0 {
    } else {
        let prev = (d - 1) as nat;
        lemma_depth_bound(bottom, prev);
        lemma_layers_end_in_root(bottom, prev);
        let below = layer_at(bottom, prev);
        assert(tree_depth(below) >= 1);
        lemma_next_layer_len(below);
        lemma_pow2_unfold(d);
        let a = layer_at(bottom, d).len() as int;
        let b = below.len() as int;
        let p = pow2(prev) as int;
        assert(a * (2 * p) <= b * p) by (nonlinear_arith)
            requires
                2 * a <= b,
                p >= 0,
        ;
        lemma_layers_end_in_root(bottom, d);
        if d >= 64 {
            lemma_pow2_strictly_increases(63, d);
            assert(a >= 1);
            assert(a * pow2(d) >= pow2(d)) by (nonlinear_arith)
                requires
                    a >= 1,
            ;
        }
    }
}

/// Builds the commit tree over `[additional_hash] + hashes` for storage.
///
/// Returns the records with their parents, the interior nodes (lower layers
/// first, the last one the signed root), the parent of the carried-in hash,
/// the root, and the number of layers above the bottom.
pub fn merkle_tree_storage(hashes: &[crypto::Hash], additional_hash: &crypto::Hash) -> (out: (
    Vec<RecordBlock>,
    Vec<TreeNode>,
    crypto::Hash,
    crypto::Hash,
    u8,
))
    requires
        hashes.len() < usize::MAX,
    ensures
        out.0@ == record_blocks(hashes@, *additional_hash),
        out.1@.map_values(|t: TreeNode| t@) == tree_nodes(bottom_layer(hashes@, *additional_hash)),
        out.2 == additional_parent(hashes@, *additional_hash),
        out.3 == spec_merkle_tree_root(hashes@, *additional_hash),
        out.4 == tree_depth(bottom_layer(hashes@, *additional_hash)),
{
    let ghost bottom = bottom_layer(hashes@, *additional_hash);
    let mut records: Vec<RecordBlock> = Vec::new();
    let mut treeblocks: Vec<TreeNode> = Vec::new();
    let mut additional_hash_parent: crypto::Hash = null_hash();

    let mut current_layer = build_bottom_layer(hashes, additional_hash);
    let mut depth: u8 = 0;
    proof {
        lemma_layers_end_in_root(bottom, 0);
    }
    while current_layer.len() > 1
        invariant
            bottom == bottom_layer(hashes@, *additional_hash),
            hashes.len() < usize::MAX,
            current_layer.len() >= 1,
            depth <= tree_depth(bottom),
            depth < 64,
            current_layer@ == layer_at(bottom, depth as nat),
            tree_depth(bottom) == depth + tree_depth(current_layer@),
            treeblocks@.map_values(|t: TreeNode| t@) == nodes_through(
                bottom,
                depth as nat,
                depth as nat,
                false,
            ),
            depth == 0 ==> records@.len() == 0 && additional_hash_parent == spec_null_hash(),
            depth > 0 ==> records@ == record_blocks(hashes@, *additional_hash),
            depth > 0 ==> additional_hash_parent == additional_parent(hashes@, *additional_hash),
            depth > 0 ==> hashes.len() > 0,
            depth > 0 ==> treeblocks.len() >= current_layer.len(),
        decreases current_layer.len(),
    {
        let ghost k = depth as nat;
        let ghost layer = current_layer@;
        let ghost before = treeblocks@.map_values(|t: TreeNode| t@);
        let above = build_next_layer(&current_layer, &mut treeblocks, Ghost(bottom), Ghost(k));
        proof {
            lemma_next_layer_len(layer);
            lemma_nodes_through_len(bottom, k, k, false);
            assert(treeblocks@.len() == treeblocks@.map_values(|t: TreeNode| t@).len());
            assert(tree_depth(layer) == 1 + tree_depth(above@));
            lemma_depth_bound(bottom, k + 1);
        }

        if depth == 0 {
            additional_hash_parent = above[0];
            let mut i: usize = 1;
            while i < current_layer.len()
                invariant
                    1 <= i <= current_layer.len(),
                    current_layer@ == bottom_layer(hashes@, *additional_hash),
                    above@ == next_layer(current_layer@),
                    current_layer.len() > 1,
                    records@ == record_blocks(hashes@, *additional_hash).take(i - 1),
                decreases current_layer.len() - i,
            {
                records.push(RecordBlock { name: current_layer[i], parent: above[i / FANOUT] });
                proof {
                    let all = record_blocks(hashes@, *additional_hash);
                    assert(all.take(i as int) =~= all.take(i - 1).push(all[i - 1]));
                }
                i += 1;
            }
            proof {
                let all = record_blocks(hashes@, *additional_hash);
                assert(all.take(current_layer.len() - 1) =~= all);
                assert(nodes_through(bottom, 0, 1, false) =~= Seq::<TreeNodeView>::empty());
                assert(before =~= nodes_through(bottom, 0, 1, false));
                assert(treeblocks@.map_values(|t: TreeNode| t@) =~= nodes_through(
                    bottom,
                    1,
                    1,
                    false,
                ));
            }
        } else {
            let start_idx: usize = treeblocks.len() - above.len() - current_layer.len();
            let ghost below = nodes_through(bottom, (k - 1) as nat, k, false);
            proof {
                lemma_nodes_through_len(bottom, (k - 1) as nat, k, false);
                assert(start_idx == below.len());
            }
            let mut i: usize = 0;
            while i < current_layer.len()
                invariant
                    i <= current_layer.len(),
                    k == depth as nat,
                    k >= 1,
                    current_layer@ == layer_at(bottom, k),
                    above@ == layer_at(bottom, k + 1),
                    above@ == next_layer(current_layer@),
                    current_layer.len() > 1,
                    start_idx == below.len(),
                    below == nodes_through(bottom, (k - 1) as nat, k, false),
                    treeblocks.len() == start_idx + current_layer.len() + above.len(),
                    treeblocks@.map_values(|t: TreeNode| t@) == below + level_nodes(
                        bottom,
                        k,
                        k + 1,
                        false,
                    ).take(i as int) + level_nodes(bottom, k, k, false).skip(i as int)
                        + level_nodes(bottom, k + 1, k + 1, false),
                decreases current_layer.len() - i,
            {
                let ghost old_blocks = treeblocks@.map_values(|t: TreeNode| t@);
                let mut block = treeblocks[start_idx + i];
                block.parent = Some(above[i / FANOUT]);
                treeblocks[start_idx + i] = block;
                proof {
                    let patched = level_nodes(bottom, k, k + 1, false);
                    let bare = level_nodes(bottom, k, k, false);
                    let top = level_nodes(bottom, k + 1, k + 1, false);
                    let at = start_idx + i;
                    assert(old_blocks[at] == bare.skip(i as int)[0]);
                    assert(old_blocks[at] == bare[i as int]);
                    assert(block@ == patched[i as int]);
                    let new_blocks = treeblocks@.map_values(|t: TreeNode| t@);
                    assert(new_blocks =~= old_blocks.update(at, block@));
                    let goal = below + patched.take(i as int + 1) + bare.skip(i as int + 1) + top;
                    assert(new_blocks.len() == goal.len());
                    assert forall|j: int| 0 <= j < goal.len() implies new_blocks[j] == goal[j] by {
                        if j < start_idx {
                            assert(old_blocks[j] == below[j]);
                        } else if j < at {
                            assert(old_blocks[j] == patched.take(i as int)[j - start_idx]);
                        } else if j == at {
                        } else if j < start_idx + current_layer.len() {
                            assert(old_blocks[j] == bare.skip(i as int)[j - at]);
                        } else {
                            assert(old_blocks[j] == top[j - start_idx - current_layer.len()]);
                        }
                    }
                    assert(new_blocks =~= goal);
                }
                i += 1;
            }
            proof {
                let patched = level_nodes(bottom, k, k + 1, false);
                let bare = level_nodes(bottom, k, k, false);
                let top = level_nodes(bottom, k + 1, k + 1, false);
                assert(patched.take(current_layer.len() as int) =~= patched);
                assert(bare.skip(current_layer.len() as int) =~= Seq::<TreeNodeView>::empty());
                lemma_nodes_through_stable(bottom, (k - 1) as nat, k, k + 1, false);
                assert(nodes_through(bottom, k, k + 1, false) == nodes_through(
                    bottom,
                    (k - 1) as nat,
                    k + 1,
                    false,
                ) + patched);
                assert(nodes_through(bottom, k + 1, k + 1, false) == nodes_through(
                    bottom,
                    k,
                    k + 1,
                    false,
                ) + top);
                assert(treeblocks@.map_values(|t: TreeNode| t@) =~= nodes_through(
                    bottom,
                    k + 1,
                    k + 1,
                    false,
                ));
            }
        }
        current_layer = above;
        depth += 1;
    }

    proof {
        lemma_layers_end_in_root(bottom, depth as nat);
    }
    if treeblocks.len() > 0 {
        let last: usize = treeblocks.len() - 1;
        let ghost old_blocks = treeblocks@.map_values(|t: TreeNode| t@);
        let mut block = treeblocks[last];
        block.signed = true;
        treeblocks[last] = block;
        proof {
            let k = depth as nat;
            lemma_nodes_through_len(bottom, k, k, false);
            assert(k >= 1);
            lemma_nodes_through_stable(bottom, (k - 1) as nat, k, k, true);
            lemma_nodes_through_len(bottom, (k - 1) as nat, k, false);
            let lower = nodes_through(bottom, (k - 1) as nat, k, false);
            let bare = level_nodes(bottom, k, k, false);
            let marked = level_nodes(bottom, k, k, true);
            assert(layer_at(bottom, k).len() == 1);
            assert(old_blocks == lower + bare);
            assert(old_blocks[last as int] == bare[0]);
            assert(block@ == marked[0]);
            assert(marked =~= bare.update(0, block@));
            let new_blocks = treeblocks@.map_values(|t: TreeNode| t@);
            assert(new_blocks =~= old_blocks.update(last as int, block@));
            assert(new_blocks =~= lower + marked);
            assert(tree_nodes(bottom) == nodes_through(bottom, (k - 1) as nat, k, true) + marked);
        }
    } else {
        proof {
            lemma_nodes_through_len(bottom, depth as nat, depth as nat, false);
            if depth > 0 {
                lemma_layers_end_in_root(bottom, depth as nat);
            }
            assert(depth == 0);
            assert(record_blocks(hashes@, *additional_hash) =~= Seq::<RecordBlock>::empty());
            assert(records@ =~= record_blocks(hashes@, *additional_hash));
        }
    }
    (records, treeblocks, additional_hash_parent, current_layer[0], depth)
}

} // verus!
