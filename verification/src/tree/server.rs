//! The server side of the commit store: one handler per request, the
//! builder of proofs, and the router that binds a session to a
//! DataCapsule.

use vstd::prelude::*;
use crate::config::{FANOUT, SIG_AVOID};
use crate::crypto;
use crate::crypto::{
    HashNode, PrivateKey, PublicKey, Signature, deserialize_pubkey, ecdsa_accepts, hash_data,
    hash_dc_metadata, hash_eq, null_hash, sign, signed_by, spec_hash_data, spec_hash_dc_metadata,
    spec_null_hash, verify_signature,
};
use crate::dc_repr::MetadataView;
use crate::merkle::{
    RecordBlock, TreeNode, TreeNodeView, additional_parent, bottom_layer, merkle_tree_storage,
    record_blocks, spec_merkle_tree_root, tree_depth, tree_nodes,
};
use crate::readstate::{ReadState, ReadStateView};
use crate::seqs::reversed;
use crate::table::Table;
use crate::tree::laws::{lemma_commit_keeps_linked, takes_tree, well_linked};
use crate::tree::request::{
    DataCapsule, InitRequest, ReadRequest, Request, Response, ResponseView, SubscribeRequest,
    WriteRequest,
    nodes_view, root_view,
};
use crate::tree::storage::{
    DataStorage, MetaStorage, NodeStorage, OrphanStorage, RecordStorage, StoredNode,
    StoredNodeView, lists_orphans,
};

verus! {

/// The indices of one DataCapsule.
pub struct TreeStore {
    pub ds: DataStorage,
    pub rs: RecordStorage,
    pub ns: NodeStorage,
    pub os: OrphanStorage,
}

/// What the indices of one DataCapsule hold.
pub struct TreeStoreView {
    pub data: Map<crypto::Hash, Seq<u8>>,
    pub parents: Map<crypto::Hash, crypto::Hash>,
    pub nodes: Map<crypto::Hash, StoredNodeView>,
    pub orphans: Map<crypto::Hash, Seq<u8>>,
}

impl View for TreeStore {
    type V = TreeStoreView;

    open spec fn view(&self) -> TreeStoreView {
        TreeStoreView { data: self.ds@, parents: self.rs@, nodes: self.ns@, orphans: self.os@ }
    }
}

/// The parents after those of `blocks` were stored, in order.
pub open spec fn with_parents(
    parents: Map<crypto::Hash, crypto::Hash>,
    blocks: Seq<RecordBlock>,
) -> Map<crypto::Hash, crypto::Hash>
    decreases blocks.len(),
{
    if blocks.len() == 0 {
        parents
    } else {
        with_parents(parents, blocks.drop_last()).insert(blocks.last().name, blocks.last().parent)
    }
}

/// A node of a commit tree as it is stored: the signed one carries the
/// depth of the tree and the writer's signature.
pub open spec fn stored_node(node: TreeNodeView, depth: u8, signature: Seq<u8>) -> StoredNodeView {
    StoredNodeView {
        parent: node.parent,
        root_info: if node.signed {
            Some((depth, signature))
        } else {
            None
        },
        children: node.children,
    }
}

/// The nodes after those of `blocks` were stored, in order.
pub open spec fn with_nodes(
    nodes: Map<crypto::Hash, StoredNodeView>,
    blocks: Seq<TreeNodeView>,
    depth: u8,
    signature: Seq<u8>,
) -> Map<crypto::Hash, StoredNodeView>
    decreases blocks.len(),
{
    if blocks.len() == 0 {
        nodes
    } else {
        with_nodes(nodes, blocks.drop_last(), depth, signature).insert(
            blocks.last().name,
            stored_node(blocks.last(), depth, signature),
        )
    }
}

/// The nodes after a commit was stitched onto `additional_hash`: where that
/// names a stored node without a parent, the node gets the parent it has in
/// the new tree. A node that has a parent keeps it.
pub open spec fn stitched(
    nodes: Map<crypto::Hash, StoredNodeView>,
    additional_hash: crypto::Hash,
    parent: crypto::Hash,
) -> Map<crypto::Hash, StoredNodeView> {
    if nodes.dom().contains(additional_hash) && nodes[additional_hash].parent is None {
        nodes.insert(
            additional_hash,
            StoredNodeView { parent: Some(parent), ..nodes[additional_hash] },
        )
    } else {
        nodes
    }
}

impl TreeStoreView {
    /// The indices of a DataCapsule without records.
    pub open spec fn empty() -> TreeStoreView {
        TreeStoreView {
            data: Map::empty(),
            parents: Map::empty(),
            nodes: Map::empty(),
            orphans: Map::empty(),
        }
    }

    /// The indices after a commit tree was stored: the parent of each
    /// record, then the nodes, the root among them with the depth and the
    /// writer's signature; the root takes the place of `additional_hash`
    /// among the orphans; and, unless the commit holds no record, the tree
    /// is stitched onto `additional_hash`.
    pub open spec fn applied(
        self,
        records: Seq<RecordBlock>,
        blocks: Seq<TreeNodeView>,
        additional_hash_parent: crypto::Hash,
        root: crypto::Hash,
        depth: u8,
        additional_hash: crypto::Hash,
        signature: Seq<u8>,
    ) -> TreeStoreView {
        let placed = with_nodes(self.nodes, blocks, depth, signature);
        TreeStoreView {
            data: self.data,
            parents: with_parents(self.parents, records),
            nodes: if blocks.len() > 0 {
                stitched(placed, additional_hash, additional_hash_parent)
            } else {
                placed
            },
            orphans: self.orphans.remove(additional_hash).insert(root, signature),
        }
    }

    /// The indices after the records `hashes` were committed on top of
    /// `additional_hash` with the writer's signature over the new root.
    pub open spec fn committed(
        self,
        hashes: Seq<crypto::Hash>,
        additional_hash: crypto::Hash,
        signature: Seq<u8>,
    ) -> TreeStoreView {
        let bottom = bottom_layer(hashes, additional_hash);
        self.applied(
            record_blocks(hashes, additional_hash),
            tree_nodes(bottom),
            additional_parent(hashes, additional_hash),
            spec_merkle_tree_root(hashes, additional_hash),
            tree_depth(bottom) as u8,
            additional_hash,
            signature,
        )
    }
}

impl TreeStore {
    /// The indices of a DataCapsule without records, with nothing to write
    /// through.
    pub fn new() -> (store: Self)
        ensures
            store@ == TreeStoreView::empty(),
            store.ds.saved() == Map::<crypto::Hash, Seq<u8>>::empty(),
            store.rs.saved() == Map::<crypto::Hash, crypto::Hash>::empty(),
            store.ns.saved() == Map::<crypto::Hash, StoredNodeView>::empty(),
            store.os.saved() == Map::<crypto::Hash, Seq<u8>>::empty(),
    {
        TreeStore {
            ds: DataStorage::new(),
            rs: RecordStorage::new(),
            ns: NodeStorage::new(),
            os: OrphanStorage::new(),
        }
    }
}

/// Everything that the server stores: the metadata of every DataCapsule,
/// and the indices of each.
pub struct Db {
    pub metadata: MetaStorage,
    pub capsules: Table<TreeStore>,
}

/// What a `Db` holds.
pub struct DbView {
    pub metadata: Map<crypto::Hash, MetadataView>,
    pub capsules: Map<crypto::Hash, TreeStoreView>,
}

impl View for Db {
    type V = DbView;

    open spec fn view(&self) -> DbView {
        DbView {
            metadata: self.metadata@,
            capsules: self.capsules@.map_values(|store: TreeStore| store@),
        }
    }
}

impl DbView {
    /// The indices of the capsule named `dc_name`; empty ones where none
    /// are stored.
    pub open spec fn capsule(self, dc_name: crypto::Hash) -> TreeStoreView {
        if self.capsules.dom().contains(dc_name) {
            self.capsules[dc_name]
        } else {
            TreeStoreView::empty()
        }
    }

    /// The database with the indices of `dc_name` replaced.
    pub open spec fn with_capsule(self, dc_name: crypto::Hash, capsule: TreeStoreView) -> DbView {
        DbView { metadata: self.metadata, capsules: self.capsules.insert(dc_name, capsule) }
    }
}

impl Db {
    /// A database without DataCapsules.
    pub fn new() -> (db: Self)
        ensures
            db@.metadata == Map::<crypto::Hash, MetadataView>::empty(),
            db@.capsules == Map::<crypto::Hash, TreeStoreView>::empty(),
            all_bound(db@.metadata),
    {
        let db = Db { metadata: MetaStorage::new(), capsules: Table::new() };
        assert(db@.capsules =~= Map::<crypto::Hash, TreeStoreView>::empty());
        db
    }

    /// Takes the indices of `dc_name` out of the database.
    pub fn take_capsule(&mut self, dc_name: &crypto::Hash) -> (store: TreeStore)
        ensures
            store@ == old(self)@.capsule(*dc_name),
            final(self)@.metadata == old(self)@.metadata,
            final(self)@.capsules == old(self)@.capsules.remove(*dc_name),
    {
        let store = match self.capsules.remove(dc_name) {
            Some(store) => store,
            None => TreeStore::new(),
        };
        assert(self@.capsules =~= old(self)@.capsules.remove(*dc_name));
        store
    }

    /// Puts the indices of `dc_name` into the database.
    pub fn put_capsule(&mut self, dc_name: &crypto::Hash, store: TreeStore)
        ensures
            final(self)@.metadata == old(self)@.metadata,
            final(self)@.capsules == old(self)@.capsules.insert(*dc_name, store@),
    {
        self.capsules.insert(*dc_name, store);
        assert(self@.capsules =~= old(self)@.capsules.insert(*dc_name, store@));
    }
}

/// What a server is: its name, its database and its signing key.
pub struct ServerContext {
    pub server_name: String,
    pub db: Db,
    pub pk: PrivateKey,
}

/// What a session knows once it is bound to a DataCapsule.
pub struct DCContext {
    pub dc_name: crypto::Hash,
    pub writer_pk: PublicKey,
    /// The records written since the last commit.
    pub uncommitted_hashes: Vec<crypto::Hash>,
    /// The server's copy of the client's proof cache.
    pub read_state: ReadState,
}

impl DCContext {
    /// The context of a session that was just bound to `dc_name`.
    pub fn new(dc_name: crypto::Hash, writer_pk: PublicKey) -> (ctx: Self)
        ensures
            ctx.dc_name == dc_name,
            ctx.writer_pk == writer_pk,
            ctx.uncommitted_hashes@ == Seq::<crypto::Hash>::empty(),
            ctx.read_state@ == ReadStateView::empty(),
    {
        DCContext {
            dc_name,
            writer_pk,
            uncommitted_hashes: Vec::new(),
            read_state: ReadState::new(),
        }
    }
}

/// The name of a DataCapsule with the given metadata.
pub open spec fn spec_dc_name(dc: MetadataView) -> crypto::Hash {
    spec_hash_dc_metadata(dc.creator_pub_key, dc.writer_pub_key, dc.description)
}

/// Whether the creator's signature binds the capsule's name.
pub open spec fn capsule_bound(dc: MetadataView) -> bool {
    ecdsa_accepts(dc.signature, spec_dc_name(dc), dc.creator_pub_key)
}

/// Whether every DataCapsule is stored under its name and carries a
/// creator signature that binds this name.
pub open spec fn all_bound(metadata: Map<crypto::Hash, MetadataView>) -> bool {
    forall|name: crypto::Hash| #[trigger]
        metadata.dom().contains(name) ==> capsule_bound(metadata[name]) && name == spec_dc_name(
            metadata[name],
        )
}

/// Completes `Create` once the creator's signature was checked and the
/// name of the capsule was signed by the server: where both are in order
/// the capsule is stored and the reply carries the server's signature,
/// otherwise the reply is `Failed` and nothing is stored.
pub fn create_reply(
    dc: &DataCapsule,
    name: crypto::Hash,
    good: bool,
    ack: Option<Signature>,
    ms: &mut MetaStorage,
) -> (resp: Response)
    ensures
        good && ack is Some ==> resp@ == ResponseView::Create(ack->Some_0@) && final(ms)@
            == old(ms)@.insert(name, dc@),
        !(good && ack is Some) ==> resp@ == ResponseView::Failed && final(ms)@ == old(ms)@,
{
    if !good {
        return Response::Failed;
    }
    match ack {
        Some(signature) => {
            ms.store(&name, dc);
            Response::Create(signature)
        },
        None => Response::Failed,
    }
}

/// Answers `Create`: checks the creator's signature over the capsule's
/// name, stores the capsule, and countersigns its name.
pub fn handle_create(dc: DataCapsule, ms: &mut MetaStorage, signing_key: &PrivateKey) -> (resp:
    Response)
    ensures
        resp@ is Create || resp@ is Failed,
        !capsule_bound(dc@) ==> resp@ is Failed,
        resp@ is Create ==> capsule_bound(dc@) && final(ms)@ == old(ms)@.insert(
            spec_dc_name(dc@),
            dc@,
        ),
        resp@ is Failed ==> final(ms)@ == old(ms)@,
        resp@ matches ResponseView::Create(ack) ==> signed_by(
            ack,
            spec_dc_name(dc@),
            signing_key@,
        ),
        all_bound(old(ms)@) ==> all_bound(final(ms)@),
{
    let hash = hash_dc_metadata(
        dc.creator_pub_key.as_slice(),
        dc.writer_pub_key.as_slice(),
        dc.description.as_str(),
    );
    let creator_pk = deserialize_pubkey(dc.creator_pub_key.as_slice());
    let good = verify_signature(&dc.signature, &hash, &creator_pk);
    let ack = if good {
        sign(&hash, signing_key)
    } else {
        None
    };
    create_reply(&dc, hash, good, ack, ms)
}

/// Answers `ReadMetadata`: the metadata of the capsule, or `Failed` where
/// the server has none.
pub fn handle_read_meta(dc: crypto::Hash, ms: &MetaStorage) -> (resp: Response)
    ensures
        resp@ == if ms@.dom().contains(dc) {
            ResponseView::ReadMetadata(ms@[dc])
        } else {
            ResponseView::Failed
        },
{
    match ms.get(&dc) {
        Some(ds) => Response::ReadMetadata(ds),
        None => Response::Failed,
    }
}

/// Answers `Init` for a capsule: binds the session to the capsule named
/// `dc_name` where the server knows it, with the writer's key from its
/// metadata, no uncommitted records and an empty proof cache. Otherwise the
/// session stays as it is.
pub fn handle_init(dc_name: crypto::Hash, ms: &MetaStorage, ctx: &mut Option<DCContext>) -> (resp:
    Response)
    ensures
        ms@.dom().contains(dc_name) ==> resp@ == ResponseView::Init && (*final(ctx) matches Some(c)
            && c.dc_name == dc_name && c.writer_pk@ == ms@[dc_name].writer_pub_key
            && c.uncommitted_hashes@ == Seq::<crypto::Hash>::empty() && c.read_state@
            == ReadStateView::empty()),
        !ms@.dom().contains(dc_name) ==> resp@ == ResponseView::Failed && *final(ctx) == *old(ctx),
{
    let writer_pk = match ms.get_writer_pk(&dc_name) {
        Some(v) => deserialize_pubkey(v.as_slice()),
        None => return Response::Failed,
    };
    *ctx = Some(DCContext::new(dc_name, writer_pk));
    Response::Init
}

/// Answers `Write.Data`: stores the encrypted record under its hash, notes
/// the hash for the next commit, and replies with it.
pub fn handle_write(data: Vec<u8>, ctx: &mut DCContext, ds: &mut DataStorage) -> (resp: Response)
    ensures
        resp@ == ResponseView::WriteData(spec_hash_data(data@)),
        final(ds)@ == old(ds)@.insert(spec_hash_data(data@), data@),
        final(ctx).uncommitted_hashes@ == old(ctx).uncommitted_hashes@.push(spec_hash_data(data@)),
        final(ctx).dc_name == old(ctx).dc_name,
        final(ctx).writer_pk == old(ctx).writer_pk,
        final(ctx).read_state == old(ctx).read_state,
{
    let record_name = hash_data(data.as_slice());
    ds.store(&record_name, data.as_slice());
    ctx.uncommitted_hashes.push(record_name);
    Response::WriteData(record_name)
}

/// Answers `Read.Data`: the encrypted record with this hash, or `Failed`
/// where none is stored.
pub fn handle_read(hash: crypto::Hash, ds: &DataStorage) -> (resp: Response)
    ensures
        resp@ == if ds@.dom().contains(hash) {
            ResponseView::ReadData(ds@[hash])
        } else {
            ResponseView::Failed
        },
{
    match ds.get(&hash) {
        Some(r) => Response::ReadData(r),
        None => Response::Failed,
    }
}

/// Answers `Subscribe.FreshestCommits`: every orphan with its signature.
pub fn handle_freshness(os: &OrphanStorage) -> (resp: Response)
    ensures
        resp@ matches ResponseView::SubscribeCommits(commits) && lists_orphans(commits, os@),
{
    Response::SubscribeCommits(os.all_orphans())
}

/// Completes `Write.Commit` once the tree was built, the writer's
/// signature over its root checked, and the root signed by the server.
///
/// Where both signatures are in order, the tree is stored and the reply
/// carries the server's signature. Otherwise the reply is `Failed` and
/// nothing is stored.
pub fn commit_reply(
    store: &mut TreeStore,
    records: &Vec<RecordBlock>,
    blocks: &Vec<TreeNode>,
    additional_hash_parent: &crypto::Hash,
    root: &crypto::Hash,
    depth: u8,
    additional_hash: &crypto::Hash,
    client_signature: &Signature,
    good: bool,
    ack: Option<Signature>,
) -> (resp: Response)
    ensures
        good && ack is Some ==> resp@ == ResponseView::WriteCommit(ack->Some_0@) && final(store)@
            == old(store)@.applied(
            records@,
            blocks@.map_values(|t: TreeNode| t@),
            *additional_hash_parent,
            *root,
            depth,
            *additional_hash,
            client_signature@,
        ),
        !(good && ack is Some) ==> resp@ == ResponseView::Failed && final(store)@ == old(store)@,
{
    if !good {
        return Response::Failed;
    }
    let server_signature = match ack {
        Some(signature) => signature,
        None => return Response::Failed,
    };
    let ghost before = store@;
    let ghost views = blocks@.map_values(|t: TreeNode| t@);
    let mut i: usize = 0;
    while i < records.len()
        invariant
            i <= records.len(),
            store.ds@ == before.data,
            store.ns@ == before.nodes,
            store.os@ == before.orphans,
            store.rs@ == with_parents(before.parents, records@.take(i as int)),
        decreases records.len() - i,
    {
        assert(records@.take(i as int + 1).drop_last() =~= records@.take(i as int));
        store.rs.store(&records[i].name, &records[i].parent);
        i += 1;
    }
    assert(records@.take(records.len() as int) =~= records@);
    let mut j: usize = 0;
    while j < blocks.len()
        invariant
            j <= blocks.len(),
            views == blocks@.map_values(|t: TreeNode| t@),
            store.ds@ == before.data,
            store.os@ == before.orphans,
            store.rs@ == with_parents(before.parents, records@),
            store.ns@ == with_nodes(before.nodes, views.take(j as int), depth, client_signature@),
        decreases blocks.len() - j,
    {
        assert(views.take(j as int + 1).drop_last() =~= views.take(j as int));
        assert(views[j as int] == blocks@[j as int]@);
        let tn = &blocks[j];
        let node = StoredNode {
            parent: tn.parent,
            root_info: if tn.signed {
                Some((depth, client_signature.clone()))
            } else {
                None
            },
            children: tn.children,
        };
        store.ns.store(&tn.name, &node);
        j += 1;
    }
    assert(views.take(blocks.len() as int) =~= views);
    store.os.replace(additional_hash, root, client_signature);
    if blocks.len() > 0 {
        match store.ns.get(additional_hash) {
            Some(stored) => {
                if stored.parent.is_none() {
                    let stitched_node = StoredNode {
                        parent: Some(*additional_hash_parent),
                        root_info: stored.root_info,
                        children: stored.children,
                    };
                    store.ns.store(additional_hash, &stitched_node);
                }
            },
            None => {},
        }
    }
    Response::WriteCommit(server_signature)
}

/// Answers `Write.Commit`: builds the tree over the carried-in hash and
/// the records written since the last commit, checks the writer's signature
/// over its root, stores the tree, and countersigns the root.
///
/// The uncommitted records are forgotten whatever the outcome.
pub fn handle_commit(
    ctx: &mut DCContext,
    store: &mut TreeStore,
    signing_key: &PrivateKey,
    additional_hash: &crypto::Hash,
    client_signature: &Signature,
) -> (resp: Response)
    ensures
        final(ctx).uncommitted_hashes@ == Seq::<crypto::Hash>::empty(),
        final(ctx).dc_name == old(ctx).dc_name,
        final(ctx).writer_pk == old(ctx).writer_pk,
        final(ctx).read_state == old(ctx).read_state,
        resp@ is WriteCommit || resp@ is Failed,
        !commit_signed(
            old(ctx).uncommitted_hashes@,
            *additional_hash,
            client_signature@,
            old(ctx).writer_pk@,
        ) ==> resp@ is Failed,
        resp@ is Failed ==> final(store)@ == old(store)@,
        resp@ is WriteCommit ==> commit_signed(
            old(ctx).uncommitted_hashes@,
            *additional_hash,
            client_signature@,
            old(ctx).writer_pk@,
        ) && final(store)@ == old(store)@.committed(
            old(ctx).uncommitted_hashes@,
            *additional_hash,
            client_signature@,
        ),
        resp@ matches ResponseView::WriteCommit(ack) ==> signed_by(
            ack,
            spec_merkle_tree_root(old(ctx).uncommitted_hashes@, *additional_hash),
            signing_key@,
        ),
        well_linked(old(store)@, old(ctx).writer_pk@) && takes_tree(
            old(store)@.nodes,
            tree_nodes(bottom_layer(old(ctx).uncommitted_hashes@, *additional_hash)),
        ) ==> well_linked(final(store)@, old(ctx).writer_pk@),
{
    proof {
        if well_linked(store@, ctx.writer_pk@) && takes_tree(
            store@.nodes,
            tree_nodes(bottom_layer(ctx.uncommitted_hashes@, *additional_hash)),
        ) && commit_signed(
            ctx.uncommitted_hashes@,
            *additional_hash,
            client_signature@,
            ctx.writer_pk@,
        ) {
            lemma_commit_keeps_linked(
                store@,
                ctx.uncommitted_hashes@,
                *additional_hash,
                client_signature@,
                ctx.writer_pk@,
            );
        }
    }
    if ctx.uncommitted_hashes.len() == usize::MAX {
        ctx.uncommitted_hashes.clear();
        return Response::Failed;
    }
    let (rbs, tns, additional_hash_parent, root, tree_depth) = merkle_tree_storage(
        ctx.uncommitted_hashes.as_slice(),
        additional_hash,
    );
    ctx.uncommitted_hashes.clear();
    let good = verify_signature(client_signature, &root, &ctx.writer_pk);
    let ack = if good {
        sign(&root, signing_key)
    } else {
        None
    };
    commit_reply(
        store,
        &rbs,
        &tns,
        &additional_hash_parent,
        &root,
        tree_depth,
        additional_hash,
        client_signature,
        good,
        ack,
    )
}

/// Whether `signature` is the writer's over the root of the commit of
/// `hashes` on top of `additional_hash`, and the commit fits in memory.
pub open spec fn commit_signed(
    hashes: Seq<crypto::Hash>,
    additional_hash: crypto::Hash,
    signature: Seq<u8>,
    writer_key: Seq<u8>,
) -> bool {
    hashes.len() < usize::MAX && ecdsa_accepts(
        signature,
        spec_merkle_tree_root(hashes, additional_hash),
        writer_key,
    )
}

/// What the climb from a record towards a signed root finds.
pub struct Climb {
    /// The children of the nodes passed, the lowest first.
    pub nodes: Seq<Seq<crypto::Hash>>,
    /// The signed root at which the climb ended, unless the client has it.
    pub root: Option<(Seq<u8>, crypto::Hash)>,
    /// The parent of that root.
    pub root_parent: Option<crypto::Hash>,
}

/// The climb from `hash`, whose parent is `parent`, over at most `fuel`
/// nodes.
///
/// The climb ends at once where the client's cache holds `hash`. Else it
/// passes the parent node; at a signed root it ends, with the root's
/// signature unless the cache holds the root. `None` where a node on the
/// way is not stored or has no parent and is no root.
pub open spec fn climb(
    nodes: Map<crypto::Hash, StoredNodeView>,
    cache: ReadStateView,
    hash: crypto::Hash,
    parent: crypto::Hash,
    fuel: nat,
) -> Option<Climb>
    decreases fuel,
{
    if cache.contains(hash) {
        Some(Climb { nodes: Seq::empty(), root: None, root_parent: None })
    } else if fuel == 0 || !nodes.dom().contains(parent) {
        None
    } else {
        let pn = nodes[parent];
        match pn.root_info {
            Some((_, signature)) => Some(
                if cache.contains(parent) {
                    Climb { nodes: seq![pn.children], root: None, root_parent: None }
                } else {
                    Climb {
                        nodes: seq![pn.children],
                        root: Some((signature, parent)),
                        root_parent: pn.parent,
                    }
                },
            ),
            None => match pn.parent {
                None => None,
                Some(above) => match climb(nodes, cache, parent, above, (fuel - 1) as nat) {
                    None => None,
                    Some(rest) => Some(
                        Climb {
                            nodes: seq![pn.children] + rest.nodes,
                            root: rest.root,
                            root_parent: rest.root_parent,
                        },
                    ),
                },
            },
        }
    }
}

/// The nodes to send in place of a signature: those from `above` upwards,
/// at most `budget` of them, up to the first whose name the client's cache
/// holds. `None` where no such node is found.
pub open spec fn avoid(
    nodes: Map<crypto::Hash, StoredNodeView>,
    cache: ReadStateView,
    above: Option<crypto::Hash>,
    budget: nat,
) -> Option<Seq<Seq<crypto::Hash>>>
    decreases budget,
{
    if budget == 0 {
        None
    } else {
        match above {
            None => None,
            Some(p) => if !nodes.dom().contains(p) {
                None
            } else if cache.contains(p) {
                Some(seq![nodes[p].children])
            } else {
                match avoid(nodes, cache, nodes[p].parent, (budget - 1) as nat) {
                    None => None,
                    Some(rest) => Some(seq![nodes[p].children] + rest),
                }
            },
        }
    }
}

/// The proof that the server builds for `target`: the signed root unless
/// the client has it or can do without, and the nodes from the highest
/// down to the one that holds `target`. `None` where the record was not
/// committed or a node on the way is missing.
pub open spec fn spec_build_proof(
    store: TreeStoreView,
    cache: ReadStateView,
    target: crypto::Hash,
) -> Option<(Option<(Seq<u8>, crypto::Hash)>, Seq<Seq<crypto::Hash>>)> {
    if !store.parents.dom().contains(target) {
        None
    } else {
        match climb(store.nodes, cache, target, store.parents[target], store.nodes.dom().len()) {
            None => None,
            Some(found) => match (
                found.root,
                avoid(store.nodes, cache, found.root_parent, SIG_AVOID as nat),
            ) {
                (Some(_), Some(extras)) => Some((None, (found.nodes + extras).reverse())),
                _ => Some((found.root, found.nodes.reverse())),
            },
        }
    }
}

/// A climb with `prefix` put before its nodes.
pub open spec fn climb_after(prefix: Seq<Seq<crypto::Hash>>, rest: Option<Climb>) -> Option<Climb> {
    match rest {
        None => None,
        Some(c) => Some(
            Climb { nodes: prefix + c.nodes, root: c.root, root_parent: c.root_parent },
        ),
    }
}

/// Extra nodes with `prefix` put before them.
pub open spec fn avoid_after(
    prefix: Seq<Seq<crypto::Hash>>,
    rest: Option<Seq<Seq<crypto::Hash>>>,
) -> Option<Seq<Seq<crypto::Hash>>> {
    match rest {
        None => None,
        Some(more) => Some(prefix + more),
    }
}

/// Looks for nodes to send in place of a signature.
fn find_replacement(ns: &NodeStorage, read_state: &ReadState, root_parent: Option<crypto::Hash>) -> (extras:
    Option<Vec<HashNode>>)
    ensures
        match extras {
            Some(found) => avoid(ns@, read_state@, root_parent, SIG_AVOID as nat) == Some(
                nodes_view(found@),
            ),
            None => avoid(ns@, read_state@, root_parent, SIG_AVOID as nat) is None,
        },
{
    let ghost whole = avoid(ns@, read_state@, root_parent, SIG_AVOID as nat);
    let mut extras: Vec<HashNode> = Vec::new();
    let mut above = root_parent;
    assert(nodes_view(extras@) =~= Seq::<Seq<crypto::Hash>>::empty());
    while extras.len() < SIG_AVOID
        invariant
            extras.len() <= SIG_AVOID,
            whole == avoid(ns@, read_state@, root_parent, SIG_AVOID as nat),
            whole == avoid_after(
                nodes_view(extras@),
                avoid(ns@, read_state@, above, (SIG_AVOID - extras.len()) as nat),
            ),
        decreases SIG_AVOID - extras.len(),
    {
        let ghost before = nodes_view(extras@);
        let p = match above {
            Some(p) => p,
            None => return None,
        };
        let parent_node = match ns.get(&p) {
            Some(node) => node,
            None => return None,
        };
        extras.push(parent_node.children);
        assert(nodes_view(extras@) =~= before.push(parent_node@.children));
        if read_state.contains(&p) {
            assert(before + seq![parent_node@.children] =~= nodes_view(extras@));
            return Some(extras);
        }
        proof {
            let rest = avoid(ns@, read_state@, parent_node@.parent, (SIG_AVOID - extras.len()) as nat);
            if rest is Some {
                assert(before + (seq![parent_node@.children] + rest->Some_0) =~= nodes_view(extras@)
                    + rest->Some_0);
            }
        }
        above = parent_node.parent;
    }
    None
}

/// Applies a proof to the server's copy of the client's cache, as the
/// client does when it accepts the proof.
pub fn apply_proof(
    read_state: &mut ReadState,
    root: &Option<(Signature, crypto::Hash)>,
    nodes: &Vec<HashNode>,
)
    ensures
        final(read_state)@ == old(read_state)@.after_proof(root_view(*root), nodes_view(nodes@)),
{
    let ghost all = nodes_view(nodes@);
    match root {
        Some(pair) => {
            read_state.add_signed_hash(&pair.1);
        },
        None => {},
    }
    let ghost rooted = read_state@;
    let mut i: usize = 0;
    assert(all.take(0) =~= Seq::<Seq<crypto::Hash>>::empty());
    while i < nodes.len()
        invariant
            i <= nodes.len(),
            all == nodes_view(nodes@),
            read_state@ == rooted.after_nodes(all.take(i as int)),
        decreases nodes.len() - i,
    {
        proof {
            assert(all.take(i as int + 1).drop_last() =~= all.take(i as int));
            assert(all.take(i as int + 1).last() == nodes@[i as int]@);
        }
        read_state.add_proven_node(&nodes[i]);
        i += 1;
    }
    assert(all.take(nodes.len() as int) =~= all);
}

/// Answers `Read.Proof`: climbs from the record to a signed root, or to
/// something that the client's cache holds, and sends what the client needs
/// to follow. The proof is applied to the server's copy of the client's
/// cache; where no proof can be built the reply is `Failed` and the copy
/// stays as it is.
pub fn build_proof(
    target: crypto::Hash,
    rs: &RecordStorage,
    ns: &NodeStorage,
    read_state: &mut ReadState,
) -> (resp: Response)
    ensures
        match spec_build_proof(
            TreeStoreView {
                data: Map::empty(),
                parents: rs@,
                nodes: ns@,
                orphans: Map::empty(),
            },
            old(read_state)@,
            target,
        ) {
            Some((root, nodes)) => {
                &&& resp@ == (ResponseView::ReadProof { root, nodes })
                &&& final(read_state)@ == old(read_state)@.after_proof(root, nodes)
            },
            None => resp@ == ResponseView::Failed && final(read_state)@ == old(read_state)@,
        },
{
    let ghost cache = read_state@;
    let mut hash = target;
    let mut parent = match rs.get(&hash) {
        Some(p) => p,
        None => return Response::Failed,
    };
    let ghost whole = climb(ns@, cache, target, parent, ns@.dom().len());
    let mut nodes: Vec<HashNode> = Vec::new();
    let mut root: Option<(Signature, crypto::Hash)> = None;
    let mut root_parent: Option<crypto::Hash> = None;
    let mut fuel = ns.len();
    let mut done = false;
    assert(nodes_view(nodes@) =~= Seq::<Seq<crypto::Hash>>::empty());
    assert(Seq::<Seq<crypto::Hash>>::empty() + Seq::<Seq<crypto::Hash>>::empty()
        =~= Seq::<Seq<crypto::Hash>>::empty());
    while !done
        invariant
            cache == read_state@,
            cache == old(read_state)@,
            rs@.dom().contains(target),
            whole == climb(ns@, cache, target, rs@[target], ns@.dom().len()),
            done ==> whole == Some(
                Climb { nodes: nodes_view(nodes@), root: root_view(root), root_parent },
            ),
            !done ==> root is None && root_parent is None && whole == climb_after(
                nodes_view(nodes@),
                climb(ns@, cache, hash, parent, fuel as nat),
            ),
        decreases (if done { 0int } else { 1int }), fuel,
    {
        let ghost before = nodes_view(nodes@);
        if read_state.contains(&hash) {
            assert(before + Seq::<Seq<crypto::Hash>>::empty() =~= before);
            done = true;
        } else if fuel == 0 {
            return Response::Failed;
        } else {
            let parent_node = match ns.get(&parent) {
                Some(node) => node,
                None => return Response::Failed,
            };
            nodes.push(parent_node.children);
            assert(nodes_view(nodes@) =~= before.push(parent_node@.children));
            assert(before + seq![parent_node@.children] =~= nodes_view(nodes@));
            match parent_node.root_info {
                Some(info) => {
                    if !read_state.contains(&parent) {
                        root = Some((info.1, parent));
                        root_parent = parent_node.parent;
                    }
                    done = true;
                },
                None => {
                    let above = match parent_node.parent {
                        Some(p) => p,
                        None => return Response::Failed,
                    };
                    proof {
                        let rest = climb(ns@, cache, parent, above, (fuel - 1) as nat);
                        if rest is Some {
                            assert(before + (seq![parent_node@.children] + rest->Some_0.nodes)
                                =~= nodes_view(nodes@) + rest->Some_0.nodes);
                        }
                    }
                    hash = parent;
                    parent = above;
                    fuel -= 1;
                },
            }
        }
    }
    if root.is_some() {
        match find_replacement(ns, read_state, root_parent) {
            Some(mut extras) => {
                let ghost lower = nodes_view(nodes@);
                let ghost upper = nodes_view(extras@);
                root = None;
                nodes.append(&mut extras);
                assert(nodes_view(nodes@) =~= lower + upper);
            },
            None => {},
        }
    }
    let ghost up = nodes_view(nodes@);
    let nodes = reversed(nodes);
    assert(nodes_view(nodes@) =~= up.reverse());
    apply_proof(read_state, &root, &nodes);
    Response::ReadProof { root, nodes }
}

/// The hashes of `children` that are not the null hash, in order.
pub open spec fn non_null(children: Seq<crypto::Hash>) -> Seq<crypto::Hash>
    decreases children.len(),
{
    if children.len() == 0 {
        Seq::empty()
    } else if children.last() == spec_null_hash() {
        non_null(children.drop_last())
    } else {
        non_null(children.drop_last()).push(children.last())
    }
}

/// The layer below `level`: the children of its nodes that are not the
/// null hash. `None` where a node is not stored.
pub open spec fn layer_below(
    nodes: Map<crypto::Hash, StoredNodeView>,
    level: Seq<crypto::Hash>,
) -> Option<Seq<crypto::Hash>>
    decreases level.len(),
{
    if level.len() == 0 {
        Some(Seq::empty())
    } else {
        match layer_below(nodes, level.drop_last()) {
            None => None,
            Some(rest) => if nodes.dom().contains(level.last()) {
                Some(rest + non_null(nodes[level.last()].children))
            } else {
                None
            },
        }
    }
}

/// The layer `depth` layers below `level`.
pub open spec fn layer_down(
    nodes: Map<crypto::Hash, StoredNodeView>,
    level: Seq<crypto::Hash>,
    depth: nat,
) -> Option<Seq<crypto::Hash>>
    decreases depth,
{
    if depth == 0 {
        Some(level)
    } else {
        match layer_below(nodes, level) {
            None => None,
            Some(next) => layer_down(nodes, next, (depth - 1) as nat),
        }
    }
}

/// The answer to `Subscribe.Records` for the commit with root `hash`: the
/// bottom layer of its tree, split into the hash it was committed on top
/// of and its records. `Failed` where `hash` is no stored root, a node of
/// the tree is missing, or the bottom layer comes out empty.
pub open spec fn spec_all_leaves(
    nodes: Map<crypto::Hash, StoredNodeView>,
    hash: crypto::Hash,
) -> ResponseView {
    if !nodes.dom().contains(hash) {
        ResponseView::Failed
    } else {
        match nodes[hash].root_info {
            None => ResponseView::Failed,
            Some((depth, _)) => leaves_answer(layer_down(nodes, seq![hash], depth as nat)),
        }
    }
}

/// The answer for a bottom layer: its first hash is the one that the
/// commit was made on top of, the others are the records.
pub open spec fn leaves_answer(bottom: Option<Seq<crypto::Hash>>) -> ResponseView {
    match bottom {
        None => ResponseView::Failed,
        Some(level) => if level.len() == 0 {
            ResponseView::Failed
        } else {
            ResponseView::SubscribeRecords(level.skip(1), level[0])
        },
    }
}

/// Appends the children of `node` that are not the null hash to `out`.
fn push_non_null(out: &mut Vec<crypto::Hash>, children: &HashNode)
    ensures
        final(out)@ == old(out)@ + non_null(children@),
{
    let null = null_hash();
    let mut i: usize = 0;
    assert(children@.take(0) =~= Seq::<crypto::Hash>::empty());
    assert(old(out)@ + Seq::<crypto::Hash>::empty() =~= old(out)@);
    while i < FANOUT
        invariant
            i <= FANOUT,
            null == spec_null_hash(),
            out@ == old(out)@ + non_null(children@.take(i as int)),
        decreases FANOUT - i,
    {
        proof {
            assert(children@.take(i as int + 1).drop_last() =~= children@.take(i as int));
            assert(children@.take(i as int + 1).last() == children@[i as int]);
        }
        if !hash_eq(&children[i], &null) {
            out.push(children[i]);
            assert(out@ =~= old(out)@ + non_null(children@.take(i as int + 1)));
        }
        i += 1;
    }
    assert(children@.take(FANOUT as int) =~= children@);
}

/// Answers `Subscribe.Records`: walks down from the root of a commit to
/// the bottom layer of its tree and returns the records of the commit and
/// the hash it was committed on top of.
pub fn get_all_leaves(ns: &NodeStorage, hash: &crypto::Hash) -> (resp: Response)
    ensures
        resp@ == spec_all_leaves(ns@, *hash),
{
    let mut depth: u8 = match ns.get(hash) {
        Some(node) => match node.root_info {
            Some(info) => info.0,
            None => return Response::Failed,
        },
        None => return Response::Failed,
    };
    let ghost whole = layer_down(ns@, seq![*hash], depth as nat);
    let mut level: Vec<crypto::Hash> = Vec::new();
    level.push(*hash);
    assert(level@ =~= seq![*hash]);
    while depth > 0
        invariant
            spec_all_leaves(ns@, *hash) == leaves_answer(whole),
            whole == layer_down(ns@, level@, depth as nat),
        decreases depth,
    {
        let mut next_level: Vec<crypto::Hash> = Vec::new();
        let mut i: usize = 0;
        assert(level@.take(0) =~= Seq::<crypto::Hash>::empty());
        while i < level.len()
            invariant
                i <= level.len(),
                depth > 0,
                spec_all_leaves(ns@, *hash) == leaves_answer(whole),
                whole == layer_down(ns@, level@, depth as nat),
                layer_below(ns@, level@.take(i as int)) == Some(next_level@),
            decreases level.len() - i,
        {
            assert(level@.take(i as int + 1).drop_last() =~= level@.take(i as int));
            match ns.get(&level[i]) {
                Some(node) => {
                    push_non_null(&mut next_level, &node.children);
                },
                None => {
                    proof {
                        lemma_layer_below_fails(ns@, level@, i as int + 1);
                    }
                    return Response::Failed;
                },
            }
            i += 1;
        }
        assert(level@.take(level.len() as int) =~= level@);
        level = next_level;
        depth -= 1;
    }
    if level.len() == 0 {
        return Response::Failed;
    }
    let ghost bottom = level@;
    let additional_hash = level.remove(0);
    assert(level@ =~= bottom.skip(1));
    Response::SubscribeRecords(level, additional_hash)
}

/// A layer of which one of the first `upto` nodes is missing has no layer
/// below it.
proof fn lemma_layer_below_fails(
    nodes: Map<crypto::Hash, StoredNodeView>,
    level: Seq<crypto::Hash>,
    upto: int,
)
    requires
        0 <= upto <= level.len(),
        layer_below(nodes, level.take(upto)) is None,
    ensures
        layer_below(nodes, level) is None,
    decreases level.len() - upto,
{
    if upto < level.len() {
        assert(level.take(upto + 1).drop_last() =~= level.take(upto));
        lemma_layer_below_fails(nodes, level, upto + 1);
    } else {
        assert(level.take(upto) =~= level);
    }
}

/// What the answer to a request of a bound session says of the session and
/// the capsule before and after it, and of the reply.
pub open spec fn bound_answered(
    req: Request,
    before: DCContext,
    after: DCContext,
    was: TreeStoreView,
    now: TreeStoreView,
    resp: ResponseView,
) -> bool {
    &&& after.dc_name == before.dc_name
    &&& after.writer_pk == before.writer_pk
    &&& match req {
        Request::Write(WriteRequest::Data(data)) => {
            &&& resp == ResponseView::WriteData(spec_hash_data(data@))
            &&& now == TreeStoreView { data: was.data.insert(spec_hash_data(data@), data@), ..was }
            &&& after.uncommitted_hashes@ == before.uncommitted_hashes@.push(
                spec_hash_data(data@),
            )
            &&& after.read_state == before.read_state
        },
        Request::Write(WriteRequest::Commit { additional_hash, signature }) => {
            let signed = commit_signed(
                before.uncommitted_hashes@,
                additional_hash,
                signature@,
                before.writer_pk@,
            );
            &&& after.uncommitted_hashes@ == Seq::<crypto::Hash>::empty()
            &&& after.read_state == before.read_state
            &&& resp is WriteCommit || resp is Failed
            &&& !signed ==> resp is Failed
            &&& resp is Failed ==> now == was
            &&& resp is WriteCommit ==> signed && now == was.committed(
                before.uncommitted_hashes@,
                additional_hash,
                signature@,
            )
            &&& well_linked(was, before.writer_pk@) && takes_tree(
                was.nodes,
                tree_nodes(bottom_layer(before.uncommitted_hashes@, additional_hash)),
            ) ==> well_linked(now, before.writer_pk@)
        },
        Request::Read(ReadRequest::Data(hash)) => {
            &&& after == before
            &&& now == was
            &&& resp == if was.data.dom().contains(hash) {
                ResponseView::ReadData(was.data[hash])
            } else {
                ResponseView::Failed
            }
        },
        Request::Read(ReadRequest::Proof(hash)) => {
            &&& after.uncommitted_hashes == before.uncommitted_hashes
            &&& now == was
            &&& match spec_build_proof(
                TreeStoreView {
                    data: Map::empty(),
                    parents: was.parents,
                    nodes: was.nodes,
                    orphans: Map::empty(),
                },
                before.read_state@,
                hash,
            ) {
                Some((root, nodes)) => resp == (ResponseView::ReadProof { root, nodes })
                    && after.read_state@ == before.read_state@.after_proof(root, nodes),
                None => resp == ResponseView::Failed && after.read_state@ == before.read_state@,
            }
        },
        Request::Subscribe(SubscribeRequest::FreshestCommits) => {
            &&& after == before
            &&& now == was
            &&& resp matches ResponseView::SubscribeCommits(commits) && lists_orphans(
                commits,
                was.orphans,
            )
        },
        Request::Subscribe(SubscribeRequest::Records(hash)) => {
            &&& after == before
            &&& now == was
            &&& resp == spec_all_leaves(was.nodes, hash)
        },
        _ => true,
    }
}

/// Whether a request is answered against the capsule that the session is
/// bound to.
pub open spec fn needs_capsule(req: Request) -> bool {
    req is Write || req is Read || req is Subscribe
}

/// Answers one request of a session and moves the session on.
///
/// `Create` and `ReadMetadata` are answered in any state. `Init` opens a
/// session that only manages capsules, or binds the session to a
/// DataCapsule. Reads, writes and subscriptions are answered against the
/// capsule that the session is bound to; without one the reply is `Failed`
/// and nothing changes.
pub fn request_to_response(
    server_ctx: &mut ServerContext,
    ctx: &mut Option<DCContext>,
    req: Request,
) -> (resp: Response)
    ensures
        final(server_ctx).server_name == old(server_ctx).server_name,
        final(server_ctx).pk == old(server_ctx).pk,
        all_bound(old(server_ctx).db@.metadata) ==> all_bound(final(server_ctx).db@.metadata),
        countersigned(req, uncommitted_of(*old(ctx)), resp@, old(server_ctx).pk@),
        match req {
            Request::Create(cr) => {
                let was = old(server_ctx).db@;
                let now = final(server_ctx).db@;
                &&& *final(ctx) == *old(ctx)
                &&& now.capsules == was.capsules
                &&& resp@ is Create || resp@ is Failed
                &&& !capsule_bound(cr.spec_capsule()) ==> resp@ is Failed
                &&& resp@ is Create ==> capsule_bound(cr.spec_capsule()) && now.metadata
                    == was.metadata.insert(spec_dc_name(cr.spec_capsule()), cr.spec_capsule())
                &&& resp@ is Failed ==> now.metadata == was.metadata
            },
            Request::ReadMetadata(dc) => {
                &&& *final(ctx) == *old(ctx)
                &&& final(server_ctx).db@ == old(server_ctx).db@
                &&& resp@ == if old(server_ctx).db@.metadata.dom().contains(dc) {
                    ResponseView::ReadMetadata(old(server_ctx).db@.metadata[dc])
                } else {
                    ResponseView::Failed
                }
            },
            Request::Init(init) => {
                let ms = old(server_ctx).db@.metadata;
                &&& final(server_ctx).db@ == old(server_ctx).db@
                &&& match init.spec_dc_name() {
                    None => resp@ == ResponseView::Init && *final(ctx) is None,
                    Some(dc_name) => {
                        &&& ms.dom().contains(dc_name) ==> resp@ == ResponseView::Init
                            && (*final(ctx) matches Some(c) && c.dc_name == dc_name
                            && c.writer_pk@ == ms[dc_name].writer_pub_key
                            && c.uncommitted_hashes@ == Seq::<crypto::Hash>::empty()
                            && c.read_state@ == ReadStateView::empty())
                        &&& !ms.dom().contains(dc_name) ==> resp@ == ResponseView::Failed
                            && *final(ctx) == *old(ctx)
                    },
                }
            },
            _ => match *old(ctx) {
                None => {
                    &&& resp@ == ResponseView::Failed
                    &&& *final(ctx) is None
                    &&& final(server_ctx).db@ == old(server_ctx).db@
                },
                Some(before) => {
                    let was = old(server_ctx).db@.capsule(before.dc_name);
                    let now = final(server_ctx).db@.capsule(before.dc_name);
                    &&& final(server_ctx).db@ == old(server_ctx).db@.with_capsule(
                        before.dc_name,
                        now,
                    )
                    &&& *final(ctx) matches Some(after) && bound_answered(
                        req,
                        before,
                        after,
                        was,
                        now,
                        resp@,
                    )
                },
            },
        },
{
    match req {
        Request::Create(cr) => handle_create(
            cr.into_capsule(),
            &mut server_ctx.db.metadata,
            &server_ctx.pk,
        ),
        Request::ReadMetadata(dc) => handle_read_meta(dc, &server_ctx.db.metadata),
        Request::Init(init) => match init.dc_name() {
            None => {
                *ctx = None;
                Response::Init
            },
            Some(dc_name) => handle_init(dc_name, &server_ctx.db.metadata, ctx),
        },
        bound => match ctx {
            None => Response::Failed,
            Some(session) => {
                let dc_name = session.dc_name;
                let mut store = server_ctx.db.take_capsule(&dc_name);
                let resp = match bound {
                    Request::Write(WriteRequest::Data(data)) => handle_write(
                        data,
                        session,
                        &mut store.ds,
                    ),
                    Request::Write(WriteRequest::Commit { additional_hash, signature }) => {
                        handle_commit(
                            session,
                            &mut store,
                            &server_ctx.pk,
                            &additional_hash,
                            &signature,
                        )
                    },
                    Request::Read(ReadRequest::Data(hash)) => handle_read(hash, &store.ds),
                    Request::Read(ReadRequest::Proof(hash)) => build_proof(
                        hash,
                        &store.rs,
                        &store.ns,
                        &mut session.read_state,
                    ),
                    Request::Subscribe(SubscribeRequest::FreshestCommits) => handle_freshness(
                        &store.os,
                    ),
                    Request::Subscribe(SubscribeRequest::Records(hash)) => get_all_leaves(
                        &store.ns,
                        &hash,
                    ),
                    _ => Response::Failed,
                };
                server_ctx.db.put_capsule(&dc_name, store);
                proof {
                    assert(server_ctx.db@.capsules =~= old(server_ctx).db@.capsules.insert(
                        dc_name,
                        server_ctx.db@.capsule(dc_name),
                    ));
                }
                resp
            },
        },
    }
}

/// A commit whose root was signed with the private key that belongs to the
/// writer's public key is signed by the writer: a server accepts it.
pub proof fn lemma_own_commit_signed(
    hashes: Seq<crypto::Hash>,
    additional_hash: crypto::Hash,
    signature: Seq<u8>,
    private_key: Seq<u8>,
    writer_key: Seq<u8>,
)
    requires
        hashes.len() < usize::MAX,
        crate::crypto::ec_public_key(private_key) == Some(writer_key),
        crate::crypto::signed_by(
            signature,
            spec_merkle_tree_root(hashes, additional_hash),
            private_key,
        ),
    ensures
        commit_signed(hashes, additional_hash, signature, writer_key),
{
}

/// The server's copy of the cache of a client that accepted a proof is the
/// client's cache: both started from the same cache, and both applied the
/// proof.
pub proof fn lemma_cache_mirror(
    state: ReadStateView,
    target: crypto::Hash,
    root: Option<(Seq<u8>, crypto::Hash)>,
    nodes: Seq<Seq<crypto::Hash>>,
    writer_key: Seq<u8>,
)
    requires
        crate::tree::client::proof_accepted(state, target, root, nodes, writer_key),
    ensures
        crate::tree::client::client_cache_after(state, target, root, nodes, writer_key)
            == state.after_proof(root, nodes),
{
}

/// Two commits on top of the same hash both stay among the orphans, unless
/// the root of the first is the hash that both were made on top of.
pub proof fn lemma_branches_kept(
    store: TreeStoreView,
    first: Seq<crypto::Hash>,
    first_signature: Seq<u8>,
    second: Seq<crypto::Hash>,
    second_signature: Seq<u8>,
    additional_hash: crypto::Hash,
)
    requires
        spec_merkle_tree_root(first, additional_hash) != additional_hash,
    ensures
        ({
            let both = store.committed(first, additional_hash, first_signature).committed(
                second,
                additional_hash,
                second_signature,
            );
            &&& both.orphans.dom().contains(spec_merkle_tree_root(first, additional_hash))
            &&& both.orphans.dom().contains(spec_merkle_tree_root(second, additional_hash))
        }),
{
}

/// What a connection that was opened to read answers to `req`: a stored
/// record, a proof with the cache brought up to it, or `Failed`; nothing
/// for a request of another kind.
pub open spec fn reader_answered(
    req: Request,
    data: Map<crypto::Hash, Seq<u8>>,
    parents: Map<crypto::Hash, crypto::Hash>,
    nodes: Map<crypto::Hash, StoredNodeView>,
    cache_before: ReadStateView,
    cache_after: ReadStateView,
    resp: Option<Response>,
) -> bool {
    match req {
        Request::Read(ReadRequest::Data(hash)) => {
            &&& cache_after == cache_before
            &&& resp is Some
            &&& resp->Some_0@ == if data.dom().contains(hash) {
                ResponseView::ReadData(data[hash])
            } else {
                ResponseView::Failed
            }
        },
        Request::Read(ReadRequest::Proof(hash)) => resp is Some && match spec_build_proof(
            TreeStoreView { data: Map::empty(), parents, nodes, orphans: Map::empty() },
            cache_before,
            hash,
        ) {
            Some((root, path)) => resp->Some_0@ == (ResponseView::ReadProof { root, nodes: path })
                && cache_after == cache_before.after_proof(root, path),
            None => resp->Some_0@ == ResponseView::Failed && cache_after == cache_before,
        },
        _ => resp is None && cache_after == cache_before,
    }
}

/// Answers a request on a connection that was opened to read from one
/// DataCapsule. `None` for a request of another kind, which ends the
/// connection.
pub fn process_reader_request(
    req: Request,
    ds: &DataStorage,
    rs: &RecordStorage,
    ns: &NodeStorage,
    read_state: &mut ReadState,
) -> (resp: Option<Response>)
    ensures
        reader_answered(req, ds@, rs@, ns@, old(read_state)@, final(read_state)@, resp),
{
    match req {
        Request::Read(ReadRequest::Data(hash)) => Some(handle_read(hash, ds)),
        Request::Read(ReadRequest::Proof(hash)) => Some(build_proof(hash, rs, ns, read_state)),
        _ => None,
    }
}

/// What a connection that was opened to follow a DataCapsule answers to
/// `req`: the orphans, or the records of a commit; nothing for a request of
/// another kind.
pub open spec fn subscriber_answered(
    req: Request,
    nodes: Map<crypto::Hash, StoredNodeView>,
    orphans: Map<crypto::Hash, Seq<u8>>,
    resp: Option<Response>,
) -> bool {
    match req {
        Request::Subscribe(SubscribeRequest::FreshestCommits) => resp matches Some(r) && (
        r@ matches ResponseView::SubscribeCommits(commits) && lists_orphans(commits, orphans)),
        Request::Subscribe(SubscribeRequest::Records(hash)) => resp matches Some(r) && r@
            == spec_all_leaves(nodes, hash),
        _ => resp is None,
    }
}

/// Answers a request on a connection that was opened to follow one
/// DataCapsule. `None` for a request of another kind, which ends the
/// connection.
pub fn process_subscriber_request(req: Request, ns: &NodeStorage, os: &OrphanStorage) -> (resp:
    Option<Response>)
    ensures
        subscriber_answered(req, ns@, os@, resp),
{
    match req {
        Request::Subscribe(SubscribeRequest::FreshestCommits) => Some(handle_freshness(os)),
        Request::Subscribe(SubscribeRequest::Records(hash)) => Some(get_all_leaves(ns, &hash)),
        _ => None,
    }
}

/// What a connection that was opened to manage DataCapsules answers to
/// `req`: a capsule is stored where its creator's signature binds its name
/// and the server could sign the name, and the reply then carries the
/// server's signature; stored metadata is read; a request of another kind
/// gets nothing.
pub open spec fn manager_answered(
    req: Request,
    was: Map<crypto::Hash, MetadataView>,
    now: Map<crypto::Hash, MetadataView>,
    signing_key: Seq<u8>,
    resp: Option<Response>,
) -> bool {
    match req {
        Request::Create(cr) => {
            &&& resp is Some
            &&& resp->Some_0@ is Create || resp->Some_0@ is Failed
            &&& !capsule_bound(cr.spec_capsule()) ==> resp->Some_0@ is Failed
            &&& resp->Some_0@ is Create ==> capsule_bound(cr.spec_capsule()) && now == was.insert(
                spec_dc_name(cr.spec_capsule()),
                cr.spec_capsule(),
            )
            &&& resp->Some_0@ matches ResponseView::Create(ack) ==> signed_by(
                ack,
                spec_dc_name(cr.spec_capsule()),
                signing_key,
            )
            &&& resp->Some_0@ is Failed ==> now == was
        },
        Request::ReadMetadata(dc) => {
            &&& now == was
            &&& resp is Some
            &&& resp->Some_0@ == if was.dom().contains(dc) {
                ResponseView::ReadMetadata(was[dc])
            } else {
                ResponseView::Failed
            }
        },
        _ => resp is None && now == was,
    }
}

/// Answers a request on a connection that was opened to manage
/// DataCapsules. `None` for a request of another kind, which ends the
/// connection.
pub fn process_manager_request(req: Request, ms: &mut MetaStorage, signing_key: &PrivateKey) -> (resp:
    Option<Response>)
    ensures
        all_bound(old(ms)@) ==> all_bound(final(ms)@),
        manager_answered(req, old(ms)@, final(ms)@, signing_key@, resp),
{
    match req {
        Request::Create(cr) => Some(handle_create(cr.into_capsule(), ms, signing_key)),
        Request::ReadMetadata(dc) => Some(handle_read_meta(dc, ms)),
        _ => None,
    }
}

/// Whether a signature in the answer `resp` to `req` is the server's own,
/// made with `signing_key` over the name that the request is about: the
/// name of the capsule to create, or the root of the commit of the records
/// that the session has written.
pub open spec fn countersigned(
    req: Request,
    uncommitted: Seq<crypto::Hash>,
    resp: ResponseView,
    signing_key: Seq<u8>,
) -> bool {
    match resp {
        ResponseView::Create(ack) => req matches Request::Create(cr) && signed_by(
            ack,
            spec_dc_name(cr.spec_capsule()),
            signing_key,
        ),
        ResponseView::WriteCommit(ack) => req matches Request::Write(
            WriteRequest::Commit { additional_hash, .. },
        ) && signed_by(ack, spec_merkle_tree_root(uncommitted, additional_hash), signing_key),
        _ => true,
    }
}

/// The records that a session has written and not committed; none where
/// it is not bound to a DataCapsule.
pub open spec fn uncommitted_of(session: Option<DCContext>) -> Seq<crypto::Hash> {
    match session {
        Some(ctx) => ctx.uncommitted_hashes@,
        None => Seq::empty(),
    }
}

/// Answers a request on a connection that was opened to write to one
/// DataCapsule. `None` for a request of another kind, which ends the
/// connection.
pub fn process_writer_request(
    req: Request,
    ctx: &mut DCContext,
    store: &mut TreeStore,
    signing_key: &PrivateKey,
) -> (resp: Option<Response>)
    ensures
        resp matches Some(r) ==> countersigned(
            req,
            old(ctx).uncommitted_hashes@,
            r@,
            signing_key@,
        ),
        match req {
            Request::Write(_) => resp is Some && bound_answered(
                req,
                *old(ctx),
                *final(ctx),
                old(store)@,
                final(store)@,
                resp->Some_0@,
            ),
            _ => resp is None && *final(ctx) == *old(ctx) && final(store)@ == old(store)@,
        },
{
    match req {
        Request::Write(WriteRequest::Data(data)) => Some(handle_write(data, ctx, &mut store.ds)),
        Request::Write(WriteRequest::Commit { additional_hash, signature }) => Some(
            handle_commit(ctx, store, signing_key, &additional_hash, &signature),
        ),
        _ => None,
    }
}

/// What a connection that was opened with `init` and is bound to a
/// DataCapsule answers to `req`, and what that does to the session and to
/// the indices of the capsule: a reader reads and asks for proofs, a writer
/// writes and commits, a subscriber follows. `None` ends the connection.
pub open spec fn kind_answered(
    init: InitRequest,
    req: Request,
    before: DCContext,
    after: DCContext,
    was: TreeStoreView,
    now: TreeStoreView,
    resp: Option<Response>,
) -> bool {
    match init {
        InitRequest::Create => resp is None && after == before && now == was,
        InitRequest::Read(_) => {
            &&& reader_answered(
                req,
                was.data,
                was.parents,
                was.nodes,
                before.read_state@,
                after.read_state@,
                resp,
            )
            &&& after.dc_name == before.dc_name
            &&& after.writer_pk == before.writer_pk
            &&& after.uncommitted_hashes == before.uncommitted_hashes
            &&& now == was
        },
        InitRequest::Write(_) => match req {
            Request::Write(_) => resp is Some && bound_answered(
                req,
                before,
                after,
                was,
                now,
                resp->Some_0@,
            ),
            _ => resp is None && after == before && now == was,
        },
        InitRequest::Subscribe(_) => {
            &&& subscriber_answered(req, was.nodes, was.orphans, resp)
            &&& after == before
            &&& now == was
        },
    }
}

/// Answers a request on a connection that was opened with `init`.
///
/// Until the session is bound to a DataCapsule the connection manages
/// capsules. From then on it serves the kind of work that `init` names,
/// against the indices of that capsule. `None` for a request of another
/// kind, which ends the connection.
pub fn process_request(
    server_ctx: &mut ServerContext,
    session: &mut Option<DCContext>,
    init: &InitRequest,
    req: Request,
) -> (resp: Option<Response>)
    ensures
        final(server_ctx).server_name == old(server_ctx).server_name,
        final(server_ctx).pk == old(server_ctx).pk,
        all_bound(old(server_ctx).db@.metadata) ==> all_bound(final(server_ctx).db@.metadata),
        resp matches Some(r) ==> countersigned(
            req,
            uncommitted_of(*old(session)),
            r@,
            old(server_ctx).pk@,
        ),
        match *old(session) {
            None => {
                &&& *final(session) is None
                &&& final(server_ctx).db@.capsules == old(server_ctx).db@.capsules
                &&& manager_answered(
                    req,
                    old(server_ctx).db@.metadata,
                    final(server_ctx).db@.metadata,
                    old(server_ctx).pk@,
                    resp,
                )
            },
            Some(before) => {
                let was = old(server_ctx).db@.capsule(before.dc_name);
                let now = final(server_ctx).db@.capsule(before.dc_name);
                &&& final(server_ctx).db@ == old(server_ctx).db@.with_capsule(before.dc_name, now)
                &&& *final(session) matches Some(after) && kind_answered(
                    *init,
                    req,
                    before,
                    after,
                    was,
                    now,
                    resp,
                )
            },
        },
{
    match session {
        None => process_manager_request(req, &mut server_ctx.db.metadata, &server_ctx.pk),
        Some(bound) => {
            let dc_name = bound.dc_name;
            let mut store = server_ctx.db.take_capsule(&dc_name);
            let resp = match init {
                InitRequest::Create => None,
                InitRequest::Read(_) => process_reader_request(
                    req,
                    &store.ds,
                    &store.rs,
                    &store.ns,
                    &mut bound.read_state,
                ),
                InitRequest::Write(_) => process_writer_request(
                    req,
                    bound,
                    &mut store,
                    &server_ctx.pk,
                ),
                InitRequest::Subscribe(_) => process_subscriber_request(req, &store.ns, &store.os),
            };
            server_ctx.db.put_capsule(&dc_name, store);
            proof {
                assert(server_ctx.db@.capsules =~= old(server_ctx).db@.capsules.insert(
                    dc_name,
                    server_ctx.db@.capsule(dc_name),
                ));
            }
            resp
        },
    }
}

} // verus!
