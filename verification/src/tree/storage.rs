//! The server's indices for one DataCapsule of the commit store: records,
//! the node that holds each record, the nodes of the commit trees, and the
//! commits on which nothing was committed yet.

use vstd::prelude::*;
use crate::crypto;
use crate::crypto::{HashNode, Signature};
use crate::dag::storage::DCMetadataStorage;
use crate::table::{Table, agree_at};

verus! {

/// DataCapsule metadata by capsule name.
pub type MetaStorage = DCMetadataStorage;

/// Encrypted records by their hash.
pub struct DataStorage {
    table: Table<Vec<u8>>,
}

impl View for DataStorage {
    type V = Map<crypto::Hash, Seq<u8>>;

    closed spec fn view(&self) -> Map<crypto::Hash, Seq<u8>> {
        self.table@.map_values(|data: Vec<u8>| data@)
    }
}

impl DataStorage {
    /// An index without records, with nothing to write through.
    pub fn new() -> (storage: Self)
        ensures
            storage@ == Map::<crypto::Hash, Seq<u8>>::empty(),
            storage.saved() == Map::<crypto::Hash, Seq<u8>>::empty(),
    {
        let storage = DataStorage { table: Table::new() };
        assert(storage@ =~= Map::<crypto::Hash, Seq<u8>>::empty());
        assert(storage.saved() =~= Map::<crypto::Hash, Seq<u8>>::empty());
        storage
    }

    /// Takes the journal of the records that were stored since it was last
    /// taken, for writing them through to a durable store.
    pub fn take_changed(&mut self) -> (names: Vec<crypto::Hash>)
        ensures
            final(self)@ == old(self)@,
            final(self).saved() == old(self)@,
            forall|k: crypto::Hash|
                !names@.contains(k) ==> agree_at(old(self)@, old(self).saved(), k),
    {
        let names = self.table.take_changed();
        assert(self.saved() =~= old(self)@);
        names
    }

    /// The rows as they were when the journal was last taken.
    pub closed spec fn saved(&self) -> Map<crypto::Hash, Seq<u8>> {
        self.table.saved().map_values(|data: Vec<u8>| data@)
    }

    /// Stores an encrypted record under its hash.
    pub fn store(&mut self, record_name: &crypto::Hash, record_data: &[u8])
        ensures
            final(self)@ == old(self)@.insert(*record_name, record_data@),
            final(self).saved() == old(self).saved(),
    {
        let mut data: Vec<u8> = Vec::new();
        data.extend_from_slice(record_data);
        assert(data@ =~= record_data@);
        self.table.insert(*record_name, data);
        assert(self@ =~= old(self)@.insert(*record_name, record_data@));
    }

    /// The encrypted record stored under `record_name`.
    pub fn get(&self, record_name: &crypto::Hash) -> (data: Option<Vec<u8>>)
        ensures
            match data {
                Some(found) => self@.dom().contains(*record_name) && found@ == self@[*record_name],
                None => !self@.dom().contains(*record_name),
            },
    {
        match self.table.get(record_name) {
            Some(found) => Some(found.clone()),
            None => None,
        }
    }
}

/// For each committed record, the node that holds its hash.
pub struct RecordStorage {
    table: Table<crypto::Hash>,
}

impl View for RecordStorage {
    type V = Map<crypto::Hash, crypto::Hash>;

    closed spec fn view(&self) -> Map<crypto::Hash, crypto::Hash> {
        self.table@
    }
}

impl RecordStorage {
    /// An index without records, with nothing to write through.
    pub fn new() -> (storage: Self)
        ensures
            storage@ == Map::<crypto::Hash, crypto::Hash>::empty(),
            storage.saved() == Map::<crypto::Hash, crypto::Hash>::empty(),
    {
        RecordStorage { table: Table::new() }
    }

    /// Takes the journal of the parents that were stored since it was last
    /// taken, for writing them through to a durable store.
    pub fn take_changed(&mut self) -> (names: Vec<crypto::Hash>)
        ensures
            final(self)@ == old(self)@,
            final(self).saved() == old(self)@,
            forall|k: crypto::Hash|
                !names@.contains(k) ==> agree_at(old(self)@, old(self).saved(), k),
    {
        let names = self.table.take_changed();
        assert(self.saved() =~= old(self)@);
        names
    }

    /// The rows as they were when the journal was last taken.
    pub closed spec fn saved(&self) -> Map<crypto::Hash, crypto::Hash> {
        self.table.saved()
    }

    /// Stores the parent of a record.
    pub fn store(&mut self, record_name: &crypto::Hash, parent: &crypto::Hash)
        ensures
            final(self)@ == old(self)@.insert(*record_name, *parent),
            final(self).saved() == old(self).saved(),
    {
        self.table.insert(*record_name, *parent);
    }

    /// The parent of the record named `record_name`.
    pub fn get(&self, record_name: &crypto::Hash) -> (parent: Option<crypto::Hash>)
        ensures
            match parent {
                Some(found) => self@.dom().contains(*record_name) && found == self@[*record_name],
                None => !self@.dom().contains(*record_name),
            },
    {
        match self.table.get(record_name) {
            Some(found) => Some(*found),
            None => None,
        }
    }
}

/// An interior node of a commit tree as the server stores it.
#[derive(Debug)]
pub struct StoredNode {
    pub parent: Option<crypto::Hash>,
    /// For the root of a commit: the depth of its tree and the writer's
    /// signature over its name.
    pub root_info: Option<(u8, Signature)>,
    pub children: HashNode,
}

/// What a `StoredNode` holds, as mathematical values.
pub struct StoredNodeView {
    pub parent: Option<crypto::Hash>,
    pub root_info: Option<(u8, Seq<u8>)>,
    pub children: Seq<crypto::Hash>,
}

impl View for StoredNode {
    type V = StoredNodeView;

    open spec fn view(&self) -> StoredNodeView {
        StoredNodeView {
            parent: self.parent,
            root_info: match self.root_info {
                Some((depth, sig)) => Some((depth, sig@)),
                None => None,
            },
            children: self.children@,
        }
    }
}

impl Clone for StoredNode {
    fn clone(&self) -> (copy: Self)
        ensures
            copy@ == self@,
    {
        StoredNode {
            parent: self.parent,
            root_info: match &self.root_info {
                Some(info) => Some((info.0, info.1.clone())),
                None => None,
            },
            children: self.children,
        }
    }
}

/// The nodes of the commit trees by name.
pub struct NodeStorage {
    table: Table<StoredNode>,
}

impl View for NodeStorage {
    type V = Map<crypto::Hash, StoredNodeView>;

    closed spec fn view(&self) -> Map<crypto::Hash, StoredNodeView> {
        self.table@.map_values(|node: StoredNode| node@)
    }
}

impl NodeStorage {
    /// An index without nodes, with nothing to write through.
    pub fn new() -> (storage: Self)
        ensures
            storage@ == Map::<crypto::Hash, StoredNodeView>::empty(),
            storage.saved() == Map::<crypto::Hash, StoredNodeView>::empty(),
    {
        let storage = NodeStorage { table: Table::new() };
        assert(storage@ =~= Map::<crypto::Hash, StoredNodeView>::empty());
        assert(storage.saved() =~= Map::<crypto::Hash, StoredNodeView>::empty());
        storage
    }

    /// Takes the journal of the nodes that were stored since it was last
    /// taken, for writing them through to a durable store.
    pub fn take_changed(&mut self) -> (names: Vec<crypto::Hash>)
        ensures
            final(self)@ == old(self)@,
            final(self).saved() == old(self)@,
            forall|k: crypto::Hash|
                !names@.contains(k) ==> agree_at(old(self)@, old(self).saved(), k),
    {
        let names = self.table.take_changed();
        assert(self.saved() =~= old(self)@);
        names
    }

    /// The rows as they were when the journal was last taken.
    pub closed spec fn saved(&self) -> Map<crypto::Hash, StoredNodeView> {
        self.table.saved().map_values(|node: StoredNode| node@)
    }

    /// Stores a node under its name.
    pub fn store(&mut self, node_name: &crypto::Hash, node: &StoredNode)
        ensures
            final(self)@ == old(self)@.insert(*node_name, node@),
            final(self).saved() == old(self).saved(),
    {
        self.table.insert(*node_name, node.clone());
        assert(self@ =~= old(self)@.insert(*node_name, node@));
    }

    /// The node stored under `node_name`.
    pub fn get(&self, node_name: &crypto::Hash) -> (node: Option<StoredNode>)
        ensures
            match node {
                Some(found) => self@.dom().contains(*node_name) && found@ == self@[*node_name],
                None => !self@.dom().contains(*node_name),
            },
    {
        match self.table.get(node_name) {
            Some(found) => Some(found.clone()),
            None => None,
        }
    }

    /// The number of nodes stored.
    pub fn len(&self) -> (n: usize)
        ensures
            n == self@.dom().len(),
    {
        self.table.known();
        proof {
            crate::table::row_keys(self.table.rows()).unique_seq_to_set();
            assert(self@.dom() =~= self.table@.dom());
        }
        self.table.len()
    }
}

/// The roots of the commits on which nothing was committed yet, each with
/// the writer's signature over it.
pub struct OrphanStorage {
    table: Table<Signature>,
}

impl View for OrphanStorage {
    type V = Map<crypto::Hash, Seq<u8>>;

    closed spec fn view(&self) -> Map<crypto::Hash, Seq<u8>> {
        self.table@.map_values(|sig: Signature| sig@)
    }
}

/// Whether `commits` lists the rows of `orphans`, each once.
pub open spec fn lists_orphans(
    commits: Seq<(crypto::Hash, Seq<u8>)>,
    orphans: Map<crypto::Hash, Seq<u8>>,
) -> bool {
    &&& commits.map_values(|pair: (crypto::Hash, Seq<u8>)| pair.0).no_duplicates()
    &&& forall|i: int|
        0 <= i < commits.len() ==> orphans.dom().contains((#[trigger] commits[i]).0)
            && orphans[commits[i].0] == commits[i].1
    &&& forall|name: crypto::Hash|
        orphans.dom().contains(name) ==> exists|i: int|
            0 <= i < commits.len() && (#[trigger] commits[i]).0 == name
}

impl OrphanStorage {
    /// An index without commits, with nothing to write through.
    pub fn new() -> (storage: Self)
        ensures
            storage@ == Map::<crypto::Hash, Seq<u8>>::empty(),
            storage.saved() == Map::<crypto::Hash, Seq<u8>>::empty(),
    {
        let storage = OrphanStorage { table: Table::new() };
        assert(storage@ =~= Map::<crypto::Hash, Seq<u8>>::empty());
        assert(storage.saved() =~= Map::<crypto::Hash, Seq<u8>>::empty());
        storage
    }

    /// Takes the journal of the orphans that were stored since it was last
    /// taken, for writing them through to a durable store.
    pub fn take_changed(&mut self) -> (names: Vec<crypto::Hash>)
        ensures
            final(self)@ == old(self)@,
            final(self).saved() == old(self)@,
            forall|k: crypto::Hash|
                !names@.contains(k) ==> agree_at(old(self)@, old(self).saved(), k),
    {
        let names = self.table.take_changed();
        assert(self.saved() =~= old(self)@);
        names
    }

    /// The rows as they were when the journal was last taken.
    pub closed spec fn saved(&self) -> Map<crypto::Hash, Seq<u8>> {
        self.table.saved().map_values(|sig: Signature| sig@)
    }

    /// Takes `old_commit_name` out of the orphans and puts `commit_name`
    /// in, with the writer's signature over it.
    pub fn replace(
        &mut self,
        old_commit_name: &crypto::Hash,
        commit_name: &crypto::Hash,
        signature: &Signature,
    )
        ensures
            final(self)@ == old(self)@.remove(*old_commit_name).insert(*commit_name, signature@),
            final(self).saved() == old(self).saved(),
    {
        self.table.remove(old_commit_name);
        self.table.insert(*commit_name, signature.clone());
        assert(self@ =~= old(self)@.remove(*old_commit_name).insert(*commit_name, signature@));
    }

    /// Every orphan with its signature.
    pub fn all_orphans(&self) -> (commits: Vec<(crypto::Hash, Signature)>)
        ensures
            lists_orphans(
                commits@.map_values(|pair: (crypto::Hash, Signature)| (pair.0, pair.1@)),
                self@,
            ),
    {
        self.table.known();
        let ghost rows = self.table.rows();
        let mut res: Vec<(crypto::Hash, Signature)> = Vec::new();
        let mut i: usize = 0;
        while i < self.table.len()
            invariant
                i <= rows.len(),
                rows == self.table.rows(),
                res@.len() == i,
                forall|j: int|
                    0 <= j < i ==> (#[trigger] res@[j]).0 == rows[j].0 && res@[j].1@ == rows[j].1@,
            decreases rows.len() - i,
        {
            let row = self.table.row(i);
            res.push((*row.0, row.1.clone()));
            i += 1;
        }
        proof {
            let listed = res@.map_values(|pair: (crypto::Hash, Signature)| (pair.0, pair.1@));
            let keys = crate::table::row_keys(rows);
            assert(listed.map_values(|pair: (crypto::Hash, Seq<u8>)| pair.0) =~= keys);
            assert forall|j: int| 0 <= j < listed.len() implies self@.dom().contains(
                (#[trigger] listed[j]).0,
            ) && self@[listed[j].0] == listed[j].1 by {
                crate::table::lemma_row_in_map(rows, j);
            }
            assert forall|name: crypto::Hash| self@.dom().contains(name) implies exists|j: int|
                0 <= j < listed.len() && (#[trigger] listed[j]).0 == name by {
                let j = keys.index_of(name);
                assert(keys[j] == name);
                assert(listed[j].0 == name);
            }
        }
        res
    }
}

} // verus!
