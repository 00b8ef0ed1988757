//! The server's indices for one DataCapsule: metadata, headers with their
//! reverse pointers, heads and roots, bodies, and witnesses.

use vstd::prelude::*;
use vstd::set_lib::lemma_len_subset;
use crate::crypto;
use crate::dc_repr::{
    Metadata, MetadataView, RecordHeader, RecordHeaderView, RecordWitness, WitnessView,
    };
use crate::graph::{
    lemma_walk_done, lemma_walk_skip, lemma_walk_start, lemma_walk_visit, reachable_sinks,
    walk_inv,
};
use crate::table::{NameSet, Table, agree_at, row_keys};

verus! {

/// DataCapsule metadata by capsule name.
pub struct DCMetadataStorage {
    table: Table<Metadata>,
}

impl View for DCMetadataStorage {
    type V = Map<crypto::Hash, MetadataView>;

    closed spec fn view(&self) -> Map<crypto::Hash, MetadataView> {
        self.table@.map_values(|dc: Metadata| dc@)
    }
}

impl DCMetadataStorage {
    /// An index without capsules, with nothing to write through.
    pub fn new() -> (storage: Self)
        ensures
            storage@ == Map::<crypto::Hash, MetadataView>::empty(),
            storage.saved() == Map::<crypto::Hash, MetadataView>::empty(),
    {
        let storage = DCMetadataStorage { table: Table::new() };
        assert(storage@ =~= Map::<crypto::Hash, MetadataView>::empty());
        assert(storage.saved() =~= Map::<crypto::Hash, MetadataView>::empty());
        storage
    }

    /// Takes the journal of the capsules that were stored since it was last
    /// taken, for writing them through to a durable store.
    pub fn take_changed(&mut self) -> (names: Vec<crypto::Hash>)
        ensures
            final(self)@ == old(self)@,
            final(self).saved() == old(self)@,
            forall|k: crypto::Hash|
                !names@.contains(k) ==> agree_at(old(self)@, old(self).saved(), k),
    {
        let names = self.table.take_changed();
        assert(self.saved() =~= old(self)@);
        names
    }

    /// The rows as they were when the journal was last taken.
    pub closed spec fn saved(&self) -> Map<crypto::Hash, MetadataView> {
        self.table.saved().map_values(|dc: Metadata| dc@)
    }

    /// Stores the metadata of the capsule named `dc_name`.
    pub fn store(&mut self, dc_name: &crypto::Hash, dc: &Metadata)
        ensures
            final(self)@ == old(self)@.insert(*dc_name, dc@),
            final(self).saved() == old(self).saved(),
    {
        self.table.insert(*dc_name, dc.clone());
        assert(self@ =~= old(self)@.insert(*dc_name, dc@));
    }

    /// The metadata of the capsule named `dc_name`.
    pub fn get(&self, dc_name: &crypto::Hash) -> (dc: Option<Metadata>)
        ensures
            match dc {
                Some(found) => self@.dom().contains(*dc_name) && found@ == self@[*dc_name],
                None => !self@.dom().contains(*dc_name),
            },
    {
        match self.table.get(dc_name) {
            Some(found) => Some(found.clone()),
            None => None,
        }
    }

    /// The serialized public key of the writer of the capsule named
    /// `dc_name`.
    pub fn get_writer_pk(&self, dc_name: &crypto::Hash) -> (key: Option<Vec<u8>>)
        ensures
            match key {
                Some(found) => self@.dom().contains(*dc_name) && found@
                    == self@[*dc_name].writer_pub_key,
                None => !self@.dom().contains(*dc_name),
            },
    {
        match self.table.get(dc_name) {
            Some(found) => Some(found.writer_pub_key.clone()),
            None => None,
        }
    }
}

/// What a `RecordHeaderStorage` holds: the headers by record name, for each
/// name the records that point to it, and the heads and roots among the
/// records that are stored here.
pub struct HeaderIndex {
    pub headers: Map<crypto::Hash, RecordHeaderView>,
    pub reverse_ptrs: Map<crypto::Hash, Set<crypto::Hash>>,
    pub heads: Set<crypto::Hash>,
    pub roots: Set<crypto::Hash>,
}

impl HeaderIndex {
    /// The records known to point to `name`.
    pub open spec fn incoming(self, name: crypto::Hash) -> Set<crypto::Hash> {
        if self.reverse_ptrs.dom().contains(name) {
            self.reverse_ptrs[name]
        } else {
            Set::empty()
        }
    }

    /// The stored records that point to `name`.
    pub open spec fn stored_incoming(self, name: crypto::Hash) -> Set<crypto::Hash> {
        Set::new(|c: crypto::Hash| self.incoming(name).contains(c) && self.headers.dom().contains(c))
    }

    /// The stored records that the stored record `name` points to.
    pub open spec fn stored_outgoing(self, name: crypto::Hash) -> Set<crypto::Hash> {
        Set::new(
            |c: crypto::Hash|
                self.headers.dom().contains(name) && self.headers[name].ptrs().contains(c)
                    && self.headers.dom().contains(c),
        )
    }

    /// The edges among the stored records: along the back-pointers if
    /// `forward`, against them otherwise.
    pub open spec fn edges(self, forward: bool) -> spec_fn(crypto::Hash) -> Set<crypto::Hash> {
        if forward {
            |u: crypto::Hash| self.stored_outgoing(u)
        } else {
            |u: crypto::Hash| self.stored_incoming(u)
        }
    }

    /// The reverse pointers after the record `name` with back-pointers to
    /// `ptrs` was stored.
    pub open spec fn linked(self, ptrs: Seq<crypto::Hash>, name: crypto::Hash) -> Map<
        crypto::Hash,
        Set<crypto::Hash>,
    > {
        Map::new(
            |k: crypto::Hash| self.reverse_ptrs.dom().contains(k) || ptrs.contains(k),
            |k: crypto::Hash|
                if ptrs.contains(k) {
                    self.incoming(k).insert(name)
                } else {
                    self.incoming(k)
                },
        )
    }

    /// The index with the header of `name` and the reverse pointers to it
    /// in place, heads and roots still as before.
    pub open spec fn with_record(self, name: crypto::Hash, header: RecordHeaderView) -> HeaderIndex {
        HeaderIndex {
            headers: self.headers.insert(name, header),
            reverse_ptrs: self.linked(header.ptrs(), name),
            heads: self.heads,
            roots: self.roots,
        }
    }

    /// The index after the record `name` was stored.
    ///
    /// What the new record points to is no head any more, and what points
    /// to it no root. The new heads are the stored records without a stored
    /// record pointing to them that are reached from `name` against the
    /// back-pointers; the new roots are the stored records without a stored
    /// record to point to that are reached from `name` along them.
    pub open spec fn store(self, name: crypto::Hash, header: RecordHeaderView) -> HeaderIndex {
        let placed = self.with_record(name, header);
        HeaderIndex {
            headers: placed.headers,
            reverse_ptrs: placed.reverse_ptrs,
            heads: self.heads.difference(header.ptrs().to_set()).union(
                reachable_sinks(placed.edges(false), name),
            ),
            roots: self.roots.difference(placed.incoming(name)).union(
                reachable_sinks(placed.edges(true), name),
            ),
        }
    }
}

impl HeaderIndex {
    /// Whether the reverse pointers mirror the stored back-pointers: a
    /// record is known to point to `name` exactly if it is stored and its
    /// header holds a back-pointer to `name`.
    pub open spec fn mirrored(self) -> bool {
        forall|name: crypto::Hash, c: crypto::Hash| #[trigger]
            self.incoming(name).contains(c) <==> self.headers.dom().contains(c)
                && self.headers[c].ptrs().contains(name)
    }

    /// Whether the index is in step with its headers: the reverse pointers
    /// mirror the stored back-pointers, no stored record points to a head,
    /// and no root points to a stored record.
    pub open spec fn consistent(self) -> bool {
        &&& self.mirrored()
        &&& forall|h: crypto::Hash| #[trigger]
            self.heads.contains(h) ==> self.stored_incoming(h) == Set::<crypto::Hash>::empty()
        &&& forall|r: crypto::Hash| #[trigger]
            self.roots.contains(r) ==> self.stored_outgoing(r) == Set::<crypto::Hash>::empty()
    }

    /// Whether the record `name` with `header` comes as a record does: it
    /// is new or is stored again as it was, and its name is not marked as a
    /// root without being stored, as the name of a capsule is.
    pub open spec fn takes(self, name: crypto::Hash, header: RecordHeaderView) -> bool {
        &&& self.headers.dom().contains(name) ==> self.headers[name] == header
        &&& self.roots.contains(name) ==> self.headers.dom().contains(name)
    }
}

/// An index without headers and reverse pointers is in step, whatever is
/// marked as head or root.
pub proof fn lemma_unlinked_consistent(index: HeaderIndex)
    requires
        index.headers == Map::<crypto::Hash, RecordHeaderView>::empty(),
        index.reverse_ptrs == Map::<crypto::Hash, Set<crypto::Hash>>::empty(),
    ensures
        index.consistent(),
{
    assert forall|h: crypto::Hash| #[trigger] index.heads.contains(h) implies index.stored_incoming(
        h,
    ) == Set::<crypto::Hash>::empty() by {
        assert(index.stored_incoming(h) =~= Set::<crypto::Hash>::empty());
    }
    assert forall|r: crypto::Hash| #[trigger] index.roots.contains(r) implies index.stored_outgoing(
        r,
    ) == Set::<crypto::Hash>::empty() by {
        assert(index.stored_outgoing(r) =~= Set::<crypto::Hash>::empty());
    }
}

/// Storing a record keeps the index in step with its headers, where the
/// record is new or is stored again as it was, and its name is not marked
/// as a root without being stored, as the name of a capsule is.
pub proof fn lemma_store_keeps_consistent(
    index: HeaderIndex,
    name: crypto::Hash,
    header: RecordHeaderView,
)
    requires
        index.consistent(),
        index.takes(name, header),
    ensures
        index.store(name, header).consistent(),
{
    let placed = index.with_record(name, header);
    let out = index.store(name, header);
    let ptrs = header.ptrs();
    assert forall|k: crypto::Hash, c: crypto::Hash| #[trigger]
        out.incoming(k).contains(c) <==> out.headers.dom().contains(c)
            && out.headers[c].ptrs().contains(k) by {
        assert(index.incoming(k).contains(c) <==> index.headers.dom().contains(c)
            && index.headers[c].ptrs().contains(k));
    }
    assert forall|h: crypto::Hash| #[trigger] out.heads.contains(h) implies out.stored_incoming(h)
        == Set::<crypto::Hash>::empty() by {
        if index.heads.contains(h) && !ptrs.to_set().contains(h) {
            assert(index.stored_incoming(h) == Set::<crypto::Hash>::empty());
            assert forall|c: crypto::Hash| !out.stored_incoming(h).contains(c) by {
                if out.stored_incoming(h).contains(c) {
                    assert(index.incoming(h).contains(c));
                    assert(index.stored_incoming(h).contains(c));
                }
            }
        } else {
            assert(crate::graph::is_sink(placed.edges(false), h));
            assert(placed.stored_incoming(h) == Set::<crypto::Hash>::empty());
            assert(out.stored_incoming(h) =~= placed.stored_incoming(h));
        }
        assert(out.stored_incoming(h) =~= Set::<crypto::Hash>::empty());
    }
    assert forall|r: crypto::Hash| #[trigger] out.roots.contains(r) implies out.stored_outgoing(r)
        == Set::<crypto::Hash>::empty() by {
        if index.roots.contains(r) && !placed.incoming(name).contains(r) {
            assert(index.stored_outgoing(r) == Set::<crypto::Hash>::empty());
            assert forall|c: crypto::Hash| !out.stored_outgoing(r).contains(c) by {
                if out.stored_outgoing(r).contains(c) {
                    assert(index.headers.dom().contains(r));
                    assert(index.headers[r].ptrs().contains(c));
                    if c == name {
                        assert(index.incoming(name).contains(r) || r == name);
                    } else {
                        assert(index.stored_outgoing(r).contains(c));
                    }
                }
            }
        } else {
            assert(crate::graph::is_sink(placed.edges(true), r));
            assert(placed.stored_outgoing(r) == Set::<crypto::Hash>::empty());
            assert(out.stored_outgoing(r) =~= placed.stored_outgoing(r));
        }
        assert(out.stored_outgoing(r) =~= Set::<crypto::Hash>::empty());
    }
}

/// Storing a record twice leaves the index as storing it once.
pub proof fn lemma_store_twice(index: HeaderIndex, name: crypto::Hash, header: RecordHeaderView)
    ensures
        index.store(name, header).store(name, header) == index.store(name, header),
{
    let once = index.store(name, header);
    let twice = once.store(name, header);
    let placed1 = index.with_record(name, header);
    let placed2 = once.with_record(name, header);
    let ptrs = header.ptrs();
    assert(placed2.headers =~= placed1.headers);
    assert forall|k: crypto::Hash| placed1.reverse_ptrs.dom().contains(k) implies #[trigger]
        placed2.reverse_ptrs[k] == placed1.reverse_ptrs[k] by {
        assert(once.incoming(k) == placed1.reverse_ptrs[k]);
        if ptrs.contains(k) {
            assert(once.incoming(k).insert(name) =~= once.incoming(k));
        }
    }
    assert(placed2.reverse_ptrs =~= placed1.reverse_ptrs);
    assert(placed2.edges(false) == placed1.edges(false)) by {
        assert forall|u: crypto::Hash| #[trigger]
            placed2.stored_incoming(u) == placed1.stored_incoming(u) by {
            assert(placed2.stored_incoming(u) =~= placed1.stored_incoming(u));
        }
        assert(placed2.edges(false) =~= placed1.edges(false));
    }
    assert(placed2.edges(true) == placed1.edges(true)) by {
        assert forall|u: crypto::Hash| #[trigger]
            placed2.stored_outgoing(u) == placed1.stored_outgoing(u) by {
            assert(placed2.stored_outgoing(u) =~= placed1.stored_outgoing(u));
        }
        assert(placed2.edges(true) =~= placed1.edges(true));
    }
    assert(placed2.incoming(name) == placed1.incoming(name));
    assert(twice.heads =~= once.heads);
    assert(twice.roots =~= once.roots);
}

/// A stored record is found under its name, with the header that was
/// stored.
pub proof fn lemma_stored_header_found(
    index: HeaderIndex,
    name: crypto::Hash,
    header: RecordHeaderView,
)
    ensures
        index.store(name, header).headers.dom().contains(name),
        index.store(name, header).headers[name] == header,
        forall|other: crypto::Hash|
            other != name && index.headers.dom().contains(other) ==> #[trigger] index.store(
                name,
                header,
            ).headers.dom().contains(other) && index.store(name, header).headers[other]
                == index.headers[other],
{
}

/// Record headers by record name, with the graph that they form.
pub struct RecordHeaderStorage {
    headers: Table<RecordHeader>,
    reverse_ptrs: Table<NameSet>,
    heads: NameSet,
    roots: NameSet,
}

impl View for RecordHeaderStorage {
    type V = HeaderIndex;

    closed spec fn view(&self) -> HeaderIndex {
        HeaderIndex {
            headers: self.headers@.map_values(|h: RecordHeader| h@),
            reverse_ptrs: self.reverse_ptrs@.map_values(|s: NameSet| s@),
            heads: self.heads@,
            roots: self.roots@,
        }
    }
}

impl RecordHeaderStorage {
    /// An index without records, heads or roots, with nothing to write
    /// through.
    pub fn new() -> (storage: Self)
        ensures
            storage@.headers == Map::<crypto::Hash, RecordHeaderView>::empty(),
            storage@.reverse_ptrs == Map::<crypto::Hash, Set<crypto::Hash>>::empty(),
            storage@.heads == Set::<crypto::Hash>::empty(),
            storage@.roots == Set::<crypto::Hash>::empty(),
            storage@.consistent(),
            storage.saved_headers() == Map::<crypto::Hash, RecordHeaderView>::empty(),
            storage.saved_incoming() == Map::<crypto::Hash, Set<crypto::Hash>>::empty(),
    {
        let storage = RecordHeaderStorage {
            headers: Table::new(),
            reverse_ptrs: Table::new(),
            heads: NameSet::new(),
            roots: NameSet::new(),
        };
        assert(storage@.headers =~= Map::<crypto::Hash, RecordHeaderView>::empty());
        assert(storage@.reverse_ptrs =~= Map::<crypto::Hash, Set<crypto::Hash>>::empty());
        assert(storage.saved_headers() =~= Map::<crypto::Hash, RecordHeaderView>::empty());
        assert(storage.saved_incoming() =~= Map::<crypto::Hash, Set<crypto::Hash>>::empty());
        proof {
            lemma_unlinked_consistent(storage@);
        }
        storage
    }

    /// Takes the journal of the headers that were stored since it was last
    /// taken, for writing them through to a durable store.
    pub fn take_changed_headers(&mut self) -> (names: Vec<crypto::Hash>)
        ensures
            final(self)@ == old(self)@,
            final(self).saved_headers() == old(self)@.headers,
            final(self).saved_incoming() == old(self).saved_incoming(),
            forall|k: crypto::Hash|
                !names@.contains(k) ==> agree_at(old(self)@.headers, old(self).saved_headers(), k),
    {
        let names = self.headers.take_changed();
        assert(self.saved_headers() =~= old(self)@.headers);
        names
    }

    /// The headers as they were when their journal was last taken.
    pub closed spec fn saved_headers(&self) -> Map<crypto::Hash, RecordHeaderView> {
        self.headers.saved().map_values(|h: RecordHeader| h@)
    }

    /// The reverse pointers as they were when their journal was last taken.
    pub closed spec fn saved_incoming(&self) -> Map<crypto::Hash, Set<crypto::Hash>> {
        self.reverse_ptrs.saved().map_values(|s: NameSet| s@)
    }

    /// Takes the journal of the names whose reverse pointers were stored
    /// since it was last taken, for writing them through to a durable store.
    pub fn take_changed_incoming(&mut self) -> (names: Vec<crypto::Hash>)
        ensures
            final(self)@ == old(self)@,
            final(self).saved_incoming() == old(self)@.reverse_ptrs,
            final(self).saved_headers() == old(self).saved_headers(),
            forall|k: crypto::Hash|
                !names@.contains(k) ==> agree_at(
                    old(self)@.reverse_ptrs,
                    old(self).saved_incoming(),
                    k,
                ),
    {
        let names = self.reverse_ptrs.take_changed();
        assert(self.saved_incoming() =~= old(self)@.reverse_ptrs);
        names
    }

    /// Puts back a header as it was read from a durable store: heads, roots
    /// and reverse pointers stay as they are.
    pub fn restore_header(&mut self, record_name: &crypto::Hash, record_header: &RecordHeader)
        ensures
            final(self)@ == (HeaderIndex {
                headers: old(self)@.headers.insert(*record_name, record_header@),
                ..old(self)@
            }),
            final(self).saved_headers() == old(self).saved_headers(),
            final(self).saved_incoming() == old(self).saved_incoming(),
    {
        self.headers.insert(*record_name, record_header.clone());
        assert(self@.headers =~= old(self)@.headers.insert(*record_name, record_header@));
    }

    /// Puts back the records that point to `record_name` as they were read
    /// from a durable store.
    pub fn restore_incoming(&mut self, record_name: &crypto::Hash, pointing: &Vec<crypto::Hash>)
        ensures
            final(self)@ == (HeaderIndex {
                reverse_ptrs: old(self)@.reverse_ptrs.insert(*record_name, pointing@.to_set()),
                ..old(self)@
            }),
            final(self).saved_headers() == old(self).saved_headers(),
            final(self).saved_incoming() == old(self).saved_incoming(),
    {
        self.reverse_ptrs.insert(*record_name, names_of(pointing));
        assert(self@.reverse_ptrs =~= old(self)@.reverse_ptrs.insert(
            *record_name,
            pointing@.to_set(),
        ));
    }

    /// The header of the record named `record_name`.
    pub fn get(&self, record_name: &crypto::Hash) -> (header: Option<RecordHeader>)
        ensures
            match header {
                Some(found) => self@.headers.dom().contains(*record_name) && found@
                    == self@.headers[*record_name],
                None => !self@.headers.dom().contains(*record_name),
            },
    {
        match self.headers.get(record_name) {
            Some(found) => Some(found.clone()),
            None => None,
        }
    }

    /// The number of records stored here.
    pub fn len(&self) -> (n: usize)
        ensures
            n == self@.headers.dom().len(),
    {
        self.headers.known();
        proof {
            row_keys(self.headers.rows()).unique_seq_to_set();
            assert(self@.headers.dom() =~= self.headers@.dom());
        }
        self.headers.len()
    }

    /// Whether the record named `record_name` is stored here.
    pub fn contains(&self, record_name: &crypto::Hash) -> (found: bool)
        ensures
            found == self@.headers.dom().contains(*record_name),
    {
        self.headers.contains_key(record_name)
    }

    /// The records known to point to `record_name`, if any was ever stored.
    pub fn get_incoming_ptrs(&self, record_name: &crypto::Hash) -> (names: Option<Vec<crypto::Hash>>)
        ensures
            match names {
                Some(found) => self@.reverse_ptrs.dom().contains(*record_name) && found@.to_set()
                    == self@.reverse_ptrs[*record_name] && found@.no_duplicates(),
                None => !self@.reverse_ptrs.dom().contains(*record_name),
            },
    {
        match self.reverse_ptrs.get(record_name) {
            Some(set) => {
                set.known();
                Some(set.to_vec())
            },
            None => None,
        }
    }

    /// The heads: stored records that no stored record points to.
    pub fn get_heads(&self) -> (names: Vec<crypto::Hash>)
        ensures
            names@.to_set() == self@.heads,
            names@.no_duplicates(),
    {
        self.heads.known();
        self.heads.to_vec()
    }

    /// The roots: stored records that point to no stored record.
    pub fn get_roots(&self) -> (names: Vec<crypto::Hash>)
        ensures
            names@.to_set() == self@.roots,
            names@.no_duplicates(),
    {
        self.roots.known();
        self.roots.to_vec()
    }

    /// Replaces the heads.
    pub fn set_heads(&mut self, heads: &Vec<crypto::Hash>)
        ensures
            final(self)@ == (HeaderIndex { heads: heads@.to_set(), ..old(self)@ }),
            final(self).saved_headers() == old(self).saved_headers(),
            final(self).saved_incoming() == old(self).saved_incoming(),
    {
        self.heads = names_of(heads);
    }

    /// Replaces the roots.
    pub fn set_roots(&mut self, roots: &Vec<crypto::Hash>)
        ensures
            final(self)@ == (HeaderIndex { roots: roots@.to_set(), ..old(self)@ }),
            final(self).saved_headers() == old(self).saved_headers(),
            final(self).saved_incoming() == old(self).saved_incoming(),
    {
        self.roots = names_of(roots);
    }

    /// The stored records next to `curr`: those that `curr` points to if
    /// `forward`, those that point to `curr` otherwise.
    fn stored_neighbours(&self, curr: &crypto::Hash, forward: bool) -> (out: Vec<crypto::Hash>)
        ensures
            forall|c: crypto::Hash| #[trigger]
                out@.contains(c) <==> self@.edges(forward)(*curr).contains(c),
            forall|i: int| 0 <= i < out.len() ==> self.headers@.dom().contains(#[trigger] out@[i]),
    {
        let mut out: Vec<crypto::Hash> = Vec::new();
        if forward {
            match self.headers.get(curr) {
                Some(header) => {
                    let mut j: usize = 0;
                    while j < header.record_backptrs.len()
                        invariant
                            j <= header.record_backptrs.len(),
                            self.headers@.dom().contains(*curr),
                            *header == self.headers@[*curr],
                            forall|i: int|
                                0 <= i < out.len() ==> self.headers@.dom().contains(
                                    #[trigger] out@[i],
                                ) && header@.ptrs().contains(out@[i]),
                            forall|t: int|
                                0 <= t < j && self.headers@.dom().contains(
                                    #[trigger] header@.ptrs()[t],
                                ) ==> out@.contains(header@.ptrs()[t]),
                        decreases header.record_backptrs.len() - j,
                    {
                        let c = header.record_backptrs[j].ptr;
                        let ghost before = out@;
                        assert(header@.ptrs()[j as int] == c);
                        if self.headers.contains_key(&c) {
                            out.push(c);
                            assert(out@[before.len() as int] == c);
                        }
                        assert forall|t: int|
                            0 <= t < j + 1 && self.headers@.dom().contains(
                                #[trigger] header@.ptrs()[t],
                            ) implies out@.contains(header@.ptrs()[t]) by {
                            if t < j {
                                let i = choose|i: int|
                                    0 <= i < before.len() && before[i] == header@.ptrs()[t];
                                assert(out@[i] == header@.ptrs()[t]);
                            }
                        }
                        j += 1;
                    }
                    assert forall|c: crypto::Hash| #[trigger]
                        out@.contains(c) <==> self@.edges(forward)(*curr).contains(c) by {
                        if self@.edges(forward)(*curr).contains(c) {
                            let t = choose|t: int|
                                0 <= t < header@.ptrs().len() && header@.ptrs()[t] == c;
                            assert(self.headers@.dom().contains(header@.ptrs()[t]));
                        }
                        if out@.contains(c) {
                            let i = choose|i: int| 0 <= i < out.len() && out@[i] == c;
                            assert(header@.ptrs().contains(out@[i]));
                        }
                    }
                },
                None => {
                    assert forall|c: crypto::Hash| #[trigger]
                        out@.contains(c) <==> self@.edges(forward)(*curr).contains(c) by {}
                },
            }
        } else {
            match self.reverse_ptrs.get(curr) {
                Some(set) => {
                    set.known();
                    let mut j: usize = 0;
                    while j < set.len()
                        invariant
                            j <= set.order().len(),
                            set@ == set.order().to_set(),
                            forall|i: int|
                                0 <= i < out.len() ==> self.headers@.dom().contains(
                                    #[trigger] out@[i],
                                ) && set@.contains(out@[i]),
                            forall|t: int|
                                0 <= t < j && self.headers@.dom().contains(
                                    #[trigger] set.order()[t],
                                ) ==> out@.contains(set.order()[t]),
                        decreases set.order().len() - j,
                    {
                        let c = *set.name_at(j);
                        let ghost before = out@;
                        if self.headers.contains_key(&c) {
                            out.push(c);
                            assert(out@[before.len() as int] == c);
                        }
                        assert forall|t: int|
                            0 <= t < j + 1 && self.headers@.dom().contains(
                                #[trigger] set.order()[t],
                            ) implies out@.contains(set.order()[t]) by {
                            if t < j {
                                let i = choose|i: int|
                                    0 <= i < before.len() && before[i] == set.order()[t];
                                assert(out@[i] == set.order()[t]);
                            }
                        }
                        j += 1;
                    }
                    assert forall|c: crypto::Hash| #[trigger]
                        out@.contains(c) <==> self@.edges(forward)(*curr).contains(c) by {
                        if self@.edges(forward)(*curr).contains(c) {
                            assert(set.order().contains(c));
                            let t = choose|t: int|
                                0 <= t < set.order().len() && set.order()[t] == c;
                            assert(self.headers@.dom().contains(set.order()[t]));
                        }
                        if out@.contains(c) {
                            let i = choose|i: int| 0 <= i < out.len() && out@[i] == c;
                            assert(set@.contains(out@[i]));
                        }
                    }
                },
                None => {
                    assert forall|c: crypto::Hash| #[trigger]
                        out@.contains(c) <==> self@.edges(forward)(*curr).contains(c) by {}
                },
            }
        }
        out
    }

    /// Walks the stored records from `name`, along the back-pointers if
    /// `forward` and against them otherwise, and returns those at which the
    /// walk ends.
    fn walk_sinks(&self, name: &crypto::Hash, forward: bool) -> (sinks: NameSet)
        requires
            self@.headers.dom().contains(*name),
        ensures
            sinks@ == reachable_sinks(self@.edges(forward), *name),
    {
        let ghost children = self@.edges(forward);
        let ghost universe = self.headers@.dom();
        self.headers.known();
        let mut sinks = NameSet::new();
        let mut visited = NameSet::new();
        let mut stack: Vec<crypto::Hash> = Vec::new();
        stack.push(*name);
        proof {
            lemma_walk_start(children, *name);
            assert(stack@ =~= seq![*name]);
        }
        while stack.len() > 0
            invariant
                children == self@.edges(forward),
                universe == self.headers@.dom(),
                universe.finite(),
                walk_inv(children, *name, visited@, stack@, sinks@),
                visited@.subset_of(universe),
                forall|i: int| 0 <= i < stack.len() ==> universe.contains(#[trigger] stack@[i]),
            decreases universe.len() - visited@.len(), stack.len(),
        {
            let ghost stack_before = stack@;
            let ghost visited_before = visited@;
            let ghost sinks_before = sinks@;
            visited.known();
            proof {
                lemma_len_subset(visited@, universe);
            }
            let curr = stack.pop().unwrap();
            assert(stack@ == stack_before.drop_last());
            assert(curr == stack_before.last());
            if visited.contains(&curr) {
                proof {
                    lemma_walk_skip(children, *name, visited_before, stack_before, sinks_before);
                }
            } else {
                visited.insert(curr);
                let mut next = self.stored_neighbours(&curr, forward);
                let ghost pushed = next@;
                if next.len() == 0 {
                    sinks.insert(curr);
                }
                stack.append(&mut next);
                proof {
                    assert forall|c: crypto::Hash|
                        children(stack_before.last()).contains(c) <==> pushed.contains(c) by {}
                    lemma_walk_visit(
                        children,
                        *name,
                        visited_before,
                        stack_before,
                        sinks_before,
                        pushed,
                    );
                    assert(universe.contains(curr)) by {
                        assert(stack_before[stack_before.len() - 1] == curr);
                    }
                    lemma_len_subset(visited@, universe);
                    assert forall|i: int| 0 <= i < stack.len() implies universe.contains(
                        #[trigger] stack@[i],
                    ) by {
                        if i < stack_before.len() - 1 {
                            assert(stack@[i] == stack_before[i]);
                        } else {
                            assert(stack@[i] == pushed[i - (stack_before.len() - 1)]);
                        }
                    }
                }
            }
        }
        proof {
            assert(stack@ =~= Seq::<crypto::Hash>::empty());
            lemma_walk_done(children, *name, visited@, sinks@);
        }
        sinks
    }

    /// Stores the header of the record named `record_name`, links it into
    /// the graph, and brings heads and roots up to date. An index that was
    /// in step with its headers stays so.
    pub fn store(&mut self, record_name: &crypto::Hash, record_header: &RecordHeader)
        ensures
            final(self)@ == old(self)@.store(*record_name, record_header@),
            final(self).saved_headers() == old(self).saved_headers(),
            final(self).saved_incoming() == old(self).saved_incoming(),
            old(self)@.consistent() && old(self)@.takes(*record_name, record_header@)
                ==> final(self)@.consistent(),
    {
        let ghost before = self@;
        proof {
            if before.consistent() && before.takes(*record_name, record_header@) {
                lemma_store_keeps_consistent(before, *record_name, record_header@);
            }
        }
        let ghost ptrs = record_header@.ptrs();
        self.headers.insert(*record_name, record_header.clone());
        assert(self@.headers =~= before.headers.insert(*record_name, record_header@));

        let mut i: usize = 0;
        while i < record_header.record_backptrs.len()
            invariant
                i <= record_header.record_backptrs.len(),
                ptrs == record_header@.ptrs(),
                self@.headers == before.headers.insert(*record_name, record_header@),
                self@.reverse_ptrs == before.linked(ptrs.take(i as int), *record_name),
                self@.heads == before.heads.difference(ptrs.take(i as int).to_set()),
                self@.roots == before.roots,
                self.saved_headers() == old(self).saved_headers(),
                self.saved_incoming() == old(self).saved_incoming(),
            decreases record_header.record_backptrs.len() - i,
        {
            let ghost rev_before = self@.reverse_ptrs;
            let ghost heads_before = self@.heads;
            let ptr = record_header.record_backptrs[i].ptr;
            assert(ptrs[i as int] == ptr);
            let ghost table_before = self.reverse_ptrs@;
            let mut pointing = match self.reverse_ptrs.remove(&ptr) {
                Some(set) => set,
                None => NameSet::new(),
            };
            let ghost pointing_before = pointing@;
            proof {
                let shown = before.linked(ptrs.take(i as int), *record_name);
                assert(rev_before.dom().contains(ptr) <==> table_before.dom().contains(ptr));
                if table_before.dom().contains(ptr) {
                    assert(pointing_before == rev_before[ptr]);
                    assert(rev_before[ptr] == shown[ptr]);
                } else {
                    assert(!shown.dom().contains(ptr));
                    assert(before.incoming(ptr) =~= Set::<crypto::Hash>::empty());
                }
            }
            pointing.insert(*record_name);
            self.reverse_ptrs.insert(ptr, pointing);
            self.heads.remove(&ptr);
            proof {
                let done = ptrs.take(i as int);
                let next = ptrs.take(i as int + 1);
                assert(next =~= done.push(ptr));
                assert forall|k: crypto::Hash| next.contains(k) <==> done.contains(k) || k
                    == ptr by {
                    if done.contains(k) {
                        let t = choose|t: int| 0 <= t < done.len() && done[t] == k;
                        assert(next[t] == k);
                    }
                    assert(next[i as int] == ptr);
                }
                assert(self@.reverse_ptrs =~= rev_before.insert(
                    ptr,
                    pointing_before.insert(*record_name),
                ));
                let new_set = pointing_before.insert(*record_name);
                assert(new_set =~= before.incoming(ptr).insert(*record_name));
                let goal = before.linked(next, *record_name);
                assert forall|k: crypto::Hash| goal.dom().contains(k) implies #[trigger] goal[k]
                    == self@.reverse_ptrs[k] by {
                    if k != ptr {
                        assert(next.contains(k) <==> done.contains(k));
                    }
                }
                assert(self@.reverse_ptrs =~= goal);
                assert(self@.heads =~= before.heads.difference(next.to_set()));
            }
            i += 1;
        }
        assert(ptrs.take(ptrs.len() as int) =~= ptrs);
        assert(self@.reverse_ptrs == before.with_record(*record_name, record_header@).reverse_ptrs);

        let ghost placed = before.with_record(*record_name, record_header@);
        let incoming = match self.reverse_ptrs.get(record_name) {
            Some(set) => {
                set.known();
                set.to_vec()
            },
            None => Vec::new(),
        };
        assert(incoming@.to_set() =~= placed.incoming(*record_name));
        let mut r: usize = 0;
        while r < incoming.len()
            invariant
                r <= incoming.len(),
                self@.headers == placed.headers,
                self@.reverse_ptrs == placed.reverse_ptrs,
                self@.heads == before.heads.difference(ptrs.to_set()),
                self@.roots == before.roots.difference(incoming@.take(r as int).to_set()),
                self.saved_headers() == old(self).saved_headers(),
                self.saved_incoming() == old(self).saved_incoming(),
            decreases incoming.len() - r,
        {
            self.roots.remove(&incoming[r]);
            proof {
                let done = incoming@.take(r as int);
                let next = incoming@.take(r as int + 1);
                assert(next =~= done.push(incoming@[r as int]));
                assert forall|k: crypto::Hash| next.contains(k) <==> done.contains(k) || k
                    == incoming@[r as int] by {
                    if done.contains(k) {
                        let t = choose|t: int| 0 <= t < done.len() && done[t] == k;
                        assert(next[t] == k);
                    }
                    assert(next[r as int] == incoming@[r as int]);
                }
                assert(self@.roots =~= before.roots.difference(next.to_set()));
            }
            r += 1;
        }
        assert(incoming@.take(incoming.len() as int) =~= incoming@);

        let ghost settled = self@;
        assert(settled.edges(false) == placed.edges(false)) by {
            assert(settled.headers == placed.headers);
            assert(settled.reverse_ptrs == placed.reverse_ptrs);
            assert forall|u: crypto::Hash| #[trigger]
                settled.stored_incoming(u) == placed.stored_incoming(u) by {
                assert(settled.stored_incoming(u) =~= placed.stored_incoming(u));
            }
            assert(settled.edges(false) =~= placed.edges(false));
        }
        assert(settled.edges(true) == placed.edges(true)) by {
            assert forall|u: crypto::Hash| #[trigger]
                settled.stored_outgoing(u) == placed.stored_outgoing(u) by {
                assert(settled.stored_outgoing(u) =~= placed.stored_outgoing(u));
            }
            assert(settled.edges(true) =~= placed.edges(true));
        }
        let new_heads = self.walk_sinks(record_name, false);
        let new_roots = self.walk_sinks(record_name, true);
        add_names(&mut self.heads, &new_heads);
        add_names(&mut self.roots, &new_roots);
    }
}

/// Record bodies by the hash of the body.
pub struct RecordBodyStorage {
    table: Table<Vec<u8>>,
}

impl View for RecordBodyStorage {
    type V = Map<crypto::Hash, Seq<u8>>;

    closed spec fn view(&self) -> Map<crypto::Hash, Seq<u8>> {
        self.table@.map_values(|body: Vec<u8>| body@)
    }
}

impl RecordBodyStorage {
    /// An index without bodies, with nothing to write through.
    pub fn new() -> (storage: Self)
        ensures
            storage@ == Map::<crypto::Hash, Seq<u8>>::empty(),
            storage.saved() == Map::<crypto::Hash, Seq<u8>>::empty(),
    {
        let storage = RecordBodyStorage { table: Table::new() };
        assert(storage@ =~= Map::<crypto::Hash, Seq<u8>>::empty());
        assert(storage.saved() =~= Map::<crypto::Hash, Seq<u8>>::empty());
        storage
    }

    /// Takes the journal of the bodies that were stored since it was last
    /// taken, for writing them through to a durable store.
    pub fn take_changed(&mut self) -> (names: Vec<crypto::Hash>)
        ensures
            final(self)@ == old(self)@,
            final(self).saved() == old(self)@,
            forall|k: crypto::Hash|
                !names@.contains(k) ==> agree_at(old(self)@, old(self).saved(), k),
    {
        let names = self.table.take_changed();
        assert(self.saved() =~= old(self)@);
        names
    }

    /// The rows as they were when the journal was last taken.
    pub closed spec fn saved(&self) -> Map<crypto::Hash, Seq<u8>> {
        self.table.saved().map_values(|body: Vec<u8>| body@)
    }

    /// Stores a body under its hash.
    pub fn store(&mut self, record_body_ptr: &crypto::Hash, record_body: &Vec<u8>)
        ensures
            final(self)@ == old(self)@.insert(*record_body_ptr, record_body@),
            final(self).saved() == old(self).saved(),
    {
        self.table.insert(*record_body_ptr, record_body.clone());
        assert(self@ =~= old(self)@.insert(*record_body_ptr, record_body@));
    }

    /// The body stored under `record_body_ptr`.
    pub fn get(&self, record_body_ptr: &crypto::Hash) -> (body: Option<Vec<u8>>)
        ensures
            match body {
                Some(found) => self@.dom().contains(*record_body_ptr) && found@
                    == self@[*record_body_ptr],
                None => !self@.dom().contains(*record_body_ptr),
            },
    {
        match self.table.get(record_body_ptr) {
            Some(found) => Some(found.clone()),
            None => None,
        }
    }
}

/// The witness that an index holds for `name`: `Unknown` where it has no
/// row.
pub open spec fn witness_of(
    witnesses: Map<crypto::Hash, WitnessView>,
    name: crypto::Hash,
) -> WitnessView {
    if witnesses.dom().contains(name) {
        witnesses[name]
    } else {
        WitnessView::Unknown
    }
}

/// Whether no record's witness in `after` is further from a signature than
/// its witness in `before`.
pub open spec fn never_further(
    before: Map<crypto::Hash, WitnessView>,
    after: Map<crypto::Hash, WitnessView>,
) -> bool {
    forall|name: crypto::Hash|
        !(#[trigger] witness_of(before, name)).closer_than(witness_of(after, name))
}

/// The closest known witness of each record.
pub struct RecordWitnessStorage {
    table: Table<RecordWitness>,
}

impl View for RecordWitnessStorage {
    type V = Map<crypto::Hash, WitnessView>;

    closed spec fn view(&self) -> Map<crypto::Hash, WitnessView> {
        self.table@.map_values(|w: RecordWitness| w@)
    }
}

impl RecordWitnessStorage {
    /// An index without witnesses, with nothing to write through.
    pub fn new() -> (storage: Self)
        ensures
            storage@ == Map::<crypto::Hash, WitnessView>::empty(),
            storage.saved() == Map::<crypto::Hash, WitnessView>::empty(),
    {
        let storage = RecordWitnessStorage { table: Table::new() };
        assert(storage@ =~= Map::<crypto::Hash, WitnessView>::empty());
        assert(storage.saved() =~= Map::<crypto::Hash, WitnessView>::empty());
        storage
    }

    /// Takes the journal of the witnesses that were stored since it was last
    /// taken, for writing them through to a durable store.
    pub fn take_changed(&mut self) -> (names: Vec<crypto::Hash>)
        ensures
            final(self)@ == old(self)@,
            final(self).saved() == old(self)@,
            forall|k: crypto::Hash|
                !names@.contains(k) ==> agree_at(old(self)@, old(self).saved(), k),
    {
        let names = self.table.take_changed();
        assert(self.saved() =~= old(self)@);
        names
    }

    /// The rows as they were when the journal was last taken.
    pub closed spec fn saved(&self) -> Map<crypto::Hash, WitnessView> {
        self.table.saved().map_values(|w: RecordWitness| w@)
    }

    /// Joins the stored witness of `record_name` with the proposed one and
    /// returns the witness that was stored before.
    ///
    /// The stored witness becomes the closer of the two, the proposed one
    /// on a tie: it never moves further from a signature.
    pub fn update_record_witness(
        &mut self,
        record_name: &crypto::Hash,
        new_proposed_witness: &RecordWitness,
    ) -> (previous: RecordWitness)
        ensures
            previous@ == witness_of(old(self)@, *record_name),
            final(self)@ == old(self)@.insert(
                *record_name,
                witness_of(old(self)@, *record_name).closer(new_proposed_witness@),
            ),
            never_further(old(self)@, final(self)@),
            final(self).saved() == old(self).saved(),
    {
        let old_witness = RecordWitness::from_stored(self.table.remove(record_name));
        let closer_witness = RecordWitness::closer(&old_witness, new_proposed_witness).clone();
        self.table.insert(*record_name, closer_witness);
        assert(self@ =~= old(self)@.insert(
            *record_name,
            witness_of(old(self)@, *record_name).closer(new_proposed_witness@),
        ));
        old_witness
    }

    /// The stored witness of `record_name`.
    pub fn get(&self, record_name: &crypto::Hash) -> (witness: RecordWitness)
        ensures
            witness@ == witness_of(self@, *record_name),
    {
        match self.table.get(record_name) {
            Some(found) => found.clone(),
            None => RecordWitness::Unknown,
        }
    }
}

/// The set of the names in `names`.
fn names_of(names: &Vec<crypto::Hash>) -> (set: NameSet)
    ensures
        set@ == names@.to_set(),
{
    let mut set = NameSet::new();
    let mut i: usize = 0;
    while i < names.len()
        invariant
            i <= names.len(),
            set@ == names@.take(i as int).to_set(),
        decreases names.len() - i,
    {
        set.insert(names[i]);
        proof {
            let done = names@.take(i as int);
            let next = names@.take(i as int + 1);
            assert(next =~= done.push(names@[i as int]));
            assert forall|k: crypto::Hash| next.contains(k) <==> done.contains(k) || k
                == names@[i as int] by {
                if done.contains(k) {
                    let t = choose|t: int| 0 <= t < done.len() && done[t] == k;
                    assert(next[t] == k);
                }
                assert(next[i as int] == names@[i as int]);
            }
            assert(set@ =~= next.to_set());
        }
        i += 1;
    }
    assert(names@.take(names.len() as int) =~= names@);
    set
}

/// Adds every name of `more` to `set`.
fn add_names(set: &mut NameSet, more: &NameSet)
    ensures
        final(set)@ == old(set)@.union(more@),
{
    more.known();
    let mut i: usize = 0;
    while i < more.len()
        invariant
            i <= more.order().len(),
            more@ == more.order().to_set(),
            set@ == old(set)@.union(more.order().take(i as int).to_set()),
        decreases more.order().len() - i,
    {
        set.insert(*more.name_at(i));
        proof {
            let done = more.order().take(i as int);
            let next = more.order().take(i as int + 1);
            assert(next =~= done.push(more.order()[i as int]));
            assert forall|k: crypto::Hash| next.contains(k) <==> done.contains(k) || k
                == more.order()[i as int] by {
                if done.contains(k) {
                    let t = choose|t: int| 0 <= t < done.len() && done[t] == k;
                    assert(next[t] == k);
                }
                assert(next[i as int] == more.order()[i as int]);
            }
            assert(set@ =~= old(set)@.union(next.to_set()));
        }
        i += 1;
    }
    assert(more.order().take(more.order().len() as int) =~= more.order());
}

} // verus!
