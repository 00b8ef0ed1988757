//! The server side of the record store: one handler per request, and the
//! router that binds a session to a DataCapsule.

use vstd::prelude::*;
use crate::crypto;
use crate::crypto::{
    PrivateKey, PublicKey, Signature, deserialize_pubkey, ecdsa_accepts, hash_data, hash_dc_metadata,
    hash_eq, hash_record_header, sign, signed_by, spec_hash_data, spec_hash_dc_metadata,
    spec_hash_record_header, verify_signature,
};
use crate::dag::request::{ManageRequest, RWRequest, Request, Response, ResponseView};
use crate::dag::storage::{
    DCMetadataStorage, HeaderIndex, RecordBodyStorage, RecordHeaderStorage, RecordWitnessStorage,
    lemma_store_twice, lemma_stored_header_found, never_further, witness_of,
};
use crate::dc_repr::{
    BestEffortProof, BestEffortProofView, Metadata, MetadataView, Record, RecordHeader,
    RecordHeaderView, RecordView, RecordWitness, WitnessView,
};
use crate::dag::laws::{
    lemma_kept_signatures_good, lemma_signed_keeps, lemma_wave_from_linked, pointer_ok,
    pointers_descend, pointers_linked, signatures_good, signatures_kept, steps_closer, wave_close,
    wave_linked, witnesses_sound,
};
use crate::proven::ProvenCache;
use crate::table::Table;

verus! {

/// Why the server could not do what it was asked.
#[derive(Debug)]
pub enum DCServerError {
    /// A hash or a signature did not match.
    Cryptographic(String),
    /// A row that the operation needs is not stored.
    MissingStorage(String),
    Other(String),
}

/// The indices of one DataCapsule.
pub struct CapsuleStore {
    pub bs: RecordBodyStorage,
    pub hs: RecordHeaderStorage,
    pub ws: RecordWitnessStorage,
}

/// What the indices of one DataCapsule hold.
pub struct CapsuleView {
    pub bodies: Map<crypto::Hash, Seq<u8>>,
    pub index: HeaderIndex,
    pub witnesses: Map<crypto::Hash, WitnessView>,
}

impl View for CapsuleStore {
    type V = CapsuleView;

    open spec fn view(&self) -> CapsuleView {
        CapsuleView { bodies: self.bs@, index: self.hs@, witnesses: self.ws@ }
    }
}

impl CapsuleView {
    /// The indices of a DataCapsule that was just created: no record is
    /// stored, and the capsule's name is the one head and the one root.
    pub open spec fn created(dc_name: crypto::Hash) -> CapsuleView {
        CapsuleView {
            bodies: Map::empty(),
            index: HeaderIndex {
                headers: Map::empty(),
                reverse_ptrs: Map::empty(),
                heads: set![dc_name],
                roots: set![dc_name],
            },
            witnesses: Map::empty(),
        }
    }

    /// The indices with heads and roots set back to the capsule's name.
    pub open spec fn marked(self, dc_name: crypto::Hash) -> CapsuleView {
        CapsuleView {
            index: HeaderIndex { heads: set![dc_name], roots: set![dc_name], ..self.index },
            ..self
        }
    }

    /// Whether the body of `record` is the one that its header points to.
    pub open spec fn accepts(record: RecordView) -> bool {
        record.header.body_ptr == spec_hash_data(record.body)
    }

    /// The indices after `record` was written.
    pub open spec fn write(self, record: RecordView) -> CapsuleView {
        CapsuleView {
            bodies: self.bodies.insert(record.header.body_ptr, record.body),
            index: self.index.store(spec_hash_record_header(record.header), record.header),
            witnesses: self.witnesses,
        }
    }

    /// The record stored under `record_name`: its header, and the body
    /// that the header points to. `None` where either is missing.
    pub open spec fn read(self, record_name: crypto::Hash) -> Option<RecordView> {
        if self.index.headers.dom().contains(record_name) && self.bodies.dom().contains(
            self.index.headers[record_name].body_ptr,
        ) {
            Some(
                RecordView {
                    body: self.bodies[self.index.headers[record_name].body_ptr],
                    header: self.index.headers[record_name],
                },
            )
        } else {
            None
        }
    }
}

impl CapsuleView {
    /// Whether every stored header stands under its hash and every stored
    /// body under its hash.
    pub open spec fn content_addressed(self) -> bool {
        &&& forall|name: crypto::Hash| #[trigger]
            self.index.headers.dom().contains(name) ==> name == spec_hash_record_header(
                self.index.headers[name],
            )
        &&& forall|ptr: crypto::Hash| #[trigger]
            self.bodies.dom().contains(ptr) ==> ptr == spec_hash_data(self.bodies[ptr])
    }

    /// Whether the body of every stored record, where it is stored too, is
    /// the one that the record's header points to by hash.
    pub open spec fn hash_integrity(self) -> bool {
        forall|name: crypto::Hash| #[trigger]
            self.read(name) is Some ==> name == spec_hash_record_header(
                self.read(name)->Some_0.header,
            ) && CapsuleView::accepts(self.read(name)->Some_0)
    }
}

/// A capsule without records is content-addressed.
pub proof fn lemma_created_content_addressed(dc_name: crypto::Hash)
    ensures
        CapsuleView::created(dc_name).content_addressed(),
{
}

/// Writing an accepted record keeps a capsule content-addressed, and in a
/// content-addressed capsule every record that can be read has the name of
/// its header and the body that its header points to.
pub proof fn lemma_write_keeps_integrity(capsule: CapsuleView, record: RecordView)
    requires
        capsule.content_addressed(),
        CapsuleView::accepts(record),
    ensures
        capsule.write(record).content_addressed(),
        capsule.write(record).hash_integrity(),
        capsule.hash_integrity(),
{
    lemma_stored_header_found(capsule.index, spec_hash_record_header(record.header), record.header);
}

/// Marking a capsule as created again keeps it content-addressed.
pub proof fn lemma_marked_keeps_integrity(capsule: CapsuleView, dc_name: crypto::Hash)
    requires
        capsule.content_addressed(),
    ensures
        capsule.marked(dc_name).content_addressed(),
{
}

/// Writing a record twice leaves the capsule as writing it once.
pub proof fn lemma_write_twice(capsule: CapsuleView, record: RecordView)
    ensures
        capsule.write(record).write(record) == capsule.write(record),
{
    lemma_store_twice(capsule.index, spec_hash_record_header(record.header), record.header);
    assert(capsule.write(record).write(record).bodies =~= capsule.write(record).bodies);
}

/// A record that was written is read back under its name as it was
/// written.
pub proof fn lemma_read_after_write(capsule: CapsuleView, record: RecordView)
    ensures
        capsule.write(record).read(spec_hash_record_header(record.header)) == Some(record),
{
    lemma_stored_header_found(capsule.index, spec_hash_record_header(record.header), record.header);
}

impl CapsuleStore {
    /// The indices of a DataCapsule that was just created.
    pub fn new(dc_name: &crypto::Hash) -> (store: Self)
        ensures
            store@ == CapsuleView::created(*dc_name),
            store@.index.consistent(),
    {
        let mut hs = RecordHeaderStorage::new();
        let mut names: Vec<crypto::Hash> = Vec::new();
        names.push(*dc_name);
        hs.set_heads(&names);
        hs.set_roots(&names);
        let store = CapsuleStore { bs: RecordBodyStorage::new(), hs, ws: RecordWitnessStorage::new() };
        proof {
            assert(names@[0] == *dc_name);
            assert(names@.contains(*dc_name));
            assert(names@.to_set() =~= set![*dc_name]);
            crate::dag::storage::lemma_unlinked_consistent(store@.index);
        }
        store
    }
}

/// Everything that the server stores: the metadata of every DataCapsule,
/// and the indices of each.
pub struct Db {
    pub metadata: DCMetadataStorage,
    pub capsules: Table<CapsuleStore>,
}

/// What a `Db` holds.
pub struct DbView {
    pub metadata: Map<crypto::Hash, MetadataView>,
    pub capsules: Map<crypto::Hash, CapsuleView>,
}

impl View for Db {
    type V = DbView;

    open spec fn view(&self) -> DbView {
        DbView {
            metadata: self.metadata@,
            capsules: self.capsules@.map_values(|store: CapsuleStore| store@),
        }
    }
}

impl DbView {
    /// The indices of the capsule named `dc_name`; those of a capsule
    /// without records where none are stored.
    pub open spec fn capsule(self, dc_name: crypto::Hash) -> CapsuleView {
        if self.capsules.dom().contains(dc_name) {
            self.capsules[dc_name]
        } else {
            CapsuleView::created(dc_name)
        }
    }

    /// The database with the indices of `dc_name` replaced.
    pub open spec fn with_capsule(self, dc_name: crypto::Hash, capsule: CapsuleView) -> DbView {
        DbView { metadata: self.metadata, capsules: self.capsules.insert(dc_name, capsule) }
    }
}

impl Db {
    /// A database without DataCapsules.
    pub fn new() -> (db: Self)
        ensures
            db@.metadata == Map::<crypto::Hash, MetadataView>::empty(),
            db@.capsules == Map::<crypto::Hash, CapsuleView>::empty(),
            db@.bound(),
    {
        let db = Db { metadata: DCMetadataStorage::new(), capsules: Table::new() };
        assert(db@.capsules =~= Map::<crypto::Hash, CapsuleView>::empty());
        db
    }

    /// Takes the indices of `dc_name` out of the database.
    pub fn take_capsule(&mut self, dc_name: &crypto::Hash) -> (store: CapsuleStore)
        ensures
            store@ == old(self)@.capsule(*dc_name),
            final(self)@.metadata == old(self)@.metadata,
            final(self)@.capsules == old(self)@.capsules.remove(*dc_name),
    {
        let store = match self.capsules.remove(dc_name) {
            Some(store) => store,
            None => CapsuleStore::new(dc_name),
        };
        assert(self@.capsules =~= old(self)@.capsules.remove(*dc_name));
        store
    }

    /// Puts the indices of `dc_name` into the database.
    pub fn put_capsule(&mut self, dc_name: &crypto::Hash, store: CapsuleStore)
        ensures
            final(self)@.metadata == old(self)@.metadata,
            final(self)@.capsules == old(self)@.capsules.insert(*dc_name, store@),
    {
        self.capsules.insert(*dc_name, store);
        assert(self@.capsules =~= old(self)@.capsules.insert(*dc_name, store@));
    }
}

/// What a server is: its name, its database and its signing key.
pub struct ServerContext {
    pub server_name: String,
    pub db: Db,
    pub pk: PrivateKey,
}

/// What a session knows once it is bound to a DataCapsule.
pub struct DCContext {
    pub dc_name: crypto::Hash,
    pub writer_pk: PublicKey,
    pub client_proven_hash_cache: ProvenCache,
}

impl DCContext {
    /// The context of a session that was just bound to `dc_name`.
    pub fn new(dc_name: crypto::Hash, writer_pk: PublicKey) -> (ctx: Self)
        ensures
            ctx.dc_name == dc_name,
            ctx.writer_pk == writer_pk,
            ctx.client_proven_hash_cache@ == Set::<crypto::Hash>::empty(),
    {
        DCContext { dc_name, writer_pk, client_proven_hash_cache: ProvenCache::new() }
    }
}

/// Answers `Manage.Read`: the metadata of the capsule, or `Failed` where
/// the server has none.
pub fn handle_read_meta(dc: crypto::Hash, ms: &DCMetadataStorage) -> (resp: Response)
    ensures
        resp@ == if ms@.dom().contains(dc) {
            ResponseView::ManageRead(ms@[dc])
        } else {
            ResponseView::Failed
        },
{
    match ms.get(&dc) {
        Some(ds) => Response::ManageRead(ds),
        None => Response::Failed,
    }
}

/// Answers `Init`: binds the session to the capsule named `dc_name` where
/// the server knows it, with the writer's key from its metadata and an empty
/// cache of proven names. Otherwise the session stays as it is.
pub fn handle_init(dc_name: crypto::Hash, ms: &DCMetadataStorage, ctx: &mut Option<DCContext>) -> (resp:
    Response)
    ensures
        ms@.dom().contains(dc_name) ==> resp@ == ResponseView::Init && (*final(ctx) matches Some(c)
            && c.dc_name == dc_name && c.writer_pk@ == ms@[dc_name].writer_pub_key
            && c.client_proven_hash_cache@ == Set::<crypto::Hash>::empty()),
        !ms@.dom().contains(dc_name) ==> resp@ == ResponseView::Failed && *final(ctx) == *old(ctx),
{
    let writer_pk = match ms.get_writer_pk(&dc_name) {
        Some(v) => deserialize_pubkey(v.as_slice()),
        None => return Response::Failed,
    };
    *ctx = Some(DCContext::new(dc_name, writer_pk));
    Response::Init
}

/// Stores a record whose body is the one its header points to, and returns
/// the record's name. A record with another body is refused and nothing is
/// stored.
pub fn store_record(record: &Record, bs: &mut RecordBodyStorage, hs: &mut RecordHeaderStorage) -> (result:
    Result<crypto::Hash, DCServerError>)
    ensures
        match result {
            Ok(name) => {
                &&& CapsuleView::accepts(record@)
                &&& name == spec_hash_record_header(record@.header)
                &&& final(bs)@ == old(bs)@.insert(record@.header.body_ptr, record@.body)
                &&& final(hs)@ == old(hs)@.store(name, record@.header)
            },
            Err(e) => {
                &&& !CapsuleView::accepts(record@)
                &&& e is Cryptographic
                &&& final(bs)@ == old(bs)@
                &&& final(hs)@ == old(hs)@
            },
        },
{
    let body_ptr = hash_data(record.body.as_slice());
    if !hash_eq(&body_ptr, &record.header.body_ptr) {
        return Err(DCServerError::Cryptographic("body does not match body_ptr".to_string()));
    }
    bs.store(&record.header.body_ptr, &record.body);
    let record_name = hash_record_header(&record.header);
    hs.store(&record_name, &record.header);
    Ok(record_name)
}

/// Answers `RW.Write`: stores the record and replies with its name, or
/// replies `Failed` and stores nothing where the body does not match.
pub fn handle_write(record: &Record, store: &mut CapsuleStore) -> (resp: Response)
    ensures
        CapsuleView::accepts(record@) ==> resp@ == ResponseView::WriteData(
            spec_hash_record_header(record@.header),
        ) && final(store)@ == old(store)@.write(record@),
        !CapsuleView::accepts(record@) ==> resp@ == ResponseView::Failed && final(store)@ == old(store)@,
        old(store)@.index.consistent() && old(store)@.index.takes(
            spec_hash_record_header(record@.header),
            record@.header,
        ) ==> final(store)@.index.consistent(),
{
    proof {
        if store@.index.consistent() && store@.index.takes(
            spec_hash_record_header(record@.header),
            record@.header,
        ) {
            crate::dag::storage::lemma_store_keeps_consistent(
                store@.index,
                spec_hash_record_header(record@.header),
                record@.header,
            );
        }
    }
    match store_record(record, &mut store.bs, &mut store.hs) {
        Ok(record_name) => Response::WriteData(record_name),
        Err(_) => Response::Failed,
    }
}

/// Reads the record named `record_name`: its header, and the body that the
/// header points to.
pub fn read_record(record_name: &crypto::Hash, bs: &RecordBodyStorage, hs: &RecordHeaderStorage) -> (result:
    Result<Record, DCServerError>)
    ensures
        match result {
            Ok(record) => {
                &&& hs@.headers.dom().contains(*record_name)
                &&& record@.header == hs@.headers[*record_name]
                &&& bs@.dom().contains(record@.header.body_ptr)
                &&& record@.body == bs@[record@.header.body_ptr]
            },
            Err(e) => {
                &&& e is MissingStorage
                &&& !hs@.headers.dom().contains(*record_name) || !bs@.dom().contains(
                    hs@.headers[*record_name].body_ptr,
                )
            },
        },
{
    let header = match hs.get(record_name) {
        Some(header) => header,
        None => return Err(DCServerError::MissingStorage("missing header".to_string())),
    };
    let body = match bs.get(&header.body_ptr) {
        Some(body) => body,
        None => return Err(DCServerError::MissingStorage("missing body".to_string())),
    };
    Ok(Record { body, header })
}

/// Answers `RW.Read`: the stored record, or `Failed` where its header or
/// its body is missing.
pub fn handle_read(record_name: &crypto::Hash, bs: &RecordBodyStorage, hs: &RecordHeaderStorage) -> (resp:
    Response)
    ensures
        resp@ == match (CapsuleView { bodies: bs@, index: hs@, witnesses: Map::empty() }).read(
            *record_name,
        ) {
            Some(record) => ResponseView::ReadRecord(record),
            None => ResponseView::Failed,
        },
{
    match read_record(record_name, bs, hs) {
        Ok(r) => Response::ReadRecord(r),
        Err(_) => Response::Failed,
    }
}

/// The name of a DataCapsule with the given metadata.
pub open spec fn spec_dc_name(dc: MetadataView) -> crypto::Hash {
    spec_hash_dc_metadata(dc.creator_pub_key, dc.writer_pub_key, dc.description)
}

/// Whether the creator's signature binds the capsule's name: the creator's
/// key accepts it over the hash of creator key, writer key and description.
pub open spec fn capsule_bound(dc: MetadataView) -> bool {
    ecdsa_accepts(dc.signature, spec_dc_name(dc), dc.creator_pub_key)
}

impl DbView {
    /// Whether every DataCapsule is stored under its name and carries a
    /// creator signature that binds this name.
    pub open spec fn bound(self) -> bool {
        forall|name: crypto::Hash| #[trigger]
            self.metadata.dom().contains(name) ==> capsule_bound(self.metadata[name]) && name
                == spec_dc_name(self.metadata[name])
    }

    /// The database after the capsule `dc` was created under `name`: its
    /// metadata is stored, and its heads and roots are set to its name.
    pub open spec fn create(self, name: crypto::Hash, dc: MetadataView) -> DbView {
        DbView {
            metadata: self.metadata.insert(name, dc),
            capsules: self.capsules.insert(name, self.capsule(name).marked(name)),
        }
    }
}

/// Sets the heads and the roots of a capsule to the capsule's name, as they
/// are when the capsule is created.
pub fn init_marked(store: &mut CapsuleStore, dc_name: &crypto::Hash)
    ensures
        final(store)@ == old(store)@.marked(*dc_name),
{
    let mut names: Vec<crypto::Hash> = Vec::new();
    names.push(*dc_name);
    proof {
        assert(names@[0] == *dc_name);
        assert(names@.contains(*dc_name));
        assert(names@.to_set() =~= set![*dc_name]);
    }
    store.hs.set_heads(&names);
    store.hs.set_roots(&names);
}

/// Completes `Manage.Create` once the creator's signature was checked and
/// the name of the capsule was signed by the server.
///
/// Where the creator's signature is good and the server's signature was
/// made, the capsule is stored and the reply carries the server's signature.
/// Otherwise the reply is `Failed` and nothing is stored.
pub fn create_reply(
    dc: &Metadata,
    name: crypto::Hash,
    good: bool,
    ack: Option<Signature>,
    db: &mut Db,
) -> (resp: Response)
    ensures
        good && ack is Some ==> resp@ == ResponseView::ManageCreate(ack->Some_0@) && final(db)@
            == old(db)@.create(name, dc@),
        !(good && ack is Some) ==> resp@ == ResponseView::Failed && final(db)@ == old(db)@,
{
    if !good {
        return Response::Failed;
    }
    match ack {
        Some(signature) => {
            db.metadata.store(&name, dc);
            let mut store = db.take_capsule(&name);
            init_marked(&mut store, &name);
            db.put_capsule(&name, store);
            proof {
                assert(db@.capsules =~= old(db)@.create(name, dc@).capsules);
            }
            Response::ManageCreate(signature)
        },
        None => Response::Failed,
    }
}

/// Answers `Manage.Create`: checks the creator's signature over the
/// capsule's name, stores the capsule, and countersigns its name.
pub fn handle_create(dc: Metadata, db: &mut Db, signing_key: &PrivateKey) -> (resp: Response)
    ensures
        resp@ is ManageCreate || resp@ is Failed,
        !capsule_bound(dc@) ==> resp@ is Failed,
        resp@ is ManageCreate ==> capsule_bound(dc@) && final(db)@ == old(db)@.create(
            spec_dc_name(dc@),
            dc@,
        ),
        resp@ is Failed ==> final(db)@ == old(db)@,
        resp@ matches ResponseView::ManageCreate(ack) ==> signed_by(
            ack,
            spec_dc_name(dc@),
            signing_key@,
        ),
        old(db)@.bound() ==> final(db)@.bound(),
{
    let hash = hash_dc_metadata(
        dc.creator_pub_key.as_slice(),
        dc.writer_pub_key.as_slice(),
        dc.description.as_str(),
    );
    let creator_pk = deserialize_pubkey(dc.creator_pub_key.as_slice());
    let good = verify_signature(&dc.signature, &hash, &creator_pk);
    let ack = if good {
        sign(&hash, signing_key)
    } else {
        None
    };
    create_reply(&dc, hash, good, ack, db)
}

/// The waves of witness propagation: what one wave does to the witnesses,
/// and the wave that follows it.
///
/// Each entry of a wave names a record and the descendant through which
/// the new signature reaches it. The record is offered the witness
/// `NextRecordPtr(descendant, distance)`; where that is closer than what it
/// had, its own predecessors enter the next wave. `None` where a record of
/// the wave has no stored header.
pub open spec fn wave_step(
    headers: Map<crypto::Hash, RecordHeaderView>,
    witnesses: Map<crypto::Hash, WitnessView>,
    wave: Seq<(crypto::Hash, crypto::Hash)>,
    distance: u64,
) -> Option<(Map<crypto::Hash, WitnessView>, Seq<(crypto::Hash, crypto::Hash)>)>
    decreases wave.len(),
{
    if wave.len() == 0 {
        Some((witnesses, Seq::empty()))
    } else {
        match wave_step(headers, witnesses, wave.drop_last(), distance) {
            None => None,
            Some((reached, next)) => {
                let (name, parent) = wave.last();
                if !headers.dom().contains(name) {
                    None
                } else {
                    let proposed = WitnessView::NextRecordPtr(parent, distance);
                    let previous = witness_of(reached, name);
                    Some(
                        (
                            reached.insert(name, previous.closer(proposed)),
                            if proposed.closer_than(previous) {
                                next + wave_from(headers[name], name)
                            } else {
                                next
                            },
                        ),
                    )
                }
            },
        }
    }
}

/// The witnesses after a wave has run as far as it can: to its end, or up
/// to the first record without a stored header.
pub open spec fn wave_reach(
    headers: Map<crypto::Hash, RecordHeaderView>,
    witnesses: Map<crypto::Hash, WitnessView>,
    wave: Seq<(crypto::Hash, crypto::Hash)>,
    distance: u64,
) -> Map<crypto::Hash, WitnessView>
    decreases wave.len(),
{
    if wave.len() == 0 {
        witnesses
    } else {
        let reached = wave_reach(headers, witnesses, wave.drop_last(), distance);
        let (name, parent) = wave.last();
        if wave_step(headers, witnesses, wave.drop_last(), distance) is None
            || !headers.dom().contains(name) {
            reached
        } else {
            reached.insert(
                name,
                witness_of(reached, name).closer(WitnessView::NextRecordPtr(parent, distance)),
            )
        }
    }
}

/// The witnesses when the waves that follow `wave`, the first at
/// `distance`, come to a stop: after the wave that leaves nothing to
/// follow, at the first record without a stored header, or after the wave
/// at which the distance runs out of its range.
pub open spec fn waves_reach(
    headers: Map<crypto::Hash, RecordHeaderView>,
    witnesses: Map<crypto::Hash, WitnessView>,
    wave: Seq<(crypto::Hash, crypto::Hash)>,
    distance: u64,
) -> Map<crypto::Hash, WitnessView>
    decreases u64::MAX - distance,
{
    let reached = wave_reach(headers, witnesses, wave, distance);
    match wave_step(headers, witnesses, wave, distance) {
        None => reached,
        Some((_, next)) => if next.len() == 0 || distance == u64::MAX {
            reached
        } else {
            waves_reach(headers, reached, next, (distance + 1) as u64)
        },
    }
}

/// The witnesses after a new signature on `base` was propagated to its
/// ancestors as far as the stored headers lead: every wave up to the first
/// record without a stored header has left its mark.
pub open spec fn reached_from(
    headers: Map<crypto::Hash, RecordHeaderView>,
    witnesses: Map<crypto::Hash, WitnessView>,
    base: crypto::Hash,
) -> Map<crypto::Hash, WitnessView> {
    if headers.dom().contains(base) {
        waves_reach(headers, witnesses, wave_from(headers[base], base), 1)
    } else {
        witnesses
    }
}

/// The entries that a record puts into a wave: its predecessors, each to
/// be reached through the record.
pub open spec fn wave_from(header: RecordHeaderView, name: crypto::Hash) -> Seq<
    (crypto::Hash, crypto::Hash),
> {
    header.ptrs().map_values(|ptr: crypto::Hash| (ptr, name))
}

/// The witnesses after all waves that follow `wave` have run, the first at
/// `distance`. `None` where a record of some wave has no stored header, or
/// the distance runs out of its range.
pub open spec fn waves(
    headers: Map<crypto::Hash, RecordHeaderView>,
    witnesses: Map<crypto::Hash, WitnessView>,
    wave: Seq<(crypto::Hash, crypto::Hash)>,
    distance: u64,
) -> Option<Map<crypto::Hash, WitnessView>>
    decreases u64::MAX - distance,
{
    if wave.len() == 0 {
        Some(witnesses)
    } else {
        match wave_step(headers, witnesses, wave, distance) {
            None => None,
            Some((reached, next)) => if next.len() == 0 {
                Some(reached)
            } else if distance == u64::MAX {
                None
            } else {
                waves(headers, reached, next, (distance + 1) as u64)
            },
        }
    }
}

/// The witnesses after a new signature on `base` was propagated to its
/// ancestors. `None` where the header of `base` or of a reached ancestor is
/// not stored.
pub open spec fn propagated(
    headers: Map<crypto::Hash, RecordHeaderView>,
    witnesses: Map<crypto::Hash, WitnessView>,
    base: crypto::Hash,
) -> Option<Map<crypto::Hash, WitnessView>> {
    if headers.dom().contains(base) {
        waves(headers, witnesses, wave_from(headers[base], base), 1)
    } else {
        None
    }
}

/// Appends the predecessors of `name` to `wave`.
fn extend_wave(wave: &mut Vec<(crypto::Hash, crypto::Hash)>, header: &RecordHeader, name: &crypto::Hash)
    ensures
        final(wave)@ == old(wave)@ + wave_from(header@, *name),
{
    let ghost all = wave_from(header@, *name);
    let mut i: usize = 0;
    while i < header.record_backptrs.len()
        invariant
            i <= header.record_backptrs.len(),
            all == wave_from(header@, *name),
            wave@ == old(wave)@ + all.take(i as int),
        decreases header.record_backptrs.len() - i,
    {
        wave.push((header.record_backptrs[i].ptr, *name));
        assert(all.take(i as int + 1) =~= all.take(i as int).push(all[i as int]));
        assert(wave@ =~= old(wave)@ + all.take(i as int + 1));
        i += 1;
    }
    assert(all.take(all.len() as int) =~= all);
}

/// Runs one wave of witness propagation and returns the wave that follows.
/// Witnesses only move closer to a signature, also where the wave stops at
/// a record without a stored header.
pub fn propagate_wave(
    hs: &RecordHeaderStorage,
    ws: &mut RecordWitnessStorage,
    wave: &Vec<(crypto::Hash, crypto::Hash)>,
    distance: u64,
) -> (result: Result<Vec<(crypto::Hash, crypto::Hash)>, DCServerError>)
    ensures
        final(ws)@ == wave_reach(hs@.headers, old(ws)@, wave@, distance),
        never_further(old(ws)@, final(ws)@),
        signatures_kept(old(ws)@, final(ws)@),
        wave_linked(hs@.headers, wave@) && pointers_linked(hs@.headers, old(ws)@)
            ==> pointers_linked(hs@.headers, final(ws)@) && (result matches Ok(next)
            ==> wave_linked(hs@.headers, next@)),
        distance >= 1 && wave_close(old(ws)@, wave@, distance as int) && pointers_descend(
            old(ws)@,
        ) ==> pointers_descend(final(ws)@) && (result matches Ok(next) ==> wave_close(
            final(ws)@,
            next@,
            distance + 1,
        )),
        match result {
            Ok(next) => wave_step(hs@.headers, old(ws)@, wave@, distance) == Some(
                (final(ws)@, next@),
            ),
            Err(e) => e is MissingStorage && wave_step(hs@.headers, old(ws)@, wave@, distance)
                is None,
        },
{
    let mut next_wave: Vec<(crypto::Hash, crypto::Hash)> = Vec::new();
    let mut i: usize = 0;
    assert(wave@.take(0) =~= Seq::<(crypto::Hash, crypto::Hash)>::empty());
    let ghost linked = wave_linked(hs@.headers, wave@) && pointers_linked(hs@.headers, ws@);
    let ghost descending = distance >= 1 && wave_close(ws@, wave@, distance as int)
        && pointers_descend(ws@);
    while i < wave.len()
        invariant
            i <= wave.len(),
            never_further(old(ws)@, ws@),
            signatures_kept(old(ws)@, ws@),
            ws@ == wave_reach(hs@.headers, old(ws)@, wave@.take(i as int), distance),
            descending == (distance >= 1 && wave_close(old(ws)@, wave@, distance as int)
                && pointers_descend(old(ws)@)),
            descending ==> pointers_descend(ws@) && wave_close(ws@, wave@, distance as int)
                && wave_close(ws@, next_wave@, distance + 1),
            linked == (wave_linked(hs@.headers, wave@) && pointers_linked(
                hs@.headers,
                old(ws)@,
            )),
            linked ==> pointers_linked(hs@.headers, ws@) && wave_linked(hs@.headers, next_wave@),
            wave_step(hs@.headers, old(ws)@, wave@.take(i as int), distance) == Some(
                (ws@, next_wave@),
            ),
        decreases wave.len() - i,
    {
        let record_name = wave[i].0;
        let parent_record_name = wave[i].1;
        let ghost done = wave@.take(i as int);
        let ghost step = wave@.take(i as int + 1);
        proof {
            assert(step.drop_last() =~= done);
            assert(step.last() == wave@[i as int]);
        }
        let record_header = match hs.get(&record_name) {
            Some(header) => header,
            None => {
                proof {
                    lemma_wave_step_fails(hs@.headers, old(ws)@, wave@, distance, i as int + 1);
                    lemma_wave_reach_stops(hs@.headers, old(ws)@, wave@, distance, i as int + 1);
                }
                return Err(DCServerError::MissingStorage("missing header".to_string()));
            },
        };
        let new_proposed_witness = RecordWitness::NextRecordPtr(parent_record_name, distance);
        let ghost before = ws@;
        let ghost next_before = next_wave@;
        let old_witness = ws.update_record_witness(&record_name, &new_proposed_witness);
        proof {
            lemma_never_further_trans(old(ws)@, before, ws@);
            if descending {
                assert(wave@[i as int] == (record_name, parent_record_name));
                assert forall|n: crypto::Hash| #[trigger] steps_closer(ws@, n) by {
                    assert(steps_closer(before, n));
                    assert(!witness_of(before, n).closer_than(witness_of(ws@, n)));
                    match witness_of(ws@, n) {
                        WitnessView::NextRecordPtr(next, _) => {
                            assert(!witness_of(before, next).closer_than(witness_of(ws@, next)));
                            assert(!witness_of(before, parent_record_name).closer_than(
                                witness_of(ws@, parent_record_name),
                            ));
                        },
                        _ => {},
                    }
                }
                assert forall|t: int| 0 <= t < wave@.len() implies witness_of(
                    ws@,
                    (#[trigger] wave@[t]).1,
                ).rank() <= distance by {
                    assert(!witness_of(before, wave@[t].1).closer_than(
                        witness_of(ws@, wave@[t].1),
                    ));
                }
                assert forall|t: int| 0 <= t < next_before.len() implies witness_of(
                    ws@,
                    (#[trigger] next_before[t]).1,
                ).rank() <= distance + 1 by {
                    assert(!witness_of(before, next_before[t].1).closer_than(
                        witness_of(ws@, next_before[t].1),
                    ));
                }
            }
            assert forall|n: crypto::Hash| (#[trigger] witness_of(ws@, n)) is Signature implies
                witness_of(old(ws)@, n) == witness_of(ws@, n) by {
                if n != record_name {
                    assert(witness_of(ws@, n) == witness_of(before, n));
                } else {
                    assert(witness_of(before, n) == witness_of(ws@, n));
                }
            }
            if linked {
                assert(wave@[i as int] == (record_name, parent_record_name));
                assert forall|n: crypto::Hash|
                    pointer_ok(hs@.headers, #[trigger] witness_of(ws@, n), n) by {
                    if n != record_name {
                        assert(witness_of(ws@, n) == witness_of(before, n));
                    } else {
                        assert(pointer_ok(hs@.headers, witness_of(before, n), n));
                    }
                }
            }
        }
        if new_proposed_witness.closer_than(&old_witness) {
            extend_wave(&mut next_wave, &record_header, &record_name);
            proof {
                if descending {
                    let more = wave_from(hs@.headers[record_name], record_name);
                    assert forall|t: int| 0 <= t < next_wave@.len() implies witness_of(
                        ws@,
                        (#[trigger] next_wave@[t]).1,
                    ).rank() <= distance + 1 by {
                        if t < next_before.len() {
                            assert(next_wave@[t] == next_before[t]);
                        } else {
                            assert(next_wave@[t] == more[t - next_before.len()]);
                        }
                    }
                }
                if linked {
                    lemma_wave_from_linked(hs@.headers, record_name);
                    let more = wave_from(hs@.headers[record_name], record_name);
                    assert forall|t: int| 0 <= t < next_wave@.len() implies hs@.headers.dom().contains(
                        (#[trigger] next_wave@[t]).1,
                    ) && hs@.headers[next_wave@[t].1].ptrs().contains(next_wave@[t].0) by {
                        if t < next_before.len() {
                            assert(next_wave@[t] == next_before[t]);
                        } else {
                            assert(next_wave@[t] == more[t - next_before.len()]);
                        }
                    }
                }
            }
        }
        i += 1;
    }
    assert(wave@.take(wave.len() as int) =~= wave@);
    Ok(next_wave)
}

/// Witnesses that never moved further in two steps never moved further in
/// both together; and in no step they stay where they are.
pub proof fn lemma_never_further_trans(
    a: Map<crypto::Hash, WitnessView>,
    b: Map<crypto::Hash, WitnessView>,
    c: Map<crypto::Hash, WitnessView>,
)
    requires
        never_further(a, b),
        never_further(b, c),
    ensures
        never_further(a, c),
        never_further(a, a),
{
    assert forall|name: crypto::Hash|
        !(#[trigger] witness_of(a, name)).closer_than(witness_of(c, name)) by {
        assert(!witness_of(a, name).closer_than(witness_of(b, name)));
        assert(!witness_of(b, name).closer_than(witness_of(c, name)));
    }
}

/// Signatures that were kept in two steps were kept in both together.
pub proof fn lemma_signatures_kept_trans(
    a: Map<crypto::Hash, WitnessView>,
    b: Map<crypto::Hash, WitnessView>,
    c: Map<crypto::Hash, WitnessView>,
)
    requires
        signatures_kept(a, b),
        signatures_kept(b, c),
    ensures
        signatures_kept(a, c),
{
    assert forall|name: crypto::Hash| (#[trigger] witness_of(c, name)) is Signature implies
        witness_of(a, name) == witness_of(c, name) by {
        assert(witness_of(b, name) == witness_of(c, name));
    }
}

/// A wave that fails on one of its first `upto` entries leaves the
/// witnesses as they are after those entries.
proof fn lemma_wave_reach_stops(
    headers: Map<crypto::Hash, RecordHeaderView>,
    witnesses: Map<crypto::Hash, WitnessView>,
    wave: Seq<(crypto::Hash, crypto::Hash)>,
    distance: u64,
    upto: int,
)
    requires
        0 <= upto <= wave.len(),
        wave_step(headers, witnesses, wave.take(upto), distance) is None,
    ensures
        wave_reach(headers, witnesses, wave, distance) == wave_reach(
            headers,
            witnesses,
            wave.take(upto),
            distance,
        ),
    decreases wave.len() - upto,
{
    if upto < wave.len() {
        let shorter = wave.drop_last();
        assert(shorter.take(upto) =~= wave.take(upto));
        lemma_wave_step_fails(headers, witnesses, shorter, distance, upto);
        lemma_wave_reach_stops(headers, witnesses, shorter, distance, upto);
    } else {
        assert(wave.take(upto) =~= wave);
    }
}

/// A wave that fails on one of its first `upto` entries fails as a whole.
proof fn lemma_wave_step_fails(
    headers: Map<crypto::Hash, RecordHeaderView>,
    witnesses: Map<crypto::Hash, WitnessView>,
    wave: Seq<(crypto::Hash, crypto::Hash)>,
    distance: u64,
    upto: int,
)
    requires
        0 <= upto <= wave.len(),
        wave_step(headers, witnesses, wave.take(upto), distance) is None,
    ensures
        wave_step(headers, witnesses, wave, distance) is None,
    decreases wave.len() - upto,
{
    if upto < wave.len() {
        assert(wave.take(upto + 1).drop_last() =~= wave.take(upto));
        lemma_wave_step_fails(headers, witnesses, wave, distance, upto + 1);
    } else {
        assert(wave.take(upto) =~= wave);
    }
}

/// Runs the waves of witness propagation from `wave` on, the first at
/// `distance`, until a wave leaves nothing to follow.
///
/// Witnesses only move closer to a signature, whatever is returned.
pub fn propagate_waves(
    hs: &RecordHeaderStorage,
    ws: &mut RecordWitnessStorage,
    wave: Vec<(crypto::Hash, crypto::Hash)>,
    distance: u64,
) -> (result: Result<(), DCServerError>)
    ensures
        final(ws)@ == waves_reach(hs@.headers, old(ws)@, wave@, distance),
        never_further(old(ws)@, final(ws)@),
        signatures_kept(old(ws)@, final(ws)@),
        wave_linked(hs@.headers, wave@) && pointers_linked(hs@.headers, old(ws)@)
            ==> pointers_linked(hs@.headers, final(ws)@),
        distance >= 1 && wave_close(old(ws)@, wave@, distance as int) && pointers_descend(
            old(ws)@,
        ) ==> pointers_descend(final(ws)@),
        match result {
            Ok(_) => waves(hs@.headers, old(ws)@, wave@, distance) == Some(final(ws)@),
            Err(e) => waves(hs@.headers, old(ws)@, wave@, distance) is None && (e is Other
                ==> distance_runs_out(hs@.headers, old(ws)@, wave@, distance)),
        },
{
    let mut curr_wave = wave;
    let mut dist_from_new_sig: u64 = distance;
    let ghost linked = wave_linked(hs@.headers, wave@) && pointers_linked(hs@.headers, ws@);
    let ghost descending = distance >= 1 && wave_close(ws@, wave@, distance as int)
        && pointers_descend(ws@);
    proof {
        lemma_never_further_trans(ws@, ws@, ws@);
    }
    while curr_wave.len() > 0
        invariant
            never_further(old(ws)@, ws@),
            signatures_kept(old(ws)@, ws@),
            waves_reach(hs@.headers, ws@, curr_wave@, dist_from_new_sig) == waves_reach(
                hs@.headers,
                old(ws)@,
                wave@,
                distance,
            ),
            descending == (distance >= 1 && wave_close(old(ws)@, wave@, distance as int)
                && pointers_descend(old(ws)@)),
            descending ==> dist_from_new_sig >= 1 && pointers_descend(ws@) && wave_close(
                ws@,
                curr_wave@,
                dist_from_new_sig as int,
            ),
            linked == (wave_linked(hs@.headers, wave@) && pointers_linked(
                hs@.headers,
                old(ws)@,
            )),
            linked ==> wave_linked(hs@.headers, curr_wave@) && pointers_linked(hs@.headers, ws@),
            waves(hs@.headers, ws@, curr_wave@, dist_from_new_sig) == waves(
                hs@.headers,
                old(ws)@,
                wave@,
                distance,
            ),
            distance_runs_out(hs@.headers, ws@, curr_wave@, dist_from_new_sig)
                ==> distance_runs_out(hs@.headers, old(ws)@, wave@, distance),
        decreases u64::MAX - dist_from_new_sig,
    {
        let ghost before = ws@;
        let outcome = propagate_wave(hs, ws, &curr_wave, dist_from_new_sig);
        proof {
            lemma_never_further_trans(old(ws)@, before, ws@);
            lemma_signatures_kept_trans(old(ws)@, before, ws@);
        }
        let next_wave = match outcome {
            Ok(next) => next,
            Err(e) => {
                return Err(e);
            },
        };
        if next_wave.len() == 0 {
            return Ok(());
        }
        if dist_from_new_sig == u64::MAX {
            return Err(DCServerError::Other("distance out of range".to_string()));
        }
        curr_wave = next_wave;
        dist_from_new_sig += 1;
    }
    Ok(())
}

/// Whether the waves from `wave` on go on until the distance has run
/// through its range.
pub open spec fn distance_runs_out(
    headers: Map<crypto::Hash, RecordHeaderView>,
    witnesses: Map<crypto::Hash, WitnessView>,
    wave: Seq<(crypto::Hash, crypto::Hash)>,
    distance: u64,
) -> bool
    decreases u64::MAX - distance,
{
    if wave.len() == 0 {
        false
    } else {
        match wave_step(headers, witnesses, wave, distance) {
            None => false,
            Some((reached, next)) => if next.len() == 0 {
                false
            } else if distance == u64::MAX {
                true
            } else {
                distance_runs_out(headers, reached, next, (distance + 1) as u64)
            },
        }
    }
}

/// Propagates a new signature on `base_record_name` to its ancestors: wave
/// by wave against the back-pointers, each record is offered a pointer to
/// the descendant it was reached through, with its distance to the signed
/// record.
///
/// Witnesses only move closer to a signature, whatever is returned.
pub fn update_ancestor_witnesses(
    base_record_name: &crypto::Hash,
    hs: &RecordHeaderStorage,
    ws: &mut RecordWitnessStorage,
) -> (result: Result<(), DCServerError>)
    ensures
        final(ws)@ == reached_from(hs@.headers, old(ws)@, *base_record_name),
        never_further(old(ws)@, final(ws)@),
        signatures_kept(old(ws)@, final(ws)@),
        pointers_linked(hs@.headers, old(ws)@) ==> pointers_linked(hs@.headers, final(ws)@),
        pointers_descend(old(ws)@) && witness_of(old(ws)@, *base_record_name) is Signature
            ==> pointers_descend(final(ws)@),
        match result {
            Ok(_) => propagated(hs@.headers, old(ws)@, *base_record_name) == Some(final(ws)@),
            Err(_) => propagated(hs@.headers, old(ws)@, *base_record_name) is None,
        },
{
    let base_record_header = match hs.get(base_record_name) {
        Some(header) => header,
        None => {
            proof {
                lemma_never_further_trans(ws@, ws@, ws@);
            }
            return Err(DCServerError::MissingStorage("missing header".to_string()));
        },
    };
    let mut curr_wave: Vec<(crypto::Hash, crypto::Hash)> = Vec::new();
    extend_wave(&mut curr_wave, &base_record_header, base_record_name);
    proof {
        let first = wave_from(hs@.headers[*base_record_name], *base_record_name);
        assert(curr_wave@ =~= first);
        lemma_wave_from_linked(hs@.headers, *base_record_name);
        assert forall|i: int| 0 <= i < first.len() implies (#[trigger] first[i]).1
            == *base_record_name by {}
    }
    propagate_waves(hs, ws, curr_wave, 1)
}

/// Completes `RW.Sign` once the writer's signature was checked and the
/// record name was signed by the server.
///
/// Where both are in order, the writer's signature becomes the record's
/// witness and is propagated to the record's ancestors, and the reply
/// carries the server's signature. Otherwise the reply is `Failed` and the
/// witnesses stay as they are.
pub fn sign_reply(
    record_name: crypto::Hash,
    signature: Signature,
    good: bool,
    ack: Option<Signature>,
    hs: &RecordHeaderStorage,
    ws: &mut RecordWitnessStorage,
) -> (resp: Response)
    ensures
        never_further(old(ws)@, final(ws)@),
        pointers_linked(hs@.headers, old(ws)@) ==> pointers_linked(hs@.headers, final(ws)@),
        pointers_descend(old(ws)@) ==> pointers_descend(final(ws)@),
        signatures_kept(spec_signed(old(ws)@, record_name, signature@), final(ws)@)
            || final(ws)@ == old(ws)@,
        good && ack is Some ==> {
            &&& resp@ == ResponseView::WriteSign((record_name, ack->Some_0@))
            &&& witness_of(final(ws)@, record_name) is Signature
            &&& final(ws)@ == reached_from(
                hs@.headers,
                spec_signed(old(ws)@, record_name, signature@),
                record_name,
            )
            &&& propagated(hs@.headers, spec_signed(old(ws)@, record_name, signature@), record_name)
                matches Some(w) ==> final(ws)@ == w
        },
        !(good && ack is Some) ==> resp@ == ResponseView::Failed && final(ws)@ == old(ws)@,
{
    proof {
        lemma_never_further_trans(ws@, ws@, ws@);
    }
    if !good {
        return Response::Failed;
    }
    match ack {
        Some(server_signature) => {
            let ghost sig = signature@;
            ws.update_record_witness(&record_name, &RecordWitness::Signature(signature));
            let ghost marked = ws@;
            assert(marked == spec_signed(old(ws)@, record_name, sig));
            assert(witness_of(marked, record_name) is Signature);
            proof {
                if pointers_descend(old(ws)@) {
                    assert forall|n: crypto::Hash| #[trigger] steps_closer(marked, n) by {
                        assert(steps_closer(old(ws)@, n));
                        match witness_of(marked, n) {
                            WitnessView::NextRecordPtr(next, _) => {
                                assert(!witness_of(old(ws)@, next).closer_than(
                                    witness_of(marked, next),
                                ));
                            },
                            _ => {},
                        }
                    }
                }
                if pointers_linked(hs@.headers, old(ws)@) {
                    assert forall|n: crypto::Hash|
                        pointer_ok(hs@.headers, #[trigger] witness_of(marked, n), n) by {
                        if n != record_name {
                            assert(witness_of(marked, n) == witness_of(old(ws)@, n));
                        } else {
                            assert(pointer_ok(hs@.headers, witness_of(old(ws)@, n), n));
                        }
                    }
                }
            }
            let _ = update_ancestor_witnesses(&record_name, hs, ws);
            proof {
                lemma_never_further_trans(old(ws)@, marked, ws@);
                assert(!witness_of(marked, record_name).closer_than(witness_of(ws@, record_name)));
            }
            Response::WriteSign((record_name, server_signature))
        },
        None => Response::Failed,
    }
}

/// The witnesses after the writer's signature on `record_name` was stored.
/// A signature wins over whatever was stored before.
pub open spec fn spec_signed(
    witnesses: Map<crypto::Hash, WitnessView>,
    record_name: crypto::Hash,
    signature: Seq<u8>,
) -> Map<crypto::Hash, WitnessView> {
    witnesses.insert(
        record_name,
        witness_of(witnesses, record_name).closer(WitnessView::Signature(signature)),
    )
}

/// Answers `RW.Sign`: checks the writer's signature over the record name,
/// stores it as the record's witness, propagates it to the ancestors, and
/// countersigns the record name.
pub fn handle_sign(
    record_name: crypto::Hash,
    signature: Signature,
    ctx: &DCContext,
    store: &mut CapsuleStore,
    signing_key: &PrivateKey,
) -> (resp: Response)
    ensures
        resp@ is WriteSign || resp@ is Failed,
        !ecdsa_accepts(signature@, record_name, ctx.writer_pk@) ==> resp@ is Failed,
        resp@ is Failed ==> final(store)@ == old(store)@,
        resp@ matches ResponseView::WriteSign(ack) ==> {
            &&& ack.0 == record_name
            &&& signed_by(ack.1, record_name, signing_key@)
            &&& ecdsa_accepts(signature@, record_name, ctx.writer_pk@)
            &&& witness_of(final(store)@.witnesses, record_name) is Signature
            &&& final(store)@.witnesses == reached_from(
                old(store)@.index.headers,
                spec_signed(old(store)@.witnesses, record_name, signature@),
                record_name,
            )
            &&& propagated(
                old(store)@.index.headers,
                spec_signed(old(store)@.witnesses, record_name, signature@),
                record_name,
            ) matches Some(w) ==> final(store)@.witnesses == w
        },
        final(store)@.bodies == old(store)@.bodies,
        final(store)@.index == old(store)@.index,
        never_further(old(store)@.witnesses, final(store)@.witnesses),
        pointers_descend(old(store)@.witnesses) ==> pointers_descend(final(store)@.witnesses),
        witnesses_sound(old(store)@, ctx.writer_pk@) ==> witnesses_sound(
            final(store)@,
            ctx.writer_pk@,
        ),
{
    let good = verify_signature(&signature, &record_name, &ctx.writer_pk);
    proof {
        if good && witnesses_sound(store@, ctx.writer_pk@) {
            lemma_signed_keeps(
                store@.index.headers,
                store@.witnesses,
                record_name,
                signature@,
                ctx.writer_pk@,
            );
        }
    }
    let ghost signed_view = spec_signed(store@.witnesses, record_name, signature@);
    let ack = if good {
        sign(&record_name, signing_key)
    } else {
        None
    };
    let resp = sign_reply(record_name, signature, good, ack, &store.hs, &mut store.ws);
    proof {
        if witnesses_sound(old(store)@, ctx.writer_pk@) {
            assert(store@.index == old(store)@.index);
            assert(store@.bodies == old(store)@.bodies);
            assert(store@.content_addressed());
            assert(pointers_linked(store@.index.headers, store@.witnesses));
            if store@.witnesses != old(store)@.witnesses {
                assert(good);
                assert(signatures_good(signed_view, ctx.writer_pk@));
                lemma_kept_signatures_good(signed_view, store@.witnesses, ctx.writer_pk@);
            }
            assert(signatures_good(store@.witnesses, ctx.writer_pk@));
        }
    }
    resp
}

/// What a walk from a record up to its nearest witness finds.
pub struct ProofWalk {
    /// The headers passed, the record's own first.
    pub chain: Seq<RecordHeaderView>,
    /// The signed record at which the walk ended, with its signature.
    pub signature: Option<(crypto::Hash, Seq<u8>)>,
    /// Whether the walk ended at a signature or at a name that the client
    /// has proven before.
    pub complete: bool,
}

/// The walk from `cur` over at most `fuel` records.
///
/// The walk ends without a result at a record whose header is not stored
/// or that has no witness. It ends with a complete proof at a record that
/// the client has proven before, or that carries a signature. From a record
/// with a pointer to a descendant it goes on at the descendant.
pub open spec fn proof_walk(
    headers: Map<crypto::Hash, RecordHeaderView>,
    witnesses: Map<crypto::Hash, WitnessView>,
    cached: Set<crypto::Hash>,
    cur: crypto::Hash,
    fuel: nat,
) -> ProofWalk
    decreases fuel,
{
    if fuel == 0 || !headers.dom().contains(cur) {
        ProofWalk { chain: Seq::empty(), signature: None, complete: false }
    } else if cached.contains(cur) {
        ProofWalk { chain: seq![headers[cur]], signature: None, complete: true }
    } else {
        match witness_of(witnesses, cur) {
            WitnessView::Signature(s) => ProofWalk {
                chain: seq![headers[cur]],
                signature: Some((cur, s)),
                complete: true,
            },
            WitnessView::NextRecordPtr(next, _) => {
                let rest = proof_walk(headers, witnesses, cached, next, (fuel - 1) as nat);
                ProofWalk {
                    chain: seq![headers[cur]] + rest.chain,
                    signature: rest.signature,
                    complete: rest.complete,
                }
            },
            WitnessView::Unknown => ProofWalk {
                chain: seq![headers[cur]],
                signature: None,
                complete: false,
            },
        }
    }
}

/// The names of a run of headers.
pub open spec fn header_names(chain: Seq<RecordHeaderView>) -> Seq<crypto::Hash> {
    chain.map_values(|h: RecordHeaderView| spec_hash_record_header(h))
}

/// Names every header of `chain`.
pub fn name_headers(chain: &Vec<RecordHeader>) -> (names: Vec<crypto::Hash>)
    ensures
        names@ == header_names(chain@.map_values(|h: RecordHeader| h@)),
{
    let ghost views = chain@.map_values(|h: RecordHeader| h@);
    let mut names: Vec<crypto::Hash> = Vec::new();
    let mut i: usize = 0;
    while i < chain.len()
        invariant
            i <= chain.len(),
            views == chain@.map_values(|h: RecordHeader| h@),
            names@ == header_names(views).take(i as int),
        decreases chain.len() - i,
    {
        names.push(hash_record_header(&chain[i]));
        assert(header_names(views).take(i as int + 1) =~= header_names(views).take(i as int).push(
            header_names(views)[i as int],
        ));
        i += 1;
    }
    assert(header_names(views).take(chain.len() as int) =~= header_names(views));
    names
}

/// Answers `RW.Proof`: builds the chain of headers from the record up to
/// its nearest witness, as far as the server can.
///
/// The walk passes at most as many records as are stored. Where the proof
/// is complete, the names of its headers are added to the server's copy of
/// the client's cache of proven names; otherwise that cache stays as it is.
pub fn best_effort_proof(
    record_name: &crypto::Hash,
    hs: &RecordHeaderStorage,
    ws: &RecordWitnessStorage,
    client_proven_hash_cache: &mut ProvenCache,
) -> (proof: BestEffortProof)
    ensures
        proof@.chain == proof_walk(
            hs@.headers,
            ws@,
            old(client_proven_hash_cache)@,
            *record_name,
            hs@.headers.dom().len(),
        ).chain,
        proof@.signature == proof_walk(
            hs@.headers,
            ws@,
            old(client_proven_hash_cache)@,
            *record_name,
            hs@.headers.dom().len(),
        ).signature,
        if proof_walk(
            hs@.headers,
            ws@,
            old(client_proven_hash_cache)@,
            *record_name,
            hs@.headers.dom().len(),
        ).complete {
            final(client_proven_hash_cache)@.subset_of(
                old(client_proven_hash_cache)@.union(header_names(proof@.chain).to_set()),
            )
        } else {
            final(client_proven_hash_cache)@ == old(client_proven_hash_cache)@
        },
{
    let ghost headers = hs@.headers;
    let ghost cached = client_proven_hash_cache@;
    let ghost whole = proof_walk(headers, ws@, cached, *record_name, hs@.headers.dom().len());
    let mut chain: Vec<RecordHeader> = Vec::new();
    let mut signature: Option<(crypto::Hash, Signature)> = None;
    let mut complete = false;
    let mut done = false;
    let mut curr = *record_name;
    let fuel = hs.len();
    let mut steps: usize = 0;
    assert(chain@.map_values(|h: RecordHeader| h@) =~= Seq::<RecordHeaderView>::empty());
    while !done && steps < fuel
        invariant
            steps <= fuel,
            fuel == hs@.headers.dom().len(),
            headers == hs@.headers,
            cached == client_proven_hash_cache@,
            whole == proof_walk(headers, ws@, cached, *record_name, hs@.headers.dom().len()),
            !done ==> signature is None && !complete,
            ({
                let rest = if done {
                    ProofWalk {
                        chain: Seq::empty(),
                        signature: match signature {
                            Some((h, s)) => Some((h, s@)),
                            None => None,
                        },
                        complete: complete,
                    }
                } else {
                    proof_walk(headers, ws@, cached, curr, (fuel - steps) as nat)
                };
                &&& whole.chain == chain@.map_values(|h: RecordHeader| h@) + rest.chain
                &&& whole.signature == rest.signature
                &&& whole.complete == rest.complete
            }),
        decreases (if done { 0int } else { 1int }), fuel - steps,
    {
        let ghost views_before = chain@.map_values(|h: RecordHeader| h@);
        match hs.get(&curr) {
            None => {
                done = true;
            },
            Some(curr_header) => {
                let ghost header_view = curr_header@;
                chain.push(curr_header);
                assert(chain@.map_values(|h: RecordHeader| h@) =~= views_before.push(header_view));
                if client_proven_hash_cache.contains(&curr) {
                    complete = true;
                    done = true;
                    assert(views_before + seq![header_view] =~= views_before.push(header_view));
                } else {
                    match ws.get(&curr) {
                        RecordWitness::Signature(s) => {
                            signature = Some((curr, s));
                            complete = true;
                            done = true;
                            assert(views_before + seq![header_view] =~= views_before.push(
                                header_view,
                            ));
                        },
                        RecordWitness::NextRecordPtr(next, _) => {
                            proof {
                                let rest = proof_walk(
                                    headers,
                                    ws@,
                                    cached,
                                    next,
                                    (fuel - steps - 1) as nat,
                                );
                                assert(views_before + (seq![header_view] + rest.chain)
                                    =~= views_before.push(header_view) + rest.chain);
                            }
                            curr = next;
                            steps += 1;
                        },
                        RecordWitness::Unknown => {
                            done = true;
                            assert(views_before + seq![header_view] =~= views_before.push(
                                header_view,
                            ));
                        },
                    }
                }
            },
        }
    }
    proof {
        assert(chain@.map_values(|h: RecordHeader| h@) + Seq::<RecordHeaderView>::empty()
            =~= chain@.map_values(|h: RecordHeader| h@));
    }
    if complete {
        let names = name_headers(&chain);
        client_proven_hash_cache.add_all(&names);
    }
    BestEffortProof { chain, signature }
}

/// Answers one request of a session and moves the session on.
///
/// `Manage` requests are answered in any state, and `Init` binds the
/// session to a DataCapsule. `RW` requests are answered against the capsule
/// that the session is bound to; without one the reply is `Failed` and
/// nothing changes. `Subscribe` requests are reserved and get `Failed`.
pub fn request_to_response(
    server_ctx: &mut ServerContext,
    ctx: &mut Option<DCContext>,
    req: Request,
) -> (resp: Response)
    ensures
        final(server_ctx).server_name == old(server_ctx).server_name,
        final(server_ctx).pk == old(server_ctx).pk,
        old(server_ctx).db@.bound() ==> final(server_ctx).db@.bound(),
        countersigned(req, resp@, old(server_ctx).pk@),
        match req {
            Request::Manage(ManageRequest::Create(dc)) => {
                &&& *final(ctx) == *old(ctx)
                &&& resp@ is ManageCreate || resp@ is Failed
                &&& !capsule_bound(dc@) ==> resp@ is Failed
                &&& resp@ is ManageCreate ==> capsule_bound(dc@) && final(server_ctx).db@
                    == old(server_ctx).db@.create(spec_dc_name(dc@), dc@)
                &&& resp@ is Failed ==> final(server_ctx).db@ == old(server_ctx).db@
            },
            Request::Manage(ManageRequest::Read(dc)) => {
                &&& *final(ctx) == *old(ctx)
                &&& final(server_ctx).db@ == old(server_ctx).db@
                &&& resp@ == if old(server_ctx).db@.metadata.dom().contains(dc) {
                    ResponseView::ManageRead(old(server_ctx).db@.metadata[dc])
                } else {
                    ResponseView::Failed
                }
            },
            Request::Init(dc_name) => {
                let ms = old(server_ctx).db@.metadata;
                &&& final(server_ctx).db@ == old(server_ctx).db@
                &&& ms.dom().contains(dc_name) ==> resp@ == ResponseView::Init && (*final(ctx)
                    matches Some(c) && c.dc_name == dc_name && c.writer_pk@
                    == ms[dc_name].writer_pub_key && c.client_proven_hash_cache@ == Set::<
                    crypto::Hash,
                >::empty())
                &&& !ms.dom().contains(dc_name) ==> resp@ == ResponseView::Failed && *final(ctx)
                    == *old(ctx)
            },
            Request::Subscribe(_) => {
                &&& resp@ == ResponseView::Failed
                &&& *final(ctx) == *old(ctx)
                &&& final(server_ctx).db@ == old(server_ctx).db@
            },
            Request::RW(rw) => match *old(ctx) {
                None => {
                    &&& resp@ == ResponseView::Failed
                    &&& *final(ctx) is None
                    &&& final(server_ctx).db@ == old(server_ctx).db@
                },
                Some(before) => {
                    let was = old(server_ctx).db@.capsule(before.dc_name);
                    let now = final(server_ctx).db@.capsule(before.dc_name);
                    &&& final(server_ctx).db@ == old(server_ctx).db@.with_capsule(
                        before.dc_name,
                        now,
                    )
                    &&& *final(ctx) matches Some(after) && after.dc_name == before.dc_name
                        && after.writer_pk == before.writer_pk && rw_answered(
                        rw,
                        before.writer_pk@,
                        before.client_proven_hash_cache@,
                        after.client_proven_hash_cache@,
                        was,
                        now,
                        resp@,
                    )
                },
            },
        },
{
    match req {
        Request::Manage(ManageRequest::Create(dc)) => handle_create(
            dc,
            &mut server_ctx.db,
            &server_ctx.pk,
        ),
        Request::Manage(ManageRequest::Read(dc)) => handle_read_meta(dc, &server_ctx.db.metadata),
        Request::Init(dc_name) => handle_init(dc_name, &server_ctx.db.metadata, ctx),
        Request::Subscribe(_) => Response::Failed,
        Request::RW(rw) => match ctx {
            None => Response::Failed,
            Some(session) => {
                let dc_name = session.dc_name;
                let mut store = server_ctx.db.take_capsule(&dc_name);
                let resp = match rw {
                    RWRequest::Write(record) => handle_write(&record, &mut store),
                    RWRequest::Sign(hash, signature) => handle_sign(
                        hash,
                        signature,
                        session,
                        &mut store,
                        &server_ctx.pk,
                    ),
                    RWRequest::Read(hash) => handle_read(&hash, &store.bs, &store.hs),
                    RWRequest::Proof(hash) => Response::ReadProof(
                        best_effort_proof(
                            &hash,
                            &store.hs,
                            &store.ws,
                            &mut session.client_proven_hash_cache,
                        ),
                    ),
                };
                server_ctx.db.put_capsule(&dc_name, store);
                proof {
                    assert(server_ctx.db@.capsules =~= old(server_ctx).db@.capsules.insert(
                        dc_name,
                        server_ctx.db@.capsule(dc_name),
                    ));
                }
                resp
            },
        },
    }
}

/// What the answer to an `RW` request says of the capsule before and after
/// it, of the cache of proven names, and of the reply.
pub open spec fn rw_answered(
    rw: RWRequest,
    writer_pk: Seq<u8>,
    cached_before: Set<crypto::Hash>,
    cached_after: Set<crypto::Hash>,
    was: CapsuleView,
    now: CapsuleView,
    resp: ResponseView,
) -> bool {
    match rw {
        RWRequest::Write(record) => {
            &&& cached_after == cached_before
            &&& CapsuleView::accepts(record@) ==> resp == ResponseView::WriteData(
                spec_hash_record_header(record@.header),
            ) && now == was.write(record@)
            &&& !CapsuleView::accepts(record@) ==> resp == ResponseView::Failed && now == was
            &&& was.index.consistent() && was.index.takes(
                spec_hash_record_header(record@.header),
                record@.header,
            ) ==> now.index.consistent()
        },
        RWRequest::Sign(record_name, signature) => {
            &&& cached_after == cached_before
            &&& resp is WriteSign || resp is Failed
            &&& !ecdsa_accepts(signature@, record_name, writer_pk) ==> resp is Failed
            &&& resp is Failed ==> now == was
            &&& resp matches ResponseView::WriteSign(ack) ==> {
                &&& ack.0 == record_name
                &&& ecdsa_accepts(signature@, record_name, writer_pk)
                &&& witness_of(now.witnesses, record_name) is Signature
                &&& now.witnesses == reached_from(
                    was.index.headers,
                    spec_signed(was.witnesses, record_name, signature@),
                    record_name,
                )
                &&& propagated(
                    was.index.headers,
                    spec_signed(was.witnesses, record_name, signature@),
                    record_name,
                ) matches Some(w) ==> now.witnesses == w
            }
            &&& now.bodies == was.bodies
            &&& now.index == was.index
            &&& never_further(was.witnesses, now.witnesses)
            &&& pointers_descend(was.witnesses) ==> pointers_descend(now.witnesses)
        },
        RWRequest::Read(record_name) => {
            &&& cached_after == cached_before
            &&& now == was
            &&& resp == match was.read(record_name) {
                Some(record) => ResponseView::ReadRecord(record),
                None => ResponseView::Failed,
            }
        },
        RWRequest::Proof(record_name) => {
            &&& now == was
            &&& resp matches ResponseView::ReadProof(proof) && proof_answered(
                was,
                cached_before,
                cached_after,
                record_name,
                proof,
            )
        },
    }
}

/// What the answer to `RW.Proof` says: the proof is what the walk over at
/// most as many records as are stored finds, and the cache of proven names
/// gained nothing but the names of a complete proof.
pub open spec fn proof_answered(
    was: CapsuleView,
    cached_before: Set<crypto::Hash>,
    cached_after: Set<crypto::Hash>,
    record_name: crypto::Hash,
    proof: BestEffortProofView,
) -> bool {
    let walk = proof_walk(
        was.index.headers,
        was.witnesses,
        cached_before,
        record_name,
        was.index.headers.dom().len(),
    );
    &&& proof.chain == walk.chain
    &&& proof.signature == walk.signature
    &&& if walk.complete {
        cached_after.subset_of(cached_before.union(header_names(proof.chain).to_set()))
    } else {
        cached_after == cached_before
    }
}

/// Answers a request on a connection that was opened to manage
/// DataCapsules. `None` for a request of another kind, which ends the
/// connection.
pub fn process_manager_request(req: Request, db: &mut Db, signing_key: &PrivateKey) -> (resp: Option<
    Response,
>)
    ensures
        old(db)@.bound() ==> final(db)@.bound(),
        resp matches Some(r) ==> countersigned(req, r@, signing_key@),
        match req {
            Request::Manage(ManageRequest::Create(dc)) => {
                &&& resp matches Some(r) && (r@ is ManageCreate || r@ is Failed)
                &&& !capsule_bound(dc@) ==> resp->Some_0@ is Failed
                &&& resp->Some_0@ is ManageCreate ==> capsule_bound(dc@) && final(db)@
                    == old(db)@.create(spec_dc_name(dc@), dc@)
                &&& resp->Some_0@ is Failed ==> final(db)@ == old(db)@
            },
            Request::Manage(ManageRequest::Read(dc)) => {
                &&& final(db)@ == old(db)@
                &&& resp matches Some(r) && r@ == if old(db)@.metadata.dom().contains(dc) {
                    ResponseView::ManageRead(old(db)@.metadata[dc])
                } else {
                    ResponseView::Failed
                }
            },
            _ => resp is None && final(db)@ == old(db)@,
        },
{
    match req {
        Request::Manage(ManageRequest::Create(dc)) => Some(handle_create(dc, db, signing_key)),
        Request::Manage(ManageRequest::Read(dc)) => Some(handle_read_meta(dc, &db.metadata)),
        _ => None,
    }
}

/// Whether a signature in the answer `resp` to `req` is the server's own,
/// made with `signing_key` over the name that the request is about: the
/// name of the capsule to create, or of the record whose signature is to
/// be stored.
pub open spec fn countersigned(req: Request, resp: ResponseView, signing_key: Seq<u8>) -> bool {
    match resp {
        ResponseView::ManageCreate(ack) => req matches Request::Manage(ManageRequest::Create(dc))
            && signed_by(ack, spec_dc_name(dc@), signing_key),
        ResponseView::WriteSign(ack) => req matches Request::RW(RWRequest::Sign(name, _)) && ack.0
            == name && signed_by(ack.1, name, signing_key),
        _ => true,
    }
}

/// Answers a request on a connection that was opened to read and write
/// the records of one DataCapsule. `None` for a request of another kind,
/// which ends the connection.
pub fn process_writer_request(
    req: Request,
    ctx: &mut DCContext,
    store: &mut CapsuleStore,
    signing_key: &PrivateKey,
) -> (resp: Option<Response>)
    ensures
        final(ctx).dc_name == old(ctx).dc_name,
        final(ctx).writer_pk == old(ctx).writer_pk,
        resp matches Some(r) ==> countersigned(req, r@, signing_key@),
        match req {
            Request::RW(rw) => resp matches Some(r) && rw_answered(
                rw,
                old(ctx).writer_pk@,
                old(ctx).client_proven_hash_cache@,
                final(ctx).client_proven_hash_cache@,
                old(store)@,
                final(store)@,
                r@,
            ),
            _ => {
                &&& resp is None
                &&& final(store)@ == old(store)@
                &&& final(ctx).client_proven_hash_cache@ == old(ctx).client_proven_hash_cache@
            },
        },
{
    match req {
        Request::RW(RWRequest::Write(record)) => Some(handle_write(&record, store)),
        Request::RW(RWRequest::Sign(hash, signature)) => Some(
            handle_sign(hash, signature, ctx, store, signing_key),
        ),
        Request::RW(RWRequest::Read(hash)) => Some(handle_read(&hash, &store.bs, &store.hs)),
        Request::RW(RWRequest::Proof(hash)) => Some(
            Response::ReadProof(
                best_effort_proof(&hash, &store.hs, &store.ws, &mut ctx.client_proven_hash_cache),
            ),
        ),
        _ => None,
    }
}

} // verus!
