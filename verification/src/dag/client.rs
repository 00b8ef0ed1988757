//! The client side of the record store: building requests, and checking
//! every answer against what was asked and against the writer's key.

use vstd::prelude::*;
use crate::crypto;
use crate::crypto::{
    PrivateKey, PublicKey, Signature, SymmetricKey, decrypt, ecdsa_accepts, encrypt, hash_data,
    hash_dc_metadata, hash_eq, hash_record_header, serialize_pubkey, sign, signed_by,
    spec_decrypt,
    spec_hash_data, spec_hash_dc_metadata, spec_hash_record_header, verify_signature,
};
use crate::dag::request::{
    ManageRequest, RWRequest, Request, Response, SubscribeRequest,
};
use crate::dc_repr::{
    BestEffortProof, BestEffortProofView, Metadata, MetadataView, Record, RecordBackPtr,
    RecordHeader, RecordHeaderView, RecordView,
};
use crate::errors::DCClientError;
use crate::proven::ProvenCache;
use crate::seqs::reversed;

verus! {

/// What has to be checked on the answer to a request.
#[derive(Debug, Clone, Copy)]
pub enum ClientSync {
    /// The name of the capsule that the server must have signed.
    ManageCreate(crypto::Hash),
    /// The name that the returned metadata must hash to.
    ManageRead(crypto::Hash),
    Init,
    Write,
    /// The record name that the server must have signed.
    Sign(crypto::Hash),
    /// The name that the returned record must have.
    Read(crypto::Hash),
    /// The record that the returned proof must prove.
    Proof(crypto::Hash),
    SubscribeFresh,
}

/// A checked answer.
#[derive(Debug)]
pub enum ClientResponse {
    ManageCreate,
    ManageRead(Metadata),
    Init,
    Write,
    Sign,
    /// The plaintext of the record and its back-pointers.
    Read(Vec<u8>, Vec<RecordBackPtr>),
    /// Whether the proof was accepted.
    Proof(bool),
    SubscribeFresh(Vec<crypto::Hash>),
    /// A hash or a signature in the answer did not match.
    CryptographyFail,
    /// The server failed, or answered something else than was asked.
    ServerFail,
}

/// What a `ClientResponse` holds, as mathematical values.
pub enum ClientResponseView {
    ManageCreate,
    ManageRead(MetadataView),
    Init,
    Write,
    Sign,
    Read(Seq<u8>, Seq<RecordBackPtr>),
    Proof(bool),
    SubscribeFresh(Seq<crypto::Hash>),
    CryptographyFail,
    ServerFail,
}

impl View for ClientResponse {
    type V = ClientResponseView;

    open spec fn view(&self) -> ClientResponseView {
        match self {
            ClientResponse::ManageCreate => ClientResponseView::ManageCreate,
            ClientResponse::ManageRead(dc) => ClientResponseView::ManageRead(dc@),
            ClientResponse::Init => ClientResponseView::Init,
            ClientResponse::Write => ClientResponseView::Write,
            ClientResponse::Sign => ClientResponseView::Sign,
            ClientResponse::Read(body, ptrs) => ClientResponseView::Read(body@, ptrs@),
            ClientResponse::Proof(ok) => ClientResponseView::Proof(*ok),
            ClientResponse::SubscribeFresh(names) => ClientResponseView::SubscribeFresh(names@),
            ClientResponse::CryptographyFail => ClientResponseView::CryptographyFail,
            ClientResponse::ServerFail => ClientResponseView::ServerFail,
        }
    }
}

/// Whether header `j >= 1` of `chain` points back to the header before it.
pub open spec fn linked_at(chain: Seq<RecordHeaderView>, j: int) -> bool {
    chain[j].ptrs().contains(spec_hash_record_header(chain[j - 1]))
}

/// Whether `chain` leads to a known name at header `k`: the name of that
/// header is known, and every header from the second up to that one points
/// back to the header before it. At the first header nothing but its name
/// is asked for.
pub open spec fn leads_to_known(
    chain: Seq<RecordHeaderView>,
    known: Set<crypto::Hash>,
    k: int,
) -> bool {
    &&& 0 <= k < chain.len()
    &&& known.contains(spec_hash_record_header(chain[k]))
    &&& forall|j: int| 1 <= j <= k ==> linked_at(chain, j)
}

/// Whether `chain` proves `target` from the names in `known`: its first
/// header is that of `target`, and it leads to a known name at that header
/// or a later one.
pub open spec fn chain_proves(
    target: crypto::Hash,
    chain: Seq<RecordHeaderView>,
    known: Set<crypto::Hash>,
) -> bool {
    &&& chain.len() > 0
    &&& spec_hash_record_header(chain[0]) == target
    &&& exists|k: int| leads_to_known(chain, known, k)
}

/// The first header at which `chain` leads to a known name.
pub open spec fn first_known(chain: Seq<RecordHeaderView>, known: Set<crypto::Hash>) -> int {
    choose|k: int|
        leads_to_known(chain, known, k) && forall|j: int|
            0 <= j < k ==> !known.contains(spec_hash_record_header(#[trigger] chain[j]))
}

/// Whether the signature of a proof, if it has one, is the writer's.
pub open spec fn signature_good(proof: BestEffortProofView, writer_key: Seq<u8>) -> bool {
    match proof.signature {
        Some((name, sig)) => ecdsa_accepts(sig, name, writer_key),
        None => true,
    }
}

/// The names that count as known while a proof is checked: those proven
/// before, and the one that the proof's signature is over.
pub open spec fn known_names(proof: BestEffortProofView, cached: Set<crypto::Hash>) -> Set<
    crypto::Hash,
> {
    match proof.signature {
        Some((name, _)) => cached.insert(name),
        None => cached,
    }
}

/// Whether a client accepts `proof` for `target`.
///
/// A signature in the proof must be the writer's. Then either the signature
/// is over `target` itself, or the chain of the proof starts at the header
/// of `target` and leads, each header pointing back to the one before, to a
/// header whose name the signature is over or that was proven before. A
/// target that was proven before is accepted on its header alone.
pub open spec fn proof_accepted(
    target: crypto::Hash,
    proof: BestEffortProofView,
    writer_key: Seq<u8>,
    cached: Set<crypto::Hash>,
) -> bool {
    &&& signature_good(proof, writer_key)
    &&& (proof.signature matches Some((name, _)) && name == target) || chain_proves(
        target,
        proof.chain,
        known_names(proof, cached),
    )
}

/// The names that checking `proof` proves. A proof that is not accepted
/// proves nothing. An accepted one proves the name under its signature,
/// and, unless that is the target itself, the names of the headers of its
/// chain up to the first known one.
pub open spec fn newly_proven(
    target: crypto::Hash,
    proof: BestEffortProofView,
    writer_key: Seq<u8>,
    cached: Set<crypto::Hash>,
) -> Set<crypto::Hash> {
    let signed: Set<crypto::Hash> = match proof.signature {
        Some((name, _)) => set![name],
        None => Set::empty(),
    };
    let known = known_names(proof, cached);
    if !proof_accepted(target, proof, writer_key, cached) {
        Set::empty()
    } else if proof.signature matches Some((name, _)) && name == target {
        signed
    } else {
        signed.union(
            Set::new(
                |n: crypto::Hash|
                    exists|j: int|
                        0 <= j <= first_known(proof.chain, known) && n == spec_hash_record_header(
                            #[trigger] proof.chain[j],
                        ),
            ),
        )
    }
}

/// Whether `ptrs` holds a pointer to `name`.
fn points_to(ptrs: &Vec<RecordBackPtr>, name: &crypto::Hash) -> (found: bool)
    ensures
        found == ptrs@.map_values(|p: RecordBackPtr| p.ptr).contains(*name),
{
    let ghost targets = ptrs@.map_values(|p: RecordBackPtr| p.ptr);
    let mut i: usize = 0;
    while i < ptrs.len()
        invariant
            i <= ptrs.len(),
            targets == ptrs@.map_values(|p: RecordBackPtr| p.ptr),
            forall|j: int| 0 <= j < i ==> targets[j] != *name,
        decreases ptrs.len() - i,
    {
        if hash_eq(&ptrs[i].ptr, name) {
            assert(targets[i as int] == *name);
            return true;
        }
        i += 1;
    }
    false
}

/// Checks a best-effort proof for `record_name_to_prove` against the
/// writer's key and the names proven before, and remembers what it proves.
/// A proof that is not accepted leaves the names held as they are.
pub fn verify_proof(
    record_name_to_prove: &crypto::Hash,
    best_effort_proof: &BestEffortProof,
    writer_public_key: &PublicKey,
    proven_hash_cache: &mut ProvenCache,
) -> (result: Result<(), DCClientError>)
    ensures
        result is Ok <==> proof_accepted(
            *record_name_to_prove,
            best_effort_proof@,
            writer_public_key@,
            old(proven_hash_cache)@,
        ),
        result matches Err(e) ==> e is BadProof,
        final(proven_hash_cache)@.subset_of(
            old(proven_hash_cache)@.union(
                newly_proven(
                    *record_name_to_prove,
                    best_effort_proof@,
                    writer_public_key@,
                    old(proven_hash_cache)@,
                ),
            ),
        ),
        newly_proven(
            *record_name_to_prove,
            best_effort_proof@,
            writer_public_key@,
            old(proven_hash_cache)@,
        ) == Set::<crypto::Hash>::empty() ==> final(proven_hash_cache)@ == old(
            proven_hash_cache,
        )@,
        result is Err ==> final(proven_hash_cache)@ == old(proven_hash_cache)@,
{
    let ghost target = *record_name_to_prove;
    let ghost proof = best_effort_proof@;
    let ghost cached = proven_hash_cache@;
    let ghost known = known_names(proof, cached);
    let ghost chain = proof.chain;
    let signed: Option<crypto::Hash> = match &best_effort_proof.signature {
        Some(pair) => {
            if !verify_signature(&pair.1, &pair.0, writer_public_key) {
                return Err(DCClientError::BadProof("bad signature".to_string()));
            }
            if hash_eq(&pair.0, record_name_to_prove) {
                proven_hash_cache.add(pair.0);
                assert(newly_proven(target, proof, writer_public_key@, cached).contains(pair.0));
                return Ok(());
            }
            Some(pair.0)
        },
        None => None,
    };
    assert(signed_matches(signed, proof, writer_public_key@, target));
    let mut accepted_at: Option<usize> = None;
    if best_effort_proof.chain.len() > 0 {
        let first_name = hash_record_header(&best_effort_proof.chain[0]);
        assert(chain[0] == best_effort_proof.chain@[0]@);
        if hash_eq(&first_name, record_name_to_prove) {
            let mut prev_record_name = first_name;
            let mut i: usize = 1;
            if proven_hash_cache.contains(&first_name) {
                accepted_at = Some(0);
            }
            while i < best_effort_proof.chain.len() && accepted_at.is_none()
                invariant
                    1 <= i <= best_effort_proof.chain.len(),
                    chain == best_effort_proof@.chain,
                    known == known_names(best_effort_proof@, cached),
                    cached == proven_hash_cache@,
                    cached == old(proven_hash_cache)@,
                    signed_matches(
                        signed,
                        best_effort_proof@,
                        writer_public_key@,
                        *record_name_to_prove,
                    ),
                    accepted_at is None ==> prev_record_name == spec_hash_record_header(
                        chain[i - 1],
                    ),
                    accepted_at is None ==> forall|j: int| 1 <= j < i ==> linked_at(chain, j),
                    accepted_at is None ==> forall|j: int|
                        0 <= j < i ==> !known.contains(
                            spec_hash_record_header(#[trigger] chain[j]),
                        ),
                    accepted_at matches Some(k) ==> leads_to_known(chain, known, k as int)
                        && forall|j: int|
                        0 <= j < k ==> !known.contains(
                            spec_hash_record_header(#[trigger] chain[j]),
                        ),
                decreases best_effort_proof.chain.len() - i, (if accepted_at is None { 1int } else { 0int }),
            {
                let curr_record_header = &best_effort_proof.chain[i];
                assert(chain[i as int] == curr_record_header@);
                let curr_record_name = hash_record_header(curr_record_header);
                let is_signed = match signed {
                    Some(name) => hash_eq(&name, &curr_record_name),
                    None => false,
                };
                if !points_to(&curr_record_header.record_backptrs, &prev_record_name) {
                    proof {
                        assert(!linked_at(chain, i as int));
                        assert forall|k: int| !leads_to_known(chain, known, k) by {
                            if leads_to_known(chain, known, k) {
                                if k >= i {
                                    assert(linked_at(chain, i as int));
                                } else {
                                    assert(!known.contains(spec_hash_record_header(chain[k])));
                                }
                            }
                        }
                    }
                    return Err(DCClientError::BadProof("bad proof".to_string()));
                } else if is_signed || proven_hash_cache.contains(&curr_record_name) {
                    accepted_at = Some(i);
                } else {
                    prev_record_name = curr_record_name;
                    i += 1;
                }
            }
            if accepted_at.is_none() {
                proof {
                    assert forall|k: int| !leads_to_known(chain, known, k) by {
                        if leads_to_known(chain, known, k) {
                            assert(!known.contains(spec_hash_record_header(chain[k])));
                        }
                    }
                }
            }
        }
    }
    match accepted_at {
        Some(k) => {
            let ghost fk = first_known(chain, known);
            proof {
                assert(leads_to_known(chain, known, k as int));
                assert(fk == k) by {
                    if fk < k {
                        assert(!known.contains(spec_hash_record_header(chain[fk])));
                    } else if fk > k {
                        assert(!known.contains(spec_hash_record_header(chain[k as int])));
                    }
                }
            }
            let ghost gained = newly_proven(target, proof, writer_public_key@, cached);
            match signed {
                Some(name) => {
                    proven_hash_cache.add(name);
                    assert(gained.contains(name));
                },
                None => {},
            }
            assert(gained.contains(spec_hash_record_header(chain[0])));
            let mut j: usize = 0;
            while j <= k
                invariant
                    j <= k + 1,
                    k < best_effort_proof.chain.len(),
                    chain == best_effort_proof@.chain,
                    fk == k,
                    proven_hash_cache@.subset_of(cached.union(gained)),
                    forall|t: int|
                        0 <= t <= k ==> gained.contains(
                            spec_hash_record_header(#[trigger] chain[t]),
                        ),
                decreases k + 1 - j,
            {
                assert(chain[j as int] == best_effort_proof.chain@[j as int]@);
                proven_hash_cache.add(hash_record_header(&best_effort_proof.chain[j]));
                j += 1;
            }
            Ok(())
        },
        None => Err(DCClientError::BadProof("bad proof".to_string())),
    }
}

/// How the name that a check goes on with relates to the proof: it is the
/// name under the proof's signature, which the writer's key accepts and
/// which is not over the target itself.
pub open spec fn signed_matches(
    signed: Option<crypto::Hash>,
    proof: BestEffortProofView,
    writer_key: Seq<u8>,
    target: crypto::Hash,
) -> bool {
    match proof.signature {
        Some((name, sig)) => signed == Some(name) && ecdsa_accepts(sig, name, writer_key) && name
            != target,
        None => signed is None,
    }
}

/// What a client keeps for its sessions: its keys and the names that it
/// has proven.
pub struct ClientConnection {
    pub name: String,
    pub signing_key: PrivateKey,
    pub signing_pub_key: PublicKey,
    pub encryption_key: SymmetricKey,
    pub proven_hash_cache: ProvenCache,
}

/// Whether every pair of `commits` carries a signature of `key` over its
/// hash.
pub open spec fn all_signed(commits: Seq<(crypto::Hash, Signature)>, key: Seq<u8>) -> bool {
    forall|i: int|
        0 <= i < commits.len() ==> ecdsa_accepts(
            (#[trigger] commits[i]).1@,
            commits[i].0,
            key,
        )
}

/// What a client makes of the answer `resp` to a request with the check
/// `sync`.
///
/// A signature is checked against the server's key, returned metadata and
/// records against the name that was asked for, a record's body against the
/// body pointer of its header, and a proof against the writer's key and the
/// names proven before. An answer of another kind than the request is a
/// failure of the server.
pub open spec fn checked_answer(
    resp: Response,
    sync: ClientSync,
    server_key: Seq<u8>,
    writer_key: Seq<u8>,
    encryption_key: SymmetricKey,
    cached: Set<crypto::Hash>,
) -> ClientResponseView {
    match (resp, sync) {
        (Response::ManageCreate(sig), ClientSync::ManageCreate(hash)) => if ecdsa_accepts(
            sig@,
            hash,
            server_key,
        ) {
            ClientResponseView::ManageCreate
        } else {
            ClientResponseView::CryptographyFail
        },
        (Response::ManageRead(dc), ClientSync::ManageRead(hash)) => if spec_hash_dc_metadata(
            dc@.creator_pub_key,
            dc@.writer_pub_key,
            dc@.description,
        ) == hash {
            ClientResponseView::ManageRead(dc@)
        } else {
            ClientResponseView::CryptographyFail
        },
        (Response::Init, ClientSync::Init) => ClientResponseView::Init,
        (Response::WriteData(_), ClientSync::Write) => ClientResponseView::Write,
        (Response::WriteSign(sig), ClientSync::Sign(hash)) => if ecdsa_accepts(
            sig.1@,
            hash,
            server_key,
        ) {
            ClientResponseView::Sign
        } else {
            ClientResponseView::CryptographyFail
        },
        (Response::ReadRecord(record), ClientSync::Read(hash)) => if spec_hash_record_header(
            record@.header,
        ) == hash && spec_hash_data(record@.body) == record@.header.body_ptr {
            match spec_decrypt(record@.body, encryption_key) {
                Some(plaintext) => ClientResponseView::Read(
                    plaintext,
                    record@.header.record_backptrs,
                ),
                None => ClientResponseView::CryptographyFail,
            }
        } else {
            ClientResponseView::CryptographyFail
        },
        (Response::ReadProof(proof), ClientSync::Proof(hash)) => ClientResponseView::Proof(
            proof_accepted(hash, proof@, writer_key, cached),
        ),
        (Response::SubscribeFresh(commits), ClientSync::SubscribeFresh) => if all_signed(
            commits@,
            writer_key,
        ) {
            ClientResponseView::SubscribeFresh(
                commits@.map_values(|pair: (crypto::Hash, Signature)| pair.0),
            )
        } else {
            ClientResponseView::CryptographyFail
        },
        _ => ClientResponseView::ServerFail,
    }
}

/// Whether the answer `resp` to a request with the check `sync` leaves the
/// names that a client holds as proven as they are: every answer does but
/// `Init` and a proof that proves something.
pub open spec fn keeps_proven(
    resp: Response,
    sync: ClientSync,
    writer_key: Seq<u8>,
    cached: Set<crypto::Hash>,
) -> bool {
    match (resp, sync) {
        (Response::Init, ClientSync::Init) => false,
        (Response::ReadProof(proof), ClientSync::Proof(hash)) => newly_proven(
            hash,
            proof@,
            writer_key,
            cached,
        ) == Set::<crypto::Hash>::empty(),
        _ => true,
    }
}

/// The names that a client may hold as proven after the answer `resp`: none
/// after `Init`, after a proof those it held and those that the proof
/// proves, and else those it held.
pub open spec fn proven_after(
    resp: Response,
    sync: ClientSync,
    writer_key: Seq<u8>,
    cached: Set<crypto::Hash>,
) -> Set<crypto::Hash> {
    match (resp, sync) {
        (Response::Init, ClientSync::Init) => Set::empty(),
        (Response::ReadProof(proof), ClientSync::Proof(hash)) => cached.union(
            newly_proven(hash, proof@, writer_key, cached),
        ),
        _ => cached,
    }
}

/// Checks that every pair of `commits` carries a signature of `key` over
/// its hash, and returns the hashes.
pub fn signed_names(commits: &Vec<(crypto::Hash, Signature)>, key: &PublicKey) -> (names: Option<
    Vec<crypto::Hash>,
>)
    ensures
        match names {
            Some(found) => all_signed(commits@, key@) && found@ == commits@.map_values(
                |pair: (crypto::Hash, Signature)| pair.0,
            ),
            None => !all_signed(commits@, key@),
        },
{
    let ghost all = commits@.map_values(|pair: (crypto::Hash, Signature)| pair.0);
    let mut names: Vec<crypto::Hash> = Vec::new();
    let mut i: usize = 0;
    while i < commits.len()
        invariant
            i <= commits.len(),
            all == commits@.map_values(|pair: (crypto::Hash, Signature)| pair.0),
            names@ == all.take(i as int),
            forall|j: int|
                0 <= j < i ==> ecdsa_accepts((#[trigger] commits@[j]).1@, commits@[j].0, key@),
        decreases commits.len() - i,
    {
        if !verify_signature(&commits[i].1, &commits[i].0, key) {
            assert(!ecdsa_accepts(commits@[i as int].1@, commits@[i as int].0, key@));
            return None;
        }
        names.push(commits[i].0);
        assert(all.take(i as int + 1) =~= all.take(i as int).push(all[i as int]));
        i += 1;
    }
    assert(all.take(commits.len() as int) =~= all);
    Some(names)
}

/// The request to create the DataCapsule of the given creator and writer,
/// with the creator's signature over its name; the check for the answer; and
/// the name.
pub fn create_request(
    creator_pub_key: Vec<u8>,
    writer_pub_key: Vec<u8>,
    description: &str,
    signature: Signature,
) -> (out: (Request, ClientSync, crypto::Hash))
    ensures
        out.2 == spec_hash_dc_metadata(creator_pub_key@, writer_pub_key@, description@),
        out.1 == ClientSync::ManageCreate(out.2),
        out.0 matches Request::Manage(ManageRequest::Create(dc)) && dc@ == (MetadataView {
            creator_pub_key: creator_pub_key@,
            writer_pub_key: writer_pub_key@,
            description: description@,
            signature: signature@,
        }),
{
    let hash = hash_dc_metadata(
        creator_pub_key.as_slice(),
        writer_pub_key.as_slice(),
        description,
    );
    let dc = Metadata {
        creator_pub_key,
        writer_pub_key,
        description: description.to_string(),
        signature,
    };
    (Request::Manage(ManageRequest::Create(dc)), ClientSync::ManageCreate(hash), hash)
}

/// The request to write a record with the given encrypted body and
/// back-pointers; the check for the answer; and the record's name.
pub fn record_request(encrypted_data: Vec<u8>, ptrs: Vec<RecordBackPtr>) -> (out: (
    Request,
    ClientSync,
    crypto::Hash,
))
    ensures
        out.1 == ClientSync::Write,
        out.0 matches Request::RW(RWRequest::Write(record)) && record@ == (RecordView {
            body: encrypted_data@,
            header: RecordHeaderView {
                body_ptr: spec_hash_data(encrypted_data@),
                record_backptrs: ptrs@,
            },
        }) && out.2 == spec_hash_record_header(record@.header),
{
    let body_ptr = hash_data(encrypted_data.as_slice());
    let header = RecordHeader { body_ptr, record_backptrs: ptrs };
    let record_name = hash_record_header(&header);
    (
        Request::RW(RWRequest::Write(Record { body: encrypted_data, header })),
        ClientSync::Write,
        record_name,
    )
}

/// The request to store the writer's signature over the name of a record,
/// and the check for the answer.
pub fn signed_request(record: &crypto::Hash, signature: Signature) -> (out: (Request, ClientSync))
    ensures
        out.1 == ClientSync::Sign(*record),
        out.0 matches Request::RW(RWRequest::Sign(h, s)) && h == *record && s@ == signature@,
{
    (Request::RW(RWRequest::Sign(*record, signature)), ClientSync::Sign(*record))
}

impl ClientConnection {
    /// A client with no proven names.
    pub fn new(
        name: &str,
        signing_key: PrivateKey,
        signing_pub_key: PublicKey,
        encryption_key: SymmetricKey,
    ) -> (client: Self)
        ensures
            client.name@ == name@,
            client.signing_key == signing_key,
            client.signing_pub_key == signing_pub_key,
            client.encryption_key == encryption_key,
            client.proven_hash_cache@ == Set::<crypto::Hash>::empty(),
    {
        ClientConnection {
            name: name.to_string(),
            signing_key,
            signing_pub_key,
            encryption_key,
            proven_hash_cache: ProvenCache::new(),
        }
    }

    /// Asks the server to create a DataCapsule of this client for the
    /// given writer. Returns the request, the check for its answer and the
    /// capsule's name; `None` where the name could not be signed.
    pub fn manage_create_request(&self, writer_pub_key: &PublicKey, description: &str) -> (out:
        Option<(Request, ClientSync, crypto::Hash)>)
        ensures
            out matches Some((req, sync, hash)) ==> {
                &&& hash == spec_hash_dc_metadata(
                    self.signing_pub_key@,
                    writer_pub_key@,
                    description@,
                )
                &&& sync == ClientSync::ManageCreate(hash)
                &&& req matches Request::Manage(ManageRequest::Create(dc))
                &&& dc@.creator_pub_key == self.signing_pub_key@
                &&& dc@.writer_pub_key == writer_pub_key@
                &&& dc@.description == description@
                &&& signed_by(dc@.signature, hash, self.signing_key@)
            },
    {
        let creator_pub_key = serialize_pubkey(&self.signing_pub_key);
        let writer_pub_key = serialize_pubkey(writer_pub_key);
        let hash = hash_dc_metadata(
            creator_pub_key.as_slice(),
            writer_pub_key.as_slice(),
            description,
        );
        match sign(&hash, &self.signing_key) {
            Some(signature) => Some(
                create_request(creator_pub_key, writer_pub_key, description, signature),
            ),
            None => None,
        }
    }

    /// Asks for the metadata of the capsule named `dc`.
    pub fn manage_read_request(&self, dc: &crypto::Hash) -> (out: (Request, ClientSync))
        ensures
            out.0 matches Request::Manage(ManageRequest::Read(h)) && h == *dc,
            out.1 == ClientSync::ManageRead(*dc),
    {
        (Request::Manage(ManageRequest::Read(*dc)), ClientSync::ManageRead(*dc))
    }

    /// Asks to bind the session to the capsule named `dc`.
    pub fn init_request(&self, dc: &crypto::Hash) -> (out: (Request, ClientSync))
        ensures
            out.0 matches Request::Init(h) && h == *dc,
            out.1 == ClientSync::Init,
    {
        (Request::Init(*dc), ClientSync::Init)
    }

    /// Encrypts `data` and asks to write it as a record with the given
    /// back-pointers. Returns the request, the check for its answer and the
    /// record's name; `None` where the data could not be encrypted.
    pub fn write_request(&self, data: &[u8], ptrs: Vec<RecordBackPtr>) -> (out: Option<
        (Request, ClientSync, crypto::Hash),
    >)
        ensures
            out matches Some((req, sync, record_name)) ==> {
                &&& sync == ClientSync::Write
                &&& req matches Request::RW(RWRequest::Write(record))
                &&& spec_decrypt(record@.body, self.encryption_key) == Some(data@)
                &&& record@.header.body_ptr == spec_hash_data(record@.body)
                &&& record@.header.record_backptrs == ptrs@
                &&& record_name == spec_hash_record_header(record@.header)
            },
            data@.len() > crypto::MAX_CIPHER_INPUT ==> out is None,
    {
        match encrypt(data, &self.encryption_key) {
            Some(encrypted_data) => Some(record_request(encrypted_data, ptrs)),
            None => None,
        }
    }

    /// Signs the name of a record and asks the server to store the
    /// signature. `None` where the name could not be signed.
    pub fn sign_request(&self, record: &crypto::Hash) -> (out: Option<(Request, ClientSync)>)
        ensures
            out matches Some((req, sync)) ==> {
                &&& sync == ClientSync::Sign(*record)
                &&& req matches Request::RW(RWRequest::Sign(h, s))
                &&& h == *record
                &&& signed_by(s@, *record, self.signing_key@)
            },
    {
        match sign(record, &self.signing_key) {
            Some(signature) => Some(signed_request(record, signature)),
            None => None,
        }
    }

    /// Asks for the record named `record`.
    pub fn read_request(&self, record: &crypto::Hash) -> (out: (Request, ClientSync))
        ensures
            out.0 matches Request::RW(RWRequest::Read(h)) && h == *record,
            out.1 == ClientSync::Read(*record),
    {
        (Request::RW(RWRequest::Read(*record)), ClientSync::Read(*record))
    }

    /// Asks for a proof of the record named `record`.
    pub fn proof_request(&self, record: &crypto::Hash) -> (out: (Request, ClientSync))
        ensures
            out.0 matches Request::RW(RWRequest::Proof(h)) && h == *record,
            out.1 == ClientSync::Proof(*record),
    {
        (Request::RW(RWRequest::Proof(*record)), ClientSync::Proof(*record))
    }

    /// Asks for the freshest signed records.
    pub fn freshness_request(&self) -> (out: (Request, ClientSync))
        ensures
            out.0 matches Request::Subscribe(SubscribeRequest::FreshestSignedRecords),
            out.1 == ClientSync::SubscribeFresh,
    {
        (Request::Subscribe(SubscribeRequest::FreshestSignedRecords), ClientSync::SubscribeFresh)
    }

    /// Checks one answer against the check that was kept for its request.
    pub fn response_to_client_response(
        &mut self,
        dc_server_key: &PublicKey,
        resp: Response,
        sync: &ClientSync,
    ) -> (out: ClientResponse)
        ensures
            out@ == checked_answer(
                resp,
                *sync,
                dc_server_key@,
                old(self).signing_pub_key@,
                old(self).encryption_key,
                old(self).proven_hash_cache@,
            ),
            final(self).proven_hash_cache@.subset_of(
                proven_after(
                    resp,
                    *sync,
                    old(self).signing_pub_key@,
                    old(self).proven_hash_cache@,
                ),
            ),
            keeps_proven(
                resp,
                *sync,
                old(self).signing_pub_key@,
                old(self).proven_hash_cache@,
            ) ==> final(self).proven_hash_cache@ == old(self).proven_hash_cache@,
            resp is Init && *sync is Init ==> final(self).proven_hash_cache@ == Set::<
                crypto::Hash,
            >::empty(),
            final(self).name == old(self).name,
            final(self).signing_key == old(self).signing_key,
            final(self).signing_pub_key == old(self).signing_pub_key,
            final(self).encryption_key == old(self).encryption_key,
    {
        match (resp, sync) {
            (Response::ManageCreate(sig), ClientSync::ManageCreate(hash)) => {
                if verify_signature(&sig, hash, dc_server_key) {
                    ClientResponse::ManageCreate
                } else {
                    ClientResponse::CryptographyFail
                }
            },
            (Response::ManageRead(dc), ClientSync::ManageRead(hash)) => {
                let name = hash_dc_metadata(
                    dc.creator_pub_key.as_slice(),
                    dc.writer_pub_key.as_slice(),
                    dc.description.as_str(),
                );
                if hash_eq(&name, hash) {
                    ClientResponse::ManageRead(dc)
                } else {
                    ClientResponse::CryptographyFail
                }
            },
            (Response::Init, ClientSync::Init) => {
                self.proven_hash_cache = ProvenCache::new();
                ClientResponse::Init
            },
            (Response::WriteData(_), ClientSync::Write) => ClientResponse::Write,
            (Response::WriteSign(sig), ClientSync::Sign(hash)) => {
                if verify_signature(&sig.1, hash, dc_server_key) {
                    ClientResponse::Sign
                } else {
                    ClientResponse::CryptographyFail
                }
            },
            (Response::ReadRecord(record), ClientSync::Read(hash)) => {
                let header_name = hash_record_header(&record.header);
                let body_name = hash_data(record.body.as_slice());
                let header_match = hash_eq(&header_name, hash);
                let body_match = hash_eq(&body_name, &record.header.body_ptr);
                if header_match && body_match {
                    match decrypt(record.body.as_slice(), &self.encryption_key) {
                        Some(plaintext) => ClientResponse::Read(
                            plaintext,
                            record.header.record_backptrs,
                        ),
                        None => ClientResponse::CryptographyFail,
                    }
                } else {
                    ClientResponse::CryptographyFail
                }
            },
            (Response::ReadProof(proof), ClientSync::Proof(hash)) => {
                let success = verify_proof(
                    hash,
                    &proof,
                    &self.signing_pub_key,
                    &mut self.proven_hash_cache,
                ).is_ok();
                ClientResponse::Proof(success)
            },
            (Response::SubscribeFresh(commits), ClientSync::SubscribeFresh) => {
                match signed_names(&commits, &self.signing_pub_key) {
                    Some(names) => ClientResponse::SubscribeFresh(names),
                    None => ClientResponse::CryptographyFail,
                }
            },
            _ => ClientResponse::ServerFail,
        }
    }

    /// Checks a batch of answers, each against the check that was kept for
    /// the request in its place.
    pub fn responses_to_client_responses(
        &mut self,
        dc_server_key: &PublicKey,
        resps: Vec<Response>,
        syncs: &[ClientSync],
    ) -> (out: Vec<ClientResponse>)
        requires
            resps@.len() == syncs@.len(),
        ensures
            out@.len() == syncs@.len(),
            final(self).name == old(self).name,
            final(self).signing_key == old(self).signing_key,
            final(self).signing_pub_key == old(self).signing_pub_key,
            final(self).encryption_key == old(self).encryption_key,
            forall|i: int|
                0 <= i < out@.len() ==> batch_answer(
                    resps@[i],
                    syncs@[i],
                    dc_server_key@,
                    old(self).signing_pub_key@,
                    old(self).encryption_key,
                    (#[trigger] out@[i])@,
                ),
            exists|held: Seq<Set<crypto::Hash>>|
                batch_checked(
                    resps@,
                    syncs@,
                    dc_server_key@,
                    old(self).signing_pub_key@,
                    old(self).encryption_key,
                    held,
                    out@.map_values(|r: ClientResponse| r@),
                ) && held[0] == old(self).proven_hash_cache@
                    && held.last() == final(self).proven_hash_cache@,
    {
        let ghost all = resps@;
        let ghost writer_key = self.signing_pub_key@;
        let ghost encryption_key = self.encryption_key;
        let ghost mut held: Seq<Set<crypto::Hash>> = seq![self.proven_hash_cache@];
        let mut resps = reversed(resps);
        let mut out: Vec<ClientResponse> = Vec::new();
        let n = syncs.len();
        assert(resps@ =~= all.reverse().take(n as int));
        let mut i: usize = 0;
        while i < n
            invariant
                i <= n,
                n == syncs@.len(),
                all.len() == n,
                resps@ == all.reverse().take(n - i),
                out@.len() == i,
                writer_key == old(self).signing_pub_key@,
                encryption_key == old(self).encryption_key,
                held.len() == i + 1,
                held[0] == old(self).proven_hash_cache@,
                held[i as int] == self.proven_hash_cache@,
                forall|j: int|
                    0 <= j < i ==> answer_checked(
                        all[j],
                        syncs@[j],
                        dc_server_key@,
                        writer_key,
                        encryption_key,
                        held[j],
                        held[j + 1],
                        (#[trigger] out@[j])@,
                    ),
                self.name == old(self).name,
                self.signing_key == old(self).signing_key,
                self.signing_pub_key == old(self).signing_pub_key,
                self.encryption_key == old(self).encryption_key,
                forall|j: int|
                    0 <= j < i ==> batch_answer(
                        all[j],
                        syncs@[j],
                        dc_server_key@,
                        old(self).signing_pub_key@,
                        old(self).encryption_key,
                        (#[trigger] out@[j])@,
                    ),
            decreases n - i,
        {
            let resp = resps.pop().unwrap();
            assert(resp == all[i as int]) by {
                assert(all.reverse()[n - i - 1] == all[i as int]);
            }
            assert(resps@ =~= all.reverse().take(n - i - 1));
            let ghost before = held;
            let checked = self.response_to_client_response(dc_server_key, resp, &syncs[i]);
            out.push(checked);
            proof {
                held = before.push(self.proven_hash_cache@);
                assert forall|j: int| 0 <= j < i + 1 implies answer_checked(
                    all[j],
                    syncs@[j],
                    dc_server_key@,
                    writer_key,
                    encryption_key,
                    held[j],
                    held[j + 1],
                    (#[trigger] out@[j])@,
                ) by {
                    assert(held[j] == before[j]);
                    if j < i {
                        assert(held[j + 1] == before[j + 1]);
                    }
                }
            }
            i += 1;
        }
        proof {
            let views = out@.map_values(|r: ClientResponse| r@);
            assert forall|j: int| 0 <= j < all.len() implies answer_checked(
                all[j],
                syncs@[j],
                dc_server_key@,
                writer_key,
                encryption_key,
                held[j],
                held[j + 1],
                #[trigger] views[j],
            ) by {
                assert(views[j] == out@[j]@);
            }
            assert(held.last() == held[n as int]);
            assert(batch_checked(
                all,
                syncs@,
                dc_server_key@,
                writer_key,
                encryption_key,
                held,
                views,
            ));
        }
        out
    }
}

/// Whether `out` is the checked answer to `resp`, of a client that held
/// `before` as proven when it checked it and holds `after` since: the
/// answer is checked against `before`, and `after` holds no name but those
/// of `before` and those that the answer proves, and is `before` where the
/// answer proves nothing.
pub open spec fn answer_checked(
    resp: Response,
    sync: ClientSync,
    server_key: Seq<u8>,
    writer_key: Seq<u8>,
    encryption_key: SymmetricKey,
    before: Set<crypto::Hash>,
    after: Set<crypto::Hash>,
    out: ClientResponseView,
) -> bool {
    &&& out == checked_answer(resp, sync, server_key, writer_key, encryption_key, before)
    &&& after.subset_of(proven_after(resp, sync, writer_key, before))
    &&& keeps_proven(resp, sync, writer_key, before) ==> after == before
}

/// Whether `out` holds the checked answers to a batch, of a client that
/// held `held[i]` as proven when it checked the `i`-th answer, and holds the
/// last of `held` after the batch.
pub open spec fn batch_checked(
    resps: Seq<Response>,
    syncs: Seq<ClientSync>,
    server_key: Seq<u8>,
    writer_key: Seq<u8>,
    encryption_key: SymmetricKey,
    held: Seq<Set<crypto::Hash>>,
    out: Seq<ClientResponseView>,
) -> bool {
    &&& held.len() == resps.len() + 1
    &&& out.len() == resps.len()
    &&& syncs.len() == resps.len()
    &&& forall|i: int|
        0 <= i < resps.len() ==> answer_checked(
            resps[i],
            syncs[i],
            server_key,
            writer_key,
            encryption_key,
            held[i],
            held[i + 1],
            #[trigger] out[i],
        )
}

/// What a batch says of the checked answer `out` to `resp`: for a proof,
/// that it tells whether the proof was accepted; for every other answer,
/// exactly what the check of that answer gives.
pub open spec fn batch_answer(
    resp: Response,
    sync: ClientSync,
    server_key: Seq<u8>,
    writer_key: Seq<u8>,
    encryption_key: SymmetricKey,
    out: ClientResponseView,
) -> bool {
    if resp is ReadProof && sync is Proof {
        out is Proof
    } else {
        out == checked_answer(resp, sync, server_key, writer_key, encryption_key, Set::empty())
    }
}

/// A pointer to a predecessor beside the previous record.
pub type AdditionalRecordPtr = RecordBackPtr;

/// The header of a record that follows `prev_record_ptr` and points to
/// `additional_record_ptrs` besides.
pub open spec fn spec_chained_header(
    body: Seq<u8>,
    prev_record_ptr: crypto::Hash,
    additional_record_ptrs: Seq<RecordBackPtr>,
) -> RecordHeaderView {
    RecordHeaderView {
        body_ptr: spec_hash_data(body),
        record_backptrs: seq![RecordBackPtr { ptr: prev_record_ptr, offset: Some(1u64) }]
            + additional_record_ptrs,
    }
}

/// Chains a record onto the previous one: returns the name of the record
/// with the given encrypted body whose first back-pointer is the previous
/// record, one hop away, followed by the additional pointers.
pub fn write_record(
    dc_name: &crypto::Hash,
    encrypted_record_body: &Vec<u8>,
    prev_record_ptr: &crypto::Hash,
    additional_record_ptrs: &Vec<AdditionalRecordPtr>,
) -> (result: Result<crypto::Hash, DCClientError>)
    ensures
        result matches Ok(name) && name == spec_hash_record_header(
            spec_chained_header(encrypted_record_body@, *prev_record_ptr, additional_record_ptrs@),
        ),
{
    let body_ptr = hash_data(encrypted_record_body.as_slice());
    let mut record_backptrs: Vec<RecordBackPtr> = Vec::new();
    record_backptrs.push(RecordBackPtr { ptr: *prev_record_ptr, offset: Some(1) });
    let mut i: usize = 0;
    while i < additional_record_ptrs.len()
        invariant
            i <= additional_record_ptrs.len(),
            record_backptrs@ == seq![RecordBackPtr { ptr: *prev_record_ptr, offset: Some(1u64) }]
                + additional_record_ptrs@.take(i as int),
        decreases additional_record_ptrs.len() - i,
    {
        record_backptrs.push(additional_record_ptrs[i]);
        assert(additional_record_ptrs@.take(i as int + 1) =~= additional_record_ptrs@.take(
            i as int,
        ).push(additional_record_ptrs@[i as int]));
        assert(record_backptrs@ =~= seq![
            RecordBackPtr { ptr: *prev_record_ptr, offset: Some(1u64) },
        ] + additional_record_ptrs@.take(i as int + 1));
        i += 1;
    }
    assert(additional_record_ptrs@.take(additional_record_ptrs.len() as int)
        =~= additional_record_ptrs@);
    let record_header = RecordHeader { body_ptr, record_backptrs };
    Ok(hash_record_header(&record_header))
}

/// Signs the name of a record with the writer's key.
pub fn sign_record(record_ptr: &crypto::Hash, writer_priv_key: &PrivateKey) -> (result: Result<
    Signature,
    DCClientError,
>)
    ensures
        match result {
            Ok(s) => signed_by(s@, *record_ptr, writer_priv_key@),
            Err(e) => e is Other,
        },
{
    match sign(record_ptr, writer_priv_key) {
        Some(signature) => Ok(signature),
        None => Err(DCClientError::Other("could not sign".to_string())),
    }
}

/// Asks for durability acknowledgements of the given records. Servers
/// acknowledge a signature when they store it, so nothing is left to ask.
pub fn request_durability_ack(record_ptrs: &Vec<crypto::Hash>) -> (result: Result<
    (),
    DCClientError,
>)
    ensures
        result is Ok,
{
    Ok(())
}

/// What a writer does over its own connection.
#[derive(Debug)]
pub enum WriterOperation {
    /// Write a record with this body and these back-pointers.
    Write((Vec<u8>, Vec<RecordBackPtr>)),
    /// Sign the record with this name.
    Sign(crypto::Hash),
    /// Read the record with this name.
    Read(crypto::Hash),
    /// Prove the record with this name.
    Prove(crypto::Hash),
}

/// What a writer gets.
#[derive(Debug)]
pub enum WriterResponse {
    /// The name of the written record.
    Write(crypto::Hash),
    /// Whether the server stored the signature.
    Sign(bool),
    /// The plaintext body and the header of the record, if the server has
    /// it.
    Read(Option<(Vec<u8>, RecordHeader)>),
    /// Whether the server returned a proof, which was then accepted.
    Prove(bool),
}

/// The kind of answer that a writer waits for.
#[derive(Debug, Clone, Copy, PartialEq, Eq)]
pub enum WriterSync {
    Write,
    Sign,
    Read,
    Prove,
}

/// The request that a writer sends for `op`, the kind of answer to wait
/// for, and the name of the record that the operation is about. `None`
/// where a name could not be signed.
pub fn writer_request(op: &WriterOperation, writer_signing_key: &PrivateKey) -> (out: Option<
    (Request, WriterSync, crypto::Hash),
>)
    ensures
        match *op {
            WriterOperation::Write((body, ptrs)) => out matches Some((req, sync, name)) && {
                &&& sync == WriterSync::Write
                &&& req matches Request::RW(RWRequest::Write(record))
                &&& record@.body == body@
                &&& record@.header.body_ptr == spec_hash_data(body@)
                &&& record@.header.record_backptrs == ptrs@
                &&& name == spec_hash_record_header(record@.header)
            },
            WriterOperation::Sign(record_name) => out matches Some((req, sync, name)) ==> {
                &&& sync == WriterSync::Sign
                &&& name == record_name
                &&& req matches Request::RW(RWRequest::Sign(h, s))
                &&& h == record_name
                &&& signed_by(s@, record_name, writer_signing_key@)
            },
            WriterOperation::Read(record_name) => out matches Some((req, sync, name)) && {
                &&& sync == WriterSync::Read
                &&& name == record_name
                &&& req matches Request::RW(RWRequest::Read(h))
                &&& h == record_name
            },
            WriterOperation::Prove(record_name) => out matches Some((req, sync, name)) && {
                &&& sync == WriterSync::Prove
                &&& name == record_name
                &&& req matches Request::RW(RWRequest::Proof(h))
                &&& h == record_name
            },
        },
{
    match op {
        WriterOperation::Write(parts) => {
            let body_ptr = hash_data(parts.0.as_slice());
            let header = RecordHeader { body_ptr, record_backptrs: parts.1.clone() };
            let record_name = hash_record_header(&header);
            Some(
                (
                    Request::RW(RWRequest::Write(Record { body: parts.0.clone(), header })),
                    WriterSync::Write,
                    record_name,
                ),
            )
        },
        WriterOperation::Sign(record_name) => {
            match sign(record_name, writer_signing_key) {
                Some(signature) => Some(
                    (
                        Request::RW(RWRequest::Sign(*record_name, signature)),
                        WriterSync::Sign,
                        *record_name,
                    ),
                ),
                None => None,
            }
        },
        WriterOperation::Read(record_name) => Some(
            (Request::RW(RWRequest::Read(*record_name)), WriterSync::Read, *record_name),
        ),
        WriterOperation::Prove(record_name) => Some(
            (Request::RW(RWRequest::Proof(*record_name)), WriterSync::Prove, *record_name),
        ),
    }
}

/// What a writer makes of the answer `resp` to an operation on
/// `record_name`.
///
/// A failed write or signature ends the session; a failed read or proof is
/// passed on. The server's acknowledgement of a signature is checked against
/// the server's key, a record against its name and body pointer, and a
/// proof against the writer's key alone, with nothing proven before.
pub open spec fn spec_writer_response(
    resp: Response,
    sync: WriterSync,
    record_name: crypto::Hash,
    encryption_key: SymmetricKey,
    server_key: Seq<u8>,
    writer_key: Seq<u8>,
) -> Option<WriterResponseView> {
    match (resp, sync) {
        (Response::Failed, WriterSync::Read) => Some(WriterResponseView::Read(None)),
        (Response::Failed, WriterSync::Prove) => Some(WriterResponseView::Prove(false)),
        (Response::WriteData(name), WriterSync::Write) => Some(WriterResponseView::Write(name)),
        (Response::WriteSign(ack), WriterSync::Sign) => if ecdsa_accepts(
            ack.1@,
            ack.0,
            server_key,
        ) {
            Some(WriterResponseView::Sign(true))
        } else {
            None
        },
        (Response::ReadRecord(record), WriterSync::Read) => if spec_hash_record_header(
            record@.header,
        ) == record_name && spec_hash_data(record@.body) == record@.header.body_ptr {
            match spec_decrypt(record@.body, encryption_key) {
                Some(plaintext) => Some(WriterResponseView::Read(Some((plaintext, record@.header)))),
                None => None,
            }
        } else {
            None
        },
        (Response::ReadProof(proof), WriterSync::Prove) => if proof_accepted(
            record_name,
            proof@,
            writer_key,
            Set::empty(),
        ) {
            Some(WriterResponseView::Prove(true))
        } else {
            None
        },
        _ => None,
    }
}

/// What a `WriterResponse` holds, as mathematical values.
pub enum WriterResponseView {
    Write(crypto::Hash),
    Sign(bool),
    Read(Option<(Seq<u8>, RecordHeaderView)>),
    Prove(bool),
}

impl View for WriterResponse {
    type V = WriterResponseView;

    open spec fn view(&self) -> WriterResponseView {
        match self {
            WriterResponse::Write(name) => WriterResponseView::Write(*name),
            WriterResponse::Sign(ok) => WriterResponseView::Sign(*ok),
            WriterResponse::Read(found) => WriterResponseView::Read(
                match found {
                    Some((body, header)) => Some((body@, header@)),
                    None => None,
                },
            ),
            WriterResponse::Prove(ok) => WriterResponseView::Prove(*ok),
        }
    }
}

/// Checks the answer `resp` to a writer's operation on `record_name`.
pub fn writer_response(
    resp: Response,
    sync: WriterSync,
    record_name: &crypto::Hash,
    encryption_key: &SymmetricKey,
    server_public_key: &PublicKey,
    writer_public_key: &PublicKey,
) -> (result: Result<WriterResponse, DCClientError>)
    ensures
        match spec_writer_response(
            resp,
            sync,
            *record_name,
            *encryption_key,
            server_public_key@,
            writer_public_key@,
        ) {
            Some(out) => result matches Ok(r) && r@ == out,
            None => result is Err,
        },
{
    match (resp, sync) {
        (Response::Failed, WriterSync::Read) => Ok(WriterResponse::Read(None)),
        (Response::Failed, WriterSync::Prove) => Ok(WriterResponse::Prove(false)),
        (Response::WriteData(name), WriterSync::Write) => Ok(WriterResponse::Write(name)),
        (Response::WriteSign(ack), WriterSync::Sign) => {
            if verify_signature(&ack.1, &ack.0, server_public_key) {
                Ok(WriterResponse::Sign(true))
            } else {
                Err(DCClientError::BadSignature)
            }
        },
        (Response::ReadRecord(record), WriterSync::Read) => {
            let header_name = hash_record_header(&record.header);
            let body_name = hash_data(record.body.as_slice());
            if hash_eq(&header_name, record_name) && hash_eq(&body_name, &record.header.body_ptr) {
                match decrypt(record.body.as_slice(), encryption_key) {
                    Some(plaintext) => Ok(WriterResponse::Read(Some((plaintext, record.header)))),
                    None => Err(DCClientError::Other("record does not decrypt".to_string())),
                }
            } else {
                Err(DCClientError::MismatchedHash)
            }
        },
        (Response::ReadProof(proof), WriterSync::Prove) => {
            let mut nothing_proven = ProvenCache::new();
            match verify_proof(record_name, &proof, writer_public_key, &mut nothing_proven) {
                Ok(_) => Ok(WriterResponse::Prove(true)),
                Err(e) => Err(e),
            }
        },
        (Response::Failed, _) => Err(DCClientError::ServerError("server failure".to_string())),
        _ => Err(DCClientError::ServerError("mismatched response".to_string())),
    }
}

/// What a manager makes of the answer to its request to create the capsule
/// named `meta_hash`: the name, where the server has signed it.
pub fn manager_create_response(
    resp: Response,
    meta_hash: &crypto::Hash,
    server_pub_key: &PublicKey,
) -> (result: Result<crypto::Hash, DCClientError>)
    ensures
        match resp {
            Response::ManageCreate(s) => if ecdsa_accepts(s@, *meta_hash, server_pub_key@) {
                result == Ok::<crypto::Hash, DCClientError>(*meta_hash)
            } else {
                result matches Err(DCClientError::BadSignature)
            },
            _ => result matches Err(DCClientError::ServerError(_)),
        },
{
    match resp {
        Response::ManageCreate(s) => {
            if verify_signature(&s, meta_hash, server_pub_key) {
                Ok(*meta_hash)
            } else {
                Err(DCClientError::BadSignature)
            }
        },
        Response::Failed => Err(DCClientError::ServerError("server failed".to_string())),
        _ => Err(DCClientError::ServerError("mismatched response".to_string())),
    }
}

/// What a manager makes of the answer to its request to read the capsule
/// named `dc_name`: the metadata, where it hashes to that name.
pub fn manager_read_response(resp: Response, dc_name: &crypto::Hash) -> (result: Result<
    Metadata,
    DCClientError,
>)
    ensures
        match resp {
            Response::ManageRead(dc) => if spec_hash_dc_metadata(
                dc@.creator_pub_key,
                dc@.writer_pub_key,
                dc@.description,
            ) == *dc_name {
                result matches Ok(found) && found@ == dc@
            } else {
                result matches Err(DCClientError::MismatchedHash)
            },
            _ => result matches Err(DCClientError::ServerError(_)),
        },
{
    match resp {
        Response::ManageRead(dc) => {
            let name = hash_dc_metadata(
                dc.creator_pub_key.as_slice(),
                dc.writer_pub_key.as_slice(),
                dc.description.as_str(),
            );
            if hash_eq(&name, dc_name) {
                Ok(dc)
            } else {
                Err(DCClientError::MismatchedHash)
            }
        },
        Response::Failed => Err(DCClientError::ServerError("server failed".to_string())),
        _ => Err(DCClientError::ServerError("mismatched response".to_string())),
    }
}

} // verus!
