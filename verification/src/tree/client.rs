//! The client side of the commit store: building requests, and checking
//! every answer against what was asked, the writer's key and the proof
//! cache.

use vstd::prelude::*;
use crate::crypto;
use crate::crypto::{
    HashNode, PrivateKey, PublicKey, Signature, SymmetricKey, decrypt, ecdsa_accepts, encrypt,
    hash_data, hash_dc_metadata, hash_eq, hash_node, serialize_pubkey, sign, signed_by,
    spec_decrypt,
    spec_hash_data, spec_hash_dc_metadata, verify_signature,
};
use crate::errors::DCClientError;
use crate::merkle::{merkle_tree_root, spec_merkle_tree_root};
use crate::readstate::{ReadState, ReadStateView};
use crate::seqs::reversed;
use crate::tree::request::{
    CreateRequest, InitRequest, ReadRequest, Request, Response, SubscribeRequest, WriteRequest,
    nodes_view, root_view,
};

verus! {

/// Whether the signature of the root of a proof, if it has one, is the
/// writer's.
pub open spec fn root_signed(root: Option<(Seq<u8>, crypto::Hash)>, writer_key: Seq<u8>) -> bool {
    match root {
        Some((sig, hash)) => ecdsa_accepts(sig, hash, writer_key),
        None => true,
    }
}

/// Whether a client with the cache `state` accepts a proof for `target`.
///
/// A root in the proof must carry the writer's signature; it is added to
/// the cache. Then each node must be proven when its turn comes: the cache
/// holds its name, and the node is added. In the end the cache must hold
/// `target`.
pub open spec fn proof_accepted(
    state: ReadStateView,
    target: crypto::Hash,
    root: Option<(Seq<u8>, crypto::Hash)>,
    nodes: Seq<Seq<crypto::Hash>>,
    writer_key: Seq<u8>,
) -> bool {
    &&& root_signed(root, writer_key)
    &&& state.after_root(root).nodes_proven(nodes)
    &&& state.after_proof(root, nodes).contains(target)
}

/// The cache of a client after it has checked a proof: with the proof
/// applied where it was accepted, as before where it was not.
pub open spec fn client_cache_after(
    state: ReadStateView,
    target: crypto::Hash,
    root: Option<(Seq<u8>, crypto::Hash)>,
    nodes: Seq<Seq<crypto::Hash>>,
    writer_key: Seq<u8>,
) -> ReadStateView {
    if proof_accepted(state, target, root, nodes, writer_key) {
        state.after_proof(root, nodes)
    } else {
        state
    }
}

/// Checks a proof for `expected_hash`: the signature of the root, then the
/// name of each node, then that the hash is proven. An accepted proof is
/// applied to the cache; a rejected one leaves the cache as it was.
pub fn verify_proof(
    expected_hash: &crypto::Hash,
    root: &Option<(Signature, crypto::Hash)>,
    nodes: &[HashNode],
    writer_public_key: &PublicKey,
    read_state: &mut ReadState,
) -> (result: Result<(), DCClientError>)
    ensures
        result is Ok <==> proof_accepted(
            old(read_state)@,
            *expected_hash,
            root_view(*root),
            nodes_view(nodes@),
            writer_public_key@,
        ),
        final(read_state)@ == client_cache_after(
            old(read_state)@,
            *expected_hash,
            root_view(*root),
            nodes_view(nodes@),
            writer_public_key@,
        ),
        result matches Err(e) ==> if root_signed(root_view(*root), writer_public_key@) {
            e is BadProof
        } else {
            e is BadSignature
        },
{
    let ghost before = read_state@;
    let ghost all = nodes_view(nodes@);
    let mut scratch = read_state.clone();
    match root {
        Some(s) => {
            if verify_signature(&s.0, &s.1, writer_public_key) {
                scratch.add_signed_hash(&s.1);
            } else {
                return Err(DCClientError::BadSignature);
            }
        },
        None => {},
    }
    let ghost rooted = scratch@;
    assert(rooted == before.after_root(root_view(*root)));
    let mut i: usize = 0;
    assert(all.take(0) =~= Seq::<Seq<crypto::Hash>>::empty());
    while i < nodes.len()
        invariant
            i <= nodes.len(),
            all == nodes_view(nodes@),
            read_state@ == before,
            before == old(read_state)@,
            rooted == before.after_root(root_view(*root)),
            root_signed(root_view(*root), writer_public_key@),
            rooted.nodes_proven(all.take(i as int)),
            scratch@ == rooted.after_nodes(all.take(i as int)),
        decreases nodes.len() - i,
    {
        proof {
            assert(all.take(i as int + 1).drop_last() =~= all.take(i as int));
            assert(all.take(i as int + 1).last() == nodes@[i as int]@);
        }
        let name = hash_node(&nodes[i]);
        if scratch.contains(&name) {
            scratch.add_proven_node(&nodes[i]);
        } else {
            proof {
                if rooted.nodes_proven(all) {
                    lemma_nodes_proven_prefix(rooted, all, i as int + 1);
                }
            }
            return Err(DCClientError::BadProof("node not proven".to_string()));
        }
        i += 1;
    }
    assert(all.take(nodes.len() as int) =~= all);
    if scratch.contains(expected_hash) {
        *read_state = scratch;
        Ok(())
    } else {
        Err(DCClientError::BadProof("hash not proven".to_string()))
    }
}

/// Where all nodes of a proof are proven in their turn, so are the first
/// `upto` of them.
pub proof fn lemma_nodes_proven_prefix(
    state: ReadStateView,
    nodes: Seq<Seq<crypto::Hash>>,
    upto: int,
)
    requires
        0 <= upto <= nodes.len(),
        state.nodes_proven(nodes),
    ensures
        state.nodes_proven(nodes.take(upto)),
    decreases nodes.len() - upto,
{
    if upto < nodes.len() {
        lemma_nodes_proven_prefix(state, nodes, upto + 1);
        assert(nodes.take(upto + 1).drop_last() =~= nodes.take(upto));
    } else {
        assert(nodes.take(upto) =~= nodes);
    }
}

/// What has to be checked on the answer to a request.
#[derive(Debug, Clone, Copy)]
pub enum ClientSync {
    /// The name of the capsule that the server must have signed.
    NewDataCapsule(crypto::Hash),
    /// The name that the returned metadata must hash to.
    ReadMetadata(crypto::Hash),
    Init,
    Write,
    /// The root that the server must have signed.
    Commit(crypto::Hash),
    /// The hash that the returned record must have.
    Read(crypto::Hash),
    /// The record that the returned proof must prove.
    Proof(crypto::Hash),
    FreshestCommits,
    /// The root that the returned records must commit to.
    Records(crypto::Hash),
}

/// A checked answer.
#[derive(Debug)]
pub enum ClientResponse {
    NewDataCapsule,
    ReadMetadata(crate::dc_repr::Metadata),
    Init,
    Write,
    Commit,
    /// The plaintext of the record.
    Read(Vec<u8>),
    /// Whether the proof was accepted.
    Proof(bool),
    FreshestCommits(Vec<crypto::Hash>),
    /// The records of a commit, and the hash it was committed on top of.
    Records(Vec<crypto::Hash>, crypto::Hash),
    /// A hash or a signature in the answer did not match.
    CryptographyFail,
    /// The server failed, or answered something else than was asked.
    ServerFail,
}

/// What a `ClientResponse` holds, as mathematical values.
pub enum ClientResponseView {
    NewDataCapsule,
    ReadMetadata(crate::dc_repr::MetadataView),
    Init,
    Write,
    Commit,
    Read(Seq<u8>),
    Proof(bool),
    FreshestCommits(Seq<crypto::Hash>),
    Records(Seq<crypto::Hash>, crypto::Hash),
    CryptographyFail,
    ServerFail,
}

impl View for ClientResponse {
    type V = ClientResponseView;

    open spec fn view(&self) -> ClientResponseView {
        match self {
            ClientResponse::NewDataCapsule => ClientResponseView::NewDataCapsule,
            ClientResponse::ReadMetadata(dc) => ClientResponseView::ReadMetadata(dc@),
            ClientResponse::Init => ClientResponseView::Init,
            ClientResponse::Write => ClientResponseView::Write,
            ClientResponse::Commit => ClientResponseView::Commit,
            ClientResponse::Read(body) => ClientResponseView::Read(body@),
            ClientResponse::Proof(ok) => ClientResponseView::Proof(*ok),
            ClientResponse::FreshestCommits(names) => ClientResponseView::FreshestCommits(names@),
            ClientResponse::Records(records, additional) => ClientResponseView::Records(
                records@,
                *additional,
            ),
            ClientResponse::CryptographyFail => ClientResponseView::CryptographyFail,
            ClientResponse::ServerFail => ClientResponseView::ServerFail,
        }
    }
}

/// Whether every pair of `commits` carries a signature of `key` over its
/// hash.
pub open spec fn all_signed(commits: Seq<(crypto::Hash, Signature)>, key: Seq<u8>) -> bool {
    forall|i: int|
        0 <= i < commits.len() ==> ecdsa_accepts((#[trigger] commits[i]).1@, commits[i].0, key)
}

/// What a client with the cache `state` makes of the answer `resp` to a
/// request with the check `sync`.
///
/// A signature is checked against the server's key, returned metadata and
/// records against the hash that was asked for, a proof against the
/// writer's key and the cache, the freshest commits against the writer's
/// key, and the records of a commit against its root. An answer of another
/// kind than the request is a failure of the server.
pub open spec fn checked_answer(
    resp: Response,
    sync: ClientSync,
    server_key: Seq<u8>,
    writer_key: Seq<u8>,
    encryption_key: SymmetricKey,
    state: ReadStateView,
) -> ClientResponseView {
    match (resp, sync) {
        (Response::Create(sig), ClientSync::NewDataCapsule(hash)) => if ecdsa_accepts(
            sig@,
            hash,
            server_key,
        ) {
            ClientResponseView::NewDataCapsule
        } else {
            ClientResponseView::CryptographyFail
        },
        (Response::ReadMetadata(dc), ClientSync::ReadMetadata(hash)) => if spec_hash_dc_metadata(
            dc@.creator_pub_key,
            dc@.writer_pub_key,
            dc@.description,
        ) == hash {
            ClientResponseView::ReadMetadata(dc@)
        } else {
            ClientResponseView::CryptographyFail
        },
        (Response::Init, ClientSync::Init) => ClientResponseView::Init,
        (Response::WriteData(_), ClientSync::Write) => ClientResponseView::Write,
        (Response::WriteCommit(sig), ClientSync::Commit(hash)) => if ecdsa_accepts(
            sig@,
            hash,
            server_key,
        ) {
            ClientResponseView::Commit
        } else {
            ClientResponseView::CryptographyFail
        },
        (Response::ReadData(data), ClientSync::Read(hash)) => if spec_hash_data(data@) == hash {
            match spec_decrypt(data@, encryption_key) {
                Some(plaintext) => ClientResponseView::Read(plaintext),
                None => ClientResponseView::CryptographyFail,
            }
        } else {
            ClientResponseView::CryptographyFail
        },
        (Response::ReadProof { root, nodes }, ClientSync::Proof(hash)) => ClientResponseView::Proof(
            proof_accepted(state, hash, root_view(root), nodes_view(nodes@), writer_key),
        ),
        (Response::SubscribeCommits(commits), ClientSync::FreshestCommits) => if all_signed(
            commits@,
            writer_key,
        ) {
            ClientResponseView::FreshestCommits(
                commits@.map_values(|pair: (crypto::Hash, Signature)| pair.0),
            )
        } else {
            ClientResponseView::CryptographyFail
        },
        (Response::SubscribeRecords(records, additional), ClientSync::Records(hash)) => if records@.len()
            < usize::MAX && spec_merkle_tree_root(records@, additional) == hash {
            ClientResponseView::Records(records@, additional)
        } else {
            ClientResponseView::CryptographyFail
        },
        _ => ClientResponseView::ServerFail,
    }
}

/// The cache of a client after the answer `resp`: empty after `Init`, with
/// the proof applied after a proof that was accepted, and else as before.
pub open spec fn cache_after(
    resp: Response,
    sync: ClientSync,
    writer_key: Seq<u8>,
    state: ReadStateView,
) -> ReadStateView {
    match (resp, sync) {
        (Response::Init, ClientSync::Init) => ReadStateView::empty(),
        (Response::ReadProof { root, nodes }, ClientSync::Proof(hash)) => client_cache_after(
            state,
            hash,
            root_view(root),
            nodes_view(nodes@),
            writer_key,
        ),
        _ => state,
    }
}

/// The checked answers to a batch, each checked with the cache as the
/// answers before it left it.
pub open spec fn checked_batch(
    resps: Seq<Response>,
    syncs: Seq<ClientSync>,
    server_key: Seq<u8>,
    writer_key: Seq<u8>,
    encryption_key: SymmetricKey,
    state: ReadStateView,
) -> Seq<ClientResponseView>
    decreases resps.len(),
{
    if resps.len() == 0 || syncs.len() != resps.len() {
        Seq::empty()
    } else {
        checked_batch(
            resps.drop_last(),
            syncs.drop_last(),
            server_key,
            writer_key,
            encryption_key,
            state,
        ).push(
            checked_answer(
                resps.last(),
                syncs.last(),
                server_key,
                writer_key,
                encryption_key,
                batch_cache(resps.drop_last(), syncs.drop_last(), writer_key, state),
            ),
        )
    }
}

/// The cache of a client after a batch of answers.
pub open spec fn batch_cache(
    resps: Seq<Response>,
    syncs: Seq<ClientSync>,
    writer_key: Seq<u8>,
    state: ReadStateView,
) -> ReadStateView
    decreases resps.len(),
{
    if resps.len() == 0 || syncs.len() != resps.len() {
        state
    } else {
        cache_after(
            resps.last(),
            syncs.last(),
            writer_key,
            batch_cache(resps.drop_last(), syncs.drop_last(), writer_key, state),
        )
    }
}

/// Checks that every pair of `commits` carries a signature of `key` over
/// its hash, and returns the hashes.
pub fn signed_names(commits: &Vec<(crypto::Hash, Signature)>, key: &PublicKey) -> (names: Option<
    Vec<crypto::Hash>,
>)
    ensures
        match names {
            Some(found) => all_signed(commits@, key@) && found@ == commits@.map_values(
                |pair: (crypto::Hash, Signature)| pair.0,
            ),
            None => !all_signed(commits@, key@),
        },
{
    let ghost all = commits@.map_values(|pair: (crypto::Hash, Signature)| pair.0);
    let mut names: Vec<crypto::Hash> = Vec::new();
    let mut i: usize = 0;
    while i < commits.len()
        invariant
            i <= commits.len(),
            all == commits@.map_values(|pair: (crypto::Hash, Signature)| pair.0),
            names@ == all.take(i as int),
            forall|j: int|
                0 <= j < i ==> ecdsa_accepts((#[trigger] commits@[j]).1@, commits@[j].0, key@),
        decreases commits.len() - i,
    {
        if !verify_signature(&commits[i].1, &commits[i].0, key) {
            assert(!ecdsa_accepts(commits@[i as int].1@, commits@[i as int].0, key@));
            return None;
        }
        names.push(commits[i].0);
        assert(all.take(i as int + 1) =~= all.take(i as int).push(all[i as int]));
        i += 1;
    }
    assert(all.take(commits.len() as int) =~= all);
    Some(names)
}

/// What a client keeps for its sessions: its keys and its proof cache.
pub struct ClientConnection {
    pub name: String,
    pub signing_key: PrivateKey,
    pub signing_pub_key: PublicKey,
    pub encryption_key: SymmetricKey,
    pub read_state: ReadState,
}

/// The request to create the DataCapsule of the given creator and writer,
/// with the creator's signature over its name; the check for the answer; and
/// the name.
pub fn create_request(
    creator_pub_key: Vec<u8>,
    writer_pub_key: Vec<u8>,
    description: &str,
    signature: Signature,
) -> (out: (Request, ClientSync, crypto::Hash))
    ensures
        out.2 == spec_hash_dc_metadata(creator_pub_key@, writer_pub_key@, description@),
        out.1 == ClientSync::NewDataCapsule(out.2),
        out.0 matches Request::Create(cr) && cr.spec_capsule() == (crate::dc_repr::MetadataView {
            creator_pub_key: creator_pub_key@,
            writer_pub_key: writer_pub_key@,
            description: description@,
            signature: signature@,
        }),
{
    let hash = hash_dc_metadata(
        creator_pub_key.as_slice(),
        writer_pub_key.as_slice(),
        description,
    );
    let cr = CreateRequest {
        creator_pub_key,
        writer_pub_key,
        description: description.to_string(),
        signature,
    };
    (Request::Create(cr), ClientSync::NewDataCapsule(hash), hash)
}

/// The request to write an encrypted record; the check for the answer; and
/// the record's hash.
pub fn data_request(encrypted_data: Vec<u8>) -> (out: (Request, ClientSync, crypto::Hash))
    ensures
        out.2 == spec_hash_data(encrypted_data@),
        out.1 == ClientSync::Write,
        out.0 matches Request::Write(WriteRequest::Data(d)) && d@ == encrypted_data@,
{
    let hash = hash_data(encrypted_data.as_slice());
    (Request::Write(WriteRequest::Data(encrypted_data)), ClientSync::Write, hash)
}

/// The request to commit on top of `prev_commit_hash`, with the writer's
/// signature over the new root; the check for the answer; and the root.
pub fn signed_commit_request(
    prev_commit_hash: crypto::Hash,
    root_hash: crypto::Hash,
    signature: Signature,
) -> (out: (Request, ClientSync, crypto::Hash))
    ensures
        out.2 == root_hash,
        out.1 == ClientSync::Commit(root_hash),
        out.0 matches Request::Write(WriteRequest::Commit { additional_hash, signature: s })
            && additional_hash == prev_commit_hash && s@ == signature@,
{
    (
        Request::Write(WriteRequest::Commit { additional_hash: prev_commit_hash, signature }),
        ClientSync::Commit(root_hash),
        root_hash,
    )
}

impl ClientConnection {
    /// A client with an empty proof cache.
    pub fn new(
        name: &str,
        signing_key: PrivateKey,
        signing_pub_key: PublicKey,
        encryption_key: SymmetricKey,
    ) -> (client: Self)
        ensures
            client.name@ == name@,
            client.signing_key == signing_key,
            client.signing_pub_key == signing_pub_key,
            client.encryption_key == encryption_key,
            client.read_state@ == ReadStateView::empty(),
    {
        ClientConnection {
            name: name.to_string(),
            signing_key,
            signing_pub_key,
            encryption_key,
            read_state: ReadState::new(),
        }
    }

    /// Asks the server to create a DataCapsule of this client for the
    /// given writer. Returns the request, the check for its answer and the
    /// capsule's name; `None` where the name could not be signed.
    pub fn new_data_capsule_request(&self, writer_pub_key: &PublicKey, description: &str) -> (out:
        Option<(Request, ClientSync, crypto::Hash)>)
        ensures
            out matches Some((req, sync, hash)) ==> {
                &&& hash == spec_hash_dc_metadata(
                    self.signing_pub_key@,
                    writer_pub_key@,
                    description@,
                )
                &&& sync == ClientSync::NewDataCapsule(hash)
                &&& req matches Request::Create(cr)
                &&& cr.creator_pub_key@ == self.signing_pub_key@
                &&& cr.writer_pub_key@ == writer_pub_key@
                &&& cr.description@ == description@
                &&& signed_by(cr.signature@, hash, self.signing_key@)
            },
    {
        let creator_pub_key = serialize_pubkey(&self.signing_pub_key);
        let writer_pub_key = serialize_pubkey(writer_pub_key);
        let hash = hash_dc_metadata(
            creator_pub_key.as_slice(),
            writer_pub_key.as_slice(),
            description,
        );
        match sign(&hash, &self.signing_key) {
            Some(signature) => Some(
                create_request(creator_pub_key, writer_pub_key, description, signature),
            ),
            None => None,
        }
    }

    /// Asks for the metadata of the capsule named `dc`.
    pub fn read_metadata_request(&self, dc: &crypto::Hash) -> (out: (Request, ClientSync))
        ensures
            out.0 matches Request::ReadMetadata(h) && h == *dc,
            out.1 == ClientSync::ReadMetadata(*dc),
    {
        (Request::ReadMetadata(*dc), ClientSync::ReadMetadata(*dc))
    }

    /// Asks to bind the session to the capsule named `dc`, for writing.
    pub fn init_request(&self, dc: &crypto::Hash) -> (out: (Request, ClientSync))
        ensures
            out.0 matches Request::Init(init) && init == InitRequest::Write(*dc),
            out.1 == ClientSync::Init,
    {
        (Request::Init(InitRequest::Write(*dc)), ClientSync::Init)
    }

    /// Encrypts `data` and asks to write it as a record. Returns the
    /// request, the check for its answer and the record's hash; `None`
    /// where the data could not be encrypted.
    pub fn write_request(&self, data: &[u8]) -> (out: Option<(Request, ClientSync, crypto::Hash)>)
        ensures
            out matches Some((req, sync, hash)) ==> {
                &&& sync == ClientSync::Write
                &&& req matches Request::Write(WriteRequest::Data(encrypted))
                &&& spec_decrypt(encrypted@, self.encryption_key) == Some(data@)
                &&& hash == spec_hash_data(encrypted@)
            },
            data@.len() > crypto::MAX_CIPHER_INPUT ==> out is None,
    {
        match encrypt(data, &self.encryption_key) {
            Some(encrypted_data) => Some(data_request(encrypted_data)),
            None => None,
        }
    }

    /// Signs the root of the commit of `records` on top of
    /// `prev_commit_hash` and asks the server to commit. Returns the
    /// request, the check for its answer and the root; `None` where the root
    /// could not be signed or the records do not fit in memory.
    pub fn commit_request(&self, records: &[crypto::Hash], prev_commit_hash: crypto::Hash) -> (out:
        Option<(Request, ClientSync, crypto::Hash)>)
        ensures
            out matches Some((req, sync, root)) ==> {
                &&& root == spec_merkle_tree_root(records@, prev_commit_hash)
                &&& sync == ClientSync::Commit(root)
                &&& req matches Request::Write(WriteRequest::Commit { additional_hash, signature })
                &&& additional_hash == prev_commit_hash
                &&& signed_by(signature@, root, self.signing_key@)
            },
            records@.len() >= usize::MAX ==> out is None,
    {
        if records.len() == usize::MAX {
            return None;
        }
        let root_hash = merkle_tree_root(records, &prev_commit_hash);
        match sign(&root_hash, &self.signing_key) {
            Some(signature) => Some(signed_commit_request(prev_commit_hash, root_hash, signature)),
            None => None,
        }
    }

    /// Asks for the encrypted record with the hash `record`.
    pub fn read_request(&self, record: &crypto::Hash) -> (out: (Request, ClientSync))
        ensures
            out.0 matches Request::Read(ReadRequest::Data(h)) && h == *record,
            out.1 == ClientSync::Read(*record),
    {
        (Request::Read(ReadRequest::Data(*record)), ClientSync::Read(*record))
    }

    /// Asks for a proof that the record with the hash `record` was
    /// committed.
    pub fn proof_request(&self, record: &crypto::Hash) -> (out: (Request, ClientSync))
        ensures
            out.0 matches Request::Read(ReadRequest::Proof(h)) && h == *record,
            out.1 == ClientSync::Proof(*record),
    {
        (Request::Read(ReadRequest::Proof(*record)), ClientSync::Proof(*record))
    }

    /// Asks for the roots of the freshest commits.
    pub fn freshest_commits_request(&self) -> (out: (Request, ClientSync))
        ensures
            out.0 matches Request::Subscribe(SubscribeRequest::FreshestCommits),
            out.1 == ClientSync::FreshestCommits,
    {
        (Request::Subscribe(SubscribeRequest::FreshestCommits), ClientSync::FreshestCommits)
    }

    /// Asks for the records of the commit with the root `commit`.
    pub fn records_request(&self, commit: &crypto::Hash) -> (out: (Request, ClientSync))
        ensures
            out.0 matches Request::Subscribe(SubscribeRequest::Records(h)) && h == *commit,
            out.1 == ClientSync::Records(*commit),
    {
        (Request::Subscribe(SubscribeRequest::Records(*commit)), ClientSync::Records(*commit))
    }

    /// Checks one answer against the check that was kept for its request.
    pub fn response_to_client_response(
        &mut self,
        dc_server_key: &PublicKey,
        resp: Response,
        sync: &ClientSync,
    ) -> (out: ClientResponse)
        ensures
            out@ == checked_answer(
                resp,
                *sync,
                dc_server_key@,
                old(self).signing_pub_key@,
                old(self).encryption_key,
                old(self).read_state@,
            ),
            final(self).read_state@ == cache_after(
                resp,
                *sync,
                old(self).signing_pub_key@,
                old(self).read_state@,
            ),
            final(self).name == old(self).name,
            final(self).signing_key == old(self).signing_key,
            final(self).signing_pub_key == old(self).signing_pub_key,
            final(self).encryption_key == old(self).encryption_key,
    {
        match (resp, sync) {
            (Response::Create(sig), ClientSync::NewDataCapsule(hash)) => {
                if verify_signature(&sig, hash, dc_server_key) {
                    ClientResponse::NewDataCapsule
                } else {
                    ClientResponse::CryptographyFail
                }
            },
            (Response::ReadMetadata(dc), ClientSync::ReadMetadata(hash)) => {
                let name = hash_dc_metadata(
                    dc.creator_pub_key.as_slice(),
                    dc.writer_pub_key.as_slice(),
                    dc.description.as_str(),
                );
                if hash_eq(&name, hash) {
                    ClientResponse::ReadMetadata(dc)
                } else {
                    ClientResponse::CryptographyFail
                }
            },
            (Response::Init, ClientSync::Init) => {
                self.read_state = ReadState::new();
                ClientResponse::Init
            },
            (Response::WriteData(_), ClientSync::Write) => ClientResponse::Write,
            (Response::WriteCommit(sig), ClientSync::Commit(hash)) => {
                if verify_signature(&sig, hash, dc_server_key) {
                    ClientResponse::Commit
                } else {
                    ClientResponse::CryptographyFail
                }
            },
            (Response::ReadData(encrypted_data), ClientSync::Read(hash)) => {
                let name = hash_data(encrypted_data.as_slice());
                if hash_eq(&name, hash) {
                    match decrypt(encrypted_data.as_slice(), &self.encryption_key) {
                        Some(plaintext) => ClientResponse::Read(plaintext),
                        None => ClientResponse::CryptographyFail,
                    }
                } else {
                    ClientResponse::CryptographyFail
                }
            },
            (Response::ReadProof { root, nodes }, ClientSync::Proof(hash)) => {
                let success = verify_proof(
                    hash,
                    &root,
                    nodes.as_slice(),
                    &self.signing_pub_key,
                    &mut self.read_state,
                ).is_ok();
                ClientResponse::Proof(success)
            },
            (Response::SubscribeCommits(commits), ClientSync::FreshestCommits) => {
                match signed_names(&commits, &self.signing_pub_key) {
                    Some(names) => ClientResponse::FreshestCommits(names),
                    None => ClientResponse::CryptographyFail,
                }
            },
            (Response::SubscribeRecords(records, additional), ClientSync::Records(hash)) => {
                if records.len() == usize::MAX {
                    return ClientResponse::CryptographyFail;
                }
                let root = merkle_tree_root(records.as_slice(), &additional);
                if hash_eq(&root, hash) {
                    ClientResponse::Records(records, additional)
                } else {
                    ClientResponse::CryptographyFail
                }
            },
            _ => ClientResponse::ServerFail,
        }
    }

    /// Checks a batch of answers, each against the check that was kept for
    /// the request in its place.
    pub fn responses_to_client_responses(
        &mut self,
        dc_server_key: &PublicKey,
        resps: Vec<Response>,
        syncs: &[ClientSync],
    ) -> (out: Vec<ClientResponse>)
        requires
            resps@.len() == syncs@.len(),
        ensures
            out@.map_values(|r: ClientResponse| r@) == checked_batch(
                resps@,
                syncs@,
                dc_server_key@,
                old(self).signing_pub_key@,
                old(self).encryption_key,
                old(self).read_state@,
            ),
            final(self).read_state@ == batch_cache(
                resps@,
                syncs@,
                old(self).signing_pub_key@,
                old(self).read_state@,
            ),
            final(self).name == old(self).name,
            final(self).signing_key == old(self).signing_key,
            final(self).signing_pub_key == old(self).signing_pub_key,
            final(self).encryption_key == old(self).encryption_key,
    {
        let ghost all = resps@;
        let ghost start = self.read_state@;
        let ghost writer_key = self.signing_pub_key@;
        let ghost encryption_key = self.encryption_key;
        let mut resps = reversed(resps);
        let mut out: Vec<ClientResponse> = Vec::new();
        let n = syncs.len();
        proof {
            assert(resps@ =~= all.reverse().take(n as int));
            assert(all.take(0) =~= Seq::<Response>::empty());
            assert(syncs@.take(0) =~= Seq::<ClientSync>::empty());
            assert(out@.map_values(|r: ClientResponse| r@) =~= Seq::<ClientResponseView>::empty());
        }
        let mut i: usize = 0;
        while i < n
            invariant
                i <= n,
                n == syncs@.len(),
                all.len() == n,
                resps@ == all.reverse().take(n - i),
                self.name == old(self).name,
                self.signing_key == old(self).signing_key,
                self.signing_pub_key == old(self).signing_pub_key,
                self.encryption_key == old(self).encryption_key,
                writer_key == self.signing_pub_key@,
                encryption_key == self.encryption_key,
                start == old(self).read_state@,
                out@.map_values(|r: ClientResponse| r@) == checked_batch(
                    all.take(i as int),
                    syncs@.take(i as int),
                    dc_server_key@,
                    writer_key,
                    encryption_key,
                    start,
                ),
                self.read_state@ == batch_cache(
                    all.take(i as int),
                    syncs@.take(i as int),
                    writer_key,
                    start,
                ),
            decreases n - i,
        {
            let ghost before = out@.map_values(|r: ClientResponse| r@);
            let resp = resps.pop().unwrap();
            proof {
                assert(all.reverse()[n - i - 1] == all[i as int]);
                assert(resps@ =~= all.reverse().take(n - i - 1));
                assert(all.take(i as int + 1).drop_last() =~= all.take(i as int));
                assert(syncs@.take(i as int + 1).drop_last() =~= syncs@.take(i as int));
                assert(all.take(i as int + 1).last() == all[i as int]);
                assert(syncs@.take(i as int + 1).last() == syncs@[i as int]);
            }
            let checked = self.response_to_client_response(dc_server_key, resp, &syncs[i]);
            let ghost checked_view = checked@;
            out.push(checked);
            assert(out@.map_values(|r: ClientResponse| r@) =~= before.push(checked_view));
            i += 1;
        }
        proof {
            assert(all.take(n as int) =~= all);
            assert(syncs@.take(n as int) =~= syncs@);
        }
        out
    }
}

/// What a reader asks for over its own connection.
#[derive(Debug, Clone, Copy)]
pub enum ReaderOperation {
    /// The record with this hash.
    Data(crypto::Hash),
    /// A proof that the record with this hash was committed.
    Prove(crypto::Hash),
}

/// What a reader gets.
#[derive(Debug)]
pub enum ReaderResponse {
    /// The plaintext of the record.
    Data(Vec<u8>),
    ValidProof,
    ServerFailure,
}

/// The request that a reader sends for `op`.
pub fn reader_request(op: &ReaderOperation) -> (req: Request)
    ensures
        match *op {
            ReaderOperation::Data(hash) => req matches Request::Read(ReadRequest::Data(h)) && h
                == hash,
            ReaderOperation::Prove(hash) => req matches Request::Read(ReadRequest::Proof(h)) && h
                == hash,
        },
{
    match op {
        ReaderOperation::Data(hash) => Request::Read(ReadRequest::Data(*hash)),
        ReaderOperation::Prove(hash) => Request::Read(ReadRequest::Proof(*hash)),
    }
}

/// What a reader makes of the answer `resp` to `op`.
///
/// A failure of the server is passed on as such. A record must have the
/// hash that was asked for and must decrypt; a proof must be accepted. Every
/// other answer ends the session with an error.
pub fn reader_response(
    resp: Response,
    op: &ReaderOperation,
    encryption_key: &SymmetricKey,
    writer_public_key: &PublicKey,
    read_state: &mut ReadState,
) -> (result: Result<ReaderResponse, DCClientError>)
    ensures
        match (resp, *op) {
            (Response::Failed, _) => {
                &&& result matches Ok(ReaderResponse::ServerFailure)
                &&& final(read_state)@ == old(read_state)@
            },
            (Response::ReadData(data), ReaderOperation::Data(hash)) => {
                &&& final(read_state)@ == old(read_state)@
                &&& if spec_hash_data(data@) != hash {
                    result matches Err(DCClientError::MismatchedHash)
                } else {
                    match spec_decrypt(data@, *encryption_key) {
                        Some(plaintext) => result matches Ok(ReaderResponse::Data(p)) && p@
                            == plaintext,
                        None => result matches Err(DCClientError::Other(_)),
                    }
                }
            },
            (Response::ReadProof { root, nodes }, ReaderOperation::Prove(hash)) => {
                let accepted = proof_accepted(
                    old(read_state)@,
                    hash,
                    root_view(root),
                    nodes_view(nodes@),
                    writer_public_key@,
                );
                &&& final(read_state)@ == client_cache_after(
                    old(read_state)@,
                    hash,
                    root_view(root),
                    nodes_view(nodes@),
                    writer_public_key@,
                )
                &&& accepted ==> result is Ok && result->Ok_0 is ValidProof
                &&& !accepted ==> result is Err && if root_signed(
                    root_view(root),
                    writer_public_key@,
                ) {
                    result->Err_0 is BadProof
                } else {
                    result->Err_0 is BadSignature
                }
            },
            _ => result matches Err(DCClientError::ServerError(_)) && final(read_state)@ == old(read_state)@,
        },
{
    match (resp, op) {
        (Response::Failed, _) => Ok(ReaderResponse::ServerFailure),
        (Response::ReadData(data), ReaderOperation::Data(hash)) => {
            let name = hash_data(data.as_slice());
            if hash_eq(&name, hash) {
                match decrypt(data.as_slice(), encryption_key) {
                    Some(plaintext) => Ok(ReaderResponse::Data(plaintext)),
                    None => Err(DCClientError::Other("record does not decrypt".to_string())),
                }
            } else {
                Err(DCClientError::MismatchedHash)
            }
        },
        (Response::ReadProof { root, nodes }, ReaderOperation::Prove(hash)) => {
            match verify_proof(hash, &root, nodes.as_slice(), writer_public_key, read_state) {
                Ok(_) => Ok(ReaderResponse::ValidProof),
                Err(e) => Err(e),
            }
        },
        _ => Err(DCClientError::ServerError("mismatched response".to_string())),
    }
}

/// What a writer does over its own connection.
#[derive(Debug)]
pub enum WriterOperation {
    /// Write a record with this plaintext.
    Record(Vec<u8>),
    /// Commit the records written since the last commit.
    Commit,
}

/// What a writer waits for.
#[derive(Debug, Clone, Copy)]
pub enum WriterSync {
    /// The acknowledgement of the record with this hash.
    Record(crypto::Hash),
    /// The server's signature over this root.
    Commit(crypto::Hash),
}

/// The state of a writer between its batches: its keys, the root of the
/// last commit that the server has acknowledged, and what was sent since.
pub struct WriterConnection {
    pub encryption_key: SymmetricKey,
    pub signing_key: PrivateKey,
    pub server_public_key: PublicKey,
    /// The root of the last commit that the server has acknowledged.
    pub last_commit_hash: crypto::Hash,
    /// The root that the next commit will be made on top of.
    pub head: crypto::Hash,
    /// The records written since the last commit was sent.
    pub uncommitted_hashes: Vec<crypto::Hash>,
}

impl WriterConnection {
    /// A writer that goes on from the commit with the root
    /// `last_commit_hash`.
    pub fn new(
        server_public_key: PublicKey,
        encryption_key: SymmetricKey,
        signing_key: PrivateKey,
        last_commit_hash: crypto::Hash,
    ) -> (writer: Self)
        ensures
            writer.server_public_key == server_public_key,
            writer.encryption_key == encryption_key,
            writer.signing_key == signing_key,
            writer.last_commit_hash == last_commit_hash,
            writer.head == last_commit_hash,
            writer.uncommitted_hashes@ == Seq::<crypto::Hash>::empty(),
    {
        WriterConnection {
            encryption_key,
            signing_key,
            server_public_key,
            last_commit_hash,
            head: last_commit_hash,
            uncommitted_hashes: Vec::new(),
        }
    }

    /// The root of the last commit that the server has acknowledged: where
    /// to go on after a failure.
    pub fn get_checkpoint(&self) -> (root: crypto::Hash)
        ensures
            root == self.last_commit_hash,
    {
        self.last_commit_hash
    }

    /// Forgets what was sent since the last acknowledged commit.
    pub fn abort(&mut self)
        ensures
            final(self).uncommitted_hashes@ == Seq::<crypto::Hash>::empty(),
            final(self).head == old(self).last_commit_hash,
            final(self).last_commit_hash == old(self).last_commit_hash,
            final(self).encryption_key == old(self).encryption_key,
            final(self).signing_key == old(self).signing_key,
            final(self).server_public_key == old(self).server_public_key,
    {
        self.uncommitted_hashes.clear();
        self.head = self.last_commit_hash;
    }

    /// The request that the writer sends for `op`, and what to wait for.
    ///
    /// A record is encrypted and its hash noted for the next commit. A
    /// commit is made over the records noted, on top of the commit before
    /// it, and signed; the records are then forgotten and the new root is
    /// what the next commit builds on. `None`, with the writer as it was,
    /// where encrypting or signing fails, the record is too long for the
    /// cipher, or the records noted do not fit in memory.
    pub fn request(&mut self, op: &WriterOperation) -> (out: Option<(Request, WriterSync)>)
        ensures
            final(self).last_commit_hash == old(self).last_commit_hash,
            final(self).encryption_key == old(self).encryption_key,
            final(self).signing_key == old(self).signing_key,
            final(self).server_public_key == old(self).server_public_key,
            out is None ==> final(self).head == old(self).head && final(self).uncommitted_hashes@
                == old(self).uncommitted_hashes@,
            match *op {
                WriterOperation::Record(data) => data@.len() > crypto::MAX_CIPHER_INPUT,
                WriterOperation::Commit => old(self).uncommitted_hashes@.len() >= usize::MAX,
            } ==> out is None,
            out matches Some((req, sync)) ==> match *op {
                WriterOperation::Record(data) => {
                    &&& req matches Request::Write(WriteRequest::Data(encrypted))
                    &&& spec_decrypt(encrypted@, old(self).encryption_key) == Some(data@)
                    &&& sync matches WriterSync::Record(hash)
                    &&& hash == spec_hash_data(encrypted@)
                    &&& final(self).uncommitted_hashes@ == old(self).uncommitted_hashes@.push(hash)
                    &&& final(self).head == old(self).head
                },
                WriterOperation::Commit => {
                    let root = spec_merkle_tree_root(
                        old(self).uncommitted_hashes@,
                        old(self).head,
                    );
                    &&& req matches Request::Write(
                        WriteRequest::Commit { additional_hash, signature },
                    )
                    &&& additional_hash == old(self).head
                    &&& signed_by(signature@, root, old(self).signing_key@)
                    &&& sync matches WriterSync::Commit(expected)
                    &&& expected == root
                    &&& final(self).head == root
                    &&& final(self).uncommitted_hashes@ == Seq::<crypto::Hash>::empty()
                },
            },
    {
        match op {
            WriterOperation::Record(data) => {
                match encrypt(data.as_slice(), &self.encryption_key) {
                    Some(encrypted_data) => Some(self.record_request(encrypted_data)),
                    None => None,
                }
            },
            WriterOperation::Commit => {
                if self.uncommitted_hashes.len() == usize::MAX {
                    return None;
                }
                let root_hash = merkle_tree_root(self.uncommitted_hashes.as_slice(), &self.head);
                match sign(&root_hash, &self.signing_key) {
                    Some(signature) => Some(self.commit_request(root_hash, signature)),
                    None => None,
                }
            },
        }
    }

    /// Notes the record with the encrypted bytes `encrypted_data` for the
    /// next commit. Returns the request that writes it, and the record's
    /// hash to wait for.
    pub fn record_request(&mut self, encrypted_data: Vec<u8>) -> (out: (Request, WriterSync))
        ensures
            out.0 matches Request::Write(WriteRequest::Data(d)) && d@ == encrypted_data@,
            out.1 == WriterSync::Record(spec_hash_data(encrypted_data@)),
            final(self).uncommitted_hashes@ == old(self).uncommitted_hashes@.push(
                spec_hash_data(encrypted_data@),
            ),
            final(self).head == old(self).head,
            final(self).last_commit_hash == old(self).last_commit_hash,
            final(self).encryption_key == old(self).encryption_key,
            final(self).signing_key == old(self).signing_key,
            final(self).server_public_key == old(self).server_public_key,
    {
        let hash = hash_data(encrypted_data.as_slice());
        self.uncommitted_hashes.push(hash);
        (Request::Write(WriteRequest::Data(encrypted_data)), WriterSync::Record(hash))
    }

    /// Turns to the commit with the root `root_hash`, made on top of the
    /// writer's head and signed with `signature`: the records noted are
    /// forgotten, and the root becomes the head. Returns the request that
    /// commits, and the root to wait for.
    pub fn commit_request(&mut self, root_hash: crypto::Hash, signature: Signature) -> (out: (
        Request,
        WriterSync,
    ))
        ensures
            out.0 matches Request::Write(WriteRequest::Commit { additional_hash, signature: s })
                && additional_hash == old(self).head && s@ == signature@,
            out.1 == WriterSync::Commit(root_hash),
            final(self).uncommitted_hashes@ == Seq::<crypto::Hash>::empty(),
            final(self).head == root_hash,
            final(self).last_commit_hash == old(self).last_commit_hash,
            final(self).encryption_key == old(self).encryption_key,
            final(self).signing_key == old(self).signing_key,
            final(self).server_public_key == old(self).server_public_key,
    {
        let req = Request::Write(WriteRequest::Commit { additional_hash: self.head, signature });
        self.head = root_hash;
        self.uncommitted_hashes.clear();
        (req, WriterSync::Commit(root_hash))
    }

    /// Whether the answer `resp` is the one that `sync` waits for: the
    /// acknowledgement of the record with the right hash, or the server's
    /// signature over the root of the commit.
    pub open spec fn acknowledged(resp: Response, sync: WriterSync, server_key: Seq<u8>) -> bool {
        match (resp, sync) {
            (Response::WriteData(hash), WriterSync::Record(expected)) => hash == expected,
            (Response::WriteCommit(sig), WriterSync::Commit(root)) => ecdsa_accepts(
                sig@,
                root,
                server_key,
            ),
            _ => false,
        }
    }

    /// Checks the answer `resp` against what the writer waits for.
    ///
    /// An acknowledged commit becomes the checkpoint. Any other answer than
    /// the one waited for is an error: what was sent since the checkpoint is
    /// forgotten, and the checkpoint stays.
    pub fn response(&mut self, resp: Response, sync: &WriterSync) -> (result: Result<
        (),
        DCClientError,
    >)
        ensures
            final(self).encryption_key == old(self).encryption_key,
            final(self).signing_key == old(self).signing_key,
            final(self).server_public_key == old(self).server_public_key,
            result is Ok <==> Self::acknowledged(resp, *sync, old(self).server_public_key@),
            result is Ok ==> final(self).head == old(self).head && final(self).uncommitted_hashes@
                == old(self).uncommitted_hashes@ && final(self).last_commit_hash == match *sync {
                WriterSync::Commit(root) => root,
                WriterSync::Record(_) => old(self).last_commit_hash,
            },
            result is Err ==> {
                &&& final(self).last_commit_hash == old(self).last_commit_hash
                &&& final(self).head == old(self).last_commit_hash
                &&& final(self).uncommitted_hashes@ == Seq::<crypto::Hash>::empty()
            },
    {
        let outcome = match (resp, sync) {
            (Response::WriteData(hash), WriterSync::Record(expected)) => {
                if hash_eq(&hash, expected) {
                    Ok(())
                } else {
                    Err(DCClientError::MismatchedHash)
                }
            },
            (Response::WriteCommit(sig), WriterSync::Commit(root)) => {
                if verify_signature(&sig, root, &self.server_public_key) {
                    self.last_commit_hash = *root;
                    Ok(())
                } else {
                    Err(DCClientError::BadSignature)
                }
            },
            (Response::Failed, _) => Err(DCClientError::ServerError("server failure".to_string())),
            _ => Err(DCClientError::ServerError("mismatched response".to_string())),
        };
        if outcome.is_err() {
            self.abort();
        }
        outcome
    }
}

/// What a subscriber makes of the answer to its request for the freshest
/// commits: their roots, where each carries the writer's signature.
pub fn subscriber_commits_response(resp: Response, writer_pub_key: &PublicKey) -> (result: Result<
    Vec<crypto::Hash>,
    DCClientError,
>)
    ensures
        match resp {
            Response::SubscribeCommits(commits) => if all_signed(commits@, writer_pub_key@) {
                result matches Ok(roots) && roots@ == commits@.map_values(
                    |pair: (crypto::Hash, Signature)| pair.0,
                )
            } else {
                result matches Err(DCClientError::BadSignature)
            },
            _ => result matches Err(DCClientError::ServerError(_)),
        },
{
    match resp {
        Response::SubscribeCommits(commits) => {
            match signed_names(&commits, writer_pub_key) {
                Some(roots) => Ok(roots),
                None => Err(DCClientError::BadSignature),
            }
        },
        Response::Failed => Err(DCClientError::ServerError("server failed".to_string())),
        _ => Err(DCClientError::ServerError("mismatched response".to_string())),
    }
}

/// What a subscriber makes of the answer to its request for the records of
/// the commit with the root `commit`: the records and the hash that the
/// commit was made on top of, where they commit to that root.
pub fn subscriber_records_response(resp: Response, commit: &crypto::Hash) -> (result: Result<
    (Vec<crypto::Hash>, crypto::Hash),
    DCClientError,
>)
    ensures
        match resp {
            Response::SubscribeRecords(records, additional) => if records@.len() < usize::MAX
                && spec_merkle_tree_root(records@, additional) == *commit {
                result matches Ok(found) && found.0@ == records@ && found.1 == additional
            } else {
                result matches Err(DCClientError::MismatchedHash)
            },
            _ => result matches Err(DCClientError::ServerError(_)),
        },
{
    match resp {
        Response::SubscribeRecords(records, additional) => {
            if records.len() == usize::MAX {
                return Err(DCClientError::MismatchedHash);
            }
            let root = merkle_tree_root(records.as_slice(), &additional);
            if hash_eq(&root, commit) {
                Ok((records, additional))
            } else {
                Err(DCClientError::MismatchedHash)
            }
        },
        Response::Failed => Err(DCClientError::ServerError("server failed".to_string())),
        _ => Err(DCClientError::ServerError("mismatched response".to_string())),
    }
}

/// What a manager makes of the answer to its request to create the capsule
/// named `meta_hash`: the name, where the server has signed it.
pub fn manager_create_response(
    resp: Response,
    meta_hash: &crypto::Hash,
    server_pub_key: &PublicKey,
) -> (result: Result<crypto::Hash, DCClientError>)
    ensures
        match resp {
            Response::Create(s) => if ecdsa_accepts(s@, *meta_hash, server_pub_key@) {
                result == Ok::<crypto::Hash, DCClientError>(*meta_hash)
            } else {
                result matches Err(DCClientError::BadSignature)
            },
            _ => result matches Err(DCClientError::ServerError(_)),
        },
{
    match resp {
        Response::Create(s) => {
            if verify_signature(&s, meta_hash, server_pub_key) {
                Ok(*meta_hash)
            } else {
                Err(DCClientError::BadSignature)
            }
        },
        Response::Failed => Err(DCClientError::ServerError("server failed".to_string())),
        _ => Err(DCClientError::ServerError("mismatched response".to_string())),
    }
}

/// What a manager makes of the answer to its request to read the capsule
/// named `dc_name`: the metadata, where it hashes to that name.
pub fn manager_read_response(resp: Response, dc_name: &crypto::Hash) -> (result: Result<
    crate::dc_repr::Metadata,
    DCClientError,
>)
    ensures
        match resp {
            Response::ReadMetadata(dc) => if spec_hash_dc_metadata(
                dc@.creator_pub_key,
                dc@.writer_pub_key,
                dc@.description,
            ) == *dc_name {
                result matches Ok(found) && found@ == dc@
            } else {
                result matches Err(DCClientError::MismatchedHash)
            },
            _ => result matches Err(DCClientError::ServerError(_)),
        },
{
    match resp {
        Response::ReadMetadata(dc) => {
            let name = hash_dc_metadata(
                dc.creator_pub_key.as_slice(),
                dc.writer_pub_key.as_slice(),
                dc.description.as_str(),
            );
            if hash_eq(&name, dc_name) {
                Ok(dc)
            } else {
                Err(DCClientError::MismatchedHash)
            }
        },
        Response::Failed => Err(DCClientError::ServerError("server failed".to_string())),
        _ => Err(DCClientError::ServerError("mismatched response".to_string())),
    }
}

} // verus!
