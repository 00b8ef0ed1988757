//! What a client asks of the commit store, and what the server answers.

use vstd::prelude::*;
use crate::crypto;
use crate::crypto::{HashNode, Signature};
use crate::dc_repr::{Metadata, MetadataView};

verus! {

/// A DataCapsule as the commit store keeps it.
pub type DataCapsule = Metadata;

/// A request of a client session.
#[derive(Debug)]
pub enum Request {
    Init(InitRequest),
    Create(CreateRequest),
    /// Read the metadata of the named DataCapsule.
    ReadMetadata(crypto::Hash),
    Read(ReadRequest),
    Write(WriteRequest),
    Subscribe(SubscribeRequest),
}

/// What a session is opened for. Every kind but `Create` binds the session
/// to the named DataCapsule.
#[derive(Debug, Clone, Copy)]
pub enum InitRequest {
    /// A session that only manages DataCapsules.
    Create,
    Read(crypto::Hash),
    Write(crypto::Hash),
    Subscribe(crypto::Hash),
}

impl InitRequest {
    /// The DataCapsule that the session asks to be bound to.
    pub open spec fn spec_dc_name(self) -> Option<crypto::Hash> {
        match self {
            InitRequest::Create => None,
            InitRequest::Read(dc) => Some(dc),
            InitRequest::Write(dc) => Some(dc),
            InitRequest::Subscribe(dc) => Some(dc),
        }
    }

    /// The DataCapsule that the session asks to be bound to.
    #[verifier::when_used_as_spec(spec_dc_name)]
    pub fn dc_name(self) -> (name: Option<crypto::Hash>)
        ensures
            name == self.spec_dc_name(),
    {
        match self {
            InitRequest::Create => None,
            InitRequest::Read(dc) => Some(dc),
            InitRequest::Write(dc) => Some(dc),
            InitRequest::Subscribe(dc) => Some(dc),
        }
    }
}

/// The request to create a DataCapsule.
#[derive(Debug)]
pub struct CreateRequest {
    pub creator_pub_key: Vec<u8>,
    pub writer_pub_key: Vec<u8>,
    pub description: String,
    pub signature: Signature,
}

impl CreateRequest {
    /// The metadata that the request asks to store.
    pub open spec fn spec_capsule(self) -> MetadataView {
        MetadataView {
            creator_pub_key: self.creator_pub_key@,
            writer_pub_key: self.writer_pub_key@,
            description: self.description@,
            signature: self.signature@,
        }
    }

    /// The metadata that the request asks to store.
    pub fn into_capsule(self) -> (dc: DataCapsule)
        ensures
            dc@ == self.spec_capsule(),
    {
        Metadata {
            creator_pub_key: self.creator_pub_key,
            writer_pub_key: self.writer_pub_key,
            description: self.description,
            signature: self.signature,
        }
    }
}

/// Requests to read from the DataCapsule that the session is bound to.
#[derive(Debug, Clone, Copy)]
pub enum ReadRequest {
    /// The encrypted record with this hash.
    Data(crypto::Hash),
    /// A proof that the record with this hash was committed.
    Proof(crypto::Hash),
}

/// Requests to write to the DataCapsule that the session is bound to.
#[derive(Debug)]
pub enum WriteRequest {
    /// An encrypted record.
    Data(Vec<u8>),
    /// Commit the records written since the last commit, on top of
    /// `additional_hash`, with the writer's signature over the new root.
    Commit { additional_hash: crypto::Hash, signature: Signature },
}

/// Requests for news of the DataCapsule that the session is bound to.
#[derive(Debug, Clone, Copy)]
pub enum SubscribeRequest {
    /// The roots of the commits on which nothing was committed yet.
    FreshestCommits,
    /// The records of the commit with this root.
    Records(crypto::Hash),
}

/// The answer to one request.
#[derive(Debug)]
pub enum Response {
    /// The session is open.
    Init,
    /// The server's signature over the name of the created DataCapsule.
    Create(Signature),
    ReadMetadata(DataCapsule),
    /// An encrypted record.
    ReadData(Vec<u8>),
    /// The signed root unless the client has it, and the nodes from below
    /// the root down to the one that holds the record.
    ReadProof { root: Option<(Signature, crypto::Hash)>, nodes: Vec<HashNode> },
    /// The hash of the written record.
    WriteData(crypto::Hash),
    /// The server's signature over the root of the commit.
    WriteCommit(Signature),
    SubscribeCommits(Vec<(crypto::Hash, Signature)>),
    /// The records of a commit, and the hash it was committed on top of.
    SubscribeRecords(Vec<crypto::Hash>, crypto::Hash),
    /// The operation could not be completed.
    Failed,
}

/// What a `Response` holds, as mathematical values.
pub enum ResponseView {
    Init,
    Create(Seq<u8>),
    ReadMetadata(MetadataView),
    ReadData(Seq<u8>),
    ReadProof { root: Option<(Seq<u8>, crypto::Hash)>, nodes: Seq<Seq<crypto::Hash>> },
    WriteData(crypto::Hash),
    WriteCommit(Seq<u8>),
    SubscribeCommits(Seq<(crypto::Hash, Seq<u8>)>),
    SubscribeRecords(Seq<crypto::Hash>, crypto::Hash),
    Failed,
}

/// A signed root, with the signature as a sequence of bytes.
pub open spec fn root_view(root: Option<(Signature, crypto::Hash)>) -> Option<
    (Seq<u8>, crypto::Hash),
> {
    match root {
        Some((s, h)) => Some((s@, h)),
        None => None,
    }
}

/// The children of each node of a run of nodes.
pub open spec fn nodes_view(nodes: Seq<HashNode>) -> Seq<Seq<crypto::Hash>> {
    nodes.map_values(|n: HashNode| n@)
}

/// Commits with their signatures as sequences of bytes.
pub open spec fn commits_view(commits: Seq<(crypto::Hash, Signature)>) -> Seq<
    (crypto::Hash, Seq<u8>),
> {
    commits.map_values(|pair: (crypto::Hash, Signature)| (pair.0, pair.1@))
}

impl View for Response {
    type V = ResponseView;

    open spec fn view(&self) -> ResponseView {
        match self {
            Response::Init => ResponseView::Init,
            Response::Create(s) => ResponseView::Create(s@),
            Response::ReadMetadata(dc) => ResponseView::ReadMetadata(dc@),
            Response::ReadData(d) => ResponseView::ReadData(d@),
            Response::ReadProof { root, nodes } => ResponseView::ReadProof {
                root: root_view(*root),
                nodes: nodes_view(nodes@),
            },
            Response::WriteData(h) => ResponseView::WriteData(*h),
            Response::WriteCommit(s) => ResponseView::WriteCommit(s@),
            Response::SubscribeCommits(v) => ResponseView::SubscribeCommits(commits_view(v@)),
            Response::SubscribeRecords(records, additional) => ResponseView::SubscribeRecords(
                records@,
                *additional,
            ),
            Response::Failed => ResponseView::Failed,
        }
    }
}

} // verus!
