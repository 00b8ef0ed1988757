//! What a client asks of the record store, and what the server answers.

use vstd::prelude::*;
use crate::crypto;
use crate::crypto::Signature;
use crate::dc_repr::{
    BestEffortProof, BestEffortProofView, Metadata, MetadataView, Record, RecordView,
};

verus! {

/// A request of a client session.
#[derive(Debug)]
pub enum Request {
    /// Read, write or subscribe to the named DataCapsule from now on.
    Init(crypto::Hash),
    Manage(ManageRequest),
    RW(RWRequest),
    Subscribe(SubscribeRequest),
}

/// The answer to one request.
#[derive(Debug)]
pub enum Response {
    /// The session is bound to the DataCapsule.
    Init,
    /// The server's signature over the name of the created DataCapsule.
    ManageCreate(Signature),
    ManageRead(Metadata),
    ReadRecord(Record),
    ReadProof(BestEffortProof),
    /// The name of the written record.
    WriteData(crypto::Hash),
    /// The record name and the server's signature over it.
    WriteSign((crypto::Hash, Signature)),
    /// The freshest signed records.
    SubscribeFresh(Vec<(crypto::Hash, Signature)>),
    /// The operation could not be completed.
    Failed,
}

/// What a `Response` holds, as mathematical values.
pub enum ResponseView {
    Init,
    ManageCreate(Seq<u8>),
    ManageRead(MetadataView),
    ReadRecord(RecordView),
    ReadProof(BestEffortProofView),
    WriteData(crypto::Hash),
    WriteSign((crypto::Hash, Seq<u8>)),
    SubscribeFresh(Seq<(crypto::Hash, Seq<u8>)>),
    Failed,
}

impl View for Response {
    type V = ResponseView;

    open spec fn view(&self) -> ResponseView {
        match self {
            Response::Init => ResponseView::Init,
            Response::ManageCreate(s) => ResponseView::ManageCreate(s@),
            Response::ManageRead(dc) => ResponseView::ManageRead(dc@),
            Response::ReadRecord(r) => ResponseView::ReadRecord(r@),
            Response::ReadProof(p) => ResponseView::ReadProof(p@),
            Response::WriteData(h) => ResponseView::WriteData(*h),
            Response::WriteSign(pair) => ResponseView::WriteSign((pair.0, pair.1@)),
            Response::SubscribeFresh(v) => ResponseView::SubscribeFresh(
                v@.map_values(|pair: (crypto::Hash, Signature)| (pair.0, pair.1@)),
            ),
            Response::Failed => ResponseView::Failed,
        }
    }
}

/// Requests about DataCapsules as a whole.
#[derive(Debug)]
pub enum ManageRequest {
    /// Create a DataCapsule.
    Create(Metadata),
    /// Read the metadata of a DataCapsule.
    Read(crypto::Hash),
}

/// Requests about the records of the DataCapsule that the session is bound
/// to.
#[derive(Debug)]
pub enum RWRequest {
    Write(Record),
    /// The record name and the writer's signature over it.
    Sign(crypto::Hash, Signature),
    /// The name of the record to read.
    Read(crypto::Hash),
    /// The name of the record to prove.
    Proof(crypto::Hash),
}

/// Requests for news of a DataCapsule.
#[derive(Debug)]
pub enum SubscribeRequest {
    FreshestSignedRecords,
}

} // verus!
