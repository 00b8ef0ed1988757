//! The data model: capsule metadata, records, headers and witnesses.

use vstd::prelude::*;
use crate::crypto;
use crate::crypto::Signature;

verus! {

/// The root object of a DataCapsule. Its hash is the capsule's name.
#[derive(Debug)]
pub struct Metadata {
    pub creator_pub_key: Vec<u8>,
    pub writer_pub_key: Vec<u8>,
    pub description: String,
    pub signature: Signature,
}

/// What a `Metadata` holds, as mathematical values.
pub struct MetadataView {
    pub creator_pub_key: Seq<u8>,
    pub writer_pub_key: Seq<u8>,
    pub description: Seq<char>,
    pub signature: Seq<u8>,
}

impl View for Metadata {
    type V = MetadataView;

    open spec fn view(&self) -> MetadataView {
        MetadataView {
            creator_pub_key: self.creator_pub_key@,
            writer_pub_key: self.writer_pub_key@,
            description: self.description@,
            signature: self.signature@,
        }
    }
}

impl Clone for Metadata {
    fn clone(&self) -> (copy: Self)
        ensures
            copy@ == self@,
    {
        Metadata {
            creator_pub_key: self.creator_pub_key.clone(),
            writer_pub_key: self.writer_pub_key.clone(),
            description: self.description.clone(),
            signature: self.signature.clone(),
        }
    }
}

/// Ciphertext bytes of a record.
pub type RecordBody = Vec<u8>;

/// A hash pointer from a record to a predecessor. The offset is an advisory
/// hint and takes no part in the record's name.
#[derive(Clone, Copy, Debug)]
pub struct RecordBackPtr {
    pub ptr: crypto::Hash,
    pub offset: Option<u64>,
}

/// The header of a record; its hash is the record's name.
#[derive(Debug)]
pub struct RecordHeader {
    pub body_ptr: crypto::Hash,
    pub record_backptrs: Vec<RecordBackPtr>,
}

/// What a `RecordHeader` holds, as mathematical values.
pub struct RecordHeaderView {
    pub body_ptr: crypto::Hash,
    pub record_backptrs: Seq<RecordBackPtr>,
}

impl RecordHeaderView {
    /// The predecessors that the header points to, in order.
    pub open spec fn ptrs(self) -> Seq<crypto::Hash> {
        self.record_backptrs.map_values(|p: RecordBackPtr| p.ptr)
    }
}

impl View for RecordHeader {
    type V = RecordHeaderView;

    open spec fn view(&self) -> RecordHeaderView {
        RecordHeaderView { body_ptr: self.body_ptr, record_backptrs: self.record_backptrs@ }
    }
}

impl Clone for RecordHeader {
    fn clone(&self) -> (copy: Self)
        ensures
            copy@ == self@,
    {
        RecordHeader { body_ptr: self.body_ptr, record_backptrs: self.record_backptrs.clone() }
    }
}

/// A record: a body and the header that points to it.
#[derive(Debug)]
pub struct Record {
    pub body: RecordBody,
    pub header: RecordHeader,
}

/// What a `Record` holds, as mathematical values.
pub struct RecordView {
    pub body: Seq<u8>,
    pub header: RecordHeaderView,
}

impl View for Record {
    type V = RecordView;

    open spec fn view(&self) -> RecordView {
        RecordView { body: self.body@, header: self.header@ }
    }
}

impl Clone for Record {
    fn clone(&self) -> (copy: Self)
        ensures
            copy@ == self@,
    {
        Record { body: self.body.clone(), header: self.header.clone() }
    }
}

/// The closest known evidence that a record lies on a chain that ends in a
/// writer signature.
#[derive(Debug)]
pub enum RecordWitness {
    /// The record's own name was signed by the writer.
    Signature(Signature),
    /// The named descendant has a closer witness; the number is the count of
    /// hops to the signed record.
    NextRecordPtr(crypto::Hash, u64),
    /// Nothing is known.
    Unknown,
}

/// What a `RecordWitness` holds, as mathematical values.
pub enum WitnessView {
    Signature(Seq<u8>),
    NextRecordPtr(crypto::Hash, u64),
    Unknown,
}

impl WitnessView {
    /// The position of a witness in the order `Signature < NextRecordPtr(_, d)
    /// < Unknown`, with `NextRecordPtr` ordered by its distance.
    pub open spec fn rank(self) -> int {
        match self {
            WitnessView::Signature(_) => 0,
            WitnessView::NextRecordPtr(_, d) => 1 + d,
            WitnessView::Unknown => 2 + u64::MAX,
        }
    }

    /// Whether `self` is strictly closer to a signature than `other`.
    pub open spec fn closer_than(self, other: WitnessView) -> bool {
        self.rank() < other.rank()
    }

    /// The closer of two witnesses; the second one on a tie.
    pub open spec fn closer(self, other: WitnessView) -> WitnessView {
        if self.closer_than(other) {
            self
        } else {
            other
        }
    }
}

impl View for RecordWitness {
    type V = WitnessView;

    open spec fn view(&self) -> WitnessView {
        match self {
            RecordWitness::Signature(s) => WitnessView::Signature(s@),
            RecordWitness::NextRecordPtr(h, d) => WitnessView::NextRecordPtr(*h, *d),
            RecordWitness::Unknown => WitnessView::Unknown,
        }
    }
}

impl Clone for RecordWitness {
    fn clone(&self) -> (copy: Self)
        ensures
            copy@ == self@,
    {
        match self {
            RecordWitness::Signature(s) => RecordWitness::Signature(s.clone()),
            RecordWitness::NextRecordPtr(h, d) => RecordWitness::NextRecordPtr(*h, *d),
            RecordWitness::Unknown => RecordWitness::Unknown,
        }
    }
}

impl RecordWitness {
    /// Whether `self` is strictly closer to a signature than `other`.
    pub fn closer_than(&self, other: &RecordWitness) -> (closer: bool)
        ensures
            closer == self@.closer_than(other@),
    {
        match (self, other) {
            (RecordWitness::Unknown, _) => false,
            (RecordWitness::Signature(_), RecordWitness::Signature(_)) => false,
            (RecordWitness::Signature(_), _) => true,
            (RecordWitness::NextRecordPtr(_, _), RecordWitness::Unknown) => true,
            (RecordWitness::NextRecordPtr(_, _), RecordWitness::Signature(_)) => false,
            (RecordWitness::NextRecordPtr(_, d1), RecordWitness::NextRecordPtr(_, d2)) => *d1
                < *d2,
        }
    }

    /// The closer of two witnesses; `w2` on a tie.
    pub fn closer<'a>(w1: &'a RecordWitness, w2: &'a RecordWitness) -> (w: &'a RecordWitness)
        ensures
            w@ == w1@.closer(w2@),
            *w == *w1 || *w == *w2,
    {
        if w1.closer_than(w2) {
            w1
        } else {
            w2
        }
    }

    /// Reads a stored witness: an absent row stands for `Unknown`.
    pub fn from_stored(stored: Option<RecordWitness>) -> (w: RecordWitness)
        ensures
            w@ == spec_stored_witness(stored),
    {
        match stored {
            Some(w) => w,
            None => RecordWitness::Unknown,
        }
    }
}

/// The witness that a stored row, or its absence, stands for.
pub open spec fn spec_stored_witness(stored: Option<RecordWitness>) -> WitnessView {
    match stored {
        Some(w) => w@,
        None => WitnessView::Unknown,
    }
}

/// The closer of two witnesses; `w1` on a tie.
pub open spec fn spec_closer_witness(w1: WitnessView, w2: WitnessView) -> WitnessView {
    if w2.closer_than(w1) {
        w2
    } else {
        w1
    }
}

/// The closer of two witnesses; `w1` on a tie.
pub fn closer_witness<'a>(w1: &'a RecordWitness, w2: &'a RecordWitness) -> (w: &'a RecordWitness)
    ensures
        w@ == spec_closer_witness(w1@, w2@),
        *w == *w1 || *w == *w2,
{
    if w2.closer_than(w1) {
        w2
    } else {
        w1
    }
}

/// `closer_than` is a strict order on witnesses: nothing is closer than
/// itself, and closeness carries over a middle witness.
pub proof fn lemma_closer_than_strict_order(a: WitnessView, b: WitnessView, c: WitnessView)
    ensures
        !a.closer_than(a),
        a.closer_than(b) ==> !b.closer_than(a),
        a.closer_than(b) && b.closer_than(c) ==> a.closer_than(c),
{
}

/// `Signature < NextRecordPtr(_, d1) < NextRecordPtr(_, d2) < Unknown` whenever
/// `d1 < d2`.
pub proof fn lemma_witness_order(s: Seq<u8>, h1: crypto::Hash, d1: u64, h2: crypto::Hash, d2: u64)
    requires
        d1 < d2,
    ensures
        WitnessView::Signature(s).closer_than(WitnessView::NextRecordPtr(h1, d1)),
        WitnessView::NextRecordPtr(h1, d1).closer_than(WitnessView::NextRecordPtr(h2, d2)),
        WitnessView::NextRecordPtr(h2, d2).closer_than(WitnessView::Unknown),
{
}

/// Joining a stored witness with a proposed one never moves it further from
/// a signature: the result is as close as the stored witness and as close as
/// the proposed one, and it is one of the two.
pub proof fn lemma_closer_is_monotone_join(stored: WitnessView, proposed: WitnessView)
    ensures
        !stored.closer_than(stored.closer(proposed)),
        !proposed.closer_than(stored.closer(proposed)),
        stored.closer(proposed) == stored || stored.closer(proposed) == proposed,
        stored.closer(stored) == stored,
{
}

/// A signature wins over any pointer to a descendant.
pub proof fn lemma_signature_wins(stored: WitnessView, sig: Seq<u8>)
    ensures
        stored.closer(WitnessView::Signature(sig)) is Signature,
{
}

/// A best-effort proof: headers from the record to prove up to the nearest
/// witness, earlier records first, and the signature at the end if one was
/// found.
#[derive(Debug)]
pub struct BestEffortProof {
    pub chain: Vec<RecordHeader>,
    pub signature: Option<(crypto::Hash, Signature)>,
}

/// What a `BestEffortProof` holds, as mathematical values.
pub struct BestEffortProofView {
    pub chain: Seq<RecordHeaderView>,
    pub signature: Option<(crypto::Hash, Seq<u8>)>,
}

impl View for BestEffortProof {
    type V = BestEffortProofView;

    open spec fn view(&self) -> BestEffortProofView {
        BestEffortProofView {
            chain: self.chain@.map_values(|h: RecordHeader| h@),
            signature: match self.signature {
                Some((h, s)) => Some((h, s@)),
                None => None,
            },
        }
    }
}

} // verus!
