use datacapsule::crypto::{
    decrypt, hash_data, hash_dc_metadata, hash_record_header, sign, verify_signature, PrivateKey,
    PublicKey,
};
use datacapsule::dag::client::{verify_proof, ClientConnection, ClientResponse, ClientSync};
use datacapsule::dag::request::{ManageRequest, RWRequest, Request, Response, SubscribeRequest};
use datacapsule::dag::server::{
    best_effort_proof, handle_write, propagate_wave, propagate_waves, read_record,
    request_to_response, store_record, update_ancestor_witnesses, CapsuleStore, DCContext,
    DCServerError, Db, ServerContext,
};
use datacapsule::dag::storage::{RecordHeaderStorage, RecordWitnessStorage};
use datacapsule::dc_repr::{
    BestEffortProof, Metadata, Record, RecordBackPtr, RecordHeader, RecordWitness,
};
use datacapsule::proven::ProvenCache;
use openssl::ec::{EcGroup, EcKey};
use openssl::nid::Nid;

fn keypair() -> (PrivateKey, PublicKey) {
    let group = EcGroup::from_curve_name(Nid::X9_62_PRIME256V1).unwrap();
    let key = EcKey::generate(&group).unwrap();
    (
        PrivateKey { der: key.private_key_to_der().unwrap() },
        PublicKey { der: key.public_key_to_der().unwrap() },
    )
}

struct World {
    server: ServerContext,
    server_pk: PublicKey,
    session: Option<DCContext>,
    client: ClientConnection,
    writer_sk: PrivateKey,
    writer_pk: PublicKey,
}

fn world() -> World {
    let (server_sk, server_pk) = keypair();
    let (writer_sk, writer_pk) = keypair();
    World {
        server: ServerContext { server_name: "server1".to_string(), db: Db::new(), pk: server_sk },
        server_pk,
        session: None,
        client: ClientConnection::new(
            "client1",
            writer_sk.clone(),
            writer_pk.clone(),
            [7u8; 16],
        ),
        writer_sk,
        writer_pk,
    }
}

impl World {
    fn ask(&mut self, req: Request) -> Response {
        request_to_response(&mut self.server, &mut self.session, req)
    }

    fn round(&mut self, req: Request, sync: ClientSync) -> ClientResponse {
        let resp = self.ask(req);
        let key = self.server_pk.clone();
        self.client.response_to_client_response(&key, resp, &sync)
    }

    fn create_and_init(&mut self) -> [u8; 32] {
        let pk = self.writer_pk.clone();
        let (req, sync, dc) = self.client.manage_create_request(&pk, "bench").unwrap();
        assert!(matches!(self.round(req, sync), ClientResponse::ManageCreate));
        let (req, sync) = self.client.init_request(&dc);
        assert!(matches!(self.round(req, sync), ClientResponse::Init));
        dc
    }

    fn write(&mut self, data: &[u8], ptrs: &[[u8; 32]]) -> [u8; 32] {
        let ptrs = ptrs.iter().map(|p| RecordBackPtr { ptr: *p, offset: Some(1) }).collect();
        let (req, sync, name) = self.client.write_request(data, ptrs).unwrap();
        match self.ask(req) {
            Response::WriteData(n) => assert_eq!(n, name),
            other => panic!("unexpected {:?}", other),
        }
        let _ = sync;
        name
    }
}

#[test]
fn rw_before_init_fails() {
    let mut w = world();
    assert!(matches!(w.ask(Request::RW(RWRequest::Read([1u8; 32]))), Response::Failed));
    assert!(matches!(w.ask(Request::RW(RWRequest::Proof([1u8; 32]))), Response::Failed));
    assert!(matches!(
        w.ask(Request::RW(RWRequest::Sign([1u8; 32], vec![1]))),
        Response::Failed
    ));
    let record = Record {
        body: vec![1],
        header: RecordHeader { body_ptr: hash_data(&[1]), record_backptrs: vec![] },
    };
    assert!(matches!(w.ask(Request::RW(RWRequest::Write(record))), Response::Failed));
    assert!(w.session.is_none());
}

#[test]
fn init_of_an_unknown_capsule_fails() {
    let mut w = world();
    assert!(matches!(w.ask(Request::Init([1u8; 32])), Response::Failed));
    assert!(w.session.is_none());
    let dc = w.create_and_init();
    assert!(matches!(w.ask(Request::Init([1u8; 32])), Response::Failed));
    assert_eq!(w.session.as_ref().unwrap().dc_name, dc);
}

#[test]
fn subscribe_is_reserved() {
    let mut w = world();
    w.create_and_init();
    assert!(matches!(
        w.ask(Request::Subscribe(SubscribeRequest::FreshestSignedRecords)),
        Response::Failed
    ));
}

#[test]
fn create_checks_the_creators_signature() {
    let mut w = world();
    let pk = w.writer_pk.clone();
    let (req, _, dc) = w.client.manage_create_request(&pk, "bench").unwrap();
    let mut forged = match req {
        Request::Manage(ManageRequest::Create(dc)) => dc,
        other => panic!("unexpected {:?}", other),
    };
    assert_eq!(
        dc,
        hash_dc_metadata(&forged.creator_pub_key, &forged.writer_pub_key, "bench")
    );
    forged.description = "other".to_string();
    assert!(matches!(
        w.ask(Request::Manage(ManageRequest::Create(forged))),
        Response::Failed
    ));
    assert!(matches!(w.ask(Request::Manage(ManageRequest::Read(dc))), Response::Failed));
}

#[test]
fn create_is_countersigned_and_metadata_reads_back() {
    let mut w = world();
    let pk = w.writer_pk.clone();
    let (req, _, dc) = w.client.manage_create_request(&pk, "bench").unwrap();
    match w.ask(req) {
        Response::ManageCreate(sig) => assert!(verify_signature(&sig, &dc, &w.server_pk)),
        other => panic!("unexpected {:?}", other),
    }
    let (req, sync) = w.client.manage_read_request(&dc);
    match w.round(req, sync) {
        ClientResponse::ManageRead(m) => {
            assert_eq!(m.description, "bench");
            assert_eq!(m.writer_pub_key, w.writer_pk.der);
        }
        other => panic!("unexpected {:?}", other),
    }
    let heads = w.server.db.take_capsule(&dc).hs.get_heads();
    assert_eq!(heads, vec![dc]);
}

#[test]
fn metadata_under_another_name_is_a_cryptography_failure() {
    let mut w = world();
    let dc = w.create_and_init();
    let resp = w.ask(Request::Manage(ManageRequest::Read(dc)));
    let key = w.server_pk.clone();
    let out = w.client.response_to_client_response(&key, resp, &ClientSync::ManageRead([1u8; 32]));
    assert!(matches!(out, ClientResponse::CryptographyFail));
}

#[test]
fn a_record_with_a_wrong_body_pointer_is_refused() {
    let mut w = world();
    w.create_and_init();
    let record = Record {
        body: vec![1, 2, 3],
        header: RecordHeader { body_ptr: [0u8; 32], record_backptrs: vec![] },
    };
    let name = hash_record_header(&record.header);
    assert!(matches!(w.ask(Request::RW(RWRequest::Write(record))), Response::Failed));
    assert!(matches!(w.ask(Request::RW(RWRequest::Read(name))), Response::Failed));
}

#[test]
fn a_written_record_reads_back() {
    let mut w = world();
    let dc = w.create_and_init();
    let name = w.write(b"hello", &[dc]);
    let (req, sync) = w.client.read_request(&name);
    match w.round(req, sync) {
        ClientResponse::Read(plain, ptrs) => {
            assert_eq!(plain, b"hello".to_vec());
            assert_eq!(ptrs.len(), 1);
            assert_eq!(ptrs[0].ptr, dc);
            assert_eq!(ptrs[0].offset, Some(1));
        }
        other => panic!("unexpected {:?}", other),
    }
    match w.ask(Request::RW(RWRequest::Read(name))) {
        Response::ReadRecord(r) => {
            assert_eq!(hash_data(&r.body), r.header.body_ptr);
            assert_eq!(hash_record_header(&r.header), name);
            assert_eq!(decrypt(&r.body, &[7u8; 16]), Some(b"hello".to_vec()));
        }
        other => panic!("unexpected {:?}", other),
    }
}

#[test]
fn reading_an_unknown_record_fails() {
    let mut w = world();
    w.create_and_init();
    let (req, sync) = w.client.read_request(&[5u8; 32]);
    assert!(matches!(w.round(req, sync), ClientResponse::ServerFail));
}

#[test]
fn writing_twice_is_writing_once() {
    let mut w = world();
    let dc = w.create_and_init();
    let ptrs = vec![RecordBackPtr { ptr: dc, offset: None }];
    let (req, _, name) = w.client.write_request(b"hello", ptrs).unwrap();
    let record = match req {
        Request::RW(RWRequest::Write(r)) => r,
        other => panic!("unexpected {:?}", other),
    };
    assert!(matches!(
        w.ask(Request::RW(RWRequest::Write(record.clone()))),
        Response::WriteData(_)
    ));
    let once = w.server.db.take_capsule(&dc);
    let (heads, roots, len) = (once.hs.get_heads(), once.hs.get_roots(), once.hs.len());
    w.server.db.put_capsule(&dc, once);
    match w.ask(Request::RW(RWRequest::Write(record))) {
        Response::WriteData(n) => assert_eq!(n, name),
        other => panic!("unexpected {:?}", other),
    }
    let twice = w.server.db.take_capsule(&dc);
    assert_eq!(twice.hs.get_heads(), heads);
    assert_eq!(twice.hs.get_roots(), roots);
    assert_eq!(twice.hs.len(), len);
    assert_eq!(twice.hs.get_incoming_ptrs(&dc), Some(vec![name]));
}

#[test]
fn a_tampered_body_is_detected_by_the_client() {
    let mut w = world();
    let dc = w.create_and_init();
    let name = w.write(b"hello", &[dc]);
    let mut record = match w.ask(Request::RW(RWRequest::Read(name))) {
        Response::ReadRecord(r) => r,
        other => panic!("unexpected {:?}", other),
    };
    let last = record.body.len() - 1;
    record.body[last] ^= 1;
    let key = w.server_pk.clone();
    let out =
        w.client.response_to_client_response(&key, Response::ReadRecord(record), &ClientSync::Read(name));
    assert!(matches!(out, ClientResponse::CryptographyFail));
}

#[test]
fn a_record_under_another_name_is_detected_by_the_client() {
    let mut w = world();
    let dc = w.create_and_init();
    let a = w.write(b"hello", &[dc]);
    let b = w.write(b"world", &[a]);
    let resp = w.ask(Request::RW(RWRequest::Read(b)));
    let key = w.server_pk.clone();
    let out = w.client.response_to_client_response(&key, resp, &ClientSync::Read(a));
    assert!(matches!(out, ClientResponse::CryptographyFail));
}

#[test]
fn an_answer_of_another_kind_is_a_server_failure() {
    let mut w = world();
    let key = w.server_pk.clone();
    let out = w.client.response_to_client_response(&key, Response::Init, &ClientSync::Write);
    assert!(matches!(out, ClientResponse::ServerFail));
    let out =
        w.client.response_to_client_response(&key, Response::Failed, &ClientSync::Read([1u8; 32]));
    assert!(matches!(out, ClientResponse::ServerFail));
    let out = w.client.response_to_client_response(
        &key,
        Response::WriteData([1u8; 32]),
        &ClientSync::Write,
    );
    assert!(matches!(out, ClientResponse::Write));
}

#[test]
fn sign_with_a_bad_signature_fails_and_stores_nothing() {
    let mut w = world();
    let dc = w.create_and_init();
    let name = w.write(b"hello", &[dc]);
    let (other_sk, _) = keypair();
    let bad = sign(&name, &other_sk).unwrap();
    assert!(matches!(w.ask(Request::RW(RWRequest::Sign(name, bad))), Response::Failed));
    let store = w.server.db.take_capsule(&dc);
    assert!(matches!(store.ws.get(&name), RecordWitness::Unknown));
}

#[test]
fn linear_chain_with_witness() {
    // write r1 <- r2 <- r3, sign r3, prove r1
    let mut w = world();
    let dc = w.create_and_init();
    let r1 = w.write(b"one", &[dc]);
    let r2 = w.write(b"two", &[r1]);
    let r3 = w.write(b"three", &[r2]);
    let (req, sync) = w.client.sign_request(&r3).unwrap();
    let resp = w.ask(req);
    match &resp {
        Response::WriteSign((n, sig)) => {
            assert_eq!(*n, r3);
            assert!(verify_signature(sig, &r3, &w.server_pk));
        }
        other => panic!("unexpected {:?}", other),
    }
    let key = w.server_pk.clone();
    assert!(matches!(
        w.client.response_to_client_response(&key, resp, &sync),
        ClientResponse::Sign
    ));

    let store = w.server.db.take_capsule(&dc);
    assert!(matches!(store.ws.get(&r3), RecordWitness::Signature(_)));
    match store.ws.get(&r2) {
        RecordWitness::NextRecordPtr(n, 1) => assert_eq!(n, r3),
        other => panic!("unexpected {:?}", other),
    }
    match store.ws.get(&r1) {
        RecordWitness::NextRecordPtr(n, 2) => assert_eq!(n, r2),
        other => panic!("unexpected {:?}", other),
    }
    w.server.db.put_capsule(&dc, store);

    let proof = match w.ask(Request::RW(RWRequest::Proof(r1))) {
        Response::ReadProof(p) => p,
        other => panic!("unexpected {:?}", other),
    };
    let names: Vec<[u8; 32]> = proof.chain.iter().map(hash_record_header).collect();
    assert_eq!(names, vec![r1, r2, r3]);
    match &proof.signature {
        Some((n, sig)) => {
            assert_eq!(*n, r3);
            assert!(verify_signature(sig, &r3, &w.writer_pk));
        }
        None => panic!("no signature"),
    }
    let out = w.client.response_to_client_response(
        &key,
        Response::ReadProof(proof),
        &ClientSync::Proof(r1),
    );
    assert!(matches!(out, ClientResponse::Proof(true)));
    assert!(w.client.proven_hash_cache.contains(&r1));
    assert!(w.client.proven_hash_cache.contains(&r2));
    assert!(w.client.proven_hash_cache.contains(&r3));
    assert!(!w.client.proven_hash_cache.contains(&dc));

    // the server mirrors the cache: the next proof of r2 stops at r2
    let proof = match w.ask(Request::RW(RWRequest::Proof(r2))) {
        Response::ReadProof(p) => p,
        other => panic!("unexpected {:?}", other),
    };
    assert_eq!(proof.chain.len(), 1);
    assert!(proof.signature.is_none());
}

#[test]
fn a_proof_of_the_signed_record_itself_is_accepted() {
    let mut w = world();
    let dc = w.create_and_init();
    let r1 = w.write(b"one", &[dc]);
    let (req, _) = w.client.sign_request(&r1).unwrap();
    assert!(matches!(w.ask(req), Response::WriteSign(_)));
    let (req, sync) = w.client.proof_request(&r1);
    assert!(matches!(w.round(req, sync), ClientResponse::Proof(true)));
}

#[test]
fn a_proof_without_witness_is_partial_and_not_accepted() {
    let mut w = world();
    let dc = w.create_and_init();
    let r1 = w.write(b"one", &[dc]);
    let proof = match w.ask(Request::RW(RWRequest::Proof(r1))) {
        Response::ReadProof(p) => p,
        other => panic!("unexpected {:?}", other),
    };
    assert_eq!(proof.chain.len(), 1);
    assert!(proof.signature.is_none());
    let key = w.server_pk.clone();
    let out = w.client.response_to_client_response(
        &key,
        Response::ReadProof(proof),
        &ClientSync::Proof(r1),
    );
    assert!(matches!(out, ClientResponse::Proof(false)));
    assert!(!w.client.proven_hash_cache.contains(&r1));

    let proof = match w.ask(Request::RW(RWRequest::Proof([3u8; 32]))) {
        Response::ReadProof(p) => p,
        other => panic!("unexpected {:?}", other),
    };
    assert!(proof.chain.is_empty());
    assert!(proof.signature.is_none());
}

fn header(body: u8, ptrs: &[[u8; 32]]) -> RecordHeader {
    RecordHeader {
        body_ptr: [body; 32],
        record_backptrs: ptrs.iter().map(|p| RecordBackPtr { ptr: *p, offset: None }).collect(),
    }
}

fn signed_chain(sk: &PrivateKey) -> (Vec<RecordHeader>, Vec<[u8; 32]>, Vec<u8>) {
    let first = header(1, &[[100u8; 32]]);
    let first_name = hash_record_header(&first);
    let second = header(2, &[[50u8; 32], first_name]);
    let second_name = hash_record_header(&second);
    let third = header(3, &[second_name]);
    let third_name = hash_record_header(&third);
    let sig = sign(&third_name, sk).unwrap();
    (vec![first, second, third], vec![first_name, second_name, third_name], sig)
}

#[test]
fn verify_proof_accepts_a_linked_chain_to_a_signed_header() {
    let (sk, pk) = keypair();
    let (chain, names, sig) = signed_chain(&sk);
    let mut cache = ProvenCache::new();
    let proof = BestEffortProof { chain, signature: Some((names[2], sig)) };
    assert!(verify_proof(&names[0], &proof, &pk, &mut cache).is_ok());
    for n in &names {
        assert!(cache.contains(n));
    }
}

#[test]
fn verify_proof_rejects_a_bad_signature() {
    let (sk, pk) = keypair();
    let (other_sk, _) = keypair();
    let (chain, names, _) = signed_chain(&sk);
    let mut cache = ProvenCache::new();
    let bad = sign(&names[2], &other_sk).unwrap();
    let proof = BestEffortProof { chain, signature: Some((names[2], bad)) };
    assert!(verify_proof(&names[0], &proof, &pk, &mut cache).is_err());
    for n in &names {
        assert!(!cache.contains(n));
    }
}

#[test]
fn verify_proof_rejects_a_broken_link() {
    let (sk, pk) = keypair();
    let (mut chain, names, sig) = signed_chain(&sk);
    chain[1] = header(2, &[[50u8; 32]]);
    let mut cache = ProvenCache::new();
    let proof = BestEffortProof { chain, signature: Some((names[2], sig)) };
    assert!(verify_proof(&names[0], &proof, &pk, &mut cache).is_err());
    // nothing of a proof that was not accepted is remembered
    assert!(!cache.contains(&names[0]));
    assert!(!cache.contains(&names[2]));
}

#[test]
fn verify_proof_rejects_a_signed_header_that_does_not_point_back() {
    // the last header is signed, but it is no descendant of the target
    let (sk, pk) = keypair();
    let target = header(1, &[[100u8; 32]]);
    let target_name = hash_record_header(&target);
    let stranger = header(2, &[[50u8; 32]]);
    let stranger_name = hash_record_header(&stranger);
    let sig = sign(&stranger_name, &sk).unwrap();
    let mut cache = ProvenCache::new();
    let proof = BestEffortProof {
        chain: vec![target, stranger],
        signature: Some((stranger_name, sig)),
    };
    assert!(verify_proof(&target_name, &proof, &pk, &mut cache).is_err());
    assert!(!cache.contains(&target_name));
    assert!(!cache.contains(&stranger_name));
}

#[test]
fn verify_proof_rejects_a_chain_that_starts_elsewhere() {
    let (sk, pk) = keypair();
    let (chain, names, sig) = signed_chain(&sk);
    let mut cache = ProvenCache::new();
    let proof = BestEffortProof { chain, signature: Some((names[2], sig)) };
    assert!(verify_proof(&[9u8; 32], &proof, &pk, &mut cache).is_err());
}

#[test]
fn verify_proof_rejects_a_chain_without_signature_or_cache() {
    let (sk, pk) = keypair();
    let (chain, names, _) = signed_chain(&sk);
    let mut cache = ProvenCache::new();
    let proof = BestEffortProof { chain, signature: None };
    assert!(verify_proof(&names[0], &proof, &pk, &mut cache).is_err());
    let empty = BestEffortProof { chain: vec![], signature: None };
    assert!(verify_proof(&names[0], &empty, &pk, &mut cache).is_err());
}

#[test]
fn verify_proof_stops_at_a_cached_name() {
    let (sk, pk) = keypair();
    let (chain, names, sig) = signed_chain(&sk);
    let mut cache = ProvenCache::new();
    let whole = BestEffortProof { chain: chain.clone(), signature: Some((names[2], sig)) };
    assert!(verify_proof(&names[1], &BestEffortProof { chain: chain[1..].to_vec(), signature: whole.signature.clone() }, &pk, &mut cache).is_ok());
    assert!(cache.contains(&names[1]));
    assert!(!cache.contains(&names[0]));
    // now a chain from the first record to the second needs no signature
    let short = BestEffortProof { chain: chain[..2].to_vec(), signature: None };
    assert!(verify_proof(&names[0], &short, &pk, &mut cache).is_ok());
    assert!(cache.contains(&names[0]));
}

#[test]
fn verify_proof_accepts_a_signature_over_the_target() {
    let (sk, pk) = keypair();
    let target = [4u8; 32];
    let sig = sign(&target, &sk).unwrap();
    let mut cache = ProvenCache::new();
    let proof = BestEffortProof { chain: vec![], signature: Some((target, sig)) };
    assert!(verify_proof(&target, &proof, &pk, &mut cache).is_ok());
    assert!(cache.contains(&target));
}

#[test]
fn propagation_reaches_all_ancestors_with_their_distance() {
    // a diamond: 1 <- 2, 1 <- 3, {2, 3} <- 4
    let mut hs = RecordHeaderStorage::new();
    let mut ws = RecordWitnessStorage::new();
    let n = |x: u8| [x; 32];
    hs.store(&n(1), &header(1, &[]));
    hs.store(&n(2), &header(2, &[n(1)]));
    hs.store(&n(3), &header(3, &[n(1)]));
    hs.store(&n(4), &header(4, &[n(2), n(3)]));
    ws.update_record_witness(&n(4), &RecordWitness::Signature(vec![1]));
    assert!(update_ancestor_witnesses(&n(4), &hs, &mut ws).is_ok());
    assert!(matches!(ws.get(&n(2)), RecordWitness::NextRecordPtr(p, 1) if p == n(4)));
    assert!(matches!(ws.get(&n(3)), RecordWitness::NextRecordPtr(p, 1) if p == n(4)));
    // both branches reach the first record at distance 2; the later offer stands
    assert!(matches!(ws.get(&n(1)), RecordWitness::NextRecordPtr(p, 2) if p == n(3)));
    assert!(matches!(ws.get(&n(4)), RecordWitness::Signature(_)));
}

#[test]
fn propagation_stops_where_a_closer_witness_stands() {
    let mut hs = RecordHeaderStorage::new();
    let mut ws = RecordWitnessStorage::new();
    let n = |x: u8| [x; 32];
    hs.store(&n(1), &header(1, &[]));
    hs.store(&n(2), &header(2, &[n(1)]));
    hs.store(&n(3), &header(3, &[n(2)]));
    hs.store(&n(4), &header(4, &[n(3)]));
    ws.update_record_witness(&n(2), &RecordWitness::Signature(vec![2]));
    ws.update_record_witness(&n(1), &RecordWitness::NextRecordPtr(n(2), 1));
    assert!(update_ancestor_witnesses(&n(4), &hs, &mut ws).is_ok());
    assert!(matches!(ws.get(&n(3)), RecordWitness::NextRecordPtr(p, 1) if p == n(4)));
    assert!(matches!(ws.get(&n(2)), RecordWitness::Signature(_)));
    assert!(matches!(ws.get(&n(1)), RecordWitness::NextRecordPtr(p, 1) if p == n(2)));
}

#[test]
fn propagation_fails_at_a_hole() {
    let mut hs = RecordHeaderStorage::new();
    let mut ws = RecordWitnessStorage::new();
    let n = |x: u8| [x; 32];
    hs.store(&n(3), &header(3, &[n(2)]));
    assert!(update_ancestor_witnesses(&n(3), &hs, &mut ws).is_err());
    assert!(update_ancestor_witnesses(&n(9), &hs, &mut ws).is_err());
    assert!(matches!(ws.get(&n(2)), RecordWitness::Unknown));
}

#[test]
fn propagation_gives_up_when_the_distance_runs_out() {
    let mut hs = RecordHeaderStorage::new();
    let mut ws = RecordWitnessStorage::new();
    let n = |x: u8| [x; 32];
    hs.store(&n(1), &header(1, &[]));
    hs.store(&n(2), &header(2, &[n(1)]));
    hs.store(&n(3), &header(3, &[n(2)]));
    let wave = vec![(n(2), n(3))];
    assert!(matches!(
        propagate_waves(&hs, &mut ws, wave.clone(), u64::MAX),
        Err(DCServerError::Other(_))
    ));
    let mut ws = RecordWitnessStorage::new();
    assert!(propagate_waves(&hs, &mut ws, wave, u64::MAX - 1).is_ok());
    assert!(matches!(ws.get(&n(1)), RecordWitness::NextRecordPtr(p, u64::MAX) if p == n(2)));
    assert!(matches!(
        propagate_waves(&hs, &mut ws, vec![(n(9), n(3))], 1),
        Err(DCServerError::MissingStorage(_))
    ));
}

#[test]
fn storing_and_reading_report_what_went_wrong() {
    let mut store = CapsuleStore::new(&[1u8; 32]);
    let bad = Record {
        body: vec![1],
        header: RecordHeader { body_ptr: [0u8; 32], record_backptrs: vec![] },
    };
    assert!(matches!(
        store_record(&bad, &mut store.bs, &mut store.hs),
        Err(DCServerError::Cryptographic(_))
    ));
    assert!(matches!(
        read_record(&[5u8; 32], &store.bs, &store.hs),
        Err(DCServerError::MissingStorage(_))
    ));
    // a header whose body is not stored
    store.hs.store(&[6u8; 32], &header(7, &[]));
    assert!(matches!(
        read_record(&[6u8; 32], &store.bs, &store.hs),
        Err(DCServerError::MissingStorage(_))
    ));
    let good = Record {
        body: vec![1],
        header: RecordHeader { body_ptr: hash_data(&[1]), record_backptrs: vec![] },
    };
    let name = store_record(&good, &mut store.bs, &mut store.hs).unwrap();
    assert_eq!(read_record(&name, &store.bs, &store.hs).unwrap().body, vec![1]);
}

#[test]
fn one_wave_offers_each_record_its_descendant() {
    let mut hs = RecordHeaderStorage::new();
    let mut ws = RecordWitnessStorage::new();
    let n = |x: u8| [x; 32];
    hs.store(&n(1), &header(1, &[n(7), n(8)]));
    hs.store(&n(2), &header(2, &[n(9)]));
    ws.update_record_witness(&n(2), &RecordWitness::NextRecordPtr(n(5), 1));
    let next = propagate_wave(&hs, &mut ws, &vec![(n(1), n(3)), (n(2), n(3))], 4).unwrap();
    assert_eq!(next, vec![(n(7), n(1)), (n(8), n(1))]);
    assert!(matches!(ws.get(&n(1)), RecordWitness::NextRecordPtr(p, 4) if p == n(3)));
    assert!(matches!(ws.get(&n(2)), RecordWitness::NextRecordPtr(p, 1) if p == n(5)));
}

#[test]
fn a_proof_walk_does_not_hang_on_a_cycle_of_witnesses() {
    let mut hs = RecordHeaderStorage::new();
    let mut ws = RecordWitnessStorage::new();
    let n = |x: u8| [x; 32];
    hs.store(&n(1), &header(1, &[n(2)]));
    hs.store(&n(2), &header(2, &[n(1)]));
    ws.update_record_witness(&n(1), &RecordWitness::NextRecordPtr(n(2), 1));
    ws.update_record_witness(&n(2), &RecordWitness::NextRecordPtr(n(1), 1));
    let mut cache = ProvenCache::new();
    let proof = best_effort_proof(&n(1), &hs, &ws, &mut cache);
    assert_eq!(proof.chain.len(), 2);
    assert!(proof.signature.is_none());
}

#[test]
fn handle_write_returns_the_record_name() {
    let mut store = CapsuleStore::new(&[1u8; 32]);
    let body = vec![1u8, 2, 3];
    let record = Record {
        header: RecordHeader {
            body_ptr: hash_data(&body),
            record_backptrs: vec![RecordBackPtr { ptr: [1u8; 32], offset: None }],
        },
        body,
    };
    let name = hash_record_header(&record.header);
    assert!(matches!(handle_write(&record, &mut store), Response::WriteData(n) if n == name));
    assert_eq!(store.hs.get_heads(), vec![name]);
    assert_eq!(store.bs.get(&record.header.body_ptr), Some(vec![1, 2, 3]));
}

#[test]
fn the_metadata_of_a_request_carries_the_clients_keys() {
    let w = world();
    let (req, sync, hash) = w.client.manage_create_request(&w.writer_pk, "d").unwrap();
    let dc: Metadata = match req {
        Request::Manage(ManageRequest::Create(dc)) => dc,
        other => panic!("unexpected {:?}", other),
    };
    assert_eq!(dc.creator_pub_key, w.writer_pk.der);
    assert!(verify_signature(&dc.signature, &hash, &w.writer_pk));
    assert!(matches!(sync, ClientSync::ManageCreate(h) if h == hash));
    let _ = &w.writer_sk;
}

#[test]
fn a_large_batch_of_writes_is_answered_in_order() {
    let mut w = world();
    let dc = w.create_and_init();
    let mut requests = Vec::new();
    let mut syncs = Vec::new();
    let mut names = Vec::new();
    let mut prev = dc;
    for i in 0..300u32 {
        let ptrs = vec![RecordBackPtr { ptr: prev, offset: Some(1) }];
        let (req, sync, name) = w.client.write_request(&i.to_le_bytes(), ptrs).unwrap();
        requests.push(req);
        syncs.push(sync);
        names.push(name);
        prev = name;
    }
    let responses: Vec<Response> = requests.into_iter().map(|r| w.ask(r)).collect();
    for (resp, name) in responses.iter().zip(names.iter()) {
        assert!(matches!(resp, Response::WriteData(n) if n == name));
    }
    let key = w.server_pk.clone();
    let out = w.client.responses_to_client_responses(&key, responses, &syncs);
    assert_eq!(out.len(), 300);
    assert!(out.iter().all(|r| matches!(r, ClientResponse::Write)));
    let store = w.server.db.take_capsule(&dc);
    assert_eq!(store.hs.len(), 300);
    assert_eq!(store.hs.get_heads(), vec![prev]);
}

#[test]
fn a_batch_is_checked_in_order() {
    let mut w = world();
    let dc = w.create_and_init();
    let r1 = w.write(b"one", &[dc]);
    let (q1, s1) = w.client.read_request(&r1);
    let (q2, s2) = w.client.read_request(&[9u8; 32]);
    let (q3, s3) = w.client.init_request(&dc);
    let resps = vec![w.ask(q1), w.ask(q2), w.ask(q3)];
    let key = w.server_pk.clone();
    let out = w.client.responses_to_client_responses(&key, resps, &[s1, s2, s3]);
    assert_eq!(out.len(), 3);
    assert!(matches!(&out[0], ClientResponse::Read(p, _) if p == b"one"));
    assert!(matches!(out[1], ClientResponse::ServerFail));
    assert!(matches!(out[2], ClientResponse::Init));
}

#[test]
fn the_answer_for_a_name_proven_before_is_accepted() {
    let mut w = world();
    let dc = w.create_and_init();
    let r1 = w.write(b"one", &[dc]);
    let r2 = w.write(b"two", &[r1]);
    let (req, sync) = w.client.sign_request(&r2).unwrap();
    assert!(matches!(w.round(req, sync), ClientResponse::Sign));
    let (req, sync) = w.client.proof_request(&r1);
    assert!(matches!(w.round(req, sync), ClientResponse::Proof(true)));
    // the server now answers with the header of the record alone
    let proof = match w.ask(Request::RW(RWRequest::Proof(r1))) {
        Response::ReadProof(p) => p,
        other => panic!("unexpected {:?}", other),
    };
    assert_eq!(proof.chain.len(), 1);
    assert!(proof.signature.is_none());
    let key = w.server_pk.clone();
    let out = w.client.response_to_client_response(
        &key,
        Response::ReadProof(proof),
        &ClientSync::Proof(r1),
    );
    assert!(matches!(out, ClientResponse::Proof(true)));
    assert!(w.client.proven_hash_cache.contains(&r1));
}

#[test]
fn verify_proof_accepts_the_header_of_a_cached_target() {
    let (sk, pk) = keypair();
    let (chain, names, _) = signed_chain(&sk);
    let mut cache = ProvenCache::new();
    let alone = BestEffortProof { chain: chain[..1].to_vec(), signature: None };
    assert!(verify_proof(&names[0], &alone, &pk, &mut cache).is_err());
    assert!(!cache.contains(&names[0]));
    let whole = BestEffortProof { chain: chain[2..].to_vec(), signature: None };
    assert!(verify_proof(&names[2], &whole, &pk, &mut cache).is_err());
    let signed = sign(&names[0], &sk).unwrap();
    let own = BestEffortProof { chain: chain[..1].to_vec(), signature: Some((names[0], signed)) };
    assert!(verify_proof(&names[0], &own, &pk, &mut cache).is_ok());
    assert!(verify_proof(&names[0], &alone, &pk, &mut cache).is_ok());
    // the header of another record does not stand for the target
    let other = BestEffortProof { chain: chain[1..2].to_vec(), signature: None };
    assert!(verify_proof(&names[0], &other, &pk, &mut cache).is_err());
}

#[test]
fn answers_other_than_proofs_leave_the_proven_names() {
    let mut w = world();
    let dc = w.create_and_init();
    let r1 = w.write(b"one", &[dc]);
    let (req, sync) = w.client.sign_request(&r1).unwrap();
    assert!(matches!(w.round(req, sync), ClientResponse::Sign));
    let (req, sync) = w.client.proof_request(&r1);
    assert!(matches!(w.round(req, sync), ClientResponse::Proof(true)));
    assert!(w.client.proven_hash_cache.contains(&r1));
    let (req, sync) = w.client.read_request(&r1);
    assert!(matches!(w.round(req, sync), ClientResponse::Read(_, _)));
    assert!(w.client.proven_hash_cache.contains(&r1));
    let (req, sync) = w.client.manage_read_request(&dc);
    assert!(matches!(w.round(req, sync), ClientResponse::ManageRead(_)));
    assert!(w.client.proven_hash_cache.contains(&r1));
    let key = w.server_pk.clone();
    let out = w.client.response_to_client_response(&key, Response::Failed, &ClientSync::Read(r1));
    assert!(matches!(out, ClientResponse::ServerFail));
    assert!(w.client.proven_hash_cache.contains(&r1));
    // a proof with a bad signature proves nothing and changes nothing
    let (other_sk, _) = keypair();
    let bad = BestEffortProof {
        chain: vec![],
        signature: Some((r1, sign(&r1, &other_sk).unwrap())),
    };
    let out = w.client.response_to_client_response(
        &key,
        Response::ReadProof(bad),
        &ClientSync::Proof(r1),
    );
    assert!(matches!(out, ClientResponse::Proof(false)));
    assert!(w.client.proven_hash_cache.contains(&r1));
    // a new session starts with nothing proven
    let (req, sync) = w.client.init_request(&dc);
    assert!(matches!(w.round(req, sync), ClientResponse::Init));
    assert!(!w.client.proven_hash_cache.contains(&r1));
}

#[test]
fn propagation_marks_what_it_reaches_before_a_hole() {
    let mut hs = RecordHeaderStorage::new();
    let mut ws = RecordWitnessStorage::new();
    let n = |x: u8| [x; 32];
    hs.store(&n(2), &header(2, &[n(1)]));
    hs.store(&n(3), &header(3, &[n(2)]));
    ws.update_record_witness(&n(3), &RecordWitness::Signature(vec![1]));
    // the header of the first record is not stored
    assert!(matches!(
        update_ancestor_witnesses(&n(3), &hs, &mut ws),
        Err(DCServerError::MissingStorage(_))
    ));
    match ws.get(&n(2)) {
        RecordWitness::NextRecordPtr(next, 1) => assert_eq!(next, n(3)),
        other => panic!("unexpected {:?}", other),
    }
    assert!(matches!(ws.get(&n(1)), RecordWitness::Unknown));
    assert!(matches!(ws.get(&n(3)), RecordWitness::Signature(_)));
}

#[test]
fn every_pointer_leads_to_a_closer_witness() {
    let mut w = world();
    let dc = w.create_and_init();
    let r1 = w.write(b"one", &[dc]);
    let r2 = w.write(b"two", &[r1]);
    let r3 = w.write(b"three", &[r2, r1]);
    let r4 = w.write(b"four", &[r3]);
    for signed in [r4, r2] {
        let (req, sync) = w.client.sign_request(&signed).unwrap();
        assert!(matches!(w.round(req, sync), ClientResponse::Sign));
    }
    let store = w.server.db.take_capsule(&dc);
    for name in [r1, r2, r3, r4] {
        let own = store.ws.get(&name);
        match &own {
            RecordWitness::NextRecordPtr(next, distance) => {
                assert!(*distance >= 1);
                assert!(store.ws.get(next).closer_than(&own));
            }
            RecordWitness::Signature(_) => {}
            RecordWitness::Unknown => panic!("no witness"),
        }
    }
    match store.ws.get(&r1) {
        RecordWitness::NextRecordPtr(next, 1) => assert_eq!(next, r2),
        other => panic!("unexpected {:?}", other),
    }
}

#[test]
fn heads_and_roots_follow_the_stored_records() {
    let mut hs = RecordHeaderStorage::new();
    let n = |x: u8| [x; 32];
    hs.set_heads(&vec![n(0)]);
    hs.set_roots(&vec![n(0)]);
    let sorted = |mut names: Vec<[u8; 32]>| {
        names.sort();
        names
    };
    hs.store(&n(1), &header(1, &[n(0)]));
    assert_eq!(sorted(hs.get_heads()), vec![n(1)]);
    assert_eq!(sorted(hs.get_roots()), vec![n(0), n(1)]);
    hs.store(&n(2), &header(2, &[n(1)]));
    assert_eq!(sorted(hs.get_heads()), vec![n(2)]);
    assert_eq!(sorted(hs.get_roots()), vec![n(0), n(1)]);
    // a record above a hole, and then the record that fills the hole
    hs.store(&n(5), &header(5, &[n(4)]));
    assert_eq!(sorted(hs.get_heads()), vec![n(2), n(5)]);
    assert_eq!(sorted(hs.get_roots()), vec![n(0), n(1), n(5)]);
    hs.store(&n(4), &header(4, &[n(2)]));
    assert_eq!(sorted(hs.get_heads()), vec![n(5)]);
    assert_eq!(sorted(hs.get_roots()), vec![n(0), n(1)]);
    assert_eq!(hs.get_incoming_ptrs(&n(2)), Some(vec![n(4)]));
    assert_eq!(hs.get_incoming_ptrs(&n(4)), Some(vec![n(5)]));
}
