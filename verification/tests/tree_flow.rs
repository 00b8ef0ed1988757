use datacapsule::crypto::{
    decrypt, hash_data, hash_node, null_hash, sign, verify_signature, PrivateKey, PublicKey,
};
use datacapsule::merkle::merkle_tree_root;
use datacapsule::readstate::ReadState;
use datacapsule::tree::client::{
    reader_request, reader_response, verify_proof, ClientConnection, ClientResponse, ClientSync,
    ReaderOperation, ReaderResponse,
};
use datacapsule::tree::request::{
    InitRequest, ReadRequest, Request, Response, SubscribeRequest, WriteRequest,
};
use datacapsule::tree::server::{
    apply_proof, build_proof, get_all_leaves, request_to_response, DCContext, Db, ServerContext,
};
use datacapsule::tree::storage::{NodeStorage, OrphanStorage, RecordStorage, StoredNode};
use openssl::ec::{EcGroup, EcKey};
use openssl::nid::Nid;

fn keypair() -> (PrivateKey, PublicKey) {
    let group = EcGroup::from_curve_name(Nid::X9_62_PRIME256V1).unwrap();
    let key = EcKey::generate(&group).unwrap();
    (
        PrivateKey { der: key.private_key_to_der().unwrap() },
        PublicKey { der: key.public_key_to_der().unwrap() },
    )
}

struct World {
    server: ServerContext,
    server_pk: PublicKey,
    session: Option<DCContext>,
    client: ClientConnection,
    writer_sk: PrivateKey,
    writer_pk: PublicKey,
}

fn world() -> World {
    let (server_sk, server_pk) = keypair();
    let (writer_sk, writer_pk) = keypair();
    World {
        server: ServerContext { server_name: "server1".to_string(), db: Db::new(), pk: server_sk },
        server_pk,
        session: None,
        client: ClientConnection::new("client1", writer_sk.clone(), writer_pk.clone(), [7u8; 16]),
        writer_sk,
        writer_pk,
    }
}

impl World {
    fn ask(&mut self, req: Request) -> Response {
        request_to_response(&mut self.server, &mut self.session, req)
    }

    fn round(&mut self, req: Request, sync: ClientSync) -> ClientResponse {
        let resp = self.ask(req);
        let key = self.server_pk.clone();
        self.client.response_to_client_response(&key, resp, &sync)
    }

    fn create_and_init(&mut self) -> [u8; 32] {
        let pk = self.writer_pk.clone();
        let (req, sync, dc) = self.client.new_data_capsule_request(&pk, "bench").unwrap();
        assert!(matches!(self.round(req, sync), ClientResponse::NewDataCapsule));
        let (req, sync) = self.client.init_request(&dc);
        assert!(matches!(self.round(req, sync), ClientResponse::Init));
        dc
    }

    fn write(&mut self, data: &[u8]) -> [u8; 32] {
        let (req, sync, hash) = self.client.write_request(data).unwrap();
        let resp = self.ask(req);
        assert!(matches!(resp, Response::WriteData(h) if h == hash));
        let key = self.server_pk.clone();
        assert!(matches!(
            self.client.response_to_client_response(&key, resp, &sync),
            ClientResponse::Write
        ));
        hash
    }

    fn commit(&mut self, records: &[[u8; 32]], prev: [u8; 32]) -> [u8; 32] {
        let (req, sync, root) = self.client.commit_request(records, prev).unwrap();
        let resp = self.ask(req);
        match &resp {
            Response::WriteCommit(sig) => assert!(verify_signature(sig, &root, &self.server_pk)),
            other => panic!("unexpected {:?}", other),
        }
        let key = self.server_pk.clone();
        assert!(matches!(
            self.client.response_to_client_response(&key, resp, &sync),
            ClientResponse::Commit
        ));
        root
    }
}

#[test]
fn create_write_commit_read() {
    let mut w = world();
    let dc = w.create_and_init();
    let records: Vec<[u8; 32]> = (0..3).map(|_| w.write(b"hello")).collect();
    let root = w.commit(&records, dc);
    assert_eq!(root, merkle_tree_root(&records, &dc));
    assert!(w.session.as_ref().unwrap().uncommitted_hashes.is_empty());
    for r in &records {
        let (req, sync) = w.client.read_request(r);
        match w.round(req, sync) {
            ClientResponse::Read(plain) => assert_eq!(plain, b"hello".to_vec()),
            other => panic!("unexpected {:?}", other),
        }
        match w.ask(Request::Read(ReadRequest::Data(*r))) {
            Response::ReadData(data) => {
                assert_eq!(hash_data(&data), *r);
                assert_eq!(decrypt(&data, &[7u8; 16]), Some(b"hello".to_vec()));
            }
            other => panic!("unexpected {:?}", other),
        }
    }
}

#[test]
fn proof_with_root_then_without() {
    let mut w = world();
    let dc = w.create_and_init();
    let records: Vec<[u8; 32]> = (0..3).map(|_| w.write(b"hello")).collect();
    let root = w.commit(&records, dc);
    let n0 = [dc, records[0], records[1], records[2]];
    assert_eq!(hash_node(&n0), root);

    let resp = w.ask(Request::Read(ReadRequest::Proof(records[0])));
    match &resp {
        Response::ReadProof { root: Some((sig, c)), nodes } => {
            assert_eq!(*c, root);
            assert!(verify_signature(sig, &root, &w.writer_pk));
            assert_eq!(nodes, &vec![n0]);
        }
        other => panic!("unexpected {:?}", other),
    }
    let key = w.server_pk.clone();
    assert!(matches!(
        w.client.response_to_client_response(&key, resp, &ClientSync::Proof(records[0])),
        ClientResponse::Proof(true)
    ));

    // the node is the last proven one on both sides: nothing needs to be sent
    let resp = w.ask(Request::Read(ReadRequest::Proof(records[1])));
    match &resp {
        Response::ReadProof { root: None, nodes } => assert!(nodes.is_empty()),
        other => panic!("unexpected {:?}", other),
    }
    assert!(matches!(
        w.client.response_to_client_response(&key, resp, &ClientSync::Proof(records[1])),
        ClientResponse::Proof(true)
    ));
}

#[test]
fn proof_across_commits_leaves_out_the_cached_root() {
    let mut w = world();
    let dc = w.create_and_init();
    let first: Vec<[u8; 32]> = (0..3).map(|i| w.write(&[i])).collect();
    let c1 = w.commit(&first, dc);
    let second: Vec<[u8; 32]> = (10..13).map(|i| w.write(&[i])).collect();
    let c2 = w.commit(&second, c1);
    let key = w.server_pk.clone();

    let resp = w.ask(Request::Read(ReadRequest::Proof(second[0])));
    assert!(matches!(&resp, Response::ReadProof { root: Some((_, c)), nodes } if *c == c2 && nodes.len() == 1));
    assert!(matches!(
        w.client.response_to_client_response(&key, resp, &ClientSync::Proof(second[0])),
        ClientResponse::Proof(true)
    ));

    // the first commit hangs below the second: its root is a child of the proven node
    let resp = w.ask(Request::Read(ReadRequest::Proof(first[2])));
    match &resp {
        Response::ReadProof { root: None, nodes } => {
            assert_eq!(nodes, &vec![[dc, first[0], first[1], first[2]]]);
        }
        other => panic!("unexpected {:?}", other),
    }
    assert!(matches!(
        w.client.response_to_client_response(&key, resp, &ClientSync::Proof(first[2])),
        ClientResponse::Proof(true)
    ));

    // both caches went through the same steps
    let server_state = &w.session.as_ref().unwrap().read_state;
    for h in first.iter().chain(second.iter()).chain([c1, c2, dc].iter()) {
        assert_eq!(server_state.contains(h), w.client.read_state.contains(h));
    }
}

#[test]
fn a_deep_tree_is_proven_from_the_root_down() {
    let mut w = world();
    let dc = w.create_and_init();
    let records: Vec<[u8; 32]> = (0..20u8).map(|i| w.write(&[i])).collect();
    let root = w.commit(&records, dc);
    let key = w.server_pk.clone();
    let resp = w.ask(Request::Read(ReadRequest::Proof(records[13])));
    match &resp {
        Response::ReadProof { root: Some((_, c)), nodes } => {
            assert_eq!(*c, root);
            assert_eq!(nodes.len(), 3);
            assert_eq!(hash_node(&nodes[0]), root);
            assert!(nodes[0].contains(&hash_node(&nodes[1])));
            assert!(nodes[1].contains(&hash_node(&nodes[2])));
            assert!(nodes[2].contains(&records[13]));
        }
        other => panic!("unexpected {:?}", other),
    }
    assert!(matches!(
        w.client.response_to_client_response(&key, resp, &ClientSync::Proof(records[13])),
        ClientResponse::Proof(true)
    ));
}

#[test]
fn a_proof_of_an_uncommitted_record_fails() {
    let mut w = world();
    w.create_and_init();
    let r = w.write(b"hello");
    assert!(matches!(w.ask(Request::Read(ReadRequest::Proof(r))), Response::Failed));
    let (req, sync) = w.client.proof_request(&[9u8; 32]);
    assert!(matches!(w.round(req, sync), ClientResponse::ServerFail));
}

#[test]
fn a_commit_with_a_bad_signature_is_refused() {
    let mut w = world();
    let dc = w.create_and_init();
    let r = w.write(b"hello");
    let (other_sk, _) = keypair();
    let root = merkle_tree_root(&[r], &dc);
    let bad = sign(&root, &other_sk).unwrap();
    let resp = w.ask(Request::Write(WriteRequest::Commit { additional_hash: dc, signature: bad }));
    assert!(matches!(resp, Response::Failed));
    assert!(w.session.as_ref().unwrap().uncommitted_hashes.is_empty());
    assert!(matches!(w.ask(Request::Read(ReadRequest::Proof(r))), Response::Failed));
    match w.ask(Request::Subscribe(SubscribeRequest::FreshestCommits)) {
        Response::SubscribeCommits(c) => assert!(c.is_empty()),
        other => panic!("unexpected {:?}", other),
    }
}

#[test]
fn branching_keeps_both_roots() {
    let mut w = world();
    let dc = w.create_and_init();
    let a = w.write(b"a");
    let c1 = w.commit(&[a], dc);
    let b = w.write(b"b");
    let c2 = w.commit(&[b], dc);
    assert_ne!(c1, c2);
    let (req, sync) = w.client.freshest_commits_request();
    match w.round(req, sync) {
        ClientResponse::FreshestCommits(mut roots) => {
            roots.sort();
            let mut expected = vec![c1, c2];
            expected.sort();
            assert_eq!(roots, expected);
        }
        other => panic!("unexpected {:?}", other),
    }
}

#[test]
fn a_commit_takes_the_place_of_the_one_it_builds_on() {
    let mut w = world();
    let dc = w.create_and_init();
    let a = w.write(b"a");
    let c1 = w.commit(&[a], dc);
    let b = w.write(b"b");
    let c2 = w.commit(&[b], c1);
    match w.ask(Request::Subscribe(SubscribeRequest::FreshestCommits)) {
        Response::SubscribeCommits(c) => {
            assert_eq!(c.len(), 1);
            assert_eq!(c[0].0, c2);
            assert!(verify_signature(&c[0].1, &c2, &w.writer_pk));
        }
        other => panic!("unexpected {:?}", other),
    }
}

#[test]
fn the_first_commit_on_a_root_becomes_its_parent() {
    let mut w = world();
    let dc = w.create_and_init();
    let a = w.write(b"a");
    let c1 = w.commit(&[a], dc);
    let store = w.server.db.take_capsule(&dc);
    let root = store.ns.get(&c1).unwrap();
    assert_eq!(root.parent, None);
    assert!(matches!(root.root_info, Some((1, _))));
    assert_eq!(store.rs.get(&a), Some(c1));
    w.server.db.put_capsule(&dc, store);

    let b = w.write(b"b");
    let c2 = w.commit(&[b], c1);
    let c = w.write(b"c");
    let c3 = w.commit(&[c], c1);
    assert_ne!(c2, c3);
    let store = w.server.db.take_capsule(&dc);
    assert_eq!(store.ns.get(&c1).unwrap().parent, Some(c2));
    assert_eq!(store.ns.get(&c2).unwrap().parent, None);
    assert_eq!(store.ns.get(&c3).unwrap().children[0], c1);
    let mut orphans: Vec<[u8; 32]> = store.os.all_orphans().into_iter().map(|o| o.0).collect();
    orphans.sort();
    let mut expected = vec![c2, c3];
    expected.sort();
    assert_eq!(orphans, expected);
}

#[test]
fn a_commit_without_records_signs_the_head_again() {
    let mut w = world();
    let dc = w.create_and_init();
    let a = w.write(b"a");
    let c1 = w.commit(&[a], dc);
    let again = w.commit(&[], c1);
    assert_eq!(again, c1);
    let store = w.server.db.take_capsule(&dc);
    assert_eq!(store.ns.len(), 1);
    assert_eq!(store.ns.get(&c1).unwrap().parent, None);
    assert_eq!(store.os.all_orphans().len(), 1);
}

#[test]
fn the_records_of_a_commit_are_listed() {
    let mut w = world();
    let dc = w.create_and_init();
    let records: Vec<[u8; 32]> = (0..6u8).map(|i| w.write(&[i])).collect();
    let root = w.commit(&records, dc);
    let (req, sync) = w.client.records_request(&root);
    match w.round(req, sync) {
        ClientResponse::Records(listed, additional) => {
            assert_eq!(listed, records);
            assert_eq!(additional, dc);
        }
        other => panic!("unexpected {:?}", other),
    }
    assert!(matches!(
        w.ask(Request::Subscribe(SubscribeRequest::Records(records[0]))),
        Response::Failed
    ));
    let resp = w.ask(Request::Subscribe(SubscribeRequest::Records(root)));
    let key = w.server_pk.clone();
    assert!(matches!(
        w.client.response_to_client_response(&key, resp, &ClientSync::Records([1u8; 32])),
        ClientResponse::CryptographyFail
    ));
}

#[test]
fn requests_before_init_fail() {
    let mut w = world();
    assert!(matches!(w.ask(Request::Write(WriteRequest::Data(vec![1]))), Response::Failed));
    assert!(matches!(w.ask(Request::Read(ReadRequest::Data([1u8; 32]))), Response::Failed));
    assert!(matches!(
        w.ask(Request::Subscribe(SubscribeRequest::FreshestCommits)),
        Response::Failed
    ));
    assert!(matches!(w.ask(Request::Init(InitRequest::Read([1u8; 32]))), Response::Failed));
    assert!(matches!(w.ask(Request::Init(InitRequest::Create)), Response::Init));
    assert!(w.session.is_none());
    assert!(matches!(w.ask(Request::ReadMetadata([1u8; 32])), Response::Failed));
}

#[test]
fn init_resets_the_session() {
    let mut w = world();
    let dc = w.create_and_init();
    w.write(b"a");
    assert_eq!(w.session.as_ref().unwrap().uncommitted_hashes.len(), 1);
    assert!(matches!(w.ask(Request::Init(InitRequest::Read(dc))), Response::Init));
    assert!(w.session.as_ref().unwrap().uncommitted_hashes.is_empty());
    let (req, sync) = w.client.read_metadata_request(&dc);
    assert!(matches!(w.round(req, sync), ClientResponse::ReadMetadata(m) if m.description == "bench"));
}

#[test]
fn verify_proof_leaves_the_cache_alone_when_it_rejects() {
    let (sk, pk) = keypair();
    let node = [[1u8; 32], [2u8; 32], [3u8; 32], null_hash()];
    let root = hash_node(&node);
    let sig = sign(&root, &sk).unwrap();
    let mut state = ReadState::new();
    // a good root, but a node that does not hash to it
    let wrong = [[1u8; 32], [2u8; 32], [4u8; 32], null_hash()];
    assert!(verify_proof(&[1u8; 32], &Some((sig.clone(), root)), &[wrong], &pk, &mut state).is_err());
    assert!(!state.contains(&root));
    // a good proof of something else
    assert!(verify_proof(&[9u8; 32], &Some((sig.clone(), root)), &[node], &pk, &mut state).is_err());
    assert!(!state.contains(&root));
    assert!(!state.contains(&[1u8; 32]));
    // a bad signature
    let (other_sk, _) = keypair();
    let bad = sign(&root, &other_sk).unwrap();
    assert!(verify_proof(&[1u8; 32], &Some((bad, root)), &[node], &pk, &mut state).is_err());
    assert!(!state.contains(&root));
    // the good proof
    assert!(verify_proof(&[1u8; 32], &Some((sig, root)), &[node], &pk, &mut state).is_ok());
    assert!(state.contains(&root));
    assert!(state.contains(&[3u8; 32]));
    // now the root is known and needs no signature
    assert!(verify_proof(&[2u8; 32], &None, &[node], &pk, &mut state).is_ok());
}

#[test]
fn server_and_client_apply_a_proof_alike() {
    let (sk, pk) = keypair();
    let node = [[1u8; 32], [2u8; 32], [3u8; 32], null_hash()];
    let root = hash_node(&node);
    let sig = sign(&root, &sk).unwrap();
    let mut client = ReadState::new();
    let mut server = ReadState::new();
    let proof_root = Some((sig, root));
    let nodes = vec![node];
    apply_proof(&mut server, &proof_root, &nodes);
    assert!(verify_proof(&[1u8; 32], &proof_root, &nodes, &pk, &mut client).is_ok());
    for h in [root, [1u8; 32], [2u8; 32], [3u8; 32], [4u8; 32], null_hash()] {
        assert_eq!(client.contains(&h), server.contains(&h));
    }
}

#[test]
fn a_reader_checks_records_and_proofs() {
    let mut w = world();
    let dc = w.create_and_init();
    let records: Vec<[u8; 32]> = (0..3u8).map(|i| w.write(&[i])).collect();
    w.commit(&records, dc);
    let mut state = ReadState::new();
    let key = [7u8; 16];

    let op = ReaderOperation::Data(records[1]);
    let resp = w.ask(reader_request(&op));
    match reader_response(resp, &op, &key, &w.writer_pk, &mut state) {
        Ok(ReaderResponse::Data(plain)) => assert_eq!(plain, vec![1u8]),
        other => panic!("unexpected {:?}", other),
    }
    let resp = w.ask(reader_request(&op));
    assert!(reader_response(resp, &ReaderOperation::Data(records[0]), &key, &w.writer_pk, &mut state).is_err());

    let op = ReaderOperation::Prove(records[2]);
    let resp = w.ask(reader_request(&op));
    assert!(matches!(
        reader_response(resp, &op, &key, &w.writer_pk, &mut state),
        Ok(ReaderResponse::ValidProof)
    ));
    assert!(state.contains(&records[2]));

    assert!(matches!(
        reader_response(Response::Failed, &op, &key, &w.writer_pk, &mut state),
        Ok(ReaderResponse::ServerFailure)
    ));
    assert!(reader_response(Response::Init, &op, &key, &w.writer_pk, &mut state).is_err());
    let _ = &w.writer_sk;
}

#[test]
fn signature_avoidance_sends_ancestors_in_place_of_a_signature() {
    // three commits, each on top of the one before
    let mut w = world();
    let dc = w.create_and_init();
    let first: Vec<[u8; 32]> = (0..3u8).map(|i| w.write(&[i])).collect();
    let c1 = w.commit(&first, dc);
    let second: Vec<[u8; 32]> = (10..13u8).map(|i| w.write(&[i])).collect();
    let c2 = w.commit(&second, c1);
    let third: Vec<[u8; 32]> = (20..23u8).map(|i| w.write(&[i])).collect();
    let c3 = w.commit(&third, c2);
    let key = w.server_pk.clone();
    // a proof in the third commit makes c2 known as a child of its node
    let resp = w.ask(Request::Read(ReadRequest::Proof(third[0])));
    assert!(matches!(&resp, Response::ReadProof { root: Some((_, c)), .. } if *c == c3));
    assert!(matches!(
        w.client.response_to_client_response(&key, resp, &ClientSync::Proof(third[0])),
        ClientResponse::Proof(true)
    ));
    assert!(w.client.read_state.contains(&c2));
    assert!(!w.client.read_state.contains(&c1));
    // c1 is a signed root that the client does not know, but its parent c2 is
    // known: the server sends the node of c2 in place of the signature over c1
    let resp = w.ask(Request::Read(ReadRequest::Proof(first[0])));
    match &resp {
        Response::ReadProof { root, nodes } => {
            assert!(root.is_none());
            assert_eq!(nodes.len(), 2);
            assert_eq!(hash_node(&nodes[0]), c2);
            assert_eq!(hash_node(&nodes[1]), c1);
        }
        other => panic!("unexpected {:?}", other),
    }
    assert!(matches!(
        w.client.response_to_client_response(&key, resp, &ClientSync::Proof(first[0])),
        ClientResponse::Proof(true)
    ));
    assert!(w.client.read_state.contains(&first[0]));
}

#[test]
fn storage_rows_read_back() {
    let mut rs = RecordStorage::new();
    rs.store(&[1u8; 32], &[2u8; 32]);
    assert_eq!(rs.get(&[1u8; 32]), Some([2u8; 32]));
    assert_eq!(rs.get(&[2u8; 32]), None);

    let mut ns = NodeStorage::new();
    let node = StoredNode {
        parent: Some([3u8; 32]),
        root_info: Some((2, vec![1, 2])),
        children: [[4u8; 32]; 4],
    };
    ns.store(&[1u8; 32], &node);
    let got = ns.get(&[1u8; 32]).unwrap();
    assert_eq!(got.parent, Some([3u8; 32]));
    assert_eq!(got.root_info, Some((2, vec![1, 2])));
    assert_eq!(ns.len(), 1);

    let mut os = OrphanStorage::new();
    os.replace(&[0u8; 32], &[1u8; 32], &vec![1]);
    os.replace(&[1u8; 32], &[2u8; 32], &vec![2]);
    assert_eq!(os.all_orphans(), vec![([2u8; 32], vec![2])]);
    os.replace(&[2u8; 32], &[2u8; 32], &vec![3]);
    assert_eq!(os.all_orphans(), vec![([2u8; 32], vec![3])]);
}

#[test]
fn leaves_of_a_missing_or_unsigned_node_fail() {
    let mut ns = NodeStorage::new();
    assert!(matches!(get_all_leaves(&ns, &[1u8; 32]), Response::Failed));
    ns.store(
        &[1u8; 32],
        &StoredNode { parent: None, root_info: None, children: [[4u8; 32]; 4] },
    );
    assert!(matches!(get_all_leaves(&ns, &[1u8; 32]), Response::Failed));
    ns.store(
        &[2u8; 32],
        &StoredNode {
            parent: None,
            root_info: Some((1, vec![])),
            children: [[5u8; 32], [6u8; 32], null_hash(), null_hash()],
        },
    );
    match get_all_leaves(&ns, &[2u8; 32]) {
        Response::SubscribeRecords(records, additional) => {
            assert_eq!(additional, [5u8; 32]);
            assert_eq!(records, vec![[6u8; 32]]);
        }
        other => panic!("unexpected {:?}", other),
    }
    let mut state = ReadState::new();
    let rs = RecordStorage::new();
    assert!(matches!(build_proof([9u8; 32], &rs, &ns, &mut state), Response::Failed));
}

#[test]
fn a_fresh_cache_proves_nothing_without_a_signed_root() {
    let (_, pk) = keypair();
    let mut state = ReadState::new();
    assert!(verify_proof(&null_hash(), &None, &[], &pk, &mut state).is_err());
    assert!(verify_proof(&[1u8; 32], &None, &[], &pk, &mut state).is_err());
    // a node of null hashes is not proven either
    let padding = [null_hash(); 4];
    assert!(verify_proof(&null_hash(), &None, &[padding], &pk, &mut state).is_err());
    assert!(!state.contains(&null_hash()));
}

#[test]
fn a_connection_serves_the_kind_of_work_it_was_opened_for() {
    let mut w = world();
    let dc = w.create_and_init();
    let r1 = w.write(b"one");
    w.commit(&[r1], dc);

    // before it is bound, a connection manages capsules
    let mut unbound: Option<DCContext> = None;
    let read_meta = datacapsule::tree::server::process_request(
        &mut w.server,
        &mut unbound,
        &InitRequest::Create,
        Request::ReadMetadata(dc),
    );
    assert!(matches!(read_meta, Some(Response::ReadMetadata(_))));
    let refused = datacapsule::tree::server::process_request(
        &mut w.server,
        &mut unbound,
        &InitRequest::Create,
        Request::Read(ReadRequest::Data(r1)),
    );
    assert!(refused.is_none());

    // a reader reads, and nothing else
    let mut session = Some(DCContext::new(dc, w.writer_pk.clone()));
    let read = datacapsule::tree::server::process_request(
        &mut w.server,
        &mut session,
        &InitRequest::Read(dc),
        Request::Read(ReadRequest::Data(r1)),
    );
    assert!(matches!(read, Some(Response::ReadData(_))));
    let proof = datacapsule::tree::server::process_request(
        &mut w.server,
        &mut session,
        &InitRequest::Read(dc),
        Request::Read(ReadRequest::Proof(r1)),
    );
    assert!(matches!(proof, Some(Response::ReadProof { .. })));
    assert!(session.as_ref().unwrap().read_state.contains(&r1));
    let write = datacapsule::tree::server::process_request(
        &mut w.server,
        &mut session,
        &InitRequest::Read(dc),
        Request::Write(WriteRequest::Data(vec![1, 2, 3])),
    );
    assert!(write.is_none());

    // a writer writes, a subscriber follows
    let write = datacapsule::tree::server::process_request(
        &mut w.server,
        &mut session,
        &InitRequest::Write(dc),
        Request::Write(WriteRequest::Data(vec![1, 2, 3])),
    );
    assert!(matches!(write, Some(Response::WriteData(h)) if h == hash_data(&[1, 2, 3])));
    assert_eq!(session.as_ref().unwrap().uncommitted_hashes, vec![hash_data(&[1, 2, 3])]);
    let fresh = datacapsule::tree::server::process_request(
        &mut w.server,
        &mut session,
        &InitRequest::Subscribe(dc),
        Request::Subscribe(SubscribeRequest::FreshestCommits),
    );
    assert!(matches!(fresh, Some(Response::SubscribeCommits(c)) if c.len() == 1));
    let none = datacapsule::tree::server::process_request(
        &mut w.server,
        &mut session,
        &InitRequest::Create,
        Request::ReadMetadata(dc),
    );
    assert!(none.is_none());
}
