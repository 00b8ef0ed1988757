use datacapsule::crypto::{
    hash_data, hash_record_header, sign, verify_signature, PrivateKey, PublicKey,
};
use datacapsule::dag::client::{
    manager_create_response, manager_read_response, request_durability_ack, sign_record,
    write_record, writer_request, writer_response, WriterOperation, WriterResponse, WriterSync,
};
use datacapsule::dag::request::{RWRequest, Request, Response};
use datacapsule::dag::server::{
    process_manager_request, process_writer_request, CapsuleStore, DCContext, Db,
};
use datacapsule::dc_repr::{BestEffortProof, Metadata, RecordBackPtr, RecordHeader};
use datacapsule::errors::DCClientError;
use datacapsule::p2p::{hello, route_multi, route_one, P2PConfig};
use datacapsule::tree::client::{
    subscriber_commits_response, subscriber_records_response, WriterConnection,
};
use datacapsule::tree::client::{WriterOperation as TreeOp, WriterSync as TreeSync};
use datacapsule::tree::request::{self as tree, WriteRequest};
use datacapsule::merkle::merkle_tree_root;
use openssl::ec::{EcGroup, EcKey};
use openssl::nid::Nid;

fn keypair() -> (PrivateKey, PublicKey) {
    let group = EcGroup::from_curve_name(Nid::X9_62_PRIME256V1).unwrap();
    let key = EcKey::generate(&group).unwrap();
    (
        PrivateKey { der: key.private_key_to_der().unwrap() },
        PublicKey { der: key.public_key_to_der().unwrap() },
    )
}

#[test]
fn write_record_chains_onto_the_previous_record() {
    let body = vec![1u8, 2, 3];
    let extra = vec![RecordBackPtr { ptr: [5u8; 32], offset: Some(4) }];
    let name = write_record(&[0u8; 32], &body, &[9u8; 32], &extra).unwrap();
    let header = RecordHeader {
        body_ptr: hash_data(&body),
        record_backptrs: vec![
            RecordBackPtr { ptr: [9u8; 32], offset: Some(1) },
            RecordBackPtr { ptr: [5u8; 32], offset: Some(4) },
        ],
    };
    assert_eq!(name, hash_record_header(&header));
    assert!(request_durability_ack(&vec![name]).is_ok());
}

#[test]
fn sign_record_signs_the_name() {
    let (sk, pk) = keypair();
    let sig = sign_record(&[3u8; 32], &sk).unwrap();
    assert!(verify_signature(&sig, &[3u8; 32], &pk));
    assert!(matches!(
        sign_record(&[3u8; 32], &PrivateKey { der: vec![1] }),
        Err(DCClientError::Other(_))
    ));
}

#[test]
fn a_writer_session_over_its_own_connection() {
    let (server_sk, server_pk) = keypair();
    let (writer_sk, writer_pk) = keypair();
    let dc = [1u8; 32];
    let mut ctx = DCContext::new(dc, writer_pk.clone());
    let mut store = CapsuleStore::new(&dc);
    let key = [7u8; 16];
    let body = datacapsule::crypto::encrypt(b"hello", &key).unwrap();

    let op = WriterOperation::Write((body, vec![RecordBackPtr { ptr: dc, offset: None }]));
    let (req, sync, name) = writer_request(&op, &writer_sk).unwrap();
    assert_eq!(sync, WriterSync::Write);
    let resp = process_writer_request(req, &mut ctx, &mut store, &server_sk).unwrap();
    match writer_response(resp, sync, &name, &key, &server_pk, &writer_pk) {
        Ok(WriterResponse::Write(n)) => assert_eq!(n, name),
        other => panic!("unexpected {:?}", other),
    }

    let (req, sync, _) = writer_request(&WriterOperation::Sign(name), &writer_sk).unwrap();
    let resp = process_writer_request(req, &mut ctx, &mut store, &server_sk).unwrap();
    assert!(matches!(
        writer_response(resp, sync, &name, &key, &server_pk, &writer_pk),
        Ok(WriterResponse::Sign(true))
    ));

    let (req, sync, _) = writer_request(&WriterOperation::Read(name), &writer_sk).unwrap();
    let resp = process_writer_request(req, &mut ctx, &mut store, &server_sk).unwrap();
    match writer_response(resp, sync, &name, &key, &server_pk, &writer_pk) {
        Ok(WriterResponse::Read(Some((plain, header)))) => {
            assert_eq!(plain, b"hello".to_vec());
            assert_eq!(hash_record_header(&header), name);
        }
        other => panic!("unexpected {:?}", other),
    }

    let (req, sync, _) = writer_request(&WriterOperation::Prove(name), &writer_sk).unwrap();
    let resp = process_writer_request(req, &mut ctx, &mut store, &server_sk).unwrap();
    assert!(matches!(
        writer_response(resp, sync, &name, &key, &server_pk, &writer_pk),
        Ok(WriterResponse::Prove(true))
    ));

    // a request of another kind ends the connection
    assert!(process_writer_request(Request::Init(dc), &mut ctx, &mut store, &server_sk).is_none());
}

#[test]
fn a_writer_passes_on_failed_reads_and_proofs_only() {
    let (_, pk) = keypair();
    let key = [7u8; 16];
    let n = [1u8; 32];
    assert!(matches!(
        writer_response(Response::Failed, WriterSync::Read, &n, &key, &pk, &pk),
        Ok(WriterResponse::Read(None))
    ));
    assert!(matches!(
        writer_response(Response::Failed, WriterSync::Prove, &n, &key, &pk, &pk),
        Ok(WriterResponse::Prove(false))
    ));
    assert!(matches!(
        writer_response(Response::Failed, WriterSync::Write, &n, &key, &pk, &pk),
        Err(DCClientError::ServerError(_))
    ));
    assert!(matches!(
        writer_response(Response::Failed, WriterSync::Sign, &n, &key, &pk, &pk),
        Err(DCClientError::ServerError(_))
    ));
    assert!(matches!(
        writer_response(Response::Init, WriterSync::Write, &n, &key, &pk, &pk),
        Err(DCClientError::ServerError(_))
    ));
    assert!(matches!(
        writer_response(Response::WriteSign((n, vec![1, 2])), WriterSync::Sign, &n, &key, &pk, &pk),
        Err(DCClientError::BadSignature)
    ));
    let empty = BestEffortProof { chain: vec![], signature: None };
    assert!(matches!(
        writer_response(Response::ReadProof(empty), WriterSync::Prove, &n, &key, &pk, &pk),
        Err(DCClientError::BadProof(_))
    ));
}

#[test]
fn a_manager_checks_what_it_gets() {
    let (server_sk, server_pk) = keypair();
    let (creator_sk, creator_pk) = keypair();
    let mut db = Db::new();
    let dc = Metadata {
        creator_pub_key: creator_pk.der.clone(),
        writer_pub_key: creator_pk.der.clone(),
        description: "bench".to_string(),
        signature: vec![],
    };
    let name = datacapsule::crypto::hash_dc_metadata(&dc.creator_pub_key, &dc.writer_pub_key, "bench");
    let unsigned = process_manager_request(
        Request::Manage(datacapsule::dag::request::ManageRequest::Create(dc.clone())),
        &mut db,
        &server_sk,
    )
    .unwrap();
    assert!(matches!(
        manager_create_response(unsigned, &name, &server_pk),
        Err(DCClientError::ServerError(_))
    ));
    let signed = Metadata { signature: sign(&name, &creator_sk).unwrap(), ..dc };
    let resp = process_manager_request(
        Request::Manage(datacapsule::dag::request::ManageRequest::Create(signed)),
        &mut db,
        &server_sk,
    )
    .unwrap();
    assert_eq!(manager_create_response(resp, &name, &server_pk).unwrap(), name);

    let resp = process_manager_request(
        Request::Manage(datacapsule::dag::request::ManageRequest::Read(name)),
        &mut db,
        &server_sk,
    )
    .unwrap();
    assert_eq!(manager_read_response(resp, &name).unwrap().description, "bench");
    let resp = process_manager_request(
        Request::Manage(datacapsule::dag::request::ManageRequest::Read(name)),
        &mut db,
        &server_sk,
    )
    .unwrap();
    assert!(matches!(
        manager_read_response(resp, &[0u8; 32]),
        Err(DCClientError::MismatchedHash)
    ));
    assert!(matches!(
        manager_create_response(Response::ManageCreate(vec![1]), &name, &server_pk),
        Err(DCClientError::BadSignature)
    ));
    assert!(process_manager_request(Request::RW(RWRequest::Read(name)), &mut db, &server_sk).is_none());
}

#[test]
fn a_commit_writer_keeps_its_checkpoint() {
    let (server_sk, server_pk) = keypair();
    let (writer_sk, writer_pk) = keypair();
    let start = [9u8; 32];
    let mut w = WriterConnection::new(server_pk.clone(), [7u8; 16], writer_sk, start);
    assert_eq!(w.get_checkpoint(), start);

    let (req, sync) = w.request(&TreeOp::Record(b"one".to_vec())).unwrap();
    let h1 = match (&req, &sync) {
        (tree::Request::Write(WriteRequest::Data(d)), TreeSync::Record(h)) => {
            assert_eq!(hash_data(d), *h);
            *h
        }
        other => panic!("unexpected {:?}", other),
    };
    assert!(w.response(tree::Response::WriteData(h1), &sync).is_ok());

    let (req, sync) = w.request(&TreeOp::Commit).unwrap();
    let root = merkle_tree_root(&[h1], &start);
    match (&req, &sync) {
        (tree::Request::Write(WriteRequest::Commit { additional_hash, signature }), TreeSync::Commit(r)) => {
            assert_eq!(*additional_hash, start);
            assert_eq!(*r, root);
            assert!(verify_signature(signature, &root, &writer_pk));
        }
        other => panic!("unexpected {:?}", other),
    }
    assert!(w.uncommitted_hashes.is_empty());
    assert_eq!(w.head, root);
    assert_eq!(w.get_checkpoint(), start);
    let ack = sign(&root, &server_sk).unwrap();
    assert!(w.response(tree::Response::WriteCommit(ack), &sync).is_ok());
    assert_eq!(w.get_checkpoint(), root);

    // a second commit that the server does not acknowledge
    let (_, sync) = w.request(&TreeOp::Record(b"two".to_vec())).unwrap();
    assert!(matches!(
        w.response(tree::Response::WriteData([0u8; 32]), &sync),
        Err(DCClientError::MismatchedHash)
    ));
    assert!(w.uncommitted_hashes.is_empty());
    w.request(&TreeOp::Record(b"three".to_vec())).unwrap();
    let (_, sync) = w.request(&TreeOp::Commit).unwrap();
    assert_ne!(w.head, root);
    assert!(matches!(
        w.response(tree::Response::WriteCommit(vec![1, 2, 3]), &sync),
        Err(DCClientError::BadSignature)
    ));
    assert_eq!(w.get_checkpoint(), root);
    assert_eq!(w.head, root);
    assert!(matches!(
        w.response(tree::Response::Failed, &sync),
        Err(DCClientError::ServerError(_))
    ));
}

#[test]
fn a_subscriber_checks_commits_and_records() {
    let (writer_sk, writer_pk) = keypair();
    let c1 = [1u8; 32];
    let c2 = [2u8; 32];
    let commits = vec![(c1, sign(&c1, &writer_sk).unwrap()), (c2, sign(&c2, &writer_sk).unwrap())];
    assert_eq!(
        subscriber_commits_response(tree::Response::SubscribeCommits(commits.clone()), &writer_pk)
            .unwrap(),
        vec![c1, c2]
    );
    let mut forged = commits;
    forged[1].0 = [3u8; 32];
    assert!(matches!(
        subscriber_commits_response(tree::Response::SubscribeCommits(forged), &writer_pk),
        Err(DCClientError::BadSignature)
    ));
    assert!(matches!(
        subscriber_commits_response(tree::Response::Failed, &writer_pk),
        Err(DCClientError::ServerError(_))
    ));

    let records = vec![[4u8; 32], [5u8; 32]];
    let root = merkle_tree_root(&records, &[9u8; 32]);
    let resp = tree::Response::SubscribeRecords(records.clone(), [9u8; 32]);
    assert_eq!(subscriber_records_response(resp, &root).unwrap(), (records.clone(), [9u8; 32]));
    let resp = tree::Response::SubscribeRecords(records, [8u8; 32]);
    assert!(matches!(
        subscriber_records_response(resp, &root),
        Err(DCClientError::MismatchedHash)
    ));
}

#[test]
fn a_commit_store_manager_checks_what_it_gets() {
    let (server_sk, server_pk) = keypair();
    let name = [4u8; 32];
    let ack = sign(&name, &server_sk).unwrap();
    assert_eq!(datacapsule::tree::client::manager_create_response(tree::Response::Create(ack), &name, &server_pk).unwrap(), name);
    assert!(matches!(
        datacapsule::tree::client::manager_create_response(tree::Response::Create(vec![1]), &name, &server_pk),
        Err(DCClientError::BadSignature)
    ));
    assert!(matches!(
        datacapsule::tree::client::manager_create_response(tree::Response::Failed, &name, &server_pk),
        Err(DCClientError::ServerError(_))
    ));
    let dc = Metadata {
        creator_pub_key: vec![1],
        writer_pub_key: vec![2],
        description: "d".to_string(),
        signature: vec![],
    };
    let dc_name = datacapsule::crypto::hash_dc_metadata(&[1], &[2], "d");
    assert!(datacapsule::tree::client::manager_read_response(tree::Response::ReadMetadata(dc.clone()), &dc_name).is_ok());
    assert!(matches!(
        datacapsule::tree::client::manager_read_response(tree::Response::ReadMetadata(dc), &name),
        Err(DCClientError::MismatchedHash)
    ));
}

#[test]
fn created_capsules_are_marked_with_their_name() {
    let dc = [1u8; 32];
    let mut store = CapsuleStore::new(&[9u8; 32]);
    assert_eq!(store.hs.get_heads(), vec![[9u8; 32]]);
    datacapsule::dag::server::init_marked(&mut store, &dc);
    assert_eq!(store.hs.get_heads(), vec![dc]);
    assert_eq!(store.hs.get_roots(), vec![dc]);
}

#[test]
fn the_end_of_a_stream_is_an_error() {
    assert!(matches!(datacapsule::errors::next_item(Some(5u8)), Ok(5)));
    assert!(matches!(
        datacapsule::errors::next_item::<u8>(None),
        Err(DCClientError::StreamEnded)
    ));
}

#[test]
fn messages_are_routed_by_name() {
    let peers = vec!["a".to_string(), "b".to_string(), "c".to_string(), "b".to_string()];
    assert_eq!(route_one(&peers, &"b".to_string()), Some(1));
    assert_eq!(route_one(&peers, &"c".to_string()), Some(2));
    assert_eq!(route_one(&peers, &"z".to_string()), None);
    let members = vec!["c".to_string(), "z".to_string(), "a".to_string(), "c".to_string()];
    assert_eq!(route_multi(&peers, &members), vec![2, 0, 2]);
    assert_eq!(route_multi(&peers, &vec![]), Vec::<usize>::new());

    let config = P2PConfig {
        name: "a".to_string(),
        addr_map: vec![
            ("a".to_string(), "127.0.0.1:1".to_string()),
            ("b".to_string(), "127.0.0.1:2".to_string()),
        ],
        mcast_groups: vec![("all".to_string(), vec!["a".to_string(), "b".to_string()])],
    };
    assert_eq!(config.addr_of(&"b".to_string()), Some(&"127.0.0.1:2".to_string()));
    assert_eq!(config.addr_of(&"c".to_string()), None);
    assert_eq!(config.members_of(&"all".to_string()).unwrap().len(), 2);
    assert!(config.members_of(&"none".to_string()).is_none());

    let msg = hello(&"a".to_string());
    assert_eq!(msg.sender, "a");
    assert_eq!(msg.dest, "");
    assert!(msg.content.is_empty());
    assert!(msg.metadata.is_empty());
}

#[test]
fn a_commit_writer_notes_each_record_it_sends() {
    let (_, server_pk) = keypair();
    let (writer_sk, _) = keypair();
    let start = [9u8; 32];
    let mut w = WriterConnection::new(server_pk, [7u8; 16], writer_sk, start);
    let bytes = vec![4u8, 5, 6];
    let (req, sync) = w.record_request(bytes.clone());
    assert!(matches!(&req, tree::Request::Write(WriteRequest::Data(d)) if *d == bytes));
    assert!(matches!(sync, TreeSync::Record(h) if h == hash_data(&bytes)));
    assert_eq!(w.uncommitted_hashes, vec![hash_data(&bytes)]);
    assert_eq!(w.head, start);
    assert_eq!(w.get_checkpoint(), start);
    let more = vec![7u8];
    w.record_request(more.clone());
    assert_eq!(w.uncommitted_hashes, vec![hash_data(&bytes), hash_data(&more)]);
}

#[test]
fn a_commit_writer_moves_its_head_to_the_root_it_sends() {
    let (_, server_pk) = keypair();
    let (writer_sk, _) = keypair();
    let start = [9u8; 32];
    let mut w = WriterConnection::new(server_pk, [7u8; 16], writer_sk, start);
    w.record_request(vec![1u8]);
    let root = [3u8; 32];
    let (req, sync) = w.commit_request(root, vec![8u8, 8]);
    match &req {
        tree::Request::Write(WriteRequest::Commit { additional_hash, signature }) => {
            assert_eq!(*additional_hash, start);
            assert_eq!(*signature, vec![8u8, 8]);
        }
        other => panic!("unexpected {:?}", other),
    }
    assert!(matches!(sync, TreeSync::Commit(r) if r == root));
    assert!(w.uncommitted_hashes.is_empty());
    assert_eq!(w.head, root);
    assert_eq!(w.get_checkpoint(), start);
    // the next commit is made on top of the root that was sent
    let (req, _) = w.commit_request([4u8; 32], vec![9u8]);
    assert!(matches!(
        &req,
        tree::Request::Write(WriteRequest::Commit { additional_hash, .. }) if *additional_hash == root
    ));
}
