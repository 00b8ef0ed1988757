use datacapsule::crypto::{hash_data, hash_dc_metadata, hash_record_header, seal};
use datacapsule::dag::client as dag;
use datacapsule::dag::request as dag_request;
use datacapsule::dc_repr::RecordBackPtr;
use datacapsule::tree::client as tree;
use datacapsule::tree::request as tree_request;

#[test]
fn seal_puts_the_iv_first() {
    let iv = [9u8; 16];
    let sealed = seal(&iv, vec![1, 2, 3]);
    assert_eq!(&sealed[..16], &iv);
    assert_eq!(&sealed[16..], &[1, 2, 3]);
    assert_eq!(seal(&iv, vec![]), iv.to_vec());
}

#[test]
fn a_create_request_carries_keys_description_and_signature() {
    let (req, sync, name) = dag::create_request(vec![1], vec![2, 3], "bench", vec![7, 7]);
    assert_eq!(name, hash_dc_metadata(&[1], &[2, 3], "bench"));
    assert!(matches!(sync, dag::ClientSync::ManageCreate(h) if h == name));
    match req {
        dag_request::Request::Manage(dag_request::ManageRequest::Create(dc)) => {
            assert_eq!(dc.creator_pub_key, vec![1]);
            assert_eq!(dc.writer_pub_key, vec![2, 3]);
            assert_eq!(dc.description, "bench");
            assert_eq!(dc.signature, vec![7, 7]);
        }
        other => panic!("unexpected {:?}", other),
    }

    let (req, sync, name) = tree::create_request(vec![1], vec![2, 3], "bench", vec![7, 7]);
    assert_eq!(name, hash_dc_metadata(&[1], &[2, 3], "bench"));
    assert!(matches!(sync, tree::ClientSync::NewDataCapsule(h) if h == name));
    match req {
        tree_request::Request::Create(cr) => {
            assert_eq!(cr.writer_pub_key, vec![2, 3]);
            assert_eq!(cr.signature, vec![7, 7]);
            let dc = cr.into_capsule();
            assert_eq!(dc.description, "bench");
        }
        other => panic!("unexpected {:?}", other),
    }
}

#[test]
fn a_record_request_names_the_record() {
    let ptrs = vec![RecordBackPtr { ptr: [4u8; 32], offset: Some(2) }];
    let (req, sync, name) = dag::record_request(vec![1, 2, 3], ptrs);
    assert!(matches!(sync, dag::ClientSync::Write));
    match req {
        dag_request::Request::RW(dag_request::RWRequest::Write(record)) => {
            assert_eq!(record.body, vec![1, 2, 3]);
            assert_eq!(record.header.body_ptr, hash_data(&[1, 2, 3]));
            assert_eq!(record.header.record_backptrs.len(), 1);
            assert_eq!(record.header.record_backptrs[0].offset, Some(2));
            assert_eq!(hash_record_header(&record.header), name);
        }
        other => panic!("unexpected {:?}", other),
    }

    let (req, sync, hash) = tree::data_request(vec![1, 2, 3]);
    assert_eq!(hash, hash_data(&[1, 2, 3]));
    assert!(matches!(sync, tree::ClientSync::Write));
    assert!(matches!(
        req,
        tree_request::Request::Write(tree_request::WriteRequest::Data(d)) if d == vec![1, 2, 3]
    ));
}

#[test]
fn signed_requests_carry_the_signature() {
    let (req, sync) = dag::signed_request(&[5u8; 32], vec![8]);
    assert!(matches!(sync, dag::ClientSync::Sign(h) if h == [5u8; 32]));
    assert!(matches!(
        req,
        dag_request::Request::RW(dag_request::RWRequest::Sign(h, s)) if h == [5u8; 32] && s == vec![8]
    ));

    let (req, sync, root) = tree::signed_commit_request([1u8; 32], [2u8; 32], vec![8]);
    assert_eq!(root, [2u8; 32]);
    assert!(matches!(sync, tree::ClientSync::Commit(h) if h == [2u8; 32]));
    match req {
        tree_request::Request::Write(tree_request::WriteRequest::Commit {
            additional_hash,
            signature,
        }) => {
            assert_eq!(additional_hash, [1u8; 32]);
            assert_eq!(signature, vec![8]);
        }
        other => panic!("unexpected {:?}", other),
    }
}

#[test]
fn init_requests_name_their_capsule() {
    assert_eq!(tree_request::InitRequest::Create.dc_name(), None);
    assert_eq!(tree_request::InitRequest::Read([1u8; 32]).dc_name(), Some([1u8; 32]));
    assert_eq!(tree_request::InitRequest::Write([2u8; 32]).dc_name(), Some([2u8; 32]));
    assert_eq!(tree_request::InitRequest::Subscribe([3u8; 32]).dc_name(), Some([3u8; 32]));
}
