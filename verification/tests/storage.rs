use certstore::hash::{sha256_bytes, to_arr};
use certstore::ledger::Ledger;
use certstore::principal::Principal;
use certstore::records::{FileMeta, FileRecord, Replica};
use certstore::storage::{Storage, StorageError};

fn principal(bytes: &[u8]) -> Principal {
    Principal::try_from_slice(bytes).unwrap()
}

fn meta(file_id: &str, total_size: u64, chunk_size: u32, num_chunks: u32) -> FileMeta {
    FileMeta {
        file_id: file_id.to_string(),
        total_size,
        chunk_size,
        num_chunks,
        merkle_root: vec![],
        created_ns: 11,
    }
}

fn record(file_id: &str, owner: &[u8], allowed: &[&[u8]]) -> FileRecord {
    FileRecord {
        file_id: file_id.to_string(),
        owner: principal(owner),
        replicas: vec![],
        merkle_root: vec![],
        allowed: allowed.iter().map(|a| principal(a)).collect(),
        created_ns: 0,
    }
}

fn digest_of_pair(left: &[u8], right: &[u8]) -> Vec<u8> {
    let mut block = sha256_bytes(left);
    block.extend(sha256_bytes(right));
    sha256_bytes(&block)
}

fn uploaded_f1() -> Storage {
    let mut storage = Storage::new("us".to_string());
    let caller = principal(&[1]);
    assert_eq!(storage.start_upload(&caller, None, "f1".to_string(), 6, 3, 2, 5), Ok(()));
    storage.put_chunk("f1".to_string(), 0, b"abc".to_vec(), vec![]);
    storage.put_chunk("f1".to_string(), 1, b"def".to_vec(), vec![]);
    storage
}

#[test]
fn health_is_ok() {
    assert_eq!(Storage::new("us".to_string()).health(), "ok");
}

#[test]
fn start_upload_records_the_declared_shape_with_an_empty_root() {
    let mut storage = Storage::new("us".to_string());
    let caller = principal(&[1]);
    assert_eq!(storage.start_upload(&caller, None, "f1".to_string(), 6, 3, 2, 77), Ok(()));
    assert_eq!(
        storage.get_file_meta("f1"),
        Some(FileMeta {
            file_id: "f1".to_string(),
            total_size: 6,
            chunk_size: 3,
            num_chunks: 2,
            merkle_root: vec![],
            created_ns: 77,
        })
    );
    assert_eq!(storage.get_file_meta("f2"), None);
}

#[test]
fn start_upload_succeeds_for_an_unregistered_file() {
    let mut storage = Storage::new("us".to_string());
    storage.set_registry(principal(&[9]));
    let anyone = principal(&[42]);
    assert_eq!(storage.start_upload(&anyone, None, "new".to_string(), 1, 1, 1, 0), Ok(()));
    assert!(storage.get_file_meta("new").is_some());
}

#[test]
fn start_upload_is_open_to_the_owner_and_the_allowed() {
    let held = record("f1", &[1], &[&[2], &[3]]);
    for caller in [&[1u8][..], &[2], &[3]] {
        let mut storage = Storage::new("us".to_string());
        let r = storage.start_upload(&principal(caller), Some(&held), "f1".to_string(), 6, 3, 2, 0);
        assert_eq!(r, Ok(()));
        assert!(storage.get_file_meta("f1").is_some());
    }
}

#[test]
fn start_upload_refuses_a_stranger_and_changes_nothing() {
    let held = record("f1", &[1], &[&[2]]);
    let mut storage = Storage::new("us".to_string());
    let before = storage.certified_data();
    let r = storage.start_upload(&principal(&[7]), Some(&held), "f1".to_string(), 6, 3, 2, 0);
    assert_eq!(r, Err(StorageError::Unauthorized));
    assert_eq!(storage.get_file_meta("f1"), None);
    assert_eq!(storage.certified_data(), before);
}

#[test]
fn put_chunk_stores_the_bytes_with_their_own_digest() {
    let mut storage = Storage::new("us".to_string());
    let receipt = storage.put_chunk("f1".to_string(), 0, b"abc".to_vec(), vec![1, 2, 3]);
    assert_eq!(receipt.sha256, sha256_bytes(b"abc"));
    let chunk = storage.get_chunk("f1", 0).unwrap();
    assert_eq!(chunk.data, b"abc".to_vec());
    assert_eq!(chunk.sha256, sha256_bytes(b"abc"));
    assert_eq!(storage.get_chunk("f1", 1), None);
    assert_eq!(storage.get_chunk("f2", 0), None);
}

#[test]
fn put_chunk_commits_the_digest_and_hands_back_what_to_certify() {
    let mut storage = Storage::new("us".to_string());
    let receipt = storage.put_chunk("f1".to_string(), 3, b"abc".to_vec(), vec![]);
    let mut ledger = Ledger::new();
    let expected = ledger.commit(b"chunk:f1:3".to_vec(), sha256_bytes(b"abc"));
    assert_eq!(receipt.certified_data, expected);
    assert_eq!(storage.certified_data(), expected);
    assert_eq!(storage.witness(b"chunk:f1:3"), ledger.witness(b"chunk:f1:3"));
}

#[test]
fn put_chunk_again_replaces_the_chunk() {
    let mut storage = Storage::new("us".to_string());
    storage.put_chunk("f1".to_string(), 0, b"abc".to_vec(), vec![]);
    storage.put_chunk("f1".to_string(), 0, b"xyz".to_vec(), vec![]);
    assert_eq!(storage.get_chunk("f1", 0).unwrap().data, b"xyz".to_vec());
    assert_eq!(storage.get_chunk("f1", 0).unwrap().sha256, sha256_bytes(b"xyz"));
}

#[test]
fn put_chunk_of_the_same_bytes_again_changes_nothing() {
    let mut storage = Storage::new("us".to_string());
    storage.put_chunk("f1".to_string(), 1, b"other".to_vec(), vec![]);
    let first = storage.put_chunk("f1".to_string(), 0, b"abc".to_vec(), vec![]);
    let witness = storage.witness(b"chunk:f1:0");
    let second = storage.put_chunk("f1".to_string(), 0, b"abc".to_vec(), vec![9]);
    assert_eq!(first, second);
    assert_eq!(storage.certified_data(), first.certified_data);
    assert_eq!(storage.witness(b"chunk:f1:0"), witness);
    assert_eq!(storage.get_chunk("f1", 0).unwrap().data, b"abc".to_vec());
}

#[test]
fn put_chunk_takes_any_index() {
    let mut storage = Storage::new("us".to_string());
    storage.start_upload(&principal(&[1]), None, "f1".to_string(), 3, 3, 1, 0).unwrap();
    storage.put_chunk("f1".to_string(), u32::MAX, b"far".to_vec(), vec![]);
    assert_eq!(storage.get_chunk("f1", u32::MAX).unwrap().data, b"far".to_vec());
}

#[test]
fn upload_of_two_chunks_finalizes_to_the_digest_of_both_and_assembles() {
    let mut storage = uploaded_f1();
    let commitment = storage.finalize_file(meta("f1", 6, 3, 2));
    assert_eq!(commitment.merkle_root, digest_of_pair(b"abc", b"def"));
    assert_eq!(storage.get_file_meta("f1").unwrap().merkle_root, digest_of_pair(b"abc", b"def"));
    assert_eq!(storage.assemble_file("f1"), Some(b"abcdef".to_vec()));
}

#[test]
fn single_chunk_file_has_the_chunk_digest_as_root() {
    let mut storage = Storage::new("us".to_string());
    storage.start_upload(&principal(&[1]), None, "one".to_string(), 5, 5, 1, 0).unwrap();
    storage.put_chunk("one".to_string(), 0, b"hello".to_vec(), vec![]);
    let commitment = storage.finalize_file(meta("one", 5, 5, 1));
    assert_eq!(commitment.merkle_root, sha256_bytes(b"hello"));
    assert_eq!(storage.compute_merkle_root_for("one", 1), sha256_bytes(b"hello"));
}

#[test]
fn missing_chunk_counts_as_the_zero_hash_at_finalize() {
    let mut storage = Storage::new("us".to_string());
    storage.start_upload(&principal(&[1]), None, "gap".to_string(), 6, 3, 2, 0).unwrap();
    storage.put_chunk("gap".to_string(), 0, b"abc".to_vec(), vec![]);
    let commitment = storage.finalize_file(meta("gap", 6, 3, 2));
    let mut block = sha256_bytes(b"abc");
    block.extend_from_slice(&[0u8; 32]);
    assert_eq!(commitment.merkle_root, sha256_bytes(&block));
    assert_eq!(storage.assemble_file("gap"), None);
}

#[test]
fn file_without_chunks_finalizes_to_the_zero_hash() {
    let mut storage = Storage::new("us".to_string());
    let commitment = storage.finalize_file(meta("none", 0, 3, 0));
    assert_eq!(commitment.merkle_root, vec![0u8; 32]);
    assert_eq!(storage.assemble_file("none"), Some(vec![]));
}

#[test]
fn finalize_keeps_a_root_that_is_supplied() {
    let mut storage = uploaded_f1();
    let mut supplied = meta("f1", 6, 3, 2);
    supplied.merkle_root = vec![5u8; 32];
    let commitment = storage.finalize_file(supplied);
    assert_eq!(commitment.merkle_root, vec![5u8; 32]);
    assert_eq!(storage.get_file_meta("f1").unwrap().merkle_root, vec![5u8; 32]);
}

#[test]
fn finalize_commits_the_root_under_the_file_key() {
    let mut storage = Storage::new("us".to_string());
    storage.put_chunk("f1".to_string(), 0, b"abc".to_vec(), vec![]);
    let commitment = storage.finalize_file(meta("f1", 3, 3, 1));
    let mut ledger = Ledger::new();
    ledger.commit(b"chunk:f1:0".to_vec(), sha256_bytes(b"abc"));
    let expected = ledger.commit(b"file:f1".to_vec(), sha256_bytes(b"abc"));
    assert_eq!(commitment.certified_data, expected);
    assert_eq!(storage.certified_data(), expected);
}

#[test]
fn finalize_twice_gives_the_same_root_and_the_same_certified_digest() {
    let mut storage = uploaded_f1();
    let first = storage.finalize_file(meta("f1", 6, 3, 2));
    let stored = storage.get_file_meta("f1");
    let second = storage.finalize_file(meta("f1", 6, 3, 2));
    assert_eq!(first, second);
    assert_eq!(storage.get_file_meta("f1"), stored);
    assert_eq!(storage.certified_data(), first.certified_data);
}

#[test]
fn assemble_joins_the_chunks_in_index_order() {
    let mut storage = Storage::new("us".to_string());
    storage.start_upload(&principal(&[1]), None, "f".to_string(), 7, 3, 3, 0).unwrap();
    storage.put_chunk("f".to_string(), 2, b"g".to_vec(), vec![]);
    storage.put_chunk("f".to_string(), 0, b"abc".to_vec(), vec![]);
    assert_eq!(storage.assemble_file("f"), None);
    storage.put_chunk("f".to_string(), 1, b"def".to_vec(), vec![]);
    assert_eq!(storage.assemble_file("f"), Some(b"abcdefg".to_vec()));
}

#[test]
fn assemble_of_an_unknown_upload_is_nothing() {
    let mut storage = Storage::new("us".to_string());
    storage.put_chunk("f".to_string(), 0, b"abc".to_vec(), vec![]);
    assert_eq!(storage.assemble_file("f"), None);
}

#[test]
fn compute_merkle_root_pads_a_short_stored_digest() {
    let storage = uploaded_f1();
    let a = to_arr(sha256_bytes(b"abc"));
    let b = to_arr(sha256_bytes(b"def"));
    let mut block = a.to_vec();
    block.extend_from_slice(&b);
    block.extend_from_slice(&[0u8; 0]);
    assert_eq!(storage.compute_merkle_root_for("f1", 2), sha256_bytes(&block));
    assert_eq!(storage.compute_merkle_root_for("f1", 0), vec![0u8; 32]);
}

#[test]
fn registry_query_is_there_once_a_registry_is_configured() {
    let mut storage = Storage::new("us".to_string());
    assert_eq!(storage.registry_query("f1"), None);
    storage.set_registry(principal(&[9, 9]));
    let query = storage.registry_query("f1").unwrap();
    assert_eq!(query.registry, principal(&[9, 9]));
    assert_eq!(query.file_id, "f1");
}

#[test]
fn finalize_and_register_refuses_a_stranger_and_changes_nothing() {
    let mut storage = uploaded_f1();
    storage.set_registry(principal(&[9]));
    let before = storage.certified_data();
    let held = record("f1", &[1], &[&[2]]);
    let r = storage.finalize_and_register(
        &principal(&[7]),
        Some(&held),
        meta("f1", 6, 3, 2),
        principal(&[100]),
    );
    assert_eq!(r, Err(StorageError::Unauthorized));
    assert_eq!(storage.get_file_meta("f1").unwrap().merkle_root, Vec::<u8>::new());
    assert_eq!(storage.certified_data(), before);
}

#[test]
fn finalize_and_register_hands_back_the_record_to_register() {
    let mut storage = uploaded_f1();
    storage.set_registry(principal(&[9]));
    storage.set_region("eu".to_string());
    let publication = storage
        .finalize_and_register(&principal(&[1]), None, meta("f1", 6, 3, 2), principal(&[100]))
        .unwrap();
    assert_eq!(publication.commitment.merkle_root, digest_of_pair(b"abc", b"def"));
    assert_eq!(publication.commitment.certified_data, storage.certified_data());
    let registration = publication.registration.unwrap();
    assert_eq!(registration.registry, principal(&[9]));
    assert_eq!(
        registration.record,
        FileRecord {
            file_id: "f1".to_string(),
            owner: principal(&[1]),
            replicas: vec![Replica { canister: principal(&[100]), region: "eu".to_string() }],
            merkle_root: digest_of_pair(b"abc", b"def"),
            allowed: vec![],
            created_ns: 11,
        }
    );
    assert_eq!(storage.get_file_meta("f1").unwrap().merkle_root, digest_of_pair(b"abc", b"def"));
}

#[test]
fn finalize_and_register_is_open_to_the_allowed() {
    let mut storage = uploaded_f1();
    storage.set_registry(principal(&[9]));
    let held = record("f1", &[1], &[&[2]]);
    let r = storage.finalize_and_register(
        &principal(&[2]),
        Some(&held),
        meta("f1", 6, 3, 2),
        principal(&[100]),
    );
    assert_eq!(r.unwrap().registration.unwrap().record.owner, principal(&[2]));
}

#[test]
fn finalize_and_register_without_registry_only_finalizes() {
    let mut storage = uploaded_f1();
    let publication = storage
        .finalize_and_register(&principal(&[1]), None, meta("f1", 6, 3, 2), principal(&[100]))
        .unwrap();
    assert_eq!(publication.registration, None);
    assert_eq!(publication.commitment.merkle_root, digest_of_pair(b"abc", b"def"));
}

#[test]
fn registration_outcome_reports_a_remote_failure() {
    assert_eq!(Storage::registration_outcome(true), Ok(()));
    assert_eq!(Storage::registration_outcome(false), Err(StorageError::RemoteCallFailed));
}
