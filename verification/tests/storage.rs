use enclave_store::boundary::StorageError;
use enclave_store::data::{EncryptedContractState, EncryptedPatch};
use enclave_store::hashing::address_from_label;
use enclave_store::memory::InMemoryHost;
use enclave_store::proxy::{
    get_deltas, get_state, save_delta, save_deltas, save_state, test_get_deltas,
    test_get_deltas_more, test_me,
};

#[test]
fn saves_state_and_delta() {
    test_me();
}

#[test]
fn range_read_returns_saved_deltas() {
    test_get_deltas();
}

#[test]
fn range_read_past_end_is_not_an_error() {
    test_get_deltas_more();
}

#[test]
fn state_round_trip_is_byte_identical() {
    let mut host = InMemoryHost::new();
    let id = address_from_label("state-round-trip");
    let record = EncryptedContractState { contract_id: id, json: vec![9, 8, 7, 6, 5] };
    save_state(&mut host, &record).unwrap();
    let back = get_state(&host, &id).unwrap();
    assert_eq!(back.contract_id, id);
    assert_eq!(back.json, vec![9, 8, 7, 6, 5]);
}

#[test]
fn newer_snapshot_replaces_older() {
    let mut host = InMemoryHost::new();
    let id = address_from_label("upsert");
    let first = EncryptedContractState { contract_id: id, json: vec![1, 1, 1] };
    let second = EncryptedContractState { contract_id: id, json: vec![2, 2] };
    save_state(&mut host, &first).unwrap();
    save_state(&mut host, &second).unwrap();
    assert_eq!(get_state(&host, &id).unwrap().json, vec![2, 2]);
}

#[test]
fn duplicate_delta_index_is_key_already_exists() {
    let mut host = InMemoryHost::new();
    let id = address_from_label("duplicate");
    let patch = EncryptedPatch { data: vec![4, 4, 4], contract_id: id, index: 3 };
    assert_eq!(save_delta(&mut host, &patch), Ok(()));
    assert_eq!(save_delta(&mut host, &patch), Err(StorageError::KeyAlreadyExists));
}

#[test]
fn never_written_state_is_not_found() {
    let host = InMemoryHost::new();
    let id = address_from_label("nobody-wrote-this");
    assert_eq!(get_state(&host, &id), Err(StorageError::NotFound));
}

#[test]
fn never_written_deltas_read_empty() {
    let host = InMemoryHost::new();
    let id = address_from_label("nobody-wrote-this-either");
    let got = get_deltas(&host, &id, 1, 9).unwrap();
    assert!(got.is_empty());
}

#[test]
fn sparse_range_skips_unwritten_indices() {
    let mut host = InMemoryHost::new();
    let id = address_from_label("sparse");
    let a = EncryptedPatch { data: vec![10], contract_id: id, index: 2 };
    let b = EncryptedPatch { data: vec![20, 21], contract_id: id, index: 5 };
    save_delta(&mut host, &a).unwrap();
    save_delta(&mut host, &b).unwrap();
    let got = get_deltas(&host, &id, 0, 8).unwrap();
    assert_eq!(got.len(), 2);
    assert_eq!(got[0].index, 2);
    assert_eq!(got[0].data, vec![10]);
    assert_eq!(got[1].index, 5);
    assert_eq!(got[1].data, vec![20, 21]);
}

#[test]
fn saved_range_comes_back_in_order() {
    let mut host = InMemoryHost::new();
    let id = address_from_label("ordered");
    let written = save_deltas(&mut host, 1, 7, &id);
    assert_eq!(written.len(), 6);
    let got = get_deltas(&host, &id, 1, 7).unwrap();
    assert_eq!(got, written);
}

#[test]
fn address_is_the_sha256_of_the_label() {
    let digest = address_from_label("abc");
    let expected: [u8; 32] = [
        0xba, 0x78, 0x16, 0xbf, 0x8f, 0x01, 0xcf, 0xea, 0x41, 0x41, 0x40, 0xde, 0x5d, 0xae,
        0x22, 0x23, 0xb0, 0x03, 0x61, 0xa3, 0x96, 0x17, 0x7a, 0x9c, 0xb4, 0x10, 0xff, 0x61,
        0xf2, 0x00, 0x15, 0xad,
    ];
    assert_eq!(digest, expected);
}
