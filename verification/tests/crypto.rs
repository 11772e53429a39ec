use enclave_store::cryptography::{CryptoError, Encryption, Plaintext};
use enclave_store::data::EncryptedContractState;
use enclave_store::hashing::address_from_label;
use enclave_store::memory::InMemoryHost;
use enclave_store::proxy::{get_state, save_state};

type Scheme = Plaintext;
type Key = [u8; 32];

fn decrypt(c: Vec<u8>, key: Key) -> Result<Plaintext, CryptoError> {
    <Scheme as Encryption<Key, CryptoError, Vec<u8>, u8>>::decrypt(c, key)
}

#[test]
fn encrypt_then_decrypt_returns_the_value() {
    let key: Key = [7u8; 32];
    let v = Plaintext { bytes: vec![1, 2, 3, 250, 0, 99] };
    let c = Plaintext { bytes: v.bytes.clone() }.encrypt(key).unwrap();
    let back = decrypt(c, key).unwrap();
    assert_eq!(back.bytes, v.bytes);
}

#[test]
fn round_trip_with_explicit_nonce() {
    let key: Key = [0xAB; 32];
    let bytes = vec![0u8, 255, 17, 17, 17];
    let c = Plaintext { bytes: bytes.clone() }.encrypt_with_nonce(key, Some(0x5E)).unwrap();
    let back = decrypt(c, key).unwrap();
    assert_eq!(back.bytes, bytes);
}

#[test]
fn every_single_bit_flip_is_detected() {
    let key: Key = [3u8; 32];
    let c = Plaintext { bytes: vec![11, 22, 33, 44] }.encrypt(key).unwrap();
    for byte in 0..c.len() {
        for bit in 0..8 {
            let mut tampered = c.clone();
            tampered[byte] ^= 1u8 << bit;
            assert_eq!(decrypt(tampered, key), Err(CryptoError::DecryptionFailure));
        }
    }
}

#[test]
fn truncated_ciphertext_is_refused() {
    let key: Key = [1u8; 32];
    assert_eq!(decrypt(Vec::new(), key), Err(CryptoError::DecryptionFailure));
    assert_eq!(decrypt(vec![0u8], key), Err(CryptoError::DecryptionFailure));
}

#[test]
fn wrong_key_is_rejected() {
    let key: Key = [5u8; 32];
    let mut other: Key = [5u8; 32];
    other[31] = 6;
    let c = Plaintext { bytes: vec![1, 2, 3] }.encrypt(key).unwrap();
    assert_eq!(decrypt(c, other), Err(CryptoError::DecryptionFailure));
}

#[test]
fn encrypted_state_survives_storage_and_decrypts() {
    let key: Key = [42u8; 32];
    let bytes = vec![10u8, 20, 30, 40, 50];
    let ciphertext = Plaintext { bytes: bytes.clone() }.encrypt(key).unwrap();

    let mut host = InMemoryHost::new();
    let id = address_from_label("full-path");
    let record = EncryptedContractState { contract_id: id, json: ciphertext };
    save_state(&mut host, &record).unwrap();

    let fetched = get_state(&host, &id).unwrap();
    let back = decrypt(fetched.json, key).unwrap();
    assert_eq!(back.bytes, bytes);
}
