use candid::Principal;
use chronolock::classic::ClassicRegistry;
use chronolock::ledger::generate_tx_id;
use chronolock::mock::{greet, vetkd_derive_encrypted_key, vetkd_public_key};
use chronolock::registry::ChronoError;
use chronolock::stable::regions_init;
use sha2::Digest;

const NOW: u64 = 1_700_000_000_000_000_000;

fn classic() -> ClassicRegistry {
    ClassicRegistry::init(regions_init(), &vec![], Some(vec![0, 0, 0, 0, 0, 0, 0, 0, 1, 1]), NOW)
}

fn invalid_input(r: Result<(Vec<u8>, chronolock::classic::VetkdDeriveArgs), ChronoError>) -> String {
    match r {
        Err(ChronoError::InvalidInput(m)) => m,
        Err(e) => panic!("unexpected error {:?}", e),
        Ok(_) => panic!("unexpected success"),
    }
}

#[test]
fn tx_id_is_sha256_of_time_and_randomness() {
    let id = generate_tx_id(5, &[1, 2]);
    let mut data = 5u64.to_le_bytes().to_vec();
    data.extend_from_slice(&[1, 2]);
    let expected: [u8; 32] = sha2::Sha256::digest(&data).into();
    assert_eq!(id, expected);
    assert_ne!(generate_tx_id(6, &[1, 2]), id);
}

#[test]
fn hex_time_errors_read_as_the_standard_parser_prints_them() {
    let c = classic();
    let key = vec![1u8];
    assert_eq!(
        invalid_input(c.get_time_decryption_key(&"".to_string(), key.clone(), NOW)),
        "Invalid hex for unlock time: cannot parse integer from empty string"
    );
    assert_eq!(
        invalid_input(c.get_time_decryption_key(&"zz".to_string(), key.clone(), NOW)),
        "Invalid hex for unlock time: invalid digit found in string"
    );
    assert_eq!(
        invalid_input(c.get_time_decryption_key(&"1ffffffffffffffff".to_string(), key.clone(), NOW)),
        "Invalid hex for unlock time: number too large to fit in target type"
    );
    let m = invalid_input(c.get_time_decryption_key(&"+3e8".to_string(), key.clone(), NOW));
    assert!(m.starts_with("Hex decode failed: "), "{}", m);
}

#[test]
fn user_key_refuses_principal_text_that_does_not_parse() {
    let c = classic();
    let m = invalid_input(c.get_user_time_decryption_key(&vec![], &"00".to_string(), &"not a principal".to_string(), vec![1], NOW));
    assert!(m.starts_with("Invalid user id: "), "{}", m);
    let (canister, args) = c
        .get_user_time_decryption_key(&vec![], &"00".to_string(), &"aaaaa-aa".to_string(), vec![1], NOW)
        .ok()
        .unwrap();
    assert_eq!(canister, vec![0, 0, 0, 0, 0, 0, 0, 0, 1, 1]);
    assert_eq!(args.derivation_id, b"00:aaaaa-aa".to_vec());
    assert_eq!(args.key_name, "time_lock_key");
}

#[test]
fn mock_service_answers() {
    assert_eq!(vetkd_public_key("k"), b"mock_public_key_k".to_vec());
    assert_eq!(vetkd_derive_encrypted_key(&[0xab], &[1, 2]), b"mock_encrypted_key_ab_0102".to_vec());
    assert_eq!(greet("World"), "Hello, World!");
}

#[test]
fn principal_texts_are_the_standard_ones() {
    let c = classic();
    let logs = c.get_logs_paginated(&vec![], 0, 10).ok().unwrap();
    let vetkd_text = Principal::from_slice(&[0, 0, 0, 0, 0, 0, 0, 0, 1, 1]).to_text();
    assert_eq!(logs[0].activity, format!("Canister initialized with aaaaa-aa and {}", vetkd_text));
}
