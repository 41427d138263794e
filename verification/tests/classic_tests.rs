use candid::Principal;
use chronolock::classic::{key_reply_text, ClassicRegistry, VetkdDeriveArgs};
use chronolock::mock::{vetkd_derive_encrypted_key, vetkd_public_key};
use chronolock::registry::ChronoError;
use chronolock::stable::regions_init;

const NOW: u64 = 1_700_000_000_000_000_000;

fn admin() -> Vec<u8> {
    Principal::from_text("aaaaa-aa").unwrap().as_slice().to_vec()
}

fn vetkd_canister() -> Vec<u8> {
    vec![0, 0, 0, 0, 0, 0, 0, 0, 1, 1]
}

fn setup() -> ClassicRegistry {
    let regions = regions_init();
    ClassicRegistry::init(regions, &admin(), Some(vetkd_canister()), NOW)
}

fn self_auth(seed: &[u8]) -> Vec<u8> {
    Principal::self_authenticating(seed).as_slice().to_vec()
}

fn text_of(p: &[u8]) -> String {
    Principal::from_slice(p).to_text()
}

/// What the canister answers once the vetKD service (here the mock) has
/// answered the call.
fn through_mock(call: Result<(Vec<u8>, VetkdDeriveArgs), ChronoError>) -> Result<String, ChronoError> {
    let (canister, args) = call?;
    assert_eq!(canister, vetkd_canister());
    let reply = vetkd_derive_encrypted_key(&args.derivation_id, &args.encryption_public_key);
    Ok(key_reply_text(&reply))
}

fn expected_key(derivation_id: &[u8], encryption_public_key: &[u8]) -> String {
    let mock_key = format!(
        "mock_encrypted_key_{}_{}",
        hex::encode(derivation_id),
        hex::encode(encryption_public_key)
    );
    hex::encode(mock_key.as_bytes())
}

fn secs() -> u64 {
    NOW / 1_000_000_000
}

#[test]
fn test_ibe_encryption_key() {
    let c = setup();
    let (canister, args) = c.ibe_encryption_key_call().ok().expect("Failed to get encryption key");
    assert_eq!(canister, vetkd_canister());
    assert_eq!(args.derivation_path, vec![b"ibe_key".to_vec()]);
    let key = key_reply_text(&vetkd_public_key(&args.key_name));
    let expected_key = hex::encode("mock_public_key_time_lock_key".as_bytes());
    assert_eq!(key, expected_key, "Encryption key does not match expected value");
}

#[test]
fn test_get_time_decryption_key_time_lock() {
    let c = setup();
    let unlock_time = secs() + 1000;
    let unlock_time_hex = format!("{:016x}", unlock_time);
    let encryption_public_key = vec![1u8, 2, 3];
    let result = through_mock(c.get_time_decryption_key(&unlock_time_hex, encryption_public_key.clone(), NOW));
    assert!(matches!(result, Err(ChronoError::TimeLocked)), "Expected TimeLocked error before unlock time");

    let later = NOW + 1001 * 1_000_000_000;
    let key = through_mock(c.get_time_decryption_key(&unlock_time_hex, encryption_public_key.clone(), later))
        .ok()
        .expect("Failed to get decryption key");
    let derivation_id = hex::decode(&unlock_time_hex).unwrap();
    assert_eq!(key, expected_key(&derivation_id, &encryption_public_key), "Decryption key does not match expected value");
}

#[test]
fn test_get_user_time_decryption_key_auth_and_time() {
    let c = setup();
    let unlock_time = secs() + 1000;
    let unlock_time_hex = format!("{:016x}", unlock_time);
    let encryption_public_key = vec![1u8, 2, 3];
    let user_id = text_of(&admin());

    let unauthorized_caller = self_auth(&[1, 2, 3]);
    let result = through_mock(c.get_user_time_decryption_key(
        &unauthorized_caller,
        &unlock_time_hex,
        &user_id,
        encryption_public_key.clone(),
        NOW,
    ));
    assert!(matches!(result, Err(ChronoError::Unauthorized)), "Expected Unauthorized error for wrong caller");

    let result = through_mock(c.get_user_time_decryption_key(
        &admin(),
        &unlock_time_hex,
        &user_id,
        encryption_public_key.clone(),
        NOW,
    ));
    assert!(matches!(result, Err(ChronoError::TimeLocked)), "Expected TimeLocked error before unlock time");

    let later = NOW + 1001 * 1_000_000_000;
    let key = through_mock(c.get_user_time_decryption_key(
        &admin(),
        &unlock_time_hex,
        &user_id,
        encryption_public_key.clone(),
        later,
    ))
    .ok()
    .expect("Failed to get decryption key");
    let combined_id = format!("{}:{}", unlock_time_hex, user_id);
    assert_eq!(key, expected_key(combined_id.as_bytes(), &encryption_public_key), "Decryption key does not match expected value");
}

#[test]
fn test_encryption_decryption_invalid_inputs1() {
    let c = setup();
    let encryption_public_key = vec![1u8, 2, 3];
    let result = through_mock(c.get_time_decryption_key(&"invalid_hex".to_string(), encryption_public_key.clone(), NOW));
    assert!(matches!(result, Err(ChronoError::InvalidInput(_))), "Expected InvalidInput for invalid unlock_time_hex");

    let unlock_time_hex = format!("{:016x}", secs() + 1000);
    let result = through_mock(c.get_time_decryption_key(&unlock_time_hex, encryption_public_key.clone(), NOW));
    assert!(matches!(result, Err(ChronoError::TimeLocked)), "Expected TimeLocked error before unlock time");

    let unlock_time_hex = "00000000000003e8".to_string();
    let result = through_mock(c.get_time_decryption_key(&unlock_time_hex, vec![], NOW));
    match result {
        Err(ChronoError::InvalidInput(m)) => assert_eq!(m, "Encryption public key cannot be empty"),
        other => panic!("Expected InvalidInput for empty encryption key, got {:?}", other),
    }

    let result = through_mock(c.get_user_time_decryption_key(
        &admin(),
        &unlock_time_hex,
        &"not_a_principal".to_string(),
        encryption_public_key.clone(),
        NOW,
    ));
    assert!(matches!(result, Err(ChronoError::InvalidInput(_))), "Expected InvalidInput for invalid user_id");
}

#[test]
fn test_chronolock_encryption_integration() {
    let mut c = setup();
    let unlock_time = secs() + 1000;
    let unlock_time_hex = format!("{:016x}", unlock_time);
    let encryption_public_key = vec![1u8, 2, 3];
    c.create_chronolock(&admin(), "Test metadata".to_string(), unlock_time, NOW)
        .ok()
        .expect("Failed to create chronolock");
    let result = through_mock(c.get_time_decryption_key(&unlock_time_hex, encryption_public_key.clone(), NOW));
    assert!(matches!(result, Err(ChronoError::TimeLocked)), "Expected TimeLocked before unlock time");
    let later = NOW + 1001 * 1_000_000_000;
    let key = through_mock(c.get_time_decryption_key(&unlock_time_hex, encryption_public_key.clone(), later))
        .ok()
        .expect("Failed to get decryption key");
    let derivation_id = hex::decode(&unlock_time_hex).unwrap();
    assert_eq!(key, expected_key(&derivation_id, &encryption_public_key), "Decryption key does not match expected value");
}

#[test]
fn test_multi_user_time_locked_decryption_keys() {
    let c = setup();
    let unlock_time = secs() + 1000;
    let unlock_time_hex = format!("{:016x}", unlock_time);
    let encryption_public_key = vec![9u8, 8, 7];
    let users = vec![admin(), self_auth(&[4, 5, 6]), self_auth(&[7, 8, 9])];
    for user in &users {
        let user_id = text_of(user);
        let result = through_mock(c.get_user_time_decryption_key(
            user,
            &unlock_time_hex,
            &user_id,
            encryption_public_key.clone(),
            NOW,
        ));
        assert!(matches!(result, Err(ChronoError::TimeLocked)), "Expected TimeLocked error before unlock time for user {}", user_id);
    }
    let later = NOW + 1001 * 1_000_000_000;
    for user in &users {
        let user_id = text_of(user);
        let key = through_mock(c.get_user_time_decryption_key(
            user,
            &unlock_time_hex,
            &user_id,
            encryption_public_key.clone(),
            later,
        ))
        .ok()
        .expect("Failed to get decryption key");
        let combined_id = format!("{}:{}", unlock_time_hex, user_id);
        assert_eq!(
            key,
            expected_key(combined_id.as_bytes(), &encryption_public_key),
            "Decryption key does not match expected value for user {}",
            user_id
        );
    }
}

#[test]
fn test_create_and_unlock_multi_user_chronolock() {
    let mut c = setup();
    let unlock_time = secs() + 1000;
    let unlock_time_hex = format!("{:016x}", unlock_time);
    let encryption_public_key = vec![42u8, 43, 44];
    let users = vec![admin(), self_auth(&[10, 11, 12]), self_auth(&[13, 14, 15])];
    let mut encrypted_keys = vec![];
    for user in &users {
        let user_id = text_of(user);
        encrypted_keys.push((user_id.clone(), format!("encrypted_key_for_{}", user_id)));
    }
    let metadata = serde_json::to_string(&encrypted_keys).unwrap();
    let token_id = c
        .create_chronolock(&admin(), metadata.clone(), unlock_time, NOW)
        .ok()
        .expect("Failed to create chronolock");
    for user in &users {
        let user_id = text_of(user);
        let result = through_mock(c.get_user_time_decryption_key(
            user,
            &unlock_time_hex,
            &user_id,
            encryption_public_key.clone(),
            NOW,
        ));
        assert!(matches!(result, Err(ChronoError::TimeLocked)), "Expected TimeLocked error before unlock time for user {}", user_id);
    }
    let later = NOW + 1001 * 1_000_000_000;
    for user in &users {
        let user_id = text_of(user);
        let key = through_mock(c.get_user_time_decryption_key(
            user,
            &unlock_time_hex,
            &user_id,
            encryption_public_key.clone(),
            later,
        ))
        .ok()
        .expect("Failed to get decryption key");
        let combined_id = format!("{}:{}", unlock_time_hex, user_id);
        assert_eq!(key, expected_key(combined_id.as_bytes(), &encryption_public_key));
    }
    assert_eq!(c.icrc7_token_metadata(&token_id), Some(metadata));
}

#[test]
fn classic_rejects_oversized_metadata_and_file() {
    let mut c = setup();
    let big = "x".repeat(1025);
    assert!(matches!(c.create_chronolock(&admin(), big, 0, NOW), Err(ChronoError::MetadataTooLarge)));
    let file = vec![0u8; 10 * 1024 * 1024 + 1];
    match c.upload_media(file, &vetkd_canister(), NOW) {
        Err(ChronoError::InvalidInput(m)) => assert_eq!(m, "File size exceeds maximum of 10485760 bytes"),
        other => panic!("unexpected {:?}", other),
    }
    assert!(matches!(c.get_media(&"missing".to_string()), Err(ChronoError::TokenNotFound)));
}

#[test]
fn classic_only_owner_changes_a_lock() {
    let mut c = setup();
    let id = c.create_chronolock(&admin(), "m".to_string(), 1, NOW).ok().unwrap();
    let other = self_auth(&[1]);
    assert!(matches!(c.update_chronolock(&other, &id, "n".to_string(), 2, NOW), Err(ChronoError::Unauthorized)));
    assert!(matches!(c.burn_chronolock(&other, &id, NOW), Err(ChronoError::Unauthorized)));
    assert!(matches!(c.icrc7_transfer(&other, &id, &other, NOW), Err(ChronoError::Unauthorized)));
    assert!(matches!(c.burn_chronolock(&admin(), &"nope".to_string(), NOW), Err(ChronoError::TokenNotFound)));
    assert!(matches!(c.set_max_metadata_size(&other, 5, NOW), Err(ChronoError::Unauthorized)));
    assert!(c.get_logs_paginated(&other, 0, 10).is_err());
}

#[test]
fn classic_ids_count_up_within_a_tick() {
    let mut c = setup();
    let a = c.create_chronolock(&admin(), "a".to_string(), 1, NOW).ok().unwrap();
    let b = c.create_chronolock(&admin(), "b".to_string(), 1, NOW).ok().unwrap();
    assert_eq!(a, format!("{}-1", NOW));
    assert_eq!(b, format!("{}-3", NOW));
    assert_eq!(c.icrc7_balance_of(&admin()), 2);
    let logs = c.get_logs_paginated(&admin(), 0, 100).ok().unwrap();
    assert_eq!(logs.len(), 3);
    assert_eq!(logs[1].activity, format!("Chronolock created with ID: {}", a));
}

#[test]
fn classic_http_request_refuses_other_methods() {
    let c = setup();
    let request = chronolock::registry_media::HttpRequest {
        method: "POST".to_string(),
        url: "/media/x".to_string(),
        headers: vec![],
        body: vec![],
    };
    let r = c.http_request(&request);
    assert_eq!(r.status_code, 405);
    assert_eq!(r.body, b"Method not allowed".to_vec());
    let request = chronolock::registry_media::HttpRequest {
        method: "GET".to_string(),
        url: "/other?x=1".to_string(),
        headers: vec![],
        body: vec![],
    };
    assert_eq!(c.http_request(&request).status_code, 404);
}
