use candid::Principal;
use chronolock::classic::ClassicRegistry;
use chronolock::registry::Registry;
use chronolock::registry_media::HttpRequest;
use chronolock::stable::regions_init;

const NOW: u64 = 1_700_000_000_000_000_000;

fn ii_principal(seed: u8) -> Vec<u8> {
    let mut bytes = vec![0u8; 10];
    bytes[0] = seed;
    bytes[9] = 0x01;
    bytes
}

fn classic_admin() -> Vec<u8> {
    Principal::from_text("aaaaa-aa").unwrap().as_slice().to_vec()
}

fn vetkd_canister() -> Vec<u8> {
    vec![0, 0, 0, 0, 0, 0, 0, 0, 1, 1]
}

fn backend_canister() -> Vec<u8> {
    vec![0, 0, 0, 0, 0, 0, 0, 1, 1, 1]
}

fn text_of(p: &[u8]) -> String {
    Principal::from_slice(p).to_text()
}

fn setup_classic() -> (ClassicRegistry, Vec<u8>) {
    let regions = regions_init();
    let admin = classic_admin();
    let c = ClassicRegistry::init(regions, &admin, Some(vetkd_canister()), NOW);
    (c, admin)
}

fn setup_registry() -> (Registry, Vec<u8>) {
    let regions = regions_init();
    let admin = ii_principal(1);
    let mut r = Registry::init(regions, &admin, Some("local".to_string()), NOW);
    r.set_admin_bypass(&admin, true, NOW).expect("admin bypass");
    (r, admin)
}

fn lock_metadata(unlock_time: u64) -> String {
    format!(
        "{{\"encrypted_metadata\":\"hex_or_base64_string\",\"title\":\"Test NFT\",\"unlock_time\":{}}}",
        unlock_time
    )
}

fn secs() -> u64 {
    NOW / 1_000_000_000
}

#[test]
fn canister_tests_test_initialization() {
    let (c, admin) = setup_classic();
    let logs = c.get_logs_paginated(&admin, 0, 10).ok().expect("Failed to get logs");
    assert_eq!(logs.len(), 1);
    let expected_log = format!(
        "Canister initialized with {} and {}",
        text_of(&admin),
        text_of(&vetkd_canister())
    );
    assert_eq!(logs[0].activity, expected_log);

    let (mut r, admin) = setup_registry();
    let logs = r.get_logs_paginated(&admin, 0, 10, NOW).ok().expect("Failed to get logs");
    assert_eq!(logs.len(), 2);
    let expected_log = format!("Canister initialized with admin: {}", text_of(&admin));
    assert_eq!(logs[0].activity, expected_log);
    assert_eq!(logs[1].activity, "Admin bypass enabled: true");
}

#[test]
fn canister_tests_test_set_max_metadata_size() {
    let (mut c, admin) = setup_classic();
    let result = c.set_max_metadata_size(&admin, 2048, NOW);
    assert!(result.is_ok(), "Expected Ok(()), got {:?}", result);

    let (mut r, admin) = setup_registry();
    let result = r.set_max_metadata_size(&admin, 2048, NOW);
    assert!(result.is_ok(), "Expected Ok(()), got {:?}", result);
}

#[test]
fn canister_tests_test_get_logs_paginated() {
    let (c, admin) = setup_classic();
    let logs = c.get_logs_paginated(&admin, 0, 10).ok().expect("Failed to get logs");
    assert_eq!(logs.len(), 1, "Expected 1 log entry, got {}", logs.len());

    let (mut r, admin) = setup_registry();
    let logs = r.get_logs_paginated(&admin, 0, 10, NOW).ok().expect("Failed to get logs");
    assert_eq!(logs.len(), 2, "Expected 2 log entries (init + admin bypass), got {}", logs.len());
}

#[test]
fn canister_tests_test_icrc7_symbol() {
    let (c, _) = setup_classic();
    assert_eq!(c.icrc7_symbol(), "CHRONO");
    let (r, _) = setup_registry();
    assert_eq!(r.icrc7_symbol(), "CHRONOLOCK");
}

#[test]
fn canister_tests_test_icrc7_name() {
    let (c, _) = setup_classic();
    assert_eq!(c.icrc7_name(), "Chronolock Collection");
    let (r, _) = setup_registry();
    assert_eq!(r.icrc7_name(), "Chronolock Collection");
}

#[test]
fn canister_tests_test_icrc7_description() {
    let (c, _) = setup_classic();
    assert_eq!(c.icrc7_description(), "A collection of time-locked NFTs");
    let (r, _) = setup_registry();
    assert_eq!(r.icrc7_description(), "A collection of time-locked NFTs");
}

#[test]
fn canister_tests_test_icrc7_total_supply() {
    let (c, _) = setup_classic();
    assert_eq!(c.icrc7_total_supply(), 0);
    let (r, _) = setup_registry();
    assert_eq!(r.icrc7_total_supply(), 0);
}

#[test]
fn canister_tests_test_icrc7_balance_of() {
    let (c, admin) = setup_classic();
    assert_eq!(c.icrc7_balance_of(&admin), 0);
    let (r, admin) = setup_registry();
    assert_eq!(r.icrc7_balance_of(&admin), 0);
}

#[test]
fn canister_tests_test_icrc7_owner_of_and_metadata() {
    let (mut c, admin) = setup_classic();
    let unlock_time = secs() + 3600;
    let token_id = c
        .create_chronolock(&admin, "Test metadata".to_string(), unlock_time, NOW)
        .ok()
        .expect("Failed to create chronolock");
    assert_eq!(c.icrc7_owner_of(&token_id), Some(admin.clone()));
    assert_eq!(c.icrc7_token_metadata(&token_id), Some("Test metadata".to_string()));

    let (mut r, admin) = setup_registry();
    let metadata = lock_metadata(secs() + 3600);
    let token_id = r
        .create_chronolock(&admin, metadata.clone(), NOW)
        .ok()
        .expect("Failed to create chronolock");
    assert_eq!(r.icrc7_owner_of(&token_id), Some(admin.clone()));
    assert_eq!(r.icrc7_token_metadata(&token_id), Some(metadata));
}

#[test]
fn canister_tests_test_icrc7_transfer() {
    let recipient = Principal::self_authenticating(&[1, 2, 3]).as_slice().to_vec();

    let (mut c, admin) = setup_classic();
    let token_id = c
        .create_chronolock(&admin, "Test metadata".to_string(), secs() + 3600, NOW)
        .ok()
        .expect("Failed to create chronolock");
    let transfer_result = c.icrc7_transfer(&admin, &token_id, &recipient, NOW);
    assert!(transfer_result.is_ok(), "Transfer failed: {:?}", transfer_result);
    assert_eq!(c.icrc7_owner_of(&token_id), Some(recipient.clone()), "Ownership transfer failed");

    let (mut r, admin) = setup_registry();
    let token_id = r
        .create_chronolock(&admin, lock_metadata(secs() + 3600), NOW)
        .ok()
        .expect("Failed to create chronolock");
    let transfer_result = r.icrc7_transfer(&admin, &token_id, &recipient, NOW);
    assert!(transfer_result.is_ok(), "Transfer failed: {:?}", transfer_result);
    assert_eq!(r.icrc7_owner_of(&token_id), Some(recipient), "Ownership transfer failed");
}

#[test]
fn canister_tests_test_icrc7_transfer_no_op() {
    let (mut c, admin) = setup_classic();
    let token_id = c
        .create_chronolock(&admin, "Test metadata".to_string(), secs() + 3600, NOW)
        .ok()
        .expect("Failed to create chronolock");
    let transfer_result = c.icrc7_transfer(&admin, &token_id, &admin, NOW);
    assert!(transfer_result.is_ok(), "Transfer to self should be allowed");
    assert_eq!(c.icrc7_owner_of(&token_id), Some(admin.clone()), "Owner should remain the same");

    let (mut r, admin) = setup_registry();
    let token_id = r
        .create_chronolock(&admin, lock_metadata(secs() + 3600), NOW)
        .ok()
        .expect("Failed to create chronolock");
    let transfer_result = r.icrc7_transfer(&admin, &token_id, &admin, NOW);
    assert!(transfer_result.is_ok(), "Transfer to self should be allowed");
    assert_eq!(r.icrc7_owner_of(&token_id), Some(admin), "Owner should remain the same");
}

#[test]
fn canister_tests_test_create_update_burn_chronolock() {
    let (mut c, admin) = setup_classic();
    let token_id = c
        .create_chronolock(&admin, "Test metadata".to_string(), secs() + 3600, NOW)
        .ok()
        .expect("Failed to create chronolock");
    let update_result = c.update_chronolock(&admin, &token_id, "Updated metadata".to_string(), secs() + 7200, NOW);
    assert!(update_result.is_ok(), "Update failed: {:?}", update_result);
    assert_eq!(c.icrc7_token_metadata(&token_id), Some("Updated metadata".to_string()));
    let burn_result = c.burn_chronolock(&admin, &token_id, NOW);
    assert!(burn_result.is_ok(), "Burn failed: {:?}", burn_result);
    assert_eq!(c.icrc7_owner_of(&token_id), None);

    let (mut r, admin) = setup_registry();
    let token_id = r
        .create_chronolock(&admin, lock_metadata(secs() + 3600), NOW)
        .ok()
        .expect("Failed to create chronolock");
    let new_metadata = lock_metadata(secs() + 7200);
    let update_result = r.update_chronolock(&admin, &token_id, new_metadata.clone(), NOW);
    assert!(update_result.is_ok(), "Update failed: {:?}", update_result);
    assert_eq!(r.icrc7_token_metadata(&token_id), Some(new_metadata));
    let burn_result = r.burn_chronolock(&admin, &token_id, NOW);
    assert!(burn_result.is_ok(), "Burn failed: {:?}", burn_result);
    assert_eq!(r.icrc7_owner_of(&token_id), None);
}

#[test]
fn canister_tests_test_upload_and_get_media() {
    let (mut c, _) = setup_classic();
    let file_data: Vec<u8> = vec![1, 2, 3, 4, 5];
    let media_url = c
        .upload_media(file_data.clone(), &backend_canister(), NOW)
        .ok()
        .expect("Failed to upload media");
    let media_id = media_url.split('/').last().unwrap().to_string();
    let retrieved = c.get_media(&media_id).ok().expect("Failed to get media");
    assert_eq!(retrieved, file_data);
    let request = HttpRequest {
        method: "GET".to_string(),
        url: format!("/media/{}", media_id),
        headers: vec![],
        body: vec![],
    };
    let response = c.http_request(&request);
    assert_eq!(response.status_code, 200);
    assert_eq!(response.body, file_data);

    let (mut r, admin) = setup_registry();
    let file_data: Vec<u8> = (1..=20).collect();
    let chunk1 = file_data[..10].to_vec();
    let chunk2 = file_data[10..].to_vec();
    let media_id = r.start_media_upload(&admin, 2, NOW).ok().expect("Failed to start media upload");
    let _ = r.upload_media_chunk(&admin, &media_id, 0, chunk1, NOW);
    let _ = r.upload_media_chunk(&admin, &media_id, 1, chunk2, NOW);
    let media_url = r
        .finish_media_upload(&admin, &media_id, &backend_canister(), NOW)
        .ok()
        .expect("Failed to upload media");
    let media_id_from_url = media_url.split('/').last().unwrap().to_string();
    let mut retrieved_data = vec![];
    let chunk_size = 10;
    let mut offset = 0;
    loop {
        let chunk = r
            .get_media_chunk(&media_id_from_url, offset as u32, chunk_size as u32)
            .ok()
            .expect("Failed to get media chunk");
        if chunk.is_empty() {
            break;
        }
        retrieved_data.extend_from_slice(&chunk);
        offset += chunk.len();
    }
    assert_eq!(retrieved_data, file_data);
    let request = HttpRequest {
        method: "GET".to_string(),
        url: format!("/media/{}", media_id_from_url),
        headers: vec![],
        body: vec![],
    };
    let response = r.http_request(&request);
    assert_eq!(response.status_code, 200);
    assert_eq!(response.body, file_data);
}
