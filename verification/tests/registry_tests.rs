use base64::Engine;
use candid::Principal;
use chronolock::registry::{ChronoError, Registry};
use chronolock::stable::regions_init;

const NOW: u64 = 1_700_000_000_000_000_000;

fn ii_principal(seed: u8) -> Vec<u8> {
    let mut bytes = vec![0u8; 10];
    bytes[0] = seed;
    bytes[9] = 0x01;
    bytes
}

fn regular_principal(seed: u8) -> Vec<u8> {
    let mut bytes = vec![0u8; 29];
    bytes[0] = seed;
    bytes[28] = 0x02;
    bytes
}

fn self_auth(seed: &[u8]) -> Vec<u8> {
    Principal::self_authenticating(seed).as_slice().to_vec()
}

fn text_of(p: &[u8]) -> String {
    Principal::from_slice(p).to_text()
}

fn setup() -> (Registry, Vec<u8>) {
    let regions = regions_init();
    let admin = ii_principal(1);
    let mut r = Registry::init(regions, &admin, Some("local".to_string()), NOW);
    r.set_admin_bypass(&admin, true, NOW).expect("Failed to enable admin bypass");
    (r, admin)
}

fn setup_auth() -> (Registry, Vec<u8>, Vec<u8>, Vec<u8>) {
    let regions = regions_init();
    let admin = ii_principal(1);
    let r = Registry::init(regions, &admin, Some("local".to_string()), NOW);
    (r, admin, ii_principal(2), regular_principal(1))
}

#[test]
fn test_get_total_chronolocks_count() {
    let (mut r, admin) = setup();
    assert_eq!(r.get_total_chronolocks_count(), 0, "Initial count should be 0");
    for i in 0..3 {
        let _ = r.create_chronolock(&admin, format!("metadata_{}", i), NOW);
    }
    assert_eq!(r.get_total_chronolocks_count(), 3, "Count should be 3 after creating 3 chronolocks");
}

#[test]
fn test_get_owner_chronolocks_count() {
    let (mut r, admin) = setup();
    let user1 = self_auth(&[1, 2, 3]);
    let user2 = self_auth(&[4, 5, 6]);
    assert_eq!(r.get_owner_chronolocks_count(&admin), 0, "Initial count should be 0 for admin");
    for i in 0..2 {
        let _ = r.create_chronolock(&admin, format!("admin_metadata_{}", i), NOW);
    }
    for i in 0..3 {
        let _ = r.create_chronolock(&user1, format!("user1_metadata_{}", i), NOW);
    }
    assert_eq!(r.get_owner_chronolocks_count(&admin), 2, "Admin should have 2 chronolocks");
    assert_eq!(r.get_owner_chronolocks_count(&user1), 3, "User1 should have 3 chronolocks");
    assert_eq!(r.get_owner_chronolocks_count(&user2), 0, "User2 should have 0 chronolocks");
}

#[test]
fn test_get_all_chronolocks_paginated() {
    let (mut r, admin) = setup();
    let mut created_ids = Vec::new();
    for i in 0..5 {
        let token_id = r
            .create_chronolock(&admin, format!("metadata_{}", i), NOW)
            .ok()
            .expect("Failed to create chronolock");
        created_ids.push(token_id);
    }
    let page = r.get_all_chronolocks_paginated(0, 3).ok().expect("Failed to get chronolocks");
    assert_eq!(page.len(), 3, "Should return 3 chronolocks");
    let page = r.get_all_chronolocks_paginated(3, 3).ok().expect("Failed to get chronolocks");
    assert_eq!(page.len(), 2, "Should return 2 chronolocks on second page");
    let page = r.get_all_chronolocks_paginated(0, 150).ok().expect("Failed to get chronolocks");
    assert_eq!(page.len(), 5, "Should respect max limit and return all 5");
}

#[test]
fn test_get_owner_chronolocks_paginated() {
    let (mut r, admin) = setup();
    let user1 = self_auth(&[1, 2, 3]);
    for i in 0..4 {
        r.create_chronolock(&user1, format!("user1_metadata_{}", i), NOW)
            .ok()
            .expect("Failed to create chronolock");
    }
    let _ = r.create_chronolock(&admin, "admin_metadata".to_string(), NOW);
    let page = r.get_owner_chronolocks_paginated(&user1, 0, 2).ok().expect("Failed to get chronolocks");
    assert_eq!(page.len(), 2, "Should return 2 chronolocks for user1");
    for lock in &page {
        assert_eq!(lock.owner, user1, "All chronolocks should belong to user1");
    }
    let page = r.get_owner_chronolocks_paginated(&user1, 2, 2).ok().expect("Failed to get chronolocks");
    assert_eq!(page.len(), 2, "Should return 2 chronolocks on second page");
    let user2 = self_auth(&[7, 8, 9]);
    let page = r.get_owner_chronolocks_paginated(&user2, 0, 10).ok().expect("Failed to get chronolocks");
    assert_eq!(page.len(), 0, "Should return empty for user with no chronolocks");
}

fn encoded_metadata(title: &str, lock_time: u64, user: &str, key: &str, data: &str) -> String {
    let json = format!(
        "{{\"encryptedMetaData\":\"{}\",\"lockTime\":{},\"title\":\"{}\",\"userKeys\":[{{\"key\":\"{}\",\"user\":\"{}\"}}]}}",
        data, lock_time, title, key, user
    );
    base64::engine::general_purpose::STANDARD.encode(json)
}

#[test]
fn test_get_user_accessible_chronolocks_functions() {
    let (mut r, admin) = setup();
    let user1 = self_auth(&[1, 2, 3]);
    let current_time = NOW / 1_000_000_000;
    let past_time = current_time - 3600;
    let future_time = current_time + 3600;
    let public_metadata = encoded_metadata("Public Chronolock", past_time, "public", "public_key", "public_encrypted_data");
    let _ = r.create_chronolock(&admin, public_metadata, NOW);
    let user_entry = format!("{}:{}", text_of(&user1), past_time);
    let user_metadata = encoded_metadata("User Specific Chronolock", past_time, &user_entry, "user_key", "user_encrypted_data");
    let _ = r.create_chronolock(&admin, user_metadata, NOW);
    let locked_metadata = encoded_metadata("Locked Chronolock", future_time, "public", "locked_key", "locked_encrypted_data");
    let _ = r.create_chronolock(&admin, locked_metadata, NOW);

    assert_eq!(
        r.get_user_accessible_chronolocks_count(&user1, NOW),
        2,
        "User1 should have access to 2 chronolocks (public + user-specific)"
    );
    let page = r
        .get_user_accessible_chronolocks_paginated(&user1, 0, 10, NOW)
        .ok()
        .expect("Failed to get accessible chronolocks");
    assert_eq!(page.len(), 2, "Should return 2 accessible chronolocks");
    let user2 = self_auth(&[4, 5, 6]);
    assert_eq!(
        r.get_user_accessible_chronolocks_count(&user2, NOW),
        1,
        "User2 should only have access to 1 chronolock (public)"
    );
    let page = r
        .get_user_accessible_chronolocks_paginated(&user1, 0, 1, NOW)
        .ok()
        .expect("Failed to get accessible chronolocks");
    assert_eq!(page.len(), 1, "Should return only 1 chronolock due to limit");
}

#[test]
fn test_pagination_edge_cases() {
    let (mut r, admin) = setup();
    let page = r.get_all_chronolocks_paginated(0, 10).ok().expect("Failed to get chronolocks");
    assert_eq!(page.len(), 0, "Should return empty array when no chronolocks exist");
    let _ = r.create_chronolock(&admin, "test_metadata".to_string(), NOW);
    let page = r.get_all_chronolocks_paginated(10, 5).ok().expect("Failed to get chronolocks");
    assert_eq!(page.len(), 0, "Should return empty when offset exceeds available items");
    let page = r.get_all_chronolocks_paginated(0, 0).ok().expect("Failed to get chronolocks");
    assert_eq!(page.len(), 0, "Should return empty when limit is 0");
}

#[test]
fn test_authentication_validation() {
    let (mut r, admin, ii_user, regular_user) = setup_auth();
    let result = r.create_chronolock(&admin, "admin_chronolock".to_string(), NOW);
    assert!(result.is_ok(), "Admin should be able to create chronolock");
    let result = r.create_chronolock(&ii_user, "ii_user_chronolock".to_string(), NOW);
    assert!(result.is_ok(), "II user should be able to create chronolock");
    let result = r.create_chronolock(&regular_user, "regular_user_chronolock".to_string(), NOW);
    assert!(result.is_err(), "Regular user should be rejected");
    assert!(matches!(result, Err(ChronoError::NotAuthenticated)));
}

#[test]
fn test_admin_functions() {
    let (mut r, admin, ii_user, _regular_user) = setup_auth();
    let result = r.add_trusted_principal(&admin, &ii_user, NOW);
    assert!(result.is_ok(), "Admin should be able to add trusted principal");
    let result = r.add_trusted_principal(&ii_user, &ii_user, NOW);
    assert!(result.is_err(), "Non-admin should not be able to add trusted principal");
    assert!(matches!(result, Err(ChronoError::AdminRequired)));
    let result = r.set_admin_bypass(&admin, true, NOW);
    assert!(result.is_ok(), "Admin should be able to set admin bypass");
}

#[test]
fn test_trusted_principals() {
    let (mut r, admin, _ii_user, regular_user) = setup_auth();
    let result = r.add_trusted_principal(&admin, &regular_user, NOW);
    assert!(result.is_ok(), "Admin should be able to add trusted principal");
    assert!(r.is_principal_trusted(&regular_user), "Regular user should now be trusted");
    let result = r.create_chronolock(&regular_user, "trusted_user_chronolock".to_string(), NOW);
    assert!(result.is_ok(), "Trusted user should be able to create chronolock");
    let result = r.remove_trusted_principal(&admin, &regular_user, NOW);
    assert!(result.is_ok(), "Admin should be able to remove trusted principal");
    assert!(!r.is_principal_trusted(&regular_user), "Regular user should no longer be trusted");
}

#[test]
fn test_admin_bypass() {
    let (mut r, admin, _ii_user, regular_user) = setup_auth();
    let result = r.set_admin_bypass(&admin, true, NOW);
    assert!(result.is_ok(), "Admin should be able to enable admin bypass");
    let bypass_state = r.is_admin_bypass_enabled(&admin, NOW);
    assert!(bypass_state, "Admin bypass should be enabled after toggling to true");
    let result = r.create_chronolock(&regular_user, "bypass_chronolock".to_string(), NOW);
    assert!(result.is_ok(), "Regular user should be able to create chronolock with admin bypass");
    let result = r.set_admin_bypass(&admin, false, NOW);
    assert!(result.is_ok(), "Admin should be able to disable admin bypass");
    let bypass_state = r.is_admin_bypass_enabled(&admin, NOW);
    assert!(!bypass_state, "Admin bypass should be disabled after toggling to false");
    let result = r.create_chronolock(&regular_user, "should_fail_chronolock".to_string(), NOW);
    assert!(result.is_err(), "Regular user should be rejected without admin bypass");
    assert!(matches!(result, Err(ChronoError::NotAuthenticated)));
}

#[test]
fn auth_canister_tests_test_authentication_query_functions() {
    let (mut r, admin, ii_user, regular_user) = setup_auth();
    assert!(r.is_caller_authenticated(&ii_user, NOW), "II user should be authenticated");
    assert!(!r.is_caller_authenticated(&regular_user, NOW), "Regular user should not be authenticated");
    assert!(r.is_valid_ii_principal(&ii_user), "II user should be valid II principal");
    assert!(!r.is_valid_ii_principal(&regular_user), "Regular user should not be valid II principal");
    let anonymous = Principal::anonymous().as_slice().to_vec();
    assert!(!r.is_caller_authenticated(&anonymous, NOW), "Anonymous should not be authenticated");
    let _ = admin;
}

#[test]
fn registry_refused_caller_is_logged() {
    let (mut r, admin, _ii_user, regular_user) = setup_auth();
    let before = r.get_logs_paginated(&admin, 0, 100, NOW).ok().unwrap().len();
    let result = r.create_chronolock(&regular_user, "x".to_string(), NOW);
    assert!(matches!(result, Err(ChronoError::NotAuthenticated)));
    let logs = r.get_logs_paginated(&admin, 0, 100, NOW).ok().unwrap();
    assert_eq!(logs.len(), before + 1);
    assert!(logs[before].activity.starts_with("Authentication failure: Invalid principal attempted access: "));
}
