use base64::Engine;
use candid::Principal;
use chronolock::account::Account;
use chronolock::classic::ClassicRegistry;
use chronolock::ledger::{generate_random_referral_code, ApproveArgs, Ledger, LedgerError, Nat, TransferArgs, TransferFromArgs};
use chronolock::pool_dummy::{make_dummy_account, DummyAction};
use chronolock::pool_ledger::{generate_letter_code, PoolApproveArgs, PoolLedger};
use chronolock::registry::{ChronoError, Registry};
use chronolock::stable::regions_init;

const NOW: u64 = 1_700_000_000_000_000_000;
const SECOND: u64 = 1_000_000_000;
const COMMUNITY: [u8; 32] = [1u8; 32];
const TEAM: [u8; 32] = [2u8; 32];
const SUPPLY: u128 = 100_000_000_000_000_000_000_u128;

fn ii(seed: u8) -> Vec<u8> {
    let mut b = vec![0u8; 10];
    b[0] = seed;
    b[9] = 1;
    b
}

fn acct(owner: Vec<u8>, sub: Option<[u8; 32]>) -> Account {
    Account { owner, subaccount: sub }
}

fn ledger(supply: u128) -> (Ledger, Vec<u8>) {
    let admin = ii(1);
    let l = Ledger::init(regions_init(), "Chronolock".into(), "CRNL".into(), supply, 31_536_000, 100_000, admin.clone(), NOW);
    (l, admin)
}

fn pool(supply: u128) -> (PoolLedger, Vec<u8>) {
    let admin = ii(1);
    let l = PoolLedger::init(regions_init(), "Chronolock".into(), "CRNL".into(), supply, 31_536_000, 100_000, admin.clone(), NOW);
    (l, admin)
}

fn registry() -> (Registry, Vec<u8>) {
    let admin = ii(1);
    let r = Registry::init(regions_init(), &admin, Some("local".to_string()), NOW);
    (r, admin)
}

fn amount(x: u128) -> Nat {
    Nat::from_u128(x)
}

fn draw(seed: u8) -> Vec<u8> {
    (0..16u8).map(|i| seed.wrapping_mul(13).wrapping_add(i.wrapping_mul(29))).collect()
}

fn ledger_register(l: &mut Ledger, user: &Account, seed: u8) -> Result<String, LedgerError> {
    if !l.register_user(user, NOW)? {
        return Ok(l.registered_reply());
    }
    let mut s = seed;
    loop {
        if let Some(r) = l.assign_referral_code(user, &generate_random_referral_code(&draw(s)), NOW) {
            return Ok(r);
        }
        s = s.wrapping_add(1);
    }
}

fn pool_register(l: &mut PoolLedger, user: &Account, seed: u8) -> Result<String, LedgerError> {
    if !l.register_user(user, NOW)? {
        return Ok(l.registered_reply());
    }
    let mut s = seed;
    loop {
        if let Some(r) = l.assign_referral_code(user, &generate_letter_code(&draw(s)), NOW) {
            return Ok(r);
        }
        s = s.wrapping_add(1);
    }
}

// The token ledger.

#[test]
fn law_fee_split_within_fee_example() {
    let (mut l, admin) = ledger(SUPPLY);
    l.set_transfer_fee(&admin, 99, NOW).unwrap();
    let (burn, pool, dapp) = l.get_fee_distribution();
    assert_eq!((burn, pool, dapp), (19, 9, 69));
    assert!(burn + pool + dapp <= 99);
}

#[test]
fn law_process_fee_keeps_supply_and_burned_example() {
    let (mut l, admin) = ledger(SUPPLY);
    let before = l.icrc1_total_supply() + l.get_total_burned();
    let to = acct(ii(7), None);
    l.icrc1_transfer(&admin, &TransferArgs { from_subaccount: Some(COMMUNITY), to, amount: amount(5_000_000) }, NOW).unwrap();
    assert_eq!(l.icrc1_total_supply() + l.get_total_burned(), before);
    assert_eq!(l.get_total_burned(), 20_000);
}

#[test]
fn law_refused_transfer_changes_nothing_example() {
    let (mut l, admin) = ledger(SUPPLY);
    let to = acct(ii(7), None);
    let logs = l.get_logs().len();
    let community = l.get_community_pool_balance();
    let r = l.icrc1_transfer(&admin, &TransferArgs { from_subaccount: None, to: to.clone(), amount: amount(1_000_000) }, NOW);
    assert_eq!(r, Err(LedgerError::InsufficientBalance));
    assert_eq!(l.get_logs().len(), logs);
    assert_eq!(l.get_community_pool_balance(), community);
    assert_eq!(l.icrc1_balance_of(&to), 0);
}

#[test]
fn law_team_pool_locked_until_vesting_ends_example() {
    let (mut l, admin) = ledger(SUPPLY);
    let to = acct(ii(7), None);
    let args = TransferArgs { from_subaccount: Some(TEAM), to: to.clone(), amount: amount(1_000_000) };
    assert_eq!(l.icrc1_transfer(&admin, &args, NOW), Err(LedgerError::VestingLocked));
    let later = NOW + 31_536_000 * SECOND;
    assert_eq!(l.icrc1_transfer(&admin, &args, later), Ok(1_000_000));
    assert_eq!(l.icrc1_balance_of(&to), 900_000);
}

#[test]
fn law_approve_then_allowance_example() {
    let (mut l, admin) = ledger(SUPPLY);
    let spender = acct(ii(2), None);
    let owner = acct(admin.clone(), Some(COMMUNITY));
    l.icrc1_approve(&admin, &ApproveArgs { from_subaccount: Some(COMMUNITY), spender: spender.clone(), amount: amount(77), expires_at: None }, NOW).unwrap();
    assert_eq!(l.icrc1_allowance(&owner, &spender), 77);
    l.icrc1_approve(&admin, &ApproveArgs { from_subaccount: Some(COMMUNITY), spender: spender.clone(), amount: amount(5), expires_at: None }, NOW).unwrap();
    assert_eq!(l.icrc1_allowance(&owner, &spender), 5);
}

#[test]
fn law_transfer_from_spends_allowance_and_only_by_spender() {
    let (mut l, admin) = ledger(SUPPLY);
    let spender = acct(ii(2), None);
    let owner = acct(admin.clone(), Some(COMMUNITY));
    let to = acct(ii(3), None);
    l.icrc1_approve(&admin, &ApproveArgs { from_subaccount: Some(COMMUNITY), spender: spender.clone(), amount: amount(1_000_000), expires_at: None }, NOW).unwrap();
    let args = TransferFromArgs { spender: spender.clone(), from: owner.clone(), to: to.clone(), amount: amount(400_000) };
    assert_eq!(l.icrc1_transfer_from(&ii(9), &args, NOW), Err(LedgerError::Unauthorized));
    assert_eq!(l.icrc1_transfer_from(&spender.owner, &args, NOW), Ok(400_000));
    assert_eq!(l.icrc1_allowance(&owner, &spender), 600_000);
    let too_much = TransferFromArgs { amount: amount(700_000), ..args };
    assert_eq!(l.icrc1_transfer_from(&spender.owner, &too_much, NOW), Err(LedgerError::InsufficientAllowance));
}

#[test]
fn law_register_once_example() {
    let (mut l, _) = ledger(SUPPLY);
    let user = acct(ii(4), None);
    ledger_register(&mut l, &user, 1).unwrap();
    assert_eq!(l.icrc1_balance_of(&user), 20_000_000_000);
    let logs = l.get_logs().len();
    assert_eq!(l.register_user(&user, NOW), Err(LedgerError::AlreadyRegistered));
    assert_eq!(l.get_logs().len(), logs);
    assert_eq!(l.icrc1_balance_of(&user), 20_000_000_000);
}

#[test]
fn law_code_in_use_refused_and_codes_stay_consistent() {
    let (mut l, _) = ledger(SUPPLY);
    let a = acct(ii(4), None);
    let b = acct(ii(5), None);
    let reply = ledger_register(&mut l, &a, 1).unwrap();
    let code = reply.split("Your referral code is: ").nth(1).unwrap().to_string();
    assert!(l.register_user(&b, NOW).unwrap());
    assert_eq!(l.assign_referral_code(&b, &code, NOW), None);
    assert_eq!(l.get_referral_code(&b), None);
    let code_a = l.get_referral_code(&a).unwrap();
    assert_eq!(code_a, code);
    let owner = l.referrer_of(&code).unwrap();
    assert_eq!(owner.owner, a.owner);
}

#[test]
fn law_claim_once_example() {
    let (mut l, _) = ledger(SUPPLY);
    let referrer = acct(ii(4), None);
    let referee = acct(ii(5), None);
    let reply = ledger_register(&mut l, &referrer, 1).unwrap();
    let code = reply.split("Your referral code is: ").nth(1).unwrap().to_string();
    ledger_register(&mut l, &referee, 2).unwrap();
    let community = l.get_community_pool_balance();
    assert!(l.claim_referral(&referee.owner, &code, NOW).is_ok());
    assert_eq!(l.icrc1_balance_of(&referrer), 22_000_000_000);
    assert_eq!(l.get_community_pool_balance(), community - 2_000_000_000);
    assert_eq!(l.claim_referral(&referee.owner, &code, NOW), Err(LedgerError::InvalidReferral));
    assert_eq!(l.claim_referral(&ii(6), &"nope".to_string(), NOW), Err(LedgerError::InvalidReferral));
}

#[test]
fn law_log_changes_only_logs_example() {
    let (mut l, admin) = ledger(SUPPLY);
    let community = l.get_community_pool_balance();
    let n = l.get_logs().len();
    l.log_event("Note", "details".to_string(), NOW);
    let logs = l.get_logs();
    assert_eq!(logs.len(), n + 1);
    assert_eq!(logs[n].event_type, "Note");
    assert_eq!(logs[n].details, "details");
    assert_eq!(l.get_community_pool_balance(), community);
    assert_eq!(l.get_admin(), admin);
}

#[test]
fn law_init_pools_example() {
    let (l, _) = ledger(1_000);
    assert_eq!(l.get_community_pool_balance(), 500);
    assert_eq!(l.get_team_pool_balance(), 200);
    assert_eq!(l.get_reserve_pool_balance(), 300);
    assert_eq!(l.get_dapp_funds(), 0);
}

// The first ledger.

#[test]
fn law_pool_fee_keeps_totals_example() {
    let (mut l, admin) = pool(SUPPLY);
    let to = acct(ii(7), None);
    let before = l.icrc1_total_supply() + l.get_total_burned();
    l.icrc1_transfer(&admin, &TransferArgs { from_subaccount: Some(COMMUNITY), to, amount: amount(1_000_000) }, NOW).unwrap();
    assert_eq!(l.icrc1_total_supply() + l.get_total_burned(), before);
    assert_eq!(l.get_dapp_funds(), 70_000);
}

#[test]
fn law_pool_transfer_moves_amount_less_fee_and_refusals_change_nothing() {
    let (mut l, admin) = pool(SUPPLY);
    let from = acct(admin.clone(), Some(COMMUNITY));
    let to = acct(ii(7), None);
    let before = l.icrc1_balance_of(&from);
    assert_eq!(l.icrc1_transfer(&admin, &TransferArgs { from_subaccount: Some(COMMUNITY), to: to.clone(), amount: amount(99_999) }, NOW), Err(LedgerError::InsufficientFee));
    assert_eq!(l.icrc1_balance_of(&from), before);
    assert_eq!(l.icrc1_transfer(&admin, &TransferArgs { from_subaccount: Some(COMMUNITY), to: to.clone(), amount: amount(300_000) }, NOW), Ok(300_000));
    assert_eq!(l.icrc1_balance_of(&from), before - 300_000);
    assert_eq!(l.icrc1_balance_of(&to), 200_000);
}

#[test]
fn law_pool_approve_and_transfer_from_example() {
    let (mut l, admin) = pool(SUPPLY);
    let owner = acct(admin.clone(), Some(COMMUNITY));
    let spender = acct(ii(2), None);
    l.icrc1_approve(&admin, &PoolApproveArgs { from_subaccount: Some(COMMUNITY), spender: spender.clone(), amount: amount(1_000_000) }, NOW).unwrap();
    assert_eq!(l.icrc1_allowance(&owner, &spender), 1_000_000);
    let args = TransferFromArgs { spender: spender.clone(), from: owner.clone(), to: acct(ii(3), None), amount: amount(250_000) };
    assert_eq!(l.icrc1_transfer_from(&args, NOW), Ok(250_000));
    assert_eq!(l.icrc1_allowance(&owner, &spender), 750_000);
}

#[test]
fn law_pool_register_claim_and_codes_example() {
    let (mut l, _) = pool(SUPPLY);
    let referrer = acct(ii(4), None);
    let referee = acct(ii(5), None);
    let reply = pool_register(&mut l, &referrer, 1).unwrap();
    assert_eq!(l.register_user(&referrer, NOW), Err(LedgerError::AlreadyRegistered));
    let code = reply.split("Your referral code is: ").nth(1).unwrap().to_string();
    assert_eq!(code.len(), 7);
    assert!(l.register_user(&referee, NOW).unwrap());
    assert_eq!(l.assign_referral_code(&referee, &code, NOW), None);
    assert!(l.claim_referral(&code, &referee, NOW).is_ok());
    assert_eq!(l.claim_referral(&code, &referee, NOW), Err(LedgerError::InvalidReferral));
    assert_eq!(l.claim_referral(&"unknown".to_string(), &acct(ii(6), None), NOW), Err(LedgerError::InvalidReferral));
}

#[test]
fn law_pool_set_fee_example() {
    let (mut l, admin) = pool(SUPPLY);
    assert_eq!(l.set_transfer_fee(&ii(9), 5, NOW), Err(LedgerError::Unauthorized));
    assert_eq!(l.icrc1_fee(), 100_000);
    assert_eq!(l.set_transfer_fee(&admin, 5, NOW), Ok(()));
    assert_eq!(l.icrc1_fee(), 5);
}

#[test]
fn law_pool_log_bounded_example() {
    let (mut l, _) = pool(SUPPLY);
    for i in 0..10_005u64 {
        l.log_event("Tick", format!("{}", i), NOW + i * SECOND);
    }
    let logs = l.get_logs();
    assert_eq!(logs.len(), 10_000);
    assert_eq!(logs.last().unwrap().details, "10004");
    let same_second = l.get_logs_by_range(0, u64::MAX).len();
    l.log_event("Tick", "again".to_string(), NOW + 10_004 * SECOND);
    assert_eq!(l.get_logs_by_range(0, u64::MAX).len(), same_second);
}

#[test]
fn law_dummy_accounts_differ_example() {
    let a = make_dummy_account(&ii(1), 17, 0);
    let b = make_dummy_account(&ii(1), 17, 1);
    let c = make_dummy_account(&ii(1), 18, 0);
    assert_ne!(a.subaccount, b.subaccount);
    assert_ne!(a.subaccount, c.subaccount);
    let mut expected = [0u8; 32];
    expected[0..8].copy_from_slice(&17u64.to_le_bytes());
    expected[8..12].copy_from_slice(&1u32.to_le_bytes());
    assert_eq!(b.subaccount, Some(expected));
}

/// Drives a dummy run as the canister does, with fixed random bytes.
fn drive(l: &mut PoolLedger, run: &mut chronolock::pool_dummy::DummyRun) -> Result<String, LedgerError> {
    let mut random = None;
    let mut seed = 0u8;
    for _ in 0..100_000 {
        match l.dummy_step(run, random.take(), NOW) {
            DummyAction::DrawCode => {
                seed = seed.wrapping_add(1);
                random = Some(draw(seed));
            }
            DummyAction::Next => {}
            DummyAction::Done(r) => return r,
        }
    }
    panic!("the run did not end");
}

#[test]
fn law_dummy_failure_is_final_example() {
    let (mut l, admin) = pool(1_000);
    assert_eq!(l.add_dummy_data(&ii(9), 2, 1, 1, NOW).err(), Some(LedgerError::Unauthorized));
    let mut run = l.add_dummy_data(&admin, 2, 1, 1, NOW).unwrap();
    let result = drive(&mut l, &mut run);
    assert_eq!(result, Err(LedgerError::InsufficientPoolFunds));
    let logs = l.get_logs().len();
    match l.dummy_step(&mut run, None, NOW) {
        DummyAction::Done(r) => assert_eq!(r, Err(LedgerError::InsufficientPoolFunds)),
        other => panic!("unexpected {:?}", other),
    }
    assert_eq!(l.get_logs().len(), logs);
}

#[test]
fn dummy_data_run_completes() {
    let (mut l, admin) = pool(SUPPLY);
    let mut run = l.add_dummy_data(&admin, 3, 1_000_000, 5_000_000, NOW).unwrap();
    let result = drive(&mut l, &mut run);
    assert!(result.is_ok(), "{:?}", result);
    let users: Vec<Account> = (0..3).map(|i| make_dummy_account(&admin, NOW / SECOND, i)).collect();
    for u in &users {
        assert!(l.get_referral_code(u).is_some());
    }
}

// The collection.

#[test]
fn law_trusted_may_act_and_admin_check_only_admin() {
    let (mut r, admin) = registry();
    let regular = {
        let mut b = vec![0u8; 29];
        b[0] = 1;
        b[28] = 2;
        b
    };
    assert!(matches!(r.validate_caller_authentication(&regular, NOW), Err(ChronoError::NotAuthenticated)));
    r.add_trusted_principal(&admin, &regular, NOW).unwrap();
    assert!(r.validate_caller_authentication(&regular, NOW).is_ok());
    assert!(matches!(r.validate_admin_authentication(&ii(2), NOW), Err(ChronoError::AdminRequired)));
    assert!(r.validate_admin_authentication(&admin, NOW).is_ok());
}

#[test]
fn law_create_update_and_who_may_change_example() {
    let (mut r, admin) = registry();
    let user = ii(2);
    let id = r.create_chronolock(&user, "m1".to_string(), NOW).ok().unwrap();
    let lock = r.get_chronolock(&id).ok().unwrap();
    assert_eq!((lock.id.clone(), lock.owner.clone(), lock.metadata.clone()), (id.clone(), user.clone(), "m1".to_string()));
    assert_eq!(r.tokens_of_owner(&user), vec![id.clone()]);
    assert!(matches!(r.update_chronolock(&ii(3), &id, "x".to_string(), NOW), Err(ChronoError::Unauthorized)));
    assert!(matches!(r.icrc7_transfer(&ii(3), &id, &ii(3), NOW), Err(ChronoError::Unauthorized)));
    r.update_chronolock(&user, &id, "m2".to_string(), NOW).ok().unwrap();
    assert_eq!(r.icrc7_token_metadata(&id), Some("m2".to_string()));
    assert!(r.burn_chronolock(&admin, &id, NOW).is_ok(), "the admin may burn");
    assert!(matches!(r.get_chronolock(&id), Err(ChronoError::TokenNotFound)));
}

#[test]
fn law_create_too_large_example() {
    let (mut r, admin) = registry();
    r.set_max_metadata_size(&admin, 4, NOW).ok().unwrap();
    let supply = r.icrc7_total_supply();
    assert!(matches!(r.create_chronolock(&admin, "12345".to_string(), NOW), Err(ChronoError::MetadataTooLarge)));
    assert_eq!(r.icrc7_total_supply(), supply);
    assert!(r.create_chronolock(&admin, "1234".to_string(), NOW).is_ok());
}

#[test]
fn law_chunk_fills_slot_once_example() {
    let (mut r, admin) = registry();
    let id = r.start_media_upload(&admin, 2, NOW).ok().unwrap();
    assert_eq!(r.upload_media_chunk(&admin, &id, 1, vec![9, 9, 9], NOW).ok(), Some(3));
    match r.upload_media_chunk(&admin, &id, 1, vec![1], NOW) {
        Err(ChronoError::InvalidInput(m)) => assert_eq!(m, "Chunk already uploaded"),
        other => panic!("unexpected {:?}", other),
    }
    match r.upload_media_chunk(&admin, &id, 2, vec![1], NOW) {
        Err(ChronoError::InvalidInput(m)) => assert_eq!(m, "Invalid chunk index"),
        other => panic!("unexpected {:?}", other),
    }
    let upload = r.upload_at(&id).unwrap();
    assert_eq!(upload.received_chunks, 1);
    match r.finish_media_upload(&admin, &id, &vec![0, 0, 0, 0, 0, 0, 0, 1, 1, 1], NOW) {
        Err(ChronoError::InvalidInput(m)) => assert_eq!(m, "Not all chunks uploaded: 1/2"),
        other => panic!("unexpected {:?}", other),
    }
    assert!(r.upload_at(&id).is_none(), "a finish drops the upload either way");
}

fn encoded(lock_time: u64, user: &str) -> String {
    let json = format!(
        "{{\"title\":\"t\",\"lockTime\":{},\"userKeys\":[{{\"user\":\"{}\",\"key\":\"k\"}}],\"encryptedMetaData\":\"d\"}}",
        lock_time, user
    );
    base64::engine::general_purpose::STANDARD.encode(json)
}

#[test]
fn law_locked_opens_for_none_and_public_opens_for_all() {
    let (mut r, admin) = registry();
    let secs = NOW / SECOND;
    r.create_chronolock(&admin, encoded(secs + 10, "public"), NOW).ok().unwrap();
    let anyone = ii(5);
    assert_eq!(r.get_user_accessible_chronolocks_count(&anyone, NOW), 0);
    assert_eq!(r.get_user_accessible_chronolocks_count(&anyone, NOW + 10 * SECOND), 1);
    let hex_meta = hex::encode(format!("{{\"lockTime\":{},\"userKeys\":[{{\"user\":\"public\"}}]}}", secs));
    r.create_chronolock(&admin, hex_meta, NOW).ok().unwrap();
    assert_eq!(r.get_user_accessible_chronolocks_count(&anyone, NOW), 1, "hex metadata is read too");
}

#[test]
fn law_no_key_before_time_example() {
    let (r, _) = registry();
    let secs = NOW / SECOND;
    let hex = format!("{:016x}", secs + 1);
    assert!(matches!(r.get_time_decryption_key(&hex, vec![1], NOW), Err(ChronoError::TimeLocked)));
    let req = r.get_time_decryption_key(&hex, vec![1], NOW + SECOND).ok().unwrap();
    assert_eq!(req.input, format!("{}", secs + 1).into_bytes());
    assert_eq!(req.context, b"chronolock-encryption".to_vec());
    assert_eq!(req.key_name, "dfx_test_key");
    match r.get_time_decryption_key(&"abc".to_string(), vec![1], NOW) {
        Err(ChronoError::InvalidInput(m)) => assert_eq!(m, "unlock_time_hex must be a 16-character hexadecimal string"),
        other => panic!("unexpected {:?}", other),
    }
}

#[test]
fn law_page_at_most_hundred_example() {
    let (mut r, admin) = registry();
    r.set_admin_bypass(&admin, true, NOW).ok().unwrap();
    for i in 0..120 {
        r.create_chronolock(&admin, format!("m{}", i), NOW).ok().unwrap();
    }
    assert_eq!(r.get_all_chronolocks_paginated(0, 1000).ok().unwrap().len(), 100);
    assert_eq!(r.get_owner_chronolocks_paginated(&admin, 100, 1000).ok().unwrap().len(), 20);
}

#[test]
fn law_log_bounded_example() {
    let (mut r, admin) = registry();
    for i in 0..10_001u64 {
        r.set_max_metadata_size(&admin, i, NOW + i).ok().unwrap();
    }
    let logs = r.get_logs_paginated(&admin, 0, 20_000, NOW + 20_000).ok().unwrap();
    assert_eq!(logs.len(), 10_000);
    assert!(logs.iter().all(|e| e.activity != "Canister initialized with admin: ".to_string() + &Principal::from_slice(&admin).to_text()));
}

#[test]
fn law_classic_upload_then_get_example() {
    let mut c = ClassicRegistry::init(regions_init(), &ii(1), None, NOW);
    let url = c.upload_media(vec![4, 5, 6], &vec![0, 0, 0, 0, 0, 0, 0, 1, 1, 1], NOW).ok().unwrap();
    let canister_text = Principal::from_slice(&[0, 0, 0, 0, 0, 0, 0, 1, 1, 1]).to_text();
    assert_eq!(url, format!("https://{}.raw.ic0.app/media/{}-1", canister_text, NOW));
    assert_eq!(c.get_media(&format!("{}-1", NOW)).ok(), Some(vec![4, 5, 6]));
    match c.vetkd_canister() {
        Ok(v) => assert_eq!(Principal::from_slice(&v).to_text(), "s55qq-oqaaa-aaaaa-aaakq-cai"),
        Err(e) => panic!("{:?}", e),
    }
}

#[test]
fn law_user_key_only_for_user_example() {
    let (mut r, _) = registry();
    let user = ii(2);
    let user_text = Principal::from_slice(&user).to_text();
    let secs = NOW / SECOND;
    let hex = format!("{:016x}", secs + 5);
    let other = ii(3);
    assert!(matches!(
        r.get_user_time_decryption_key(&other, &hex, &user_text, vec![1], NOW + 10 * SECOND),
        Err(ChronoError::Unauthorized)
    ));
    assert!(matches!(
        r.get_user_time_decryption_key(&user, &hex, &user_text, vec![1], NOW),
        Err(ChronoError::TimeLocked)
    ));
    let req = r.get_user_time_decryption_key(&user, &hex, &user_text, vec![1], NOW + 10 * SECOND).ok().unwrap();
    assert_eq!(req.input, format!("{}:{}", user_text, secs + 5).into_bytes());
}

#[test]
fn ledger_admin_only_calls_answer_admin_required() {
    let (mut l, admin) = ledger(SUPPLY);
    assert_eq!(l.set_transfer_fee(&ii(9), 5, NOW), Err(LedgerError::AdminRequired));
    assert_eq!(l.icrc1_fee(), 100_000);
    assert_eq!(l.convert_dapp_funds_to_cycles(&ii(9), NOW), Err(LedgerError::AdminRequired));
    assert_eq!(l.set_transfer_fee(&admin, 5, NOW), Ok(()));
}

#[test]
fn ledger_huge_fee_early_errors() {
    let (mut l, admin) = ledger(SUPPLY);
    let fee = u128::MAX / 2;
    l.set_transfer_fee(&admin, fee, NOW).unwrap();
    let spender = acct(ii(2), None);
    let owner = acct(admin.clone(), Some(COMMUNITY));
    let to = acct(ii(3), None);
    let args = TransferFromArgs { spender: spender.clone(), from: owner.clone(), to: to.clone(), amount: amount(fee) };
    assert_eq!(l.icrc1_transfer_from(&ii(9), &args, NOW), Err(LedgerError::Unauthorized));
    assert_eq!(l.icrc1_transfer_from(&spender.owner, &args, NOW), Err(LedgerError::InsufficientAllowance));
    l.icrc1_approve(&admin, &ApproveArgs { from_subaccount: Some(COMMUNITY), spender: spender.clone(), amount: amount(fee), expires_at: Some(NOW / SECOND) }, NOW).unwrap();
    assert_eq!(l.icrc1_transfer_from(&spender.owner, &args, NOW + SECOND), Err(LedgerError::InsufficientAllowance));
    let logs = l.get_logs().len();
    let t = TransferArgs { from_subaccount: Some(COMMUNITY), to: to.clone(), amount: amount(fee) };
    assert_eq!(l.icrc1_transfer(&admin, &t, NOW), Err(LedgerError::InsufficientBalance));
    assert_eq!(l.icrc1_balance_of(&to), 0);
    assert_eq!(l.get_logs().len(), logs);
}

#[test]
fn ledger_huge_fee_is_split_exactly() {
    let (mut l, admin) = ledger(u128::MAX);
    let fee = 100_000_000_000_000_000_000_000_000_000_000_000_000_u128;
    l.set_transfer_fee(&admin, fee, NOW).unwrap();
    assert_eq!(l.get_fee_distribution(), (fee / 5, fee / 10, fee / 10 * 7));
    let before = l.icrc1_total_supply() + l.get_total_burned();
    let to = acct(ii(3), None);
    let t = TransferArgs { from_subaccount: Some(COMMUNITY), to: to.clone(), amount: amount(fee) };
    assert_eq!(l.icrc1_transfer(&admin, &t, NOW), Ok(fee));
    assert_eq!(l.icrc1_balance_of(&to), 0);
    assert_eq!(l.get_total_burned(), fee / 5);
    assert_eq!(l.icrc1_total_supply() + l.get_total_burned(), before);
}

#[test]
fn registry_transfer_to_self_keeps_the_token_list() {
    let (mut r, _admin) = registry();
    let user = ii(2);
    let id = r.create_chronolock(&user, "m".to_string(), NOW).ok().unwrap();
    assert!(r.icrc7_transfer(&user, &id, &user, NOW).is_ok());
    assert_eq!(r.tokens_of_owner(&user), vec![id.clone()]);
    assert_eq!(r.icrc7_balance_of(&user), 1);
    assert_eq!(r.icrc7_owner_of(&id), Some(user.clone()));
}

#[test]
fn classic_transfer_to_self_keeps_the_token_list() {
    let mut c = ClassicRegistry::init(regions_init(), &ii(1), None, NOW);
    let user = ii(2);
    let id = c.create_chronolock(&user, "m".to_string(), 5, NOW).ok().unwrap();
    assert!(c.icrc7_transfer(&user, &id, &user, NOW).is_ok());
    assert_eq!(c.tokens_of_owner(&user), vec![id.clone()]);
    assert_eq!(c.icrc7_balance_of(&user), 1);
}

#[test]
fn law_balances_add_up_to_supply_example() {
    let (mut l, admin) = ledger(SUPPLY);
    let pools: Vec<Account> = (1u8..=4).map(|t| acct(admin.clone(), Some([t; 32]))).collect();
    let total = |l: &Ledger, extra: &[Account]| -> u128 {
        pools.iter().chain(extra.iter()).map(|a| l.icrc1_balance_of(a)).sum()
    };
    assert_eq!(total(&l, &[]), l.icrc1_total_supply());
    let to = acct(ii(7), None);
    l.icrc1_transfer(&admin, &TransferArgs { from_subaccount: Some(COMMUNITY), to: to.clone(), amount: amount(5_000_000) }, NOW).unwrap();
    assert_eq!(total(&l, &[to.clone()]), l.icrc1_total_supply());
    let user = acct(ii(8), None);
    ledger_register(&mut l, &user, 3).unwrap();
    assert_eq!(total(&l, &[to.clone(), user.clone()]), l.icrc1_total_supply());
}

#[test]
fn law_pool_transfers_keep_holdings_example() {
    let (mut l, admin) = pool(SUPPLY);
    let to = acct(ii(7), None);
    let watched: Vec<Account> = (1u8..=3).map(|t| acct(admin.clone(), Some([t; 32]))).chain(std::iter::once(to.clone())).collect();
    let gap = |l: &PoolLedger| -> i128 {
        let held: u128 = watched.iter().map(|a| l.icrc1_balance_of(a)).sum::<u128>() + l.get_community_pool_balance() + l.get_dapp_funds();
        held as i128 - l.icrc1_total_supply() as i128
    };
    let before = gap(&l);
    l.icrc1_transfer(&admin, &TransferArgs { from_subaccount: Some(COMMUNITY), to: to.clone(), amount: amount(1_000_000) }, NOW).unwrap();
    assert_eq!(gap(&l), before);
    l.set_transfer_fee(&admin, 99, NOW).unwrap();
    l.icrc1_transfer(&admin, &TransferArgs { from_subaccount: Some(COMMUNITY), to: to.clone(), amount: amount(1_000) }, NOW).unwrap();
    assert_eq!(gap(&l), before - 2);
}

#[test]
fn law_accessible_pages_add_up_example() {
    let (mut r, admin) = registry();
    let secs = NOW / SECOND;
    for i in 0..150u64 {
        r.create_chronolock(&admin, encoded(secs - 1 - i % 3, "public"), NOW).ok().unwrap();
    }
    let user = ii(5);
    let count = r.get_user_accessible_chronolocks_count(&user, NOW);
    assert_eq!(count, 150);
    let pages: usize = (0..2u64)
        .map(|k| r.get_user_accessible_chronolocks_paginated(&user, 100 * k, 100, NOW).ok().unwrap().len())
        .sum();
    assert_eq!(pages as u64, count);
}

#[test]
fn law_upload_then_finish_example() {
    let (mut r, admin) = registry();
    let id = r.start_media_upload(&admin, 3, NOW).ok().unwrap();
    assert_eq!(r.upload_media_chunk(&admin, &id, 2, vec![7, 8], NOW).ok(), Some(2));
    assert_eq!(r.upload_media_chunk(&admin, &id, 0, vec![1], NOW).ok(), Some(1));
    assert_eq!(r.upload_media_chunk(&admin, &id, 1, vec![4, 5, 6], NOW).ok(), Some(3));
    let url = r.finish_media_upload(&admin, &id, &vec![0, 0, 0, 0, 0, 0, 0, 1, 1, 1], NOW).ok().unwrap();
    assert!(url.ends_with(&format!("/media/{}", id)));
    assert_eq!(r.get_media_chunk(&id, 0, 100).ok().unwrap(), vec![1, 4, 5, 6, 7, 8]);
    assert!(r.upload_at(&id).is_none());
}
