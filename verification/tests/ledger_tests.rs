use candid::Principal;
use chronolock::account::Account;
use chronolock::ledger::{
    generate_random_referral_code, generate_tx_id, ApproveArgs, Ledger, LedgerError, Nat, TransferArgs,
    TransferFromArgs,
};
use chronolock::pool_ledger::{generate_letter_code, PoolApproveArgs, PoolLedger};
use chronolock::stable::regions_init;

const NOW: u64 = 1_700_000_000_000_000_000;
const COMMUNITY_POOL_SUBACCOUNT: [u8; 32] = [1u8; 32];
const TEAM_VESTING_POOL_SUBACCOUNT: [u8; 32] = [2u8; 32];
const RESERVE_POOL_SUBACCOUNT: [u8; 32] = [3u8; 32];
const SUPPLY: u128 = 100_000_000_000_000_000_000_u128;

fn principal(text: &str) -> Vec<u8> {
    Principal::from_text(text).unwrap().as_slice().to_vec()
}

fn mock_ii_principal(seed: u8) -> Vec<u8> {
    let mut bytes = vec![0u8; 10];
    bytes[0] = seed;
    bytes[9] = 0x01;
    bytes
}

fn account(owner: Vec<u8>, subaccount: Option<[u8; 32]>) -> Account {
    Account { owner, subaccount }
}

/// The older ledger, set up as its tests set it up (admin `aaaaa-aa`).
fn pool() -> (PoolLedger, Vec<u8>) {
    let admin = principal("aaaaa-aa");
    let l = PoolLedger::init(
        regions_init(),
        "Chronolock".to_string(),
        "CRNL".to_string(),
        SUPPLY,
        31_536_000,
        100_000,
        admin.clone(),
        NOW,
    );
    (l, admin)
}

/// The ledger canister, set up as its tests set it up (an Internet Identity
/// admin).
fn ledger() -> (Ledger, Vec<u8>) {
    let admin = mock_ii_principal(1);
    let l = Ledger::init(
        regions_init(),
        "Chronolock".to_string(),
        "CRNL".to_string(),
        SUPPLY,
        31_536_000,
        100_000,
        admin.clone(),
        NOW,
    );
    (l, admin)
}

fn draw(seed: u8, n: usize) -> Vec<u8> {
    (0..n).map(|i| seed.wrapping_mul(31).wrapping_add((i as u8).wrapping_mul(17))).collect()
}

/// `register_user` of the older ledger with its draw of a code.
fn pool_register(l: &mut PoolLedger, user: &Account, seed: u8) -> Result<String, LedgerError> {
    if !l.register_user(user, NOW)? {
        return Ok(l.registered_reply());
    }
    let mut s = seed;
    loop {
        let code = generate_letter_code(&draw(s, 16));
        if let Some(reply) = l.assign_referral_code(user, &code, NOW) {
            return Ok(reply);
        }
        s = s.wrapping_add(1);
    }
}

/// `register_user` of the ledger canister with its draw of a code.
fn ledger_register(l: &mut Ledger, user: &Account, seed: u8) -> Result<String, LedgerError> {
    if !l.register_user(user, NOW)? {
        return Ok(l.registered_reply());
    }
    let mut s = seed;
    loop {
        let code = generate_random_referral_code(&draw(s, 16));
        if let Some(reply) = l.assign_referral_code(user, &code, NOW) {
            return Ok(reply);
        }
        s = s.wrapping_add(1);
    }
}

fn amount_nat(x: u128) -> Nat {
    Nat::from_u128(x)
}

fn pool_transfer(l: &mut PoolLedger, caller: &Vec<u8>, sub: Option<[u8; 32]>, to: &Account, amount: u128) -> Result<u128, LedgerError> {
    l.icrc1_transfer(caller, &TransferArgs { from_subaccount: sub, to: to.clone(), amount: amount_nat(amount) }, NOW)
}

fn ledger_transfer(l: &mut Ledger, caller: &Vec<u8>, sub: Option<[u8; 32]>, to: &Account, amount: u128) -> Result<u128, LedgerError> {
    l.icrc1_transfer(caller, &TransferArgs { from_subaccount: sub, to: to.clone(), amount: amount_nat(amount) }, NOW)
}

#[test]
fn canister_tests_test_icrc1_name() {
    assert_eq!(pool().0.icrc1_name(), "Chronolock");
    assert_eq!(ledger().0.icrc1_name(), "Chronolock");
}

#[test]
fn canister_tests_test_icrc1_symbol() {
    assert_eq!(pool().0.icrc1_symbol(), "CRNL");
    assert_eq!(ledger().0.icrc1_symbol(), "CRNL");
}

#[test]
fn canister_tests_test_icrc1_decimals() {
    assert_eq!(pool().0.icrc1_decimals(), 8);
    assert_eq!(ledger().0.icrc1_decimals(), 8);
}

#[test]
fn canister_tests_test_icrc1_total_supply() {
    assert_eq!(pool().0.icrc1_total_supply(), SUPPLY);
    assert_eq!(ledger().0.icrc1_total_supply(), SUPPLY);
}

#[test]
fn canister_tests_test_icrc1_fee() {
    assert_eq!(pool().0.icrc1_fee(), 100_000_u128);
    assert_eq!(ledger().0.icrc1_fee(), 100_000_u128);
}

#[test]
fn canister_tests_test_balance_of() {
    let (l, admin) = pool();
    let total = l.icrc1_balance_of(&account(admin.clone(), None))
        + l.icrc1_balance_of(&account(admin.clone(), Some(COMMUNITY_POOL_SUBACCOUNT)))
        + l.icrc1_balance_of(&account(admin.clone(), Some(TEAM_VESTING_POOL_SUBACCOUNT)))
        + l.icrc1_balance_of(&account(admin.clone(), Some(RESERVE_POOL_SUBACCOUNT)));
    assert_eq!(total, SUPPLY);

    let (l, admin) = ledger();
    let total = l.icrc1_balance_of(&account(admin.clone(), None))
        + l.icrc1_balance_of(&account(admin.clone(), Some(COMMUNITY_POOL_SUBACCOUNT)))
        + l.icrc1_balance_of(&account(admin.clone(), Some(TEAM_VESTING_POOL_SUBACCOUNT)))
        + l.icrc1_balance_of(&account(admin.clone(), Some(RESERVE_POOL_SUBACCOUNT)));
    assert_eq!(total, SUPPLY);
}

#[test]
fn canister_tests_test_get_logs() {
    let (l, _) = pool();
    let logs = l.get_logs();
    assert_eq!(logs.len(), 1);
    assert_eq!(logs[0].event_type, "Init");

    let (l, _) = ledger();
    let logs = l.get_logs();
    assert_eq!(logs.len(), 1);
    assert_eq!(logs[0].event_type, "Init");
}

#[test]
fn canister_tests_test_get_logs_by_range() {
    let (l, _) = pool();
    assert_eq!(l.get_logs_by_range(0, u64::MAX).len(), 1);
    let (l, _) = ledger();
    assert_eq!(l.get_logs_by_range(0, u64::MAX).len(), 1);
}

#[test]
fn canister_tests_test_icrc1_allowance() {
    let (l, admin) = pool();
    let spender = account(Principal::anonymous().as_slice().to_vec(), None);
    assert_eq!(l.icrc1_allowance(&account(admin, None), &spender), 0_u128);
    let (l, admin) = ledger();
    assert_eq!(l.icrc1_allowance(&account(admin, None), &spender), 0_u128);
}

#[test]
fn canister_tests_test_register_user() {
    let (mut l, _) = pool();
    let user = account(principal("2vxsx-fae"), None);
    let result = pool_register(&mut l, &user, 1);
    assert!(result.unwrap().starts_with("User registered with 200 CRNL"));

    let (mut l, _) = ledger();
    let user = account(mock_ii_principal(1), None);
    let result = ledger_register(&mut l, &user, 1);
    assert!(result.unwrap().starts_with("User registered with 200 CRNL"));
}

#[test]
fn canister_tests_test_claim_referral() {
    let (mut l, _) = pool();
    let referrer = account(principal("2vxsx-fae"), None);
    let referee = account(principal("ryjl3-tyaaa-aaaaa-aaaba-cai"), None);
    let reply = pool_register(&mut l, &referrer, 3).unwrap();
    let referral_code = reply.split("Your referral code is: ").nth(1).unwrap().to_string();
    let result = l.claim_referral(&referral_code, &referee, NOW);
    assert_eq!(result.unwrap(), "Referral reward of 20 CRNL credited");

    let (mut l, _) = ledger();
    let referrer = account(mock_ii_principal(2), None);
    let referee = account(mock_ii_principal(3), None);
    let reply = ledger_register(&mut l, &referrer, 3).unwrap();
    let referral_code = reply.split("Your referral code is: ").nth(1).unwrap().to_string();
    let result = l.claim_referral(&referee.owner, &referral_code, NOW);
    assert_eq!(result.unwrap(), "Referral reward of 20 CRNL credited");
}

#[test]
fn canister_tests_test_icrc1_transfer() {
    let amount = 1_000_000_000_u128;
    let transfer_fee = 100_000_u128;
    let to = account(principal("2vxsx-fae"), None);

    let (mut l, admin) = pool();
    let result = pool_transfer(&mut l, &admin, Some(COMMUNITY_POOL_SUBACCOUNT), &to, amount);
    assert!(result.is_ok());
    assert_eq!(l.icrc1_balance_of(&to), amount - transfer_fee, "Recipient should receive amount minus fee");

    let (mut l, admin) = ledger();
    let result = ledger_transfer(&mut l, &admin, Some(COMMUNITY_POOL_SUBACCOUNT), &to, amount);
    assert!(result.is_ok());
    assert_eq!(l.icrc1_balance_of(&to), amount - transfer_fee, "Recipient should receive amount minus fee");
}

#[test]
fn canister_tests_test_icrc1_approve_and_transfer_from() {
    let amount = 1_000_000_000_u128;
    let transfer_fee = 100_000_u128;
    let to = account(Principal::anonymous().as_slice().to_vec(), None);

    let (mut l, admin) = pool();
    let owner = account(admin.clone(), Some(COMMUNITY_POOL_SUBACCOUNT));
    let spender = account(principal("2vxsx-fae"), None);
    let approve = l.icrc1_approve(
        &admin,
        &PoolApproveArgs { from_subaccount: owner.subaccount, spender: spender.clone(), amount: amount_nat(amount) },
        NOW,
    );
    assert!(approve.is_ok());
    let moved = l.icrc1_transfer_from(
        &TransferFromArgs { spender: spender.clone(), from: owner.clone(), to: to.clone(), amount: amount_nat(amount) },
        NOW,
    );
    assert!(moved.is_ok());
    assert_eq!(l.icrc1_balance_of(&to), amount - transfer_fee, "Recipient should receive amount minus fee");

    let (mut l, admin) = ledger();
    let owner = account(admin.clone(), Some(COMMUNITY_POOL_SUBACCOUNT));
    let spender = account(mock_ii_principal(2), None);
    let approve = l.icrc1_approve(
        &admin,
        &ApproveArgs { from_subaccount: owner.subaccount, spender: spender.clone(), amount: amount_nat(amount), expires_at: None },
        NOW,
    );
    assert!(approve.is_ok());
    let moved = l.icrc1_transfer_from(
        &spender.owner,
        &TransferFromArgs { spender: spender.clone(), from: owner.clone(), to: to.clone(), amount: amount_nat(amount) },
        NOW,
    );
    assert!(moved.is_ok());
    assert_eq!(l.icrc1_balance_of(&to), amount - transfer_fee, "Recipient should receive amount minus fee");
}

#[test]
fn test_create_media_chronolock() {
    let (mut l, admin) = pool();
    let caller = account(admin, Some(COMMUNITY_POOL_SUBACCOUNT));
    let before = l.icrc1_balance_of(&caller);
    let result = l.create_media_chronolock(&caller, NOW);
    assert_eq!(result.unwrap(), "Media ChronoLock created for 20 CRNL");
    assert_eq!(l.icrc1_balance_of(&caller), before - 2_000_000_000_u128);
}

#[test]
fn test_create_text_chronolock() {
    let (mut l, admin) = pool();
    let result = l.create_text_chronolock(&account(admin, None), NOW);
    assert_eq!(result.unwrap(), "Text ChronoLock created for free");
}

#[test]
fn canister_tests_test_set_transfer_fee() {
    let (mut l, admin) = pool();
    assert!(l.set_transfer_fee(&admin, 200_000, NOW).is_ok());
    assert_eq!(l.icrc1_fee(), 200_000_u128);
    let (mut l, admin) = ledger();
    assert!(l.set_transfer_fee(&admin, 200_000, NOW).is_ok());
    assert_eq!(l.icrc1_fee(), 200_000_u128);
}

#[test]
fn canister_tests_test_set_transfer_fee_authorization() {
    let (mut l, admin) = pool();
    let non_admin = principal("2vxsx-fae");
    let result = l.set_transfer_fee(&non_admin, 200_000, NOW);
    assert_eq!(result, Err(LedgerError::Unauthorized), "Error should be Unauthorized");
    assert!(l.set_transfer_fee(&admin, 200_000, NOW).is_ok(), "Admin should be able to set transfer fee");
    assert_eq!(l.icrc1_fee(), 200_000_u128, "Transfer fee should be updated to 200,000");

    let (mut l, admin) = ledger();
    let result = l.set_transfer_fee(&mock_ii_principal(2), 200_000, NOW);
    assert_eq!(result, Err(LedgerError::AdminRequired), "Non-admin should not be able to set transfer fee");
    assert_eq!(l.icrc1_fee(), 100_000_u128, "Transfer fee should be unchanged");
    assert!(l.set_transfer_fee(&admin, 200_000, NOW).is_ok(), "Admin should be able to set transfer fee");
    assert_eq!(l.icrc1_fee(), 200_000_u128, "Transfer fee should be updated to 200,000");
}

#[test]
fn canister_tests_test_unique_referral_codes() {
    let (mut l, _) = pool();
    let user1 = account(principal("2vxsx-fae"), None);
    let user2 = account(principal("ryjl3-tyaaa-aaaaa-aaaba-cai"), None);
    let _ = pool_register(&mut l, &user1, 5);
    let _ = pool_register(&mut l, &user2, 5);
    let code1 = l.get_referral_code(&user1);
    let code2 = l.get_referral_code(&user2);
    assert!(code1.is_some() && code2.is_some(), "Referral codes should be generated");
    assert_ne!(code1.unwrap(), code2.unwrap(), "Referral codes should be unique");

    let (mut l, _) = ledger();
    let _ = ledger_register(&mut l, &user1, 5);
    let _ = ledger_register(&mut l, &user2, 5);
    let code1 = l.get_referral_code(&user1);
    let code2 = l.get_referral_code(&user2);
    assert!(code1.is_some() && code2.is_some(), "Referral codes should be generated");
    assert_ne!(code1.unwrap(), code2.unwrap(), "Referral codes should be unique");
}

#[test]
fn canister_tests_test_referral_reward() {
    let (mut l, _) = pool();
    let referrer = account(principal("2vxsx-fae"), None);
    let referee = account(principal("ryjl3-tyaaa-aaaaa-aaaba-cai"), None);
    let reply = pool_register(&mut l, &referrer, 9).unwrap();
    let code = reply.split("Your referral code is: ").nth(1).unwrap().to_string();
    let _ = l.claim_referral(&code, &referee, NOW);
    assert_eq!(l.icrc1_balance_of(&referrer), 20_000_000_000 + 2_000_000_000, "Referrer should receive reward");
    assert_eq!(
        l.get_community_pool_balance(),
        50_000_000_000_000_000_000 - 20_000_000_000 - 2_000_000_000,
        "Community pool should be deducted"
    );

    let (mut l, _) = ledger();
    let reply = ledger_register(&mut l, &referrer, 9).unwrap();
    let code = reply.split("Your referral code is: ").nth(1).unwrap().to_string();
    let _ = ledger_register(&mut l, &referee, 10);
    let _ = l.claim_referral(&referee.owner, &code, NOW);
    assert_eq!(l.icrc1_balance_of(&referrer), 20_000_000_000 + 2_000_000_000, "Referrer should receive reward");
}

#[test]
fn canister_tests_test_transfer_insufficient_balance() {
    let to = account(principal("2vxsx-fae"), None);
    let amount = 50_000_000_000_000_000_001_u128;
    let (mut l, admin) = pool();
    let result = pool_transfer(&mut l, &admin, Some(COMMUNITY_POOL_SUBACCOUNT), &to, amount);
    assert_eq!(result, Err(LedgerError::InsufficientBalance), "Error should be InsufficientBalance");
    let (mut l, admin) = ledger();
    let result = ledger_transfer(&mut l, &admin, Some(COMMUNITY_POOL_SUBACCOUNT), &to, amount);
    assert_eq!(result, Err(LedgerError::InsufficientBalance), "Error should be InsufficientBalance");
}

#[test]
fn canister_tests_test_icrc1_functions() {
    let amount = 1_000_000_000_u128;
    let transfer_fee = 100_000_u128;
    let spender = account(principal("2vxsx-fae"), None);
    let to = account(Principal::anonymous().as_slice().to_vec(), None);

    let (mut l, admin) = pool();
    let owner = account(admin.clone(), Some(COMMUNITY_POOL_SUBACCOUNT));
    let _ = l.icrc1_approve(
        &admin,
        &PoolApproveArgs { from_subaccount: owner.subaccount, spender: spender.clone(), amount: amount_nat(amount) },
        NOW,
    );
    assert_eq!(l.icrc1_allowance(&owner, &spender), amount, "Allowance should match approved amount");
    let _ = l.icrc1_transfer_from(
        &TransferFromArgs { spender: spender.clone(), from: owner.clone(), to: to.clone(), amount: amount_nat(amount) },
        NOW,
    );
    assert_eq!(l.icrc1_balance_of(&to), amount - transfer_fee, "Transferred amount should be received minus fee");

    let (mut l, admin) = ledger();
    let owner = account(admin.clone(), Some(COMMUNITY_POOL_SUBACCOUNT));
    let _ = l.icrc1_approve(
        &admin,
        &ApproveArgs { from_subaccount: owner.subaccount, spender: spender.clone(), amount: amount_nat(amount), expires_at: None },
        NOW,
    );
    assert_eq!(l.icrc1_allowance(&owner, &spender), amount, "Allowance should match approved amount");
    let _ = l.icrc1_transfer_from(
        &spender.owner,
        &TransferFromArgs { spender: spender.clone(), from: owner.clone(), to: to.clone(), amount: amount_nat(amount) },
        NOW,
    );
    assert_eq!(l.icrc1_balance_of(&to), amount - transfer_fee, "Transferred amount should be received minus fee");
}

#[test]
fn test_log_event() {
    let (mut l, admin) = pool();
    let to = account(principal("2vxsx-fae"), None);
    let amount = 1_000_000_000_u128;
    let _ = pool_transfer(&mut l, &admin, Some(COMMUNITY_POOL_SUBACCOUNT), &to, amount);
    let logs = l.get_logs();
    let last_log = logs.last().unwrap();
    assert_eq!(last_log.event_type, "Transfer", "Log should record transfer event");
    assert!(last_log.details.contains(&format!("Amount: {}", amount)), "Log should include transfer amount");
}

#[test]
fn canister_tests_test_arithmetic_overflow() {
    let to = account(principal("2vxsx-fae"), None);
    let (mut l, admin) = pool();
    let result = pool_transfer(&mut l, &admin, Some(COMMUNITY_POOL_SUBACCOUNT), &to, u128::MAX);
    assert_eq!(result, Err(LedgerError::ArithmeticError), "Error should be ArithmeticError");
    let (mut l, admin) = ledger();
    let result = ledger_transfer(&mut l, &admin, Some(COMMUNITY_POOL_SUBACCOUNT), &to, u128::MAX);
    assert_eq!(result, Err(LedgerError::ArithmeticError), "Error should be ArithmeticError");
}

#[test]
fn canister_tests_test_concurrent_transfers() {
    let amount = 1_000_000_000_u128;
    let transfer_fee = 100_000_u128;
    let to1 = account(principal("2vxsx-fae"), None);
    let to2 = account(principal("ryjl3-tyaaa-aaaaa-aaaba-cai"), None);
    let (mut l, admin) = pool();
    let _ = pool_transfer(&mut l, &admin, Some(COMMUNITY_POOL_SUBACCOUNT), &to1, amount);
    let _ = pool_transfer(&mut l, &admin, Some(COMMUNITY_POOL_SUBACCOUNT), &to2, amount);
    assert_eq!(l.icrc1_balance_of(&to1), amount - transfer_fee, "First recipient should receive amount minus fee");
    assert_eq!(l.icrc1_balance_of(&to2), amount - transfer_fee, "Second recipient should receive amount minus fee");
    let (mut l, admin) = ledger();
    let _ = ledger_transfer(&mut l, &admin, Some(COMMUNITY_POOL_SUBACCOUNT), &to1, amount);
    let _ = ledger_transfer(&mut l, &admin, Some(COMMUNITY_POOL_SUBACCOUNT), &to2, amount);
    assert_eq!(l.icrc1_balance_of(&to1), amount - transfer_fee, "First recipient should receive amount minus fee");
    assert_eq!(l.icrc1_balance_of(&to2), amount - transfer_fee, "Second recipient should receive amount minus fee");
}

#[test]
fn canister_tests_test_boundary_values() {
    let to = account(principal("2vxsx-fae"), None);
    let (mut l, admin) = pool();
    let zero = pool_transfer(&mut l, &admin, Some(COMMUNITY_POOL_SUBACCOUNT), &to, 0);
    assert_eq!(zero, Err(LedgerError::InsufficientFee), "Error should be InsufficientFee");
    let max = pool_transfer(&mut l, &admin, Some(COMMUNITY_POOL_SUBACCOUNT), &to, u128::MAX);
    assert_eq!(max, Err(LedgerError::ArithmeticError), "Error should be ArithmeticError");
    let (mut l, admin) = ledger();
    let zero = ledger_transfer(&mut l, &admin, Some(COMMUNITY_POOL_SUBACCOUNT), &to, 0);
    assert_eq!(zero, Err(LedgerError::InsufficientFee), "Error should be InsufficientFee");
    let max = ledger_transfer(&mut l, &admin, Some(COMMUNITY_POOL_SUBACCOUNT), &to, u128::MAX);
    assert_eq!(max, Err(LedgerError::ArithmeticError), "Error should be ArithmeticError");
}

#[test]
fn canister_tests_test_process_fee() {
    let amount = 1_000_000_000_u128;
    let transfer_fee = 100_000_u128;
    let burn_amount = transfer_fee * 20 / 100;
    let pool_amount = transfer_fee * 10 / 100;
    let dapp_amount = transfer_fee * 70 / 100;
    let to = account(principal("2vxsx-fae"), None);

    let (mut l, admin) = pool();
    let from = account(admin.clone(), Some(COMMUNITY_POOL_SUBACCOUNT));
    let supply0 = l.icrc1_total_supply();
    let burned0 = l.get_total_burned();
    let community0 = l.get_community_pool_balance();
    let dapp0 = l.get_dapp_funds();
    let from0 = l.icrc1_balance_of(&from);
    assert!(pool_transfer(&mut l, &admin, from.subaccount, &to, amount).is_ok(), "Transfer should succeed");
    assert_eq!(l.icrc1_total_supply(), supply0 - burn_amount, "Total supply should decrease by burn amount");
    assert_eq!(l.get_total_burned(), burned0 + burn_amount, "Total burned should increase by burn amount");
    assert_eq!(l.get_community_pool_balance(), community0 + pool_amount, "Community pool should increase by pool amount");
    assert_eq!(l.get_dapp_funds(), dapp0 + dapp_amount, "Dapp funds should increase by dapp amount");
    assert_eq!(l.icrc1_balance_of(&from), from0 - amount, "Sender balance should decrease by amount only");
    assert_eq!(l.icrc1_balance_of(&to), amount - transfer_fee, "Recipient balance should equal amount minus fee");

    let (mut l, admin) = ledger();
    let from = account(admin.clone(), Some(COMMUNITY_POOL_SUBACCOUNT));
    let supply0 = l.icrc1_total_supply();
    let burned0 = l.get_total_burned();
    let dapp0 = l.get_dapp_funds();
    assert!(ledger_transfer(&mut l, &admin, from.subaccount, &to, amount).is_ok(), "Transfer should succeed");
    assert_eq!(l.icrc1_total_supply(), supply0 - burn_amount, "Total supply should decrease by burn amount");
    assert_eq!(l.get_total_burned(), burned0 + burn_amount, "Total burned should increase by burn amount");
    assert_eq!(l.get_dapp_funds(), dapp0 + dapp_amount, "Dapp funds should increase by dapp amount");
    assert_eq!(l.icrc1_balance_of(&to), amount - transfer_fee, "Recipient balance should equal amount minus fee");
}

#[test]
fn test_icrc1_and_icrc2_compliance() {
    let (mut l, admin) = ledger();
    let user = account(mock_ii_principal(2), None);
    let spender = account(principal("ryjl3-tyaaa-aaaaa-aaaba-cai"), None);
    let standards = l.icrc1_supported_standards();
    assert!(standards.contains(&"ICRC-1".to_string()), "Canister must support ICRC-1");
    assert!(standards.contains(&"ICRC-2".to_string()), "Canister must support ICRC-2");
    assert_eq!(l.icrc1_name(), "Chronolock", "ICRC-1 name must match");
    assert_eq!(l.icrc1_symbol(), "CRNL", "ICRC-1 symbol must match");
    assert_eq!(l.icrc1_decimals(), 8, "ICRC-1 decimals must match");
    assert_eq!(l.icrc1_total_supply(), SUPPLY, "ICRC-1 total supply must match");
    assert_eq!(l.icrc1_fee(), 100_000_u128, "ICRC-1 fee must match");
    let _ = ledger_register(&mut l, &user, 2);
    assert_eq!(l.icrc1_balance_of(&user), 20_000_000_000_u128, "ICRC-1 balance_of should reflect registration");
    let transfer_amount = 1_000_000_000_u128;
    let transfer_fee = 100_000_u128;
    let result = ledger_transfer(&mut l, &user.owner, user.subaccount, &spender, transfer_amount);
    assert!(result.is_ok(), "ICRC-1 transfer should succeed");
    assert_eq!(l.icrc1_balance_of(&spender), transfer_amount - transfer_fee, "ICRC-1 transfer should deduct fee");
    let approve_amount = 1_000_000_000_u128;
    let approve = l.icrc1_approve(
        &user.owner,
        &ApproveArgs { from_subaccount: spender.subaccount, spender: spender.clone(), amount: amount_nat(approve_amount), expires_at: None },
        NOW,
    );
    assert!(approve.is_ok(), "ICRC-2 approve should succeed");
    assert_eq!(l.icrc1_allowance(&user, &spender), approve_amount, "ICRC-2 allowance should reflect approval");
    let transfer_from_amount = 500_000_000_u128;
    let moved = l.icrc1_transfer_from(
        &spender.owner,
        &TransferFromArgs {
            spender: spender.clone(),
            from: user.clone(),
            to: account(admin.clone(), None),
            amount: amount_nat(transfer_from_amount),
        },
        NOW,
    );
    assert!(moved.is_ok(), "ICRC-2 transfer_from should succeed");
    assert_eq!(
        l.icrc1_allowance(&user, &spender),
        approve_amount - transfer_from_amount,
        "ICRC-2 allowance should decrease after transfer_from"
    );
    let metadata = l.icrc1_metadata();
    assert!(metadata.iter().any(|(k, v)| k == "icrc1:name" && v == "Chronolock"), "Metadata should include name");
    assert!(metadata.iter().any(|(k, v)| k == "icrc1:symbol" && v == "CRNL"), "Metadata should include symbol");
}

#[test]
fn test_transaction_recording() {
    let (mut l, admin) = ledger();
    let from = account(admin.clone(), Some(COMMUNITY_POOL_SUBACCOUNT));
    let to = account(principal("2vxsx-fae"), None);
    let amount = 1_000_000_000_u128;
    let result = ledger_transfer(&mut l, &admin, from.subaccount, &to, amount);
    assert!(result.is_ok());
    let tx_id = generate_tx_id(NOW, &[7u8; 32]);
    l.record_transfer(tx_id, &from, &to, amount, NOW);
    let transactions = l.get_transactions_by_principal(&from.owner, &[0u8; 32], 10);
    assert!(!transactions.is_empty(), "Transaction history should not be empty");
    let tx = &transactions[0];
    assert_eq!(tx.event_type, "Transfer");
    assert_eq!(tx.from.owner, admin);
    assert_eq!(tx.to.as_ref().unwrap().owner, principal("2vxsx-fae"));
    assert_eq!(tx.amount, 1_000_000_000_u128);
    assert_eq!(tx.tx_id.len(), 32, "tx_id should be a SHA-256 hash of 32 bytes");
    assert_eq!(l.get_transaction_by_id(&tx_id).unwrap().fee, Some(100_000));
}
