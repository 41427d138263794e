use chronolock::account::Account;
use chronolock::classic::ClassicRegistry;
use chronolock::ledger::{Ledger, Nat, TransferArgs};
use chronolock::pool_ledger::PoolLedger;
use chronolock::registry::Registry;
use chronolock::stable::regions_init;

const NOW: u64 = 1_700_000_000_000_000_000;

fn ii(seed: u8) -> Vec<u8> {
    let mut b = vec![0u8; 10];
    b[0] = seed;
    b[9] = 1;
    b
}

#[test]
fn reopening_memory_without_a_saved_record_gives_nothing() {
    assert!(Ledger::reopen(regions_init()).is_none());
    assert!(PoolLedger::reopen(regions_init()).is_none());
    assert!(Registry::reopen(regions_init()).is_none());
    assert!(ClassicRegistry::reopen(regions_init()).is_none());
}

#[test]
fn saving_settings_changes_nothing_the_ledgers_answer() {
    let admin = ii(1);
    let mut l = Ledger::init(regions_init(), "Chronolock".into(), "CRNL".into(), 1_000_000_000, 10, 100, admin.clone(), NOW);
    let to = Account { owner: ii(2), subaccount: None };
    l.save_settings();
    assert_eq!(l.icrc1_fee(), 100);
    let t = TransferArgs { from_subaccount: Some([1u8; 32]), to: to.clone(), amount: Nat::from_u128(1_000) };
    assert_eq!(l.icrc1_transfer(&admin, &t, NOW), Ok(1_000));
    assert_eq!(l.icrc1_balance_of(&to), 900);
    let mut p = PoolLedger::init(regions_init(), "Chronolock".into(), "CRNL".into(), 1_000_000_000, 10, 100, admin.clone(), NOW);
    p.save_settings();
    assert_eq!(p.icrc1_fee(), 100);
    assert_eq!(p.icrc1_transfer(&admin, &t, NOW), Ok(1_000));
}

#[test]
fn saving_settings_changes_nothing_the_collections_answer() {
    let admin = ii(1);
    let mut r = Registry::init(regions_init(), &admin, Some("local".to_string()), NOW);
    r.save_settings();
    assert!(r.create_chronolock(&ii(2), "m".to_string(), NOW).is_ok());
    assert_eq!(r.icrc7_balance_of(&ii(2)), 1);
    let mut c = ClassicRegistry::init(regions_init(), &admin, None, NOW);
    c.save_settings();
    assert!(c.create_chronolock(&ii(2), "m".to_string(), 5, NOW).is_ok());
    assert_eq!(c.icrc7_balance_of(&ii(2)), 1);
}
