use candid::Principal;
use chronolock::identity::ii_principal_check;
use chronolock::registry::Registry;
use chronolock::stable::regions_init;

fn ii_principal(seed: u8) -> Vec<u8> {
    let mut bytes = vec![0u8; 10];
    bytes[0] = seed;
    bytes[9] = 0x01;
    bytes
}

#[test]
fn accepts_valid_internet_identity_principal() {
    let p = Principal::from_text("dmp4o-pkoo3-lnzzj-cystz-2jlkk-v4zcv-yc5h4-iqoeg-v5arm-avsbm-bae")
        .expect("valid principal text")
        .as_slice()
        .to_vec();
    let regions = regions_init();
    let registry = Registry::init(regions, &ii_principal(1), Some("local".to_string()), 0);
    assert!(!registry.is_principal_trusted(&p));
    assert!(registry.is_valid_internet_identity_principal(&p));
}

#[test]
fn rejects_anonymous_principal() {
    let regions = regions_init();
    let registry = Registry::init(regions, &ii_principal(1), None, 0);
    assert!(!registry.is_valid_internet_identity_principal(&vec![4u8]));
}

#[test]
fn rejects_management_canister_text() {
    let text = Principal::from_slice(&[]).to_text();
    assert_eq!(text, "aaaaa-aa");
    assert!(!ii_principal_check(&[], false, &text));
}
