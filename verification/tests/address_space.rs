use mandate_ledger::address::{
    addr_eq, derive_mandate_address, derive_slab_address, strategy_tag, u64_le_bytes, Strategy,
};

#[test]
fn u64_le_bytes_exact() {
    assert_eq!(u64_le_bytes(0x0807060504030201), vec![1, 2, 3, 4, 5, 6, 7, 8]);
    assert_eq!(u64_le_bytes(0), vec![0; 8]);
    assert_eq!(u64_le_bytes(u64::MAX), vec![0xff; 8]);
}

#[test]
fn strategy_tags_exact_and_distinct() {
    assert_eq!(strategy_tag(Strategy::Momentum), 0);
    assert_eq!(strategy_tag(Strategy::Arbitrage), 1);
    assert_eq!(strategy_tag(Strategy::Lp), 2);
    assert_eq!(strategy_tag(Strategy::MeanReversion), 3);
}

#[test]
fn mandate_address_layout_exact() {
    let a = derive_mandate_address(1, 2, Strategy::Momentum);
    let mut expected = vec![1u8];
    expected.extend_from_slice(&[1, 0, 0, 0, 0, 0, 0, 0]);
    expected.extend_from_slice(&[2, 0, 0, 0, 0, 0, 0, 0]);
    expected.push(0);
    assert_eq!(a.bytes, expected);
}

#[test]
fn mandate_address_deterministic() {
    let a = derive_mandate_address(7, 9, Strategy::Arbitrage);
    let b = derive_mandate_address(7, 9, Strategy::Arbitrage);
    assert!(addr_eq(&a, &b));
    assert_eq!(a.bytes, b.bytes);
}

#[test]
fn mandate_address_distinct_keys_distinct_addresses() {
    let base = derive_mandate_address(7, 9, Strategy::Arbitrage);
    assert!(!addr_eq(&base, &derive_mandate_address(8, 9, Strategy::Arbitrage)));
    assert!(!addr_eq(&base, &derive_mandate_address(7, 10, Strategy::Arbitrage)));
    assert!(!addr_eq(&base, &derive_mandate_address(7, 9, Strategy::Lp)));
}

#[test]
fn namespaces_disjoint() {
    let m = derive_mandate_address(7, 9, Strategy::Momentum);
    let s = derive_slab_address(7);
    assert!(!addr_eq(&m, &s));
}

#[test]
fn slab_address_deterministic_and_injective() {
    let a = derive_slab_address(5);
    let b = derive_slab_address(5);
    let c = derive_slab_address(6);
    assert!(addr_eq(&a, &b));
    assert!(!addr_eq(&a, &c));
}
