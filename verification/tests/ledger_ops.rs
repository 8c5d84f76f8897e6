use mandate_ledger::address::Strategy;
use mandate_ledger::router::{initialize, mint_mandate, set_oracle_score};
use mandate_ledger::slab::{
    close_slab, execute_signal, initialize_slab, sat_add_i64, sat_sub_i64, Side, SlabError,
    SlabInitialized,
};
use mandate_ledger::store::Store;

const ADMIN: u64 = 1;
const ORACLE: u64 = 2;
const USER: u64 = 9;
const ASSET: u64 = 42;

/// A store with one mandate for (USER, ASSET, Momentum) expiring at 4600
/// and an open ledger for USER.
fn with_mandate_and_ledger() -> Store {
    let mut store = Store::new();
    initialize(&mut store, ADMIN, ORACLE, 7000).unwrap();
    set_oracle_score(&mut store, ORACLE, ASSET, 8000).unwrap();
    mint_mandate(&mut store, USER, ASSET, Strategy::Momentum, 3600, 1000).unwrap();
    initialize_slab(&mut store, USER, Strategy::Momentum).unwrap();
    store
}

#[test]
fn open_ledger_initial_state() {
    let mut store = Store::new();
    let ev = initialize_slab(&mut store, USER, Strategy::Arbitrage).unwrap();
    assert_eq!(ev, SlabInitialized { owner: USER, strategy: Strategy::Arbitrage });
    let slab = store.get_slab(USER).unwrap();
    assert_eq!(slab.owner, USER);
    assert_eq!(slab.strategy, Strategy::Arbitrage);
    assert_eq!(slab.performance_pnl, 0);
    assert_eq!(slab.last_signal_ts, 0);
}

#[test]
fn confidence_over_bounds_is_invalid() {
    let mut store = with_mandate_and_ledger();
    assert_eq!(
        execute_signal(&mut store, USER, ASSET, 10001, Side::Long, 100, 50, 2000),
        Err(SlabError::Invalid)
    );
    assert_eq!(store.get_slab(USER).unwrap().performance_pnl, 0);
}

#[test]
fn confidence_just_under_floor_is_low_confidence() {
    let mut store = with_mandate_and_ledger();
    assert_eq!(
        execute_signal(&mut store, USER, ASSET, 8499, Side::Long, 100, 50, 2000),
        Err(SlabError::LowConfidence)
    );
    assert_eq!(store.get_slab(USER).unwrap().performance_pnl, 0);
}

#[test]
fn confidence_at_floor_with_live_mandate_succeeds() {
    let mut store = with_mandate_and_ledger();
    let ev = execute_signal(&mut store, USER, ASSET, 8500, Side::Long, 100, 50, 2000).unwrap();
    assert_eq!(ev.owner, USER);
    assert_eq!(ev.strategy, Strategy::Momentum);
    assert_eq!(ev.direction, Side::Long);
    assert_eq!(ev.confidence_bps, 8500);
    assert_eq!(ev.notional, 100);
    assert_eq!(ev.price, 50);
    assert_eq!(ev.pnl_after, 100);
}

#[test]
fn missing_mandate_is_a_typed_error() {
    let mut store = Store::new();
    initialize(&mut store, ADMIN, ORACLE, 7000).unwrap();
    initialize_slab(&mut store, USER, Strategy::Momentum).unwrap();
    assert_eq!(
        execute_signal(&mut store, USER, ASSET, 9000, Side::Long, 100, 50, 2000),
        Err(SlabError::MandateMissing)
    );
}

#[test]
fn mandate_for_another_strategy_does_not_authorize() {
    let mut store = with_mandate_and_ledger();
    // the ledger runs Momentum; a mandate for Lp on the same asset is elsewhere
    initialize_slab(&mut store, 10, Strategy::Lp).unwrap();
    assert_eq!(
        execute_signal(&mut store, 10, ASSET, 9000, Side::Long, 100, 50, 2000),
        Err(SlabError::MandateMissing)
    );
}

#[test]
fn signal_after_expiry_fails() {
    let mut store = with_mandate_and_ledger();
    assert_eq!(
        execute_signal(&mut store, USER, ASSET, 9000, Side::Long, 100, 50, 4601),
        Err(SlabError::MandateExpired)
    );
    // the boundary itself is still valid
    assert!(execute_signal(&mut store, USER, ASSET, 9000, Side::Long, 100, 50, 4600).is_ok());
}

#[test]
fn pnl_accumulates_signed_and_timestamps_advance() {
    let mut store = with_mandate_and_ledger();
    execute_signal(&mut store, USER, ASSET, 9000, Side::Long, 100, 50, 2000).unwrap();
    assert_eq!(store.get_slab(USER).unwrap().performance_pnl, 100);
    assert_eq!(store.get_slab(USER).unwrap().last_signal_ts, 2000);
    execute_signal(&mut store, USER, ASSET, 9000, Side::Long, 50, 50, 2100).unwrap();
    assert_eq!(store.get_slab(USER).unwrap().performance_pnl, 150);
    let ev = execute_signal(&mut store, USER, ASSET, 9000, Side::Short, 30, 50, 2200).unwrap();
    assert_eq!(ev.pnl_after, 120);
    assert_eq!(store.get_slab(USER).unwrap().performance_pnl, 120);
    assert_eq!(store.get_slab(USER).unwrap().last_signal_ts, 2200);
}

#[test]
fn pnl_saturates_at_the_representable_bounds() {
    let mut store = with_mandate_and_ledger();
    execute_signal(&mut store, USER, ASSET, 9000, Side::Long, i64::MAX, 50, 2000).unwrap();
    assert_eq!(store.get_slab(USER).unwrap().performance_pnl, i64::MAX);
    let ev = execute_signal(&mut store, USER, ASSET, 9000, Side::Long, 1, 50, 2001).unwrap();
    assert_eq!(ev.pnl_after, i64::MAX);

    // symmetric clamp at the minimum for shorts
    execute_signal(&mut store, USER, ASSET, 9000, Side::Short, i64::MAX, 50, 2002).unwrap();
    execute_signal(&mut store, USER, ASSET, 9000, Side::Short, i64::MAX, 50, 2003).unwrap();
    assert_eq!(store.get_slab(USER).unwrap().performance_pnl, i64::MIN + 1);
    execute_signal(&mut store, USER, ASSET, 9000, Side::Short, 2, 50, 2004).unwrap();
    assert_eq!(store.get_slab(USER).unwrap().performance_pnl, i64::MIN);
}

#[test]
fn saturating_arithmetic_exact_values() {
    assert_eq!(sat_add_i64(2, 3), 5);
    assert_eq!(sat_add_i64(i64::MAX, 1), i64::MAX);
    assert_eq!(sat_add_i64(i64::MAX - 1, 1), i64::MAX);
    assert_eq!(sat_add_i64(i64::MIN, -1), i64::MIN);
    assert_eq!(sat_sub_i64(2, 3), -1);
    assert_eq!(sat_sub_i64(i64::MIN, 1), i64::MIN);
    assert_eq!(sat_sub_i64(i64::MAX, -1), i64::MAX);
    assert_eq!(sat_sub_i64(0, i64::MIN), i64::MAX);
}

#[test]
fn close_ledger_owner_only() {
    let mut store = with_mandate_and_ledger();
    assert_eq!(close_slab(&mut store, ADMIN, USER), Err(SlabError::Unauthorized));
    assert!(store.get_slab(USER).is_some());
    assert_eq!(close_slab(&mut store, USER, USER), Ok(()));
    assert!(store.get_slab(USER).is_none());
}
