use mandate_ledger::address::Strategy;
use mandate_ledger::router::{
    initialize, mint_mandate, revoke_mandate, set_oracle_score, set_pause, update_threshold,
    MandateMinted, MandateRevoked, RouterError, ThresholdUpdated, veto_mandate,
};
use mandate_ledger::store::Store;

const ADMIN: u64 = 1;
const ORACLE: u64 = 2;
const USER: u64 = 9;
const ASSET: u64 = 42;

fn configured(threshold: u16) -> Store {
    let mut store = Store::new();
    initialize(&mut store, ADMIN, ORACLE, threshold).unwrap();
    store
}

#[test]
fn initialize_sets_state_and_clears_pause() {
    let mut store = Store::new();
    let ev = initialize(&mut store, ADMIN, ORACLE, 7000).unwrap();
    assert_eq!(ev.admin, ADMIN);
    assert_eq!(ev.oracle_authority, ORACLE);
    assert_eq!(ev.risk_threshold_bps, 7000);
    let st = store.state.unwrap();
    assert_eq!(st.admin, ADMIN);
    assert_eq!(st.oracle_authority, ORACLE);
    assert_eq!(st.risk_threshold_bps, 7000);
    assert!(!st.paused);
}

#[test]
fn initialize_rejects_threshold_out_of_bounds() {
    let mut store = Store::new();
    assert_eq!(
        initialize(&mut store, ADMIN, ORACLE, 10001),
        Err(RouterError::InvalidThreshold)
    );
    assert!(store.state.is_none());
    assert!(initialize(&mut store, ADMIN, ORACLE, 10000).is_ok());
}

#[test]
fn update_threshold_succeeds_iff_in_bounds() {
    let mut store = configured(7000);
    assert_eq!(
        update_threshold(&mut store, ADMIN, 10000),
        Ok(ThresholdUpdated { risk_threshold_bps: 10000 })
    );
    assert_eq!(store.state.unwrap().risk_threshold_bps, 10000);
    assert_eq!(
        update_threshold(&mut store, ADMIN, 10001),
        Err(RouterError::InvalidThreshold)
    );
    assert_eq!(store.state.unwrap().risk_threshold_bps, 10000);
    assert_eq!(update_threshold(&mut store, ADMIN, 0), Ok(ThresholdUpdated { risk_threshold_bps: 0 }));
}

#[test]
fn update_threshold_admin_only() {
    let mut store = configured(7000);
    assert_eq!(
        update_threshold(&mut store, USER, 5000),
        Err(RouterError::Unauthorized)
    );
    assert_eq!(store.state.unwrap().risk_threshold_bps, 7000);
}

#[test]
fn set_pause_admin_only() {
    let mut store = configured(7000);
    assert_eq!(set_pause(&mut store, USER, true), Err(RouterError::Unauthorized));
    assert!(!store.state.unwrap().paused);
    assert_eq!(set_pause(&mut store, ADMIN, true), Ok(()));
    assert!(store.state.unwrap().paused);
    assert_eq!(set_pause(&mut store, ADMIN, false), Ok(()));
    assert!(!store.state.unwrap().paused);
}

#[test]
fn set_oracle_score_authority_only_and_bounded() {
    let mut store = configured(7000);
    assert_eq!(
        set_oracle_score(&mut store, ADMIN, ASSET, 5000),
        Err(RouterError::Unauthorized)
    );
    assert_eq!(store.get_oracle_score(ASSET), None);
    assert_eq!(
        set_oracle_score(&mut store, ORACLE, ASSET, 10001),
        Err(RouterError::InvalidThreshold)
    );
    assert_eq!(store.get_oracle_score(ASSET), None);
    assert!(set_oracle_score(&mut store, ORACLE, ASSET, 5000).is_ok());
    assert_eq!(store.get_oracle_score(ASSET), Some(5000));
}

#[test]
fn set_oracle_score_overwrites_and_leaves_others() {
    let mut store = configured(7000);
    set_oracle_score(&mut store, ORACLE, ASSET, 5000).unwrap();
    set_oracle_score(&mut store, ORACLE, 77, 1234).unwrap();
    set_oracle_score(&mut store, ORACLE, ASSET, 6000).unwrap();
    assert_eq!(store.get_oracle_score(ASSET), Some(6000));
    assert_eq!(store.get_oracle_score(77), Some(1234));
}

#[test]
fn mint_outcome_is_exactly_the_threshold_comparison() {
    let mut store = configured(7000);
    set_oracle_score(&mut store, ORACLE, ASSET, 6999).unwrap();
    assert_eq!(
        mint_mandate(&mut store, USER, ASSET, Strategy::Momentum, 3600, 1000),
        Err(RouterError::BelowThreshold)
    );
    set_oracle_score(&mut store, ORACLE, ASSET, 7000).unwrap();
    let ev = mint_mandate(&mut store, USER, ASSET, Strategy::Momentum, 3600, 1000).unwrap();
    assert_eq!(
        ev,
        MandateMinted { user: USER, asset_mint: ASSET, strategy: Strategy::Momentum, expires_at: 4600 }
    );
}

#[test]
fn mint_requires_a_score_record() {
    let mut store = configured(7000);
    assert_eq!(
        mint_mandate(&mut store, USER, ASSET, Strategy::Momentum, 3600, 1000),
        Err(RouterError::OracleMismatch)
    );
}

#[test]
fn pause_blocks_minting_regardless_of_score() {
    let mut store = configured(7000);
    set_oracle_score(&mut store, ORACLE, ASSET, 10000).unwrap();
    set_pause(&mut store, ADMIN, true).unwrap();
    assert_eq!(
        mint_mandate(&mut store, USER, ASSET, Strategy::Momentum, 3600, 1000),
        Err(RouterError::Paused)
    );
    set_pause(&mut store, ADMIN, false).unwrap();
    assert!(mint_mandate(&mut store, USER, ASSET, Strategy::Momentum, 3600, 1000).is_ok());
}

#[test]
fn second_mint_for_same_triple_is_rejected() {
    let mut store = configured(7000);
    set_oracle_score(&mut store, ORACLE, ASSET, 8000).unwrap();
    mint_mandate(&mut store, USER, ASSET, Strategy::Momentum, 3600, 1000).unwrap();
    assert_eq!(
        mint_mandate(&mut store, USER, ASSET, Strategy::Momentum, 7200, 2000),
        Err(RouterError::MandateExists)
    );
    // the first record is untouched
    let m = store.get_mandate(USER, ASSET, Strategy::Momentum).unwrap();
    assert_eq!(m.expires_at, 4600);
    // a different strategy is a different record
    assert!(mint_mandate(&mut store, USER, ASSET, Strategy::Lp, 3600, 1000).is_ok());
}

#[test]
fn revoke_by_stranger_fails_and_leaves_mandate_intact() {
    let mut store = configured(7000);
    set_oracle_score(&mut store, ORACLE, ASSET, 8000).unwrap();
    mint_mandate(&mut store, USER, ASSET, Strategy::Momentum, 3600, 1000).unwrap();
    assert_eq!(
        revoke_mandate(&mut store, 555, USER, ASSET, Strategy::Momentum),
        Err(RouterError::Unauthorized)
    );
    let m = store.get_mandate(USER, ASSET, Strategy::Momentum).unwrap();
    assert_eq!(m.user, USER);
    assert_eq!(m.expires_at, 4600);
}

#[test]
fn revoke_by_user_or_admin_destroys_the_record() {
    let mut store = configured(7000);
    set_oracle_score(&mut store, ORACLE, ASSET, 8000).unwrap();
    mint_mandate(&mut store, USER, ASSET, Strategy::Momentum, 3600, 1000).unwrap();
    assert_eq!(
        revoke_mandate(&mut store, USER, USER, ASSET, Strategy::Momentum),
        Ok(MandateRevoked { user: USER, asset_mint: ASSET })
    );
    assert!(store.get_mandate(USER, ASSET, Strategy::Momentum).is_none());

    mint_mandate(&mut store, USER, ASSET, Strategy::Momentum, 3600, 1000).unwrap();
    assert!(revoke_mandate(&mut store, ADMIN, USER, ASSET, Strategy::Momentum).is_ok());
    assert!(store.get_mandate(USER, ASSET, Strategy::Momentum).is_none());
}

#[test]
fn veto_is_admin_only() {
    let mut store = configured(7000);
    set_oracle_score(&mut store, ORACLE, ASSET, 8000).unwrap();
    mint_mandate(&mut store, USER, ASSET, Strategy::Momentum, 3600, 1000).unwrap();
    assert_eq!(
        veto_mandate(&mut store, USER, USER, ASSET, Strategy::Momentum),
        Err(RouterError::Unauthorized)
    );
    assert!(store.get_mandate(USER, ASSET, Strategy::Momentum).is_some());
    assert_eq!(veto_mandate(&mut store, ADMIN, USER, ASSET, Strategy::Momentum), Ok(()));
    assert!(store.get_mandate(USER, ASSET, Strategy::Momentum).is_none());
}
