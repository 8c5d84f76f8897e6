//! The policy authority and mandate authority: global configuration, the
//! per-asset oracle score registry, and the mandate lifecycle
//! (mint, revoke, veto).

use vstd::prelude::*;

use crate::address::{derive_mandate_address, spec_mandate_address, Strategy};
use crate::store::{mandate_matches, Store};

verus! {

/// Highest representable basis-point value: every score, threshold and
/// confidence is bounded by it.
pub const MAX_BPS: u16 = 10000;

/// Global singleton configuration: who administers the policy, who may
/// write oracle scores, the risk threshold that gates mandate issuance,
/// and the circuit-breaker pause flag.
#[derive(Clone, Copy, PartialEq, Eq, Structural, Debug)]
pub struct RouterState {
    pub admin: u64,
    pub oracle_authority: u64,
    pub risk_threshold_bps: u16,
    pub paused: bool,
}

impl RouterState {
    pub open spec fn wf(self) -> bool {
        self.risk_threshold_bps <= MAX_BPS
    }
}

/// The oracle's risk assessment of one asset, in basis points.
#[derive(Clone, Copy, PartialEq, Eq, Structural, Debug)]
pub struct OracleScore {
    pub asset_mint: u64,
    pub score_bps: u16,
}

/// A time-boxed capability: `user` may submit signals for
/// `(asset_mint, strategy)` until `expires_at`.
#[derive(Clone, Copy, PartialEq, Eq, Structural, Debug)]
pub struct Mandate {
    pub user: u64,
    pub asset_mint: u64,
    pub strategy: Strategy,
    pub expires_at: i64,
}

/// Why a policy or mandate operation was refused; every failure is detected
/// before any mutation.
#[derive(Clone, Copy, PartialEq, Eq, Structural, Debug)]
pub enum RouterError {
    Paused,
    InvalidThreshold,
    OracleMismatch,
    BelowThreshold,
    Unauthorized,
    MandateExists,
}

// Events: each successful operation commits its mutation and reports one of
// these in the same atomic step. `set_pause` reports as `Paused` or
// `Unpaused` according to the flag it set; `veto_mandate` closes the record
// with no payload event.

#[derive(Clone, Copy, PartialEq, Eq, Structural, Debug)]
pub struct RouterInitialized {
    pub admin: u64,
    pub oracle_authority: u64,
    pub risk_threshold_bps: u16,
}

#[derive(Clone, Copy, PartialEq, Eq, Structural, Debug)]
pub struct Paused {}

#[derive(Clone, Copy, PartialEq, Eq, Structural, Debug)]
pub struct Unpaused {}

#[derive(Clone, Copy, PartialEq, Eq, Structural, Debug)]
pub struct ThresholdUpdated {
    pub risk_threshold_bps: u16,
}

#[derive(Clone, Copy, PartialEq, Eq, Structural, Debug)]
pub struct OracleScoreSet {
    pub asset_mint: u64,
    pub score_bps: u16,
}

#[derive(Clone, Copy, PartialEq, Eq, Structural, Debug)]
pub struct MandateMinted {
    pub user: u64,
    pub asset_mint: u64,
    pub strategy: Strategy,
    pub expires_at: i64,
}

#[derive(Clone, Copy, PartialEq, Eq, Structural, Debug)]
pub struct MandateRevoked {
    pub user: u64,
    pub asset_mint: u64,
}

// ---- decision models ----

/// Decision model for [`initialize`].
pub open spec fn spec_initialize_check(risk_threshold_bps: u16) -> Result<(), RouterError> {
    if risk_threshold_bps > MAX_BPS {
        Err(RouterError::InvalidThreshold)
    } else {
        Ok(())
    }
}

/// Decision model for [`set_pause`].
pub open spec fn spec_set_pause_check(s: Store, caller: u64) -> Result<(), RouterError> {
    if caller != s.state->Some_0.admin {
        Err(RouterError::Unauthorized)
    } else {
        Ok(())
    }
}

/// Decision model for [`update_threshold`].
pub open spec fn spec_update_threshold_check(s: Store, caller: u64, risk_threshold_bps: u16) -> Result<
    (),
    RouterError,
> {
    if caller != s.state->Some_0.admin {
        Err(RouterError::Unauthorized)
    } else if risk_threshold_bps > MAX_BPS {
        Err(RouterError::InvalidThreshold)
    } else {
        Ok(())
    }
}

/// Decision model for [`set_oracle_score`].
pub open spec fn spec_set_score_check(s: Store, caller: u64, score_bps: u16) -> Result<
    (),
    RouterError,
> {
    if caller != s.state->Some_0.oracle_authority {
        Err(RouterError::Unauthorized)
    } else if score_bps > MAX_BPS {
        Err(RouterError::InvalidThreshold)
    } else {
        Ok(())
    }
}

/// Decision model for [`mint_mandate`]. A second mint for a triple whose
/// record is still live is refused before any other check: the store never
/// overwrites a mandate.
pub open spec fn spec_mint_check(s: Store, user: u64, asset_mint: u64, strategy: Strategy) -> Result<
    (),
    RouterError,
> {
    if s.has_mandate(user, asset_mint, strategy) {
        Err(RouterError::MandateExists)
    } else if s.state->Some_0.paused {
        Err(RouterError::Paused)
    } else if !s.oracle_has(asset_mint) {
        Err(RouterError::OracleMismatch)
    } else if s.oracle_score(asset_mint) < s.state->Some_0.risk_threshold_bps {
        Err(RouterError::BelowThreshold)
    } else {
        Ok(())
    }
}

/// Decision model for [`revoke_mandate`]: the mandate's own user or the
/// admin may revoke.
pub open spec fn spec_revoke_check(s: Store, caller: u64, user: u64) -> Result<(), RouterError> {
    if caller == user || caller == s.state->Some_0.admin {
        Ok(())
    } else {
        Err(RouterError::Unauthorized)
    }
}

/// Decision model for [`veto_mandate`]: admin only.
pub open spec fn spec_veto_check(s: Store, caller: u64) -> Result<(), RouterError> {
    if caller == s.state->Some_0.admin {
        Ok(())
    } else {
        Err(RouterError::Unauthorized)
    }
}

// ---- operations ----

/// One-time bootstrap of the global configuration. Succeeds exactly when
/// the threshold is within bps bounds; on success the pause flag starts
/// cleared and no record is touched.
pub fn initialize(
    store: &mut Store,
    admin: u64,
    oracle_authority: u64,
    risk_threshold_bps: u16,
) -> (r: Result<RouterInitialized, RouterError>)
    requires
        old(store).wf(),
        old(store).state is None,
    ensures
        final(store).wf(),
        r is Ok <==> spec_initialize_check(risk_threshold_bps) is Ok,
        r matches Err(e) ==> spec_initialize_check(risk_threshold_bps) == Err::<(), RouterError>(e)
            && *final(store) == *old(store),
        r matches Ok(ev) ==> {
            &&& final(store).state == Some(
                RouterState { admin, oracle_authority, risk_threshold_bps, paused: false },
            )
            &&& final(store).oracles@ == old(store).oracles@
            &&& final(store).mandates@ == old(store).mandates@
            &&& final(store).slabs@ == old(store).slabs@
            &&& ev == (RouterInitialized { admin, oracle_authority, risk_threshold_bps })
        },
{
    if risk_threshold_bps > MAX_BPS {
        return Err(RouterError::InvalidThreshold);
    }
    store.state = Some(RouterState { admin, oracle_authority, risk_threshold_bps, paused: false });
    Ok(RouterInitialized { admin, oracle_authority, risk_threshold_bps })
}

/// Admin-only circuit breaker: sets or clears the pause flag consulted by
/// mandate issuance. A non-admin caller changes nothing.
pub fn set_pause(store: &mut Store, caller: u64, paused: bool) -> (r: Result<(), RouterError>)
    requires
        old(store).wf(),
        old(store).state is Some,
    ensures
        final(store).wf(),
        r is Ok <==> caller == old(store).state->Some_0.admin,
        r matches Err(e) ==> spec_set_pause_check(*old(store), caller) == Err::<(), RouterError>(e)
            && *final(store) == *old(store),
        r is Ok ==> {
            &&& final(store).state == Some(RouterState { paused, ..old(store).state->Some_0 })
            &&& final(store).oracles@ == old(store).oracles@
            &&& final(store).mandates@ == old(store).mandates@
            &&& final(store).slabs@ == old(store).slabs@
        },
{
    let st = store.state.unwrap();
    if caller != st.admin {
        return Err(RouterError::Unauthorized);
    }
    store.state = Some(
        RouterState {
            admin: st.admin,
            oracle_authority: st.oracle_authority,
            risk_threshold_bps: st.risk_threshold_bps,
            paused,
        },
    );
    Ok(())
}

/// Admin-only threshold update; succeeds exactly when the caller is the
/// admin and the new threshold is within bps bounds.
pub fn update_threshold(store: &mut Store, caller: u64, risk_threshold_bps: u16) -> (r: Result<
    ThresholdUpdated,
    RouterError,
>)
    requires
        old(store).wf(),
        old(store).state is Some,
    ensures
        final(store).wf(),
        r is Ok <==> spec_update_threshold_check(*old(store), caller, risk_threshold_bps) is Ok,
        r matches Err(e) ==> spec_update_threshold_check(*old(store), caller, risk_threshold_bps)
            == Err::<(), RouterError>(e) && *final(store) == *old(store),
        r matches Ok(ev) ==> {
            &&& final(store).state == Some(
                RouterState { risk_threshold_bps, ..old(store).state->Some_0 },
            )
            &&& final(store).oracles@ == old(store).oracles@
            &&& final(store).mandates@ == old(store).mandates@
            &&& final(store).slabs@ == old(store).slabs@
            &&& ev == (ThresholdUpdated { risk_threshold_bps })
        },
{
    let st = store.state.unwrap();
    if caller != st.admin {
        return Err(RouterError::Unauthorized);
    }
    if risk_threshold_bps > MAX_BPS {
        return Err(RouterError::InvalidThreshold);
    }
    store.state = Some(
        RouterState {
            admin: st.admin,
            oracle_authority: st.oracle_authority,
            risk_threshold_bps,
            paused: st.paused,
        },
    );
    Ok(ThresholdUpdated { risk_threshold_bps })
}

/// Oracle-authority-only score write. Overwrites any prior score for the
/// asset unconditionally; every other asset's score is untouched.
pub fn set_oracle_score(store: &mut Store, caller: u64, asset_mint: u64, score_bps: u16) -> (r:
    Result<OracleScoreSet, RouterError>)
    requires
        old(store).wf(),
        old(store).state is Some,
    ensures
        final(store).wf(),
        r is Ok <==> spec_set_score_check(*old(store), caller, score_bps) is Ok,
        r matches Err(e) ==> spec_set_score_check(*old(store), caller, score_bps) == Err::<
            (),
            RouterError,
        >(e) && *final(store) == *old(store),
        r matches Ok(ev) ==> {
            &&& final(store).state == old(store).state
            &&& final(store).mandates@ == old(store).mandates@
            &&& final(store).slabs@ == old(store).slabs@
            &&& final(store).oracle_has(asset_mint)
            &&& final(store).oracle_score(asset_mint) == score_bps
            &&& forall|a: u64|
                a != asset_mint ==> (#[trigger] final(store).oracle_has(a) <==> old(store).oracle_has(a))
            &&& forall|a: u64|
                a != asset_mint && old(store).oracle_has(a)
                    ==> #[trigger] final(store).oracle_score(a) == old(store).oracle_score(a)
            &&& ev == (OracleScoreSet { asset_mint, score_bps })
        },
{
    let st = store.state.unwrap();
    if caller != st.oracle_authority {
        return Err(RouterError::Unauthorized);
    }
    if score_bps > MAX_BPS {
        return Err(RouterError::InvalidThreshold);
    }
    match store.find_oracle(asset_mint) {
        Some(i) => {
            store.oracles[i] = OracleScore { asset_mint, score_bps };
            proof {
                assert forall|k: int|
                    0 <= k < store.oracles@.len() implies (#[trigger] store.oracles@[k]).asset_mint
                    == old(store).oracles@[k].asset_mint by {
                    if k != i as int {
                        assert(store.oracles@[k] == old(store).oracles@[k]);
                    }
                }
                assert(store.wf());
                store.lemma_oracle_at(i as int, asset_mint);
                lemma_oracle_frame(*old(store), *store, asset_mint);
            }
            Ok(OracleScoreSet { asset_mint, score_bps })
        },
        None => {
            store.oracles.push(OracleScore { asset_mint, score_bps });
            proof {
                assert forall|k: int|
                    0 <= k < old(store).oracles@.len() implies (#[trigger] store.oracles@[k])
                    == old(store).oracles@[k] by {}
                assert forall|k: int, l: int|
                    0 <= k < store.oracles@.len() && 0 <= l < store.oracles@.len() && k
                        != l implies (#[trigger] store.oracles@[k]).asset_mint
                    != (#[trigger] store.oracles@[l]).asset_mint by {
                    if k < old(store).oracles@.len() && l < old(store).oracles@.len() {
                    } else if k == old(store).oracles@.len() {
                        assert(old(store).oracles@[l].asset_mint != asset_mint);
                    } else {
                        assert(old(store).oracles@[k].asset_mint != asset_mint);
                    }
                }
                assert(store.wf());
                store.lemma_oracle_at(old(store).oracles@.len() as int, asset_mint);
                lemma_oracle_frame(*old(store), *store, asset_mint);
            }
            Ok(OracleScoreSet { asset_mint, score_bps })
        },
    }
}

/// Both stores see the same scores for every asset other than the one
/// written, provided records map pointwise except possibly at entries
/// carrying the written asset.
proof fn lemma_oracle_frame(pre: Store, post: Store, asset_mint: u64)
    requires
        pre.wf(),
        post.wf(),
        forall|k: int|
            0 <= k < pre.oracles@.len() ==> (#[trigger] pre.oracles@[k]).asset_mint != asset_mint
                ==> k < post.oracles@.len() && post.oracles@[k] == pre.oracles@[k],
        forall|k: int|
            0 <= k < post.oracles@.len() ==> (#[trigger] post.oracles@[k]).asset_mint != asset_mint
                ==> k < pre.oracles@.len() && post.oracles@[k] == pre.oracles@[k],
    ensures
        forall|a: u64|
            a != asset_mint ==> (#[trigger] post.oracle_has(a) <==> pre.oracle_has(a)),
        forall|a: u64|
            a != asset_mint && pre.oracle_has(a) ==> #[trigger] post.oracle_score(a)
                == pre.oracle_score(a),
{
    assert forall|a: u64| a != asset_mint implies (#[trigger] post.oracle_has(a)
        <==> pre.oracle_has(a)) by {
        if pre.oracle_has(a) {
            let j = pre.oracle_idx(a);
            assert(pre.oracles@[j].asset_mint == a);
            assert(post.oracles@[j].asset_mint == a);
        }
        if post.oracle_has(a) {
            let j = post.oracle_idx(a);
            assert(post.oracles@[j].asset_mint == a);
            assert(pre.oracles@[j].asset_mint == a);
        }
    }
    assert forall|a: u64| a != asset_mint && pre.oracle_has(a) implies #[trigger] post.oracle_score(
        a,
    ) == pre.oracle_score(a) by {
        let j = pre.oracle_idx(a);
        assert(pre.oracles@[j].asset_mint == a);
        assert(post.oracles@[j] == pre.oracles@[j]);
        pre.lemma_oracle_at(j, a);
        post.lemma_oracle_at(j, a);
    }
}

/// The core risk-gating decision: issue a time-boxed mandate when the store
/// is not paused, the asset has an oracle score, the score meets the
/// threshold, and no live mandate already occupies the triple's address.
pub fn mint_mandate(
    store: &mut Store,
    user: u64,
    asset_mint: u64,
    strategy: Strategy,
    ttl_seconds: u32,
    now: i64,
) -> (r: Result<MandateMinted, RouterError>)
    requires
        old(store).wf(),
        old(store).state is Some,
        now + ttl_seconds <= i64::MAX,
    ensures
        final(store).wf(),
        final(store).state == old(store).state,
        final(store).oracles@ == old(store).oracles@,
        final(store).slabs@ == old(store).slabs@,
        r is Ok <==> spec_mint_check(*old(store), user, asset_mint, strategy) is Ok,
        r matches Err(e) ==> spec_mint_check(*old(store), user, asset_mint, strategy) == Err::<
            (),
            RouterError,
        >(e) && *final(store) == *old(store),
        r matches Ok(ev) ==> {
            &&& final(store).mandates@.len() == old(store).mandates@.len() + 1
            &&& final(store).mandates@.drop_last() == old(store).mandates@
            &&& final(store).mandates@.last().0@ == spec_mandate_address(
                user,
                asset_mint,
                strategy,
            )
            &&& final(store).mandates@.last().1 == (Mandate {
                user,
                asset_mint,
                strategy,
                expires_at: (now + ttl_seconds) as i64,
            })
            &&& final(store).has_mandate(user, asset_mint, strategy)
            &&& final(store).mandate_of(user, asset_mint, strategy)
                == final(store).mandates@.last().1
            &&& forall|u2: u64, a2: u64, s2: Strategy|
                !(u2 == user && a2 == asset_mint && s2 == strategy)
                    ==> ((#[trigger] final(store).has_mandate(u2, a2, s2))
                    <==> old(store).has_mandate(u2, a2, s2))
            &&& forall|u2: u64, a2: u64, s2: Strategy|
                !(u2 == user && a2 == asset_mint && s2 == strategy) && old(store).has_mandate(
                    u2,
                    a2,
                    s2,
                ) ==> #[trigger] final(store).mandate_of(u2, a2, s2)
                    == old(store).mandate_of(u2, a2, s2)
            &&& ev == (MandateMinted {
                user,
                asset_mint,
                strategy,
                expires_at: (now + ttl_seconds) as i64,
            })
        },
{
    let st = store.state.unwrap();
    match store.find_mandate(user, asset_mint, strategy) {
        Some(_) => {
            return Err(RouterError::MandateExists);
        },
        None => {},
    }
    if st.paused {
        return Err(RouterError::Paused);
    }
    let oracle_i = match store.find_oracle(asset_mint) {
        Some(i) => i,
        None => {
            return Err(RouterError::OracleMismatch);
        },
    };
    proof {
        store.lemma_oracle_at(oracle_i as int, asset_mint);
    }
    if store.oracles[oracle_i].score_bps < st.risk_threshold_bps {
        return Err(RouterError::BelowThreshold);
    }
    let expires_at = now + (ttl_seconds as i64);
    let addr = derive_mandate_address(user, asset_mint, strategy);
    let m = Mandate { user, asset_mint, strategy, expires_at };
    store.mandates.push((addr, m));
    proof {
        let pre = old(store).mandates@;
        let n = pre.len() as int;
        assert(store.mandates@[n].1 == m);
        assert(store.mandates@[n].0@ == spec_mandate_address(user, asset_mint, strategy));
        assert forall|k: int|
            0 <= k < store.mandates@.len() implies (#[trigger] store.mandates@[k]).0@
            == spec_mandate_address(
            store.mandates@[k].1.user,
            store.mandates@[k].1.asset_mint,
            store.mandates@[k].1.strategy,
        ) by {
            if k < n {
                assert(store.mandates@[k] == pre[k]);
            }
        }
        assert forall|k: int, l: int|
            0 <= k < store.mandates@.len() && 0 <= l < store.mandates@.len() && k
                != l implies !mandate_matches(
            (#[trigger] store.mandates@[k]).1,
            (#[trigger] store.mandates@[l]).1.user,
            store.mandates@[l].1.asset_mint,
            store.mandates@[l].1.strategy,
        ) by {
            if k < n && l < n {
                assert(store.mandates@[k] == pre[k]);
                assert(store.mandates@[l] == pre[l]);
            } else if k == n {
                assert(store.mandates@[l] == pre[l]);
                if mandate_matches(m, pre[l].1.user, pre[l].1.asset_mint, pre[l].1.strategy) {
                    assert(mandate_matches(pre[l].1, user, asset_mint, strategy));
                    assert(old(store).has_mandate(user, asset_mint, strategy));
                }
            } else {
                assert(store.mandates@[k] == pre[k]);
                if mandate_matches(pre[k].1, m.user, m.asset_mint, m.strategy) {
                    assert(mandate_matches(pre[k].1, user, asset_mint, strategy));
                    assert(old(store).has_mandate(user, asset_mint, strategy));
                }
            }
        }
        assert(store.wf());
        assert(mandate_matches(store.mandates@[n].1, user, asset_mint, strategy));
        store.lemma_mandate_at(n, user, asset_mint, strategy);
        assert(store.mandates@.drop_last() =~= pre);
        assert forall|u2: u64, a2: u64, s2: Strategy|
            !(u2 == user && a2 == asset_mint && s2 == strategy) implies ((
        #[trigger] store.has_mandate(u2, a2, s2)) <==> old(store).has_mandate(u2, a2, s2)) by {
            if old(store).has_mandate(u2, a2, s2) {
                let j = old(store).mandate_idx(u2, a2, s2);
                assert(store.mandates@[j] == pre[j]);
                assert(store.has_mandate(u2, a2, s2));
            }
            if store.has_mandate(u2, a2, s2) {
                let k = store.mandate_idx(u2, a2, s2);
                if k < n {
                    assert(store.mandates@[k] == pre[k]);
                    assert(old(store).has_mandate(u2, a2, s2));
                } else {
                    assert(mandate_matches(m, u2, a2, s2));
                }
            }
        }
        assert forall|u2: u64, a2: u64, s2: Strategy|
            !(u2 == user && a2 == asset_mint && s2 == strategy) && old(store).has_mandate(
                u2,
                a2,
                s2,
            ) implies (#[trigger] store.mandate_of(u2, a2, s2)) == old(store).mandate_of(
            u2,
            a2,
            s2,
        ) by {
            let j = old(store).mandate_idx(u2, a2, s2);
            old(store).lemma_mandate_at(j, u2, a2, s2);
            assert(store.mandates@[j] == pre[j]);
            store.lemma_mandate_at(j, u2, a2, s2);
        }
    }
    Ok(MandateMinted { user, asset_mint, strategy, expires_at })
}

/// Remove the mandate record at `idx`, preserving every other record.
fn remove_mandate_record(store: &mut Store, idx: usize)
    requires
        old(store).wf(),
        idx < old(store).mandates@.len(),
    ensures
        final(store).wf(),
        final(store).state == old(store).state,
        final(store).oracles@ == old(store).oracles@,
        final(store).slabs@ == old(store).slabs@,
        final(store).mandates@ == old(store).mandates@.remove(idx as int),
        !final(store).has_mandate(
            old(store).mandates@[idx as int].1.user,
            old(store).mandates@[idx as int].1.asset_mint,
            old(store).mandates@[idx as int].1.strategy,
        ),
        forall|u2: u64, a2: u64, s2: Strategy|
            !mandate_matches(old(store).mandates@[idx as int].1, u2, a2, s2)
                ==> ((#[trigger] final(store).has_mandate(u2, a2, s2))
                <==> old(store).has_mandate(u2, a2, s2)),
        forall|u2: u64, a2: u64, s2: Strategy|
            !mandate_matches(old(store).mandates@[idx as int].1, u2, a2, s2)
                && old(store).has_mandate(u2, a2, s2)
                ==> #[trigger] final(store).mandate_of(u2, a2, s2)
                == old(store).mandate_of(u2, a2, s2),
{
    store.mandates.remove(idx);
    proof {
        let pre = old(store).mandates@;
        let i = idx as int;
        pre.remove_ensures(i);
        assert forall|k: int|
            0 <= k < store.mandates@.len() implies (#[trigger] store.mandates@[k]) == (if k < i {
            pre[k]
        } else {
            pre[k + 1]
        }) by {}
        assert forall|k: int|
            0 <= k < store.mandates@.len() implies (#[trigger] store.mandates@[k]).0@
            == spec_mandate_address(
            store.mandates@[k].1.user,
            store.mandates@[k].1.asset_mint,
            store.mandates@[k].1.strategy,
        ) by {}
        assert forall|k: int, l: int|
            0 <= k < store.mandates@.len() && 0 <= l < store.mandates@.len() && k
                != l implies !mandate_matches(
            (#[trigger] store.mandates@[k]).1,
            (#[trigger] store.mandates@[l]).1.user,
            store.mandates@[l].1.asset_mint,
            store.mandates@[l].1.strategy,
        ) by {}
        assert(store.wf());
        let rm = pre[i].1;
        assert forall|k: int| 0 <= k < store.mandates@.len() implies !mandate_matches(
            (#[trigger] store.mandates@[k]).1,
            rm.user,
            rm.asset_mint,
            rm.strategy,
        ) by {
            if k < i {
                assert(store.mandates@[k] == pre[k]);
            } else {
                assert(store.mandates@[k] == pre[k + 1]);
            }
        }
        assert forall|u2: u64, a2: u64, s2: Strategy|
            !mandate_matches(rm, u2, a2, s2) implies ((#[trigger] store.has_mandate(u2, a2, s2))
            <==> old(store).has_mandate(u2, a2, s2)) by {
            if old(store).has_mandate(u2, a2, s2) {
                let j = old(store).mandate_idx(u2, a2, s2);
                assert(mandate_matches(pre[j].1, u2, a2, s2));
                if j < i {
                    assert(store.mandates@[j] == pre[j]);
                    assert(store.has_mandate(u2, a2, s2));
                } else {
                    assert(store.mandates@[j - 1] == pre[j]);
                    assert(store.has_mandate(u2, a2, s2));
                }
            }
            if store.has_mandate(u2, a2, s2) {
                let k = store.mandate_idx(u2, a2, s2);
                if k < i {
                    assert(store.mandates@[k] == pre[k]);
                    assert(old(store).has_mandate(u2, a2, s2));
                } else {
                    assert(store.mandates@[k] == pre[k + 1]);
                    assert(old(store).has_mandate(u2, a2, s2));
                }
            }
        }
        assert forall|u2: u64, a2: u64, s2: Strategy|
            !mandate_matches(rm, u2, a2, s2) && old(store).has_mandate(u2, a2, s2) implies (
        #[trigger] store.mandate_of(u2, a2, s2)) == old(store).mandate_of(u2, a2, s2) by {
            let j = old(store).mandate_idx(u2, a2, s2);
            old(store).lemma_mandate_at(j, u2, a2, s2);
            if j < i {
                assert(store.mandates@[j] == pre[j]);
                store.lemma_mandate_at(j, u2, a2, s2);
            } else {
                assert(j != i);
                assert(store.mandates@[j - 1] == pre[j]);
                store.lemma_mandate_at(j - 1, u2, a2, s2);
            }
        }
    }
}

/// Destroy a mandate at its user's or the admin's request; any other caller
/// is refused and the mandate is left intact.
pub fn revoke_mandate(
    store: &mut Store,
    caller: u64,
    user: u64,
    asset_mint: u64,
    strategy: Strategy,
) -> (r: Result<MandateRevoked, RouterError>)
    requires
        old(store).wf(),
        old(store).state is Some,
        old(store).has_mandate(user, asset_mint, strategy),
    ensures
        final(store).wf(),
        r is Ok <==> spec_revoke_check(*old(store), caller, user) is Ok,
        r matches Err(e) ==> spec_revoke_check(*old(store), caller, user) == Err::<
            (),
            RouterError,
        >(e) && *final(store) == *old(store),
        r matches Ok(ev) ==> {
            &&& final(store).mandates@ == old(store).mandates@.remove(
                old(store).mandate_idx(user, asset_mint, strategy),
            )
            &&& !final(store).has_mandate(user, asset_mint, strategy)
            &&& forall|u2: u64, a2: u64, s2: Strategy|
                !(u2 == user && a2 == asset_mint && s2 == strategy)
                    ==> ((#[trigger] final(store).has_mandate(u2, a2, s2))
                    <==> old(store).has_mandate(u2, a2, s2))
            &&& forall|u2: u64, a2: u64, s2: Strategy|
                !(u2 == user && a2 == asset_mint && s2 == strategy) && old(store).has_mandate(
                    u2,
                    a2,
                    s2,
                ) ==> #[trigger] final(store).mandate_of(u2, a2, s2)
                    == old(store).mandate_of(u2, a2, s2)
            &&& final(store).state == old(store).state
            &&& final(store).oracles@ == old(store).oracles@
            &&& final(store).slabs@ == old(store).slabs@
            &&& ev == (MandateRevoked { user, asset_mint })
        },
{
    let st = store.state.unwrap();
    if !(caller == user || caller == st.admin) {
        return Err(RouterError::Unauthorized);
    }
    let idx = match store.find_mandate(user, asset_mint, strategy) {
        Some(i) => i,
        None => {
            proof {
                assert(false);
            }
            0
        },
    };
    remove_mandate_record(store, idx);
    Ok(MandateRevoked { user, asset_mint })
}

/// Admin-only destructive override, independent of the user's consent.
pub fn veto_mandate(
    store: &mut Store,
    caller: u64,
    user: u64,
    asset_mint: u64,
    strategy: Strategy,
) -> (r: Result<(), RouterError>)
    requires
        old(store).wf(),
        old(store).state is Some,
        old(store).has_mandate(user, asset_mint, strategy),
    ensures
        final(store).wf(),
        r is Ok <==> caller == old(store).state->Some_0.admin,
        r matches Err(e) ==> spec_veto_check(*old(store), caller) == Err::<(), RouterError>(e)
            && *final(store) == *old(store),
        r is Ok ==> {
            &&& final(store).mandates@ == old(store).mandates@.remove(
                old(store).mandate_idx(user, asset_mint, strategy),
            )
            &&& !final(store).has_mandate(user, asset_mint, strategy)
            &&& forall|u2: u64, a2: u64, s2: Strategy|
                !(u2 == user && a2 == asset_mint && s2 == strategy)
                    ==> ((#[trigger] final(store).has_mandate(u2, a2, s2))
                    <==> old(store).has_mandate(u2, a2, s2))
            &&& final(store).state == old(store).state
            &&& final(store).oracles@ == old(store).oracles@
            &&& final(store).slabs@ == old(store).slabs@
        },
{
    let st = store.state.unwrap();
    if caller != st.admin {
        return Err(RouterError::Unauthorized);
    }
    let idx = match store.find_mandate(user, asset_mint, strategy) {
        Some(i) => i,
        None => {
            proof {
                assert(false);
            }
            0
        },
    };
    remove_mandate_record(store, idx);
    Ok(())
}

// ---- laws ----

/// An admin-issued threshold update succeeds exactly when the new threshold
/// is within bps bounds.
pub proof fn lemma_update_threshold_gate(s: Store, caller: u64, risk_threshold_bps: u16)
    requires
        s.state is Some,
        caller == s.state->Some_0.admin,
    ensures
        spec_update_threshold_check(s, caller, risk_threshold_bps) is Ok <==> risk_threshold_bps
            <= MAX_BPS,
{
}

/// The risk gate is exactly the monotone threshold comparison: with an
/// oracle score on record and the triple's address free, minting succeeds
/// precisely when the store is not paused and the score meets the
/// threshold; in particular a score equal to the threshold passes.
pub proof fn lemma_mint_gate(s: Store, user: u64, asset_mint: u64, strategy: Strategy)
    requires
        s.wf(),
        s.state is Some,
        s.oracle_has(asset_mint),
        !s.has_mandate(user, asset_mint, strategy),
    ensures
        spec_mint_check(s, user, asset_mint, strategy) is Ok <==> (!s.state->Some_0.paused
            && s.oracle_score(asset_mint) >= s.state->Some_0.risk_threshold_bps),
{
}

/// Two mints for one `(user, asset_mint, strategy)` triple address the same
/// record, so the second is rejected while the first record is live.
pub proof fn lemma_second_mint_rejected(s: Store, user: u64, asset_mint: u64, strategy: Strategy)
    requires
        s.has_mandate(user, asset_mint, strategy),
    ensures
        spec_mint_check(s, user, asset_mint, strategy) == Err::<(), RouterError>(
            RouterError::MandateExists,
        ),
{
}

} // verus!
