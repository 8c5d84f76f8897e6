//! The execution ledger: per-agent accounts that track a strategy, a
//! saturating signed P&L accumulator, and the last validated signal.

use vstd::prelude::*;

use crate::address::{derive_slab_address, spec_slab_address, Strategy};
use crate::router::{Mandate, MAX_BPS};
use crate::store::Store;

verus! {

/// Lowest signal confidence, in basis points, that the ledger accepts.
pub const CONFIDENCE_FLOOR_BPS: u16 = 8500;

/// Direction of a trading signal.
#[derive(Clone, Copy, PartialEq, Eq, Structural, Debug)]
pub enum Side {
    Long,
    Short,
}

/// A per-agent execution ledger record.
#[derive(Clone, Copy, PartialEq, Eq, Structural, Debug)]
pub struct SlabAccount {
    pub owner: u64,
    pub strategy: Strategy,
    pub performance_pnl: i64,
    pub last_signal_ts: i64,
}

/// The mandate record as the execution ledger reads it. The ledger does not
/// own mandates; it shares the one layout the mandate authority writes, so
/// the two services can never disagree on it.
pub type MandateMirror = Mandate;

/// Why a ledger operation was refused; every failure is detected before any
/// mutation.
#[derive(Clone, Copy, PartialEq, Eq, Structural, Debug)]
pub enum SlabError {
    Invalid,
    LowConfidence,
    MandateMissing,
    MandateExpired,
    Unauthorized,
}

#[derive(Clone, Copy, PartialEq, Eq, Structural, Debug)]
pub struct SlabInitialized {
    pub owner: u64,
    pub strategy: Strategy,
}

#[derive(Clone, Copy, PartialEq, Eq, Structural, Debug)]
pub struct SignalExecuted {
    pub owner: u64,
    pub strategy: Strategy,
    pub direction: Side,
    pub confidence_bps: u16,
    pub notional: i64,
    pub price: i64,
    pub pnl_after: i64,
}

/// Saturating signed addition: the mathematical sum, clamped to the
/// representable range instead of wrapping.
pub open spec fn spec_sat_add_i64(a: int, b: int) -> int {
    if a + b > i64::MAX as int {
        i64::MAX as int
    } else if a + b < i64::MIN as int {
        i64::MIN as int
    } else {
        a + b
    }
}

/// The signed P&L contribution of a signal: positive notional for a long,
/// negative for a short.
pub open spec fn spec_signal_delta(direction: Side, notional: i64) -> int {
    match direction {
        Side::Long => notional as int,
        Side::Short => -(notional as int),
    }
}

pub fn sat_add_i64(a: i64, b: i64) -> (r: i64)
    ensures
        r as int == spec_sat_add_i64(a as int, b as int),
{
    match a.checked_add(b) {
        Some(v) => v,
        None => {
            if b >= 0 {
                i64::MAX
            } else {
                i64::MIN
            }
        },
    }
}

pub fn sat_sub_i64(a: i64, b: i64) -> (r: i64)
    ensures
        r as int == spec_sat_add_i64(a as int, -(b as int)),
{
    match a.checked_sub(b) {
        Some(v) => v,
        None => {
            if b >= 0 {
                i64::MIN
            } else {
                i64::MAX
            }
        },
    }
}

// ---- decision models ----

/// Decision model for [`execute_signal`]: confidence in bounds and at least
/// the floor, and an unexpired mandate on record at the address derived
/// from the ledger owner, the asset, and the ledger's strategy. A missing
/// mandate is a typed failure, never an abort.
pub open spec fn spec_execute_check(
    s: Store,
    owner: u64,
    asset_mint: u64,
    confidence_bps: u16,
    now: i64,
) -> Result<(), SlabError> {
    if confidence_bps > MAX_BPS {
        Err(SlabError::Invalid)
    } else if confidence_bps < CONFIDENCE_FLOOR_BPS {
        Err(SlabError::LowConfidence)
    } else if !s.has_mandate(owner, asset_mint, s.slab_of(owner).strategy) {
        Err(SlabError::MandateMissing)
    } else if now > s.mandate_of(owner, asset_mint, s.slab_of(owner).strategy).expires_at {
        Err(SlabError::MandateExpired)
    } else {
        Ok(())
    }
}

/// Decision model for [`close_slab`]: owner only.
pub open spec fn spec_close_check(s: Store, caller: u64, owner: u64) -> Result<(), SlabError> {
    if caller == owner {
        Ok(())
    } else {
        Err(SlabError::Unauthorized)
    }
}

// ---- operations ----

/// Open a ledger record for `owner`: P&L and last-signal timestamp start
/// at zero. One ledger per owner; the strategy is fixed at creation.
pub fn initialize_slab(store: &mut Store, owner: u64, strategy: Strategy) -> (r: Result<
    SlabInitialized,
    SlabError,
>)
    requires
        old(store).wf(),
        !old(store).has_slab(owner),
    ensures
        final(store).wf(),
        r is Ok,
        final(store).state == old(store).state,
        final(store).oracles@ == old(store).oracles@,
        final(store).mandates@ == old(store).mandates@,
        final(store).slabs@.len() == old(store).slabs@.len() + 1,
        final(store).slabs@.drop_last() == old(store).slabs@,
        final(store).slabs@.last().0@ == spec_slab_address(owner),
        final(store).slabs@.last().1 == (SlabAccount {
            owner,
            strategy,
            performance_pnl: 0,
            last_signal_ts: 0,
        }),
        final(store).has_slab(owner),
        final(store).slab_of(owner) == final(store).slabs@.last().1,
        forall|o2: u64|
            o2 != owner ==> ((#[trigger] final(store).has_slab(o2)) <==> old(store).has_slab(o2)),
        forall|o2: u64|
            o2 != owner && old(store).has_slab(o2) ==> #[trigger] final(store).slab_of(o2)
                == old(store).slab_of(o2),
        r matches Ok(ev) ==> ev == (SlabInitialized { owner, strategy }),
{
    let addr = derive_slab_address(owner);
    let account = SlabAccount { owner, strategy, performance_pnl: 0, last_signal_ts: 0 };
    store.slabs.push((addr, account));
    proof {
        let pre = old(store).slabs@;
        let n = pre.len() as int;
        assert forall|k: int|
            0 <= k < store.slabs@.len() implies (#[trigger] store.slabs@[k]).0@
            == spec_slab_address(store.slabs@[k].1.owner) by {
            if k < n {
                assert(store.slabs@[k] == pre[k]);
            }
        }
        assert forall|k: int, l: int|
            0 <= k < store.slabs@.len() && 0 <= l < store.slabs@.len() && k
                != l implies (#[trigger] store.slabs@[k]).1.owner
            != (#[trigger] store.slabs@[l]).1.owner by {
            if k < n && l < n {
            } else if k == n {
                assert(store.slabs@[l] == pre[l]);
                assert(pre[l].1.owner != owner);
            } else {
                assert(store.slabs@[k] == pre[k]);
                assert(pre[k].1.owner != owner);
            }
        }
        assert(store.wf());
        assert(store.slabs@[n].1.owner == owner);
        store.lemma_slab_at(n, owner);
        assert(store.slabs@.drop_last() =~= pre);
        assert forall|o2: u64| o2 != owner implies ((#[trigger] store.has_slab(o2))
            <==> old(store).has_slab(o2)) by {
            if old(store).has_slab(o2) {
                let j = old(store).slab_idx(o2);
                assert(store.slabs@[j] == pre[j]);
                assert(store.has_slab(o2));
            }
            if store.has_slab(o2) {
                let k = store.slab_idx(o2);
                if k < n {
                    assert(store.slabs@[k] == pre[k]);
                    assert(old(store).has_slab(o2));
                }
            }
        }
        assert forall|o2: u64| o2 != owner && old(store).has_slab(o2) implies (
        #[trigger] store.slab_of(o2)) == old(store).slab_of(o2) by {
            let j = old(store).slab_idx(o2);
            old(store).lemma_slab_at(j, o2);
            assert(store.slabs@[j] == pre[j]);
            store.lemma_slab_at(j, o2);
        }
    }
    Ok(SlabInitialized { owner, strategy })
}

/// Validate one trading signal against the mandate at the derived address
/// and record it: the P&L accumulator moves by the signed notional,
/// saturating instead of wrapping, and the last-signal timestamp is set.
pub fn execute_signal(
    store: &mut Store,
    owner: u64,
    asset_mint: u64,
    confidence_bps: u16,
    direction: Side,
    notional: i64,
    price: i64,
    now: i64,
) -> (r: Result<SignalExecuted, SlabError>)
    requires
        old(store).wf(),
        old(store).has_slab(owner),
    ensures
        final(store).wf(),
        final(store).state == old(store).state,
        final(store).oracles@ == old(store).oracles@,
        final(store).mandates@ == old(store).mandates@,
        r is Ok <==> spec_execute_check(*old(store), owner, asset_mint, confidence_bps, now) is Ok,
        r matches Err(e) ==> spec_execute_check(*old(store), owner, asset_mint, confidence_bps, now)
            == Err::<(), SlabError>(e) && *final(store) == *old(store),
        r matches Ok(ev) ==> {
            let pre = old(store).slab_of(owner);
            let pnl = spec_sat_add_i64(
                pre.performance_pnl as int,
                spec_signal_delta(direction, notional),
            );
            &&& final(store).has_slab(owner)
            &&& final(store).slab_of(owner).owner == owner
            &&& final(store).slab_of(owner).strategy == pre.strategy
            &&& final(store).slab_of(owner).performance_pnl == pnl
            &&& final(store).slab_of(owner).last_signal_ts == now
            &&& final(store).slabs@.len() == old(store).slabs@.len()
            &&& forall|k: int|
                0 <= k < old(store).slabs@.len() && k != old(store).slab_idx(owner)
                    ==> #[trigger] final(store).slabs@[k] == old(store).slabs@[k]
            &&& forall|o2: u64|
                o2 != owner ==> ((#[trigger] final(store).has_slab(o2))
                    <==> old(store).has_slab(o2))
            &&& forall|o2: u64|
                o2 != owner && old(store).has_slab(o2) ==> #[trigger] final(store).slab_of(o2)
                    == old(store).slab_of(o2)
            &&& ev == (SignalExecuted {
                owner,
                strategy: pre.strategy,
                direction,
                confidence_bps,
                notional,
                price,
                pnl_after: final(store).slab_of(owner).performance_pnl,
            })
        },
{
    let slab_i = match store.find_slab(owner) {
        Some(i) => i,
        None => {
            proof {
                assert(false);
            }
            0
        },
    };
    let pre_slab = store.slabs[slab_i].1;
    if confidence_bps > MAX_BPS {
        return Err(SlabError::Invalid);
    }
    if confidence_bps < CONFIDENCE_FLOOR_BPS {
        return Err(SlabError::LowConfidence);
    }
    let mandate_i = match store.find_mandate(owner, asset_mint, pre_slab.strategy) {
        Some(i) => i,
        None => {
            return Err(SlabError::MandateMissing);
        },
    };
    let mandate = store.mandates[mandate_i].1;
    if now > mandate.expires_at {
        return Err(SlabError::MandateExpired);
    }
    let new_pnl = match direction {
        Side::Long => sat_add_i64(pre_slab.performance_pnl, notional),
        Side::Short => sat_sub_i64(pre_slab.performance_pnl, notional),
    };
    let new_account = SlabAccount {
        owner,
        strategy: pre_slab.strategy,
        performance_pnl: new_pnl,
        last_signal_ts: now,
    };
    let new_addr = derive_slab_address(owner);
    store.slabs[slab_i] = (new_addr, new_account);
    proof {
        let pre = old(store).slabs@;
        let i = slab_i as int;
        assert forall|k: int|
            0 <= k < store.slabs@.len() implies (#[trigger] store.slabs@[k]).1.owner
            == pre[k].1.owner by {
            if k != i {
                assert(store.slabs@[k] == pre[k]);
            }
        }
        assert forall|k: int|
            0 <= k < store.slabs@.len() implies (#[trigger] store.slabs@[k]).0@
            == spec_slab_address(store.slabs@[k].1.owner) by {
            if k != i {
                assert(store.slabs@[k] == pre[k]);
            }
        }
        assert(store.wf());
        store.lemma_slab_at(i, owner);
        assert forall|o2: u64| o2 != owner implies ((#[trigger] store.has_slab(o2))
            <==> old(store).has_slab(o2)) by {
            if old(store).has_slab(o2) {
                let j = old(store).slab_idx(o2);
                assert(pre[j].1.owner == o2);
                assert(j != i);
                assert(store.slabs@[j] == pre[j]);
                assert(store.has_slab(o2));
            }
            if store.has_slab(o2) {
                let k = store.slab_idx(o2);
                assert(k != i);
                assert(store.slabs@[k] == pre[k]);
                assert(old(store).has_slab(o2));
            }
        }
        assert forall|o2: u64| o2 != owner && old(store).has_slab(o2) implies (
        #[trigger] store.slab_of(o2)) == old(store).slab_of(o2) by {
            let j = old(store).slab_idx(o2);
            old(store).lemma_slab_at(j, o2);
            assert(j != i);
            assert(store.slabs@[j] == pre[j]);
            store.lemma_slab_at(j, o2);
        }
    }
    Ok(
        SignalExecuted {
            owner,
            strategy: new_account.strategy,
            direction,
            confidence_bps,
            notional,
            price,
            pnl_after: new_pnl,
        },
    )
}

/// Destroy a ledger record at its owner's request; any other caller is
/// refused and the record is left intact.
pub fn close_slab(store: &mut Store, caller: u64, owner: u64) -> (r: Result<(), SlabError>)
    requires
        old(store).wf(),
        old(store).has_slab(owner),
    ensures
        final(store).wf(),
        r is Ok <==> caller == owner,
        r matches Err(e) ==> spec_close_check(*old(store), caller, owner) == Err::<(), SlabError>(e)
            && *final(store) == *old(store),
        r is Ok ==> {
            &&& final(store).slabs@ == old(store).slabs@.remove(old(store).slab_idx(owner))
            &&& !final(store).has_slab(owner)
            &&& forall|o2: u64|
                o2 != owner ==> ((#[trigger] final(store).has_slab(o2))
                    <==> old(store).has_slab(o2))
            &&& forall|o2: u64|
                o2 != owner && old(store).has_slab(o2) ==> #[trigger] final(store).slab_of(o2)
                    == old(store).slab_of(o2)
            &&& final(store).state == old(store).state
            &&& final(store).oracles@ == old(store).oracles@
            &&& final(store).mandates@ == old(store).mandates@
        },
{
    if caller != owner {
        return Err(SlabError::Unauthorized);
    }
    let idx = match store.find_slab(owner) {
        Some(i) => i,
        None => {
            proof {
                assert(false);
            }
            0
        },
    };
    store.slabs.remove(idx);
    proof {
        let pre = old(store).slabs@;
        let i = idx as int;
        pre.remove_ensures(i);
        assert forall|k: int|
            0 <= k < store.slabs@.len() implies (#[trigger] store.slabs@[k]) == (if k < i {
            pre[k]
        } else {
            pre[k + 1]
        }) by {}
        assert forall|k: int|
            0 <= k < store.slabs@.len() implies (#[trigger] store.slabs@[k]).0@
            == spec_slab_address(store.slabs@[k].1.owner) by {}
        assert forall|k: int, l: int|
            0 <= k < store.slabs@.len() && 0 <= l < store.slabs@.len() && k
                != l implies (#[trigger] store.slabs@[k]).1.owner
            != (#[trigger] store.slabs@[l]).1.owner by {}
        assert(store.wf());
        assert forall|k: int|
            0 <= k < store.slabs@.len() implies (#[trigger] store.slabs@[k]).1.owner != owner by {
            if k < i {
                assert(store.slabs@[k] == pre[k]);
            } else {
                assert(store.slabs@[k] == pre[k + 1]);
            }
        }
        assert forall|o2: u64| o2 != owner implies ((#[trigger] store.has_slab(o2))
            <==> old(store).has_slab(o2)) by {
            if old(store).has_slab(o2) {
                let j = old(store).slab_idx(o2);
                assert(pre[j].1.owner == o2);
                assert(j != i);
                if j < i {
                    assert(store.slabs@[j] == pre[j]);
                    assert(store.has_slab(o2));
                } else {
                    assert(store.slabs@[j - 1] == pre[j]);
                    assert(store.has_slab(o2));
                }
            }
            if store.has_slab(o2) {
                let k = store.slab_idx(o2);
                if k < i {
                    assert(store.slabs@[k] == pre[k]);
                    assert(old(store).has_slab(o2));
                } else {
                    assert(store.slabs@[k] == pre[k + 1]);
                    assert(old(store).has_slab(o2));
                }
            }
        }
        assert forall|o2: u64| o2 != owner && old(store).has_slab(o2) implies (
        #[trigger] store.slab_of(o2)) == old(store).slab_of(o2) by {
            let j = old(store).slab_idx(o2);
            old(store).lemma_slab_at(j, o2);
            assert(j != i);
            if j < i {
                assert(store.slabs@[j] == pre[j]);
                store.lemma_slab_at(j, o2);
            } else {
                assert(store.slabs@[j - 1] == pre[j]);
                store.lemma_slab_at(j - 1, o2);
            }
        }
    }
    Ok(())
}

// ---- laws ----

/// The hardcoded confidence floor decides alone: any signal under the floor
/// fails with low confidence whatever the mandate says, and any in-bounds
/// signal at or above the floor with a live, unexpired mandate passes.
pub proof fn lemma_confidence_gate(
    s: Store,
    owner: u64,
    asset_mint: u64,
    confidence_bps: u16,
    now: i64,
)
    requires
        s.wf(),
        s.has_slab(owner),
    ensures
        confidence_bps < CONFIDENCE_FLOOR_BPS ==> spec_execute_check(
            s,
            owner,
            asset_mint,
            confidence_bps,
            now,
        ) == Err::<(), SlabError>(SlabError::LowConfidence),
        (CONFIDENCE_FLOOR_BPS <= confidence_bps && confidence_bps <= MAX_BPS && s.has_mandate(
            owner,
            asset_mint,
            s.slab_of(owner).strategy,
        ) && now <= s.mandate_of(owner, asset_mint, s.slab_of(owner).strategy).expires_at)
            ==> spec_execute_check(s, owner, asset_mint, confidence_bps, now) is Ok,
{
}

/// Saturating accumulation is exact until it clamps: a nonnegative delta
/// never decreases the stored P&L and lands on the true sum unless that sum
/// exceeds the representable maximum, where it clamps; symmetrically for
/// nonpositive deltas at the minimum.
pub proof fn lemma_sat_add_exact(p: int, n: int)
    requires
        i64::MIN <= p <= i64::MAX,
    ensures
        n >= 0 ==> spec_sat_add_i64(p, n) >= p,
        n >= 0 ==> spec_sat_add_i64(p, n) == (if p + n <= i64::MAX {
            p + n
        } else {
            i64::MAX as int
        }),
        n <= 0 ==> spec_sat_add_i64(p, n) <= p,
        n <= 0 ==> spec_sat_add_i64(p, n) == (if p + n >= i64::MIN {
            p + n
        } else {
            i64::MIN as int
        }),
{
}

/// Same-direction accumulation is associative: folding two deltas of one
/// sign into the accumulator one by one is one saturating step on their
/// sum. (Deltas of opposite signs do not enjoy this.)
pub proof fn lemma_sat_add_assoc_same_sign(p: int, n1: int, n2: int)
    requires
        i64::MIN <= p <= i64::MAX,
        (n1 >= 0 && n2 >= 0) || (n1 <= 0 && n2 <= 0),
    ensures
        spec_sat_add_i64(spec_sat_add_i64(p, n1), n2) == spec_sat_add_i64(p, n1 + n2),
{
}

} // verus!
