//! The shared deterministic record store. Every public operation of the two
//! services is one atomic transaction against it: all preconditions are
//! checked first, and either every mutation applies or none does.

use vstd::prelude::*;

use crate::address::{
    addr_eq, derive_mandate_address, derive_slab_address, lemma_mandate_address_injective,
    lemma_slab_address_injective, spec_mandate_address, spec_slab_address, Address, Strategy,
};
use crate::router::{Mandate, OracleScore, RouterState, MAX_BPS};
use crate::slab::SlabAccount;

verus! {

/// Whether a mandate record carries the composite key `(user, asset_mint,
/// strategy)`.
pub open spec fn mandate_matches(m: Mandate, user: u64, asset_mint: u64, strategy: Strategy) -> bool {
    m.user == user && m.asset_mint == asset_mint && m.strategy == strategy
}

/// The record store both services read and write. Mandate and ledger
/// records are keyed by their derived address.
pub struct Store {
    pub state: Option<RouterState>,
    pub oracles: Vec<OracleScore>,
    pub mandates: Vec<(Address, Mandate)>,
    pub slabs: Vec<(Address, SlabAccount)>,
}

impl Store {
    /// Well-formedness: bps fields in bounds, every record stored at the
    /// address derived from its own key, and no two records sharing a key.
    pub open spec fn wf(self) -> bool {
        &&& (self.state matches Some(st) ==> st.wf())
        &&& forall|i: int|
            0 <= i < self.oracles@.len() ==> (#[trigger] self.oracles@[i]).score_bps <= MAX_BPS
        &&& forall|i: int, j: int|
            0 <= i < self.oracles@.len() && 0 <= j < self.oracles@.len() && i != j
                ==> (#[trigger] self.oracles@[i]).asset_mint != (#[trigger] self.oracles@[j]).asset_mint
        &&& forall|i: int|
            0 <= i < self.mandates@.len() ==> (#[trigger] self.mandates@[i]).0@
                == spec_mandate_address(
                self.mandates@[i].1.user,
                self.mandates@[i].1.asset_mint,
                self.mandates@[i].1.strategy,
            )
        &&& forall|i: int, j: int|
            0 <= i < self.mandates@.len() && 0 <= j < self.mandates@.len() && i != j
                ==> !mandate_matches(
                (#[trigger] self.mandates@[i]).1,
                (#[trigger] self.mandates@[j]).1.user,
                self.mandates@[j].1.asset_mint,
                self.mandates@[j].1.strategy,
            )
        &&& forall|i: int|
            0 <= i < self.slabs@.len() ==> (#[trigger] self.slabs@[i]).0@ == spec_slab_address(
                self.slabs@[i].1.owner,
            )
        &&& forall|i: int, j: int|
            0 <= i < self.slabs@.len() && 0 <= j < self.slabs@.len() && i != j
                ==> (#[trigger] self.slabs@[i]).1.owner != (#[trigger] self.slabs@[j]).1.owner
    }

    /// An empty store: nothing configured, no records.
    pub fn new() -> (s: Store)
        ensures
            s.wf(),
            s.state is None,
            s.oracles@.len() == 0,
            s.mandates@.len() == 0,
            s.slabs@.len() == 0,
    {
        Store { state: None, oracles: Vec::new(), mandates: Vec::new(), slabs: Vec::new() }
    }

    // ---- oracle records ----

    pub open spec fn oracle_has(self, asset_mint: u64) -> bool {
        exists|i: int|
            0 <= i < self.oracles@.len() && (#[trigger] self.oracles@[i]).asset_mint == asset_mint
    }

    pub open spec fn oracle_idx(self, asset_mint: u64) -> int {
        choose|i: int|
            0 <= i < self.oracles@.len() && (#[trigger] self.oracles@[i]).asset_mint == asset_mint
    }

    /// The stored score of `asset_mint`; meaningful only under
    /// [`Store::oracle_has`].
    pub open spec fn oracle_score(self, asset_mint: u64) -> u16 {
        self.oracles@[self.oracle_idx(asset_mint)].score_bps
    }

    pub proof fn lemma_oracle_at(self, i: int, asset_mint: u64)
        requires
            self.wf(),
            0 <= i < self.oracles@.len(),
            self.oracles@[i].asset_mint == asset_mint,
        ensures
            self.oracle_has(asset_mint),
            self.oracle_idx(asset_mint) == i,
            self.oracle_score(asset_mint) == self.oracles@[i].score_bps,
    {
        assert(self.oracle_has(asset_mint));
        let j = self.oracle_idx(asset_mint);
        assert(0 <= j < self.oracles@.len() && self.oracles@[j].asset_mint == asset_mint);
        assert(j == i);
    }

    pub fn find_oracle(&self, asset_mint: u64) -> (r: Option<usize>)
        ensures
            match r {
                Some(i) => 0 <= i < self.oracles@.len() && self.oracles@[i as int].asset_mint
                    == asset_mint && self.oracle_has(asset_mint),
                None => !self.oracle_has(asset_mint),
            },
    {
        let mut i: usize = 0;
        while i < self.oracles.len()
            invariant
                i <= self.oracles@.len(),
                forall|j: int|
                    0 <= j < i ==> (#[trigger] self.oracles@[j]).asset_mint != asset_mint,
            decreases self.oracles@.len() - i,
        {
            if self.oracles[i].asset_mint == asset_mint {
                return Some(i);
            }
            i = i + 1;
        }
        None
    }

    // ---- mandate records ----

    pub open spec fn has_mandate(self, user: u64, asset_mint: u64, strategy: Strategy) -> bool {
        exists|i: int|
            0 <= i < self.mandates@.len() && mandate_matches(
                (#[trigger] self.mandates@[i]).1,
                user,
                asset_mint,
                strategy,
            )
    }

    pub open spec fn mandate_idx(self, user: u64, asset_mint: u64, strategy: Strategy) -> int {
        choose|i: int|
            0 <= i < self.mandates@.len() && mandate_matches(
                (#[trigger] self.mandates@[i]).1,
                user,
                asset_mint,
                strategy,
            )
    }

    /// The stored mandate for the triple; meaningful only under
    /// [`Store::has_mandate`].
    pub open spec fn mandate_of(self, user: u64, asset_mint: u64, strategy: Strategy) -> Mandate {
        self.mandates@[self.mandate_idx(user, asset_mint, strategy)].1
    }

    pub proof fn lemma_mandate_at(self, i: int, user: u64, asset_mint: u64, strategy: Strategy)
        requires
            self.wf(),
            0 <= i < self.mandates@.len(),
            mandate_matches(self.mandates@[i].1, user, asset_mint, strategy),
        ensures
            self.has_mandate(user, asset_mint, strategy),
            self.mandate_idx(user, asset_mint, strategy) == i,
            self.mandate_of(user, asset_mint, strategy) == self.mandates@[i].1,
    {
        assert(self.has_mandate(user, asset_mint, strategy));
        let j = self.mandate_idx(user, asset_mint, strategy);
        assert(0 <= j < self.mandates@.len() && mandate_matches(
            self.mandates@[j].1,
            user,
            asset_mint,
            strategy,
        ));
        assert(j == i);
    }

    /// Look a mandate up by its derived address: the ledger's only channel
    /// to records the mandate authority wrote.
    pub fn find_mandate(&self, user: u64, asset_mint: u64, strategy: Strategy) -> (r: Option<
        usize,
    >)
        requires
            self.wf(),
        ensures
            match r {
                Some(i) => 0 <= i < self.mandates@.len() && mandate_matches(
                    self.mandates@[i as int].1,
                    user,
                    asset_mint,
                    strategy,
                ) && self.has_mandate(user, asset_mint, strategy) && self.mandate_idx(
                    user,
                    asset_mint,
                    strategy,
                ) == i as int,
                None => !self.has_mandate(user, asset_mint, strategy),
            },
    {
        let target = derive_mandate_address(user, asset_mint, strategy);
        let mut i: usize = 0;
        while i < self.mandates.len()
            invariant
                self.wf(),
                i <= self.mandates@.len(),
                target@ == spec_mandate_address(user, asset_mint, strategy),
                forall|j: int|
                    0 <= j < i ==> !mandate_matches(
                        (#[trigger] self.mandates@[j]).1,
                        user,
                        asset_mint,
                        strategy,
                    ),
            decreases self.mandates@.len() - i,
        {
            let pair = &self.mandates[i];
            if addr_eq(&pair.0, &target) {
                proof {
                    let m = self.mandates@[i as int].1;
                    lemma_mandate_address_injective(
                        m.user,
                        m.asset_mint,
                        m.strategy,
                        user,
                        asset_mint,
                        strategy,
                    );
                    self.lemma_mandate_at(i as int, user, asset_mint, strategy);
                }
                return Some(i);
            }
            i = i + 1;
        }
        None
    }

    // ---- ledger records ----

    pub open spec fn has_slab(self, owner: u64) -> bool {
        exists|i: int| 0 <= i < self.slabs@.len() && (#[trigger] self.slabs@[i]).1.owner == owner
    }

    pub open spec fn slab_idx(self, owner: u64) -> int {
        choose|i: int| 0 <= i < self.slabs@.len() && (#[trigger] self.slabs@[i]).1.owner == owner
    }

    /// The stored ledger record of `owner`; meaningful only under
    /// [`Store::has_slab`].
    pub open spec fn slab_of(self, owner: u64) -> SlabAccount {
        self.slabs@[self.slab_idx(owner)].1
    }

    pub proof fn lemma_slab_at(self, i: int, owner: u64)
        requires
            self.wf(),
            0 <= i < self.slabs@.len(),
            self.slabs@[i].1.owner == owner,
        ensures
            self.has_slab(owner),
            self.slab_idx(owner) == i,
            self.slab_of(owner) == self.slabs@[i].1,
    {
        assert(self.has_slab(owner));
        let j = self.slab_idx(owner);
        assert(0 <= j < self.slabs@.len() && self.slabs@[j].1.owner == owner);
        assert(j == i);
    }

    /// The stored score for `asset_mint`, if the oracle has assessed it.
    pub fn get_oracle_score(&self, asset_mint: u64) -> (r: Option<u16>)
        requires
            self.wf(),
        ensures
            match r {
                Some(score) => self.oracle_has(asset_mint) && score == self.oracle_score(
                    asset_mint,
                ),
                None => !self.oracle_has(asset_mint),
            },
    {
        match self.find_oracle(asset_mint) {
            Some(i) => {
                proof {
                    self.lemma_oracle_at(i as int, asset_mint);
                }
                Some(self.oracles[i].score_bps)
            },
            None => None,
        }
    }

    /// The live mandate for the triple, if one is on record.
    pub fn get_mandate(&self, user: u64, asset_mint: u64, strategy: Strategy) -> (r: Option<
        Mandate,
    >)
        requires
            self.wf(),
        ensures
            match r {
                Some(m) => self.has_mandate(user, asset_mint, strategy) && m == self.mandate_of(
                    user,
                    asset_mint,
                    strategy,
                ),
                None => !self.has_mandate(user, asset_mint, strategy),
            },
    {
        match self.find_mandate(user, asset_mint, strategy) {
            Some(i) => Some(self.mandates[i].1),
            None => None,
        }
    }

    /// The ledger record of `owner`, if one is open.
    pub fn get_slab(&self, owner: u64) -> (r: Option<SlabAccount>)
        requires
            self.wf(),
        ensures
            match r {
                Some(a) => self.has_slab(owner) && a == self.slab_of(owner),
                None => !self.has_slab(owner),
            },
    {
        match self.find_slab(owner) {
            Some(i) => Some(self.slabs[i].1),
            None => None,
        }
    }

    /// Look a ledger record up by its derived address.
    pub fn find_slab(&self, owner: u64) -> (r: Option<usize>)
        requires
            self.wf(),
        ensures
            match r {
                Some(i) => 0 <= i < self.slabs@.len() && self.slabs@[i as int].1.owner == owner
                    && self.has_slab(owner) && self.slab_idx(owner) == i as int,
                None => !self.has_slab(owner),
            },
    {
        let target = derive_slab_address(owner);
        let mut i: usize = 0;
        while i < self.slabs.len()
            invariant
                self.wf(),
                i <= self.slabs@.len(),
                target@ == spec_slab_address(owner),
                forall|j: int| 0 <= j < i ==> (#[trigger] self.slabs@[j]).1.owner != owner,
            decreases self.slabs@.len() - i,
        {
            let pair = &self.slabs[i];
            if addr_eq(&pair.0, &target) {
                proof {
                    lemma_slab_address_injective(self.slabs@[i as int].1.owner, owner);
                    self.lemma_slab_at(i as int, owner);
                }
                return Some(i);
            }
            i = i + 1;
        }
        None
    }
}

} // verus!
