//! Deterministic record addressing shared by the mandate authority and the
//! execution ledger.
//!
//! Every record lives at an address derived from a namespace tag and the
//! record's composite key. Both services compute mandate addresses with the
//! same function, so they agree on where a mandate lives without calling
//! each other; the derivation is proved injective, so distinct keys can
//! never collide within a namespace.

use vstd::prelude::*;

verus! {

/// Namespace tag for mandate records.
pub const NS_MANDATE: u8 = 1;

/// Namespace tag for execution-ledger records.
pub const NS_SLAB: u8 = 2;

/// A trading strategy; its discriminant is part of a mandate's storage key.
#[derive(Clone, Copy, PartialEq, Eq, Structural, Debug)]
pub enum Strategy {
    Momentum,
    Arbitrage,
    Lp,
    MeanReversion,
}

/// The byte that stands for a strategy inside a derived address.
pub open spec fn spec_strategy_tag(s: Strategy) -> u8 {
    match s {
        Strategy::Momentum => 0,
        Strategy::Arbitrage => 1,
        Strategy::Lp => 2,
        Strategy::MeanReversion => 3,
    }
}

#[verifier::when_used_as_spec(spec_strategy_tag)]
pub fn strategy_tag(s: Strategy) -> (t: u8)
    ensures
        t == spec_strategy_tag(s),
{
    match s {
        Strategy::Momentum => 0,
        Strategy::Arbitrage => 1,
        Strategy::Lp => 2,
        Strategy::MeanReversion => 3,
    }
}

pub proof fn lemma_strategy_tag_injective(s1: Strategy, s2: Strategy)
    requires
        spec_strategy_tag(s1) == spec_strategy_tag(s2),
    ensures
        s1 == s2,
{
}

/// Byte `i` of the little-endian encoding of `x`.
pub open spec fn u64_byte(x: u64, i: int) -> u8 {
    ((x >> ((8 * i) as u64)) & 0xff) as u8
}

/// The eight-byte little-endian encoding of `x`.
pub open spec fn u64_le_seq(x: u64) -> Seq<u8> {
    Seq::new(8, |i: int| u64_byte(x, i))
}

pub fn u64_le_bytes(x: u64) -> (v: Vec<u8>)
    ensures
        v@ == u64_le_seq(x),
{
    let mut v: Vec<u8> = Vec::new();
    let mut i: usize = 0;
    while i < 8
        invariant
            i <= 8,
            v@.len() == i as int,
            forall|j: int| 0 <= j < i ==> v@[j] == u64_byte(x, j),
        decreases 8 - i,
    {
        let sh: u64 = 8 * (i as u64);
        let masked: u64 = (x >> sh) & 0xff;
        proof {
            assert((x >> sh) & 0xff < 256) by (bit_vector);
        }
        v.push(masked as u8);
        i = i + 1;
    }
    proof {
        assert(v@ =~= u64_le_seq(x));
    }
    v
}

pub proof fn lemma_u64_bytes_injective(x: u64, y: u64)
    requires
        forall|i: int| 0 <= i < 8 ==> u64_byte(x, i) == u64_byte(y, i),
    ensures
        x == y,
{
    assert(u64_byte(x, 0) == u64_byte(y, 0));
    assert(u64_byte(x, 1) == u64_byte(y, 1));
    assert(u64_byte(x, 2) == u64_byte(y, 2));
    assert(u64_byte(x, 3) == u64_byte(y, 3));
    assert(u64_byte(x, 4) == u64_byte(y, 4));
    assert(u64_byte(x, 5) == u64_byte(y, 5));
    assert(u64_byte(x, 6) == u64_byte(y, 6));
    assert(u64_byte(x, 7) == u64_byte(y, 7));
    assert(x == y) by (bit_vector)
        requires
            ((x >> 0u64) & 0xff) as u8 == ((y >> 0u64) & 0xff) as u8,
            ((x >> 8u64) & 0xff) as u8 == ((y >> 8u64) & 0xff) as u8,
            ((x >> 16u64) & 0xff) as u8 == ((y >> 16u64) & 0xff) as u8,
            ((x >> 24u64) & 0xff) as u8 == ((y >> 24u64) & 0xff) as u8,
            ((x >> 32u64) & 0xff) as u8 == ((y >> 32u64) & 0xff) as u8,
            ((x >> 40u64) & 0xff) as u8 == ((y >> 40u64) & 0xff) as u8,
            ((x >> 48u64) & 0xff) as u8 == ((y >> 48u64) & 0xff) as u8,
            ((x >> 56u64) & 0xff) as u8 == ((y >> 56u64) & 0xff) as u8,
    ;
}

/// A derived record address: the namespace tag followed by the encoded key.
pub struct Address {
    pub bytes: Vec<u8>,
}

impl View for Address {
    type V = Seq<u8>;

    open spec fn view(&self) -> Seq<u8> {
        self.bytes@
    }
}

/// Byte-for-byte address comparison.
pub fn addr_eq(a: &Address, b: &Address) -> (r: bool)
    ensures
        r == (a@ == b@),
{
    if a.bytes.len() != b.bytes.len() {
        return false;
    }
    let mut i: usize = 0;
    while i < a.bytes.len()
        invariant
            a@.len() == b@.len(),
            i <= a@.len(),
            forall|j: int| 0 <= j < i ==> a@[j] == b@[j],
        decreases a@.len() - i,
    {
        if a.bytes[i] != b.bytes[i] {
            return false;
        }
        i = i + 1;
    }
    proof {
        assert(a@ =~= b@);
    }
    true
}

/// The address of the mandate for `(user, asset_mint, strategy)`.
pub open spec fn spec_mandate_address(user: u64, asset_mint: u64, strategy: Strategy) -> Seq<u8> {
    seq![NS_MANDATE] + u64_le_seq(user) + u64_le_seq(asset_mint) + seq![spec_strategy_tag(strategy)]
}

pub fn derive_mandate_address(user: u64, asset_mint: u64, strategy: Strategy) -> (a: Address)
    ensures
        a@ == spec_mandate_address(user, asset_mint, strategy),
{
    let mut bytes: Vec<u8> = Vec::new();
    bytes.push(NS_MANDATE);
    let mut user_bytes = u64_le_bytes(user);
    bytes.append(&mut user_bytes);
    let mut asset_bytes = u64_le_bytes(asset_mint);
    bytes.append(&mut asset_bytes);
    bytes.push(strategy_tag(strategy));
    proof {
        assert(bytes@ =~= spec_mandate_address(user, asset_mint, strategy));
    }
    Address { bytes }
}

/// The address of the ledger record owned by `owner`.
pub open spec fn spec_slab_address(owner: u64) -> Seq<u8> {
    seq![NS_SLAB] + u64_le_seq(owner)
}

pub fn derive_slab_address(owner: u64) -> (a: Address)
    ensures
        a@ == spec_slab_address(owner),
{
    let mut bytes: Vec<u8> = Vec::new();
    bytes.push(NS_SLAB);
    let mut owner_bytes = u64_le_bytes(owner);
    bytes.append(&mut owner_bytes);
    proof {
        assert(bytes@ =~= spec_slab_address(owner));
    }
    Address { bytes }
}

/// Two mandates address the same record exactly when their composite keys
/// agree: the derivation never collides within the mandate namespace.
pub proof fn lemma_mandate_address_injective(
    u1: u64,
    a1: u64,
    s1: Strategy,
    u2: u64,
    a2: u64,
    s2: Strategy,
)
    requires
        spec_mandate_address(u1, a1, s1) == spec_mandate_address(u2, a2, s2),
    ensures
        u1 == u2 && a1 == a2 && s1 == s2,
{
    let b1 = spec_mandate_address(u1, a1, s1);
    let b2 = spec_mandate_address(u2, a2, s2);
    assert forall|i: int| 0 <= i < 8 implies u64_byte(u1, i) == u64_byte(u2, i) by {
        assert(b1[1 + i] == u64_byte(u1, i));
        assert(b2[1 + i] == u64_byte(u2, i));
    }
    lemma_u64_bytes_injective(u1, u2);
    assert forall|i: int| 0 <= i < 8 implies u64_byte(a1, i) == u64_byte(a2, i) by {
        assert(b1[9 + i] == u64_byte(a1, i));
        assert(b2[9 + i] == u64_byte(a2, i));
    }
    lemma_u64_bytes_injective(a1, a2);
    assert(b1[17] == spec_strategy_tag(s1));
    assert(b2[17] == spec_strategy_tag(s2));
    lemma_strategy_tag_injective(s1, s2);
}

/// Ledger addresses never collide: the derivation is injective in the owner.
pub proof fn lemma_slab_address_injective(o1: u64, o2: u64)
    requires
        spec_slab_address(o1) == spec_slab_address(o2),
    ensures
        o1 == o2,
{
    let b1 = spec_slab_address(o1);
    let b2 = spec_slab_address(o2);
    assert forall|i: int| 0 <= i < 8 implies u64_byte(o1, i) == u64_byte(o2, i) by {
        assert(b1[1 + i] == u64_byte(o1, i));
        assert(b2[1 + i] == u64_byte(o2, i));
    }
    lemma_u64_bytes_injective(o1, o2);
}

/// Mandate and ledger namespaces are disjoint: no mandate address equals a
/// ledger address.
pub proof fn lemma_namespaces_disjoint(user: u64, asset_mint: u64, strategy: Strategy, owner: u64)
    ensures
        spec_mandate_address(user, asset_mint, strategy) != spec_slab_address(owner),
{
    assert(spec_mandate_address(user, asset_mint, strategy).len() == 18);
    assert(spec_slab_address(owner).len() == 9);
}

} // verus!
