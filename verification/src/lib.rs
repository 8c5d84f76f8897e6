//! A capability-based authorization protocol for automated trading agents.
//!
//! Two services share one record store: a mandate authority that issues
//! time-boxed trading permissions gated by an oracle-supplied risk score,
//! and an execution ledger that consumes those permissions to validate and
//! record trading signals. The services never call each other: they agree
//! on record addresses through the shared [`address`] module, whose
//! derivation is proved collision-free.

pub mod address;
pub mod router;
pub mod slab;
pub mod store;
