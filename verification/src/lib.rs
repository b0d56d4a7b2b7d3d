//! Deterministic state-transition core of a ledger application in which
//! accounts mint and trade ownership tokens ("buckets") and attach recurring
//! financial obligations ("promises") to them, backed by collateral locked on
//! a balance ledger.
//!
//! The crate is organised leaf-first:
//! - [`registry`]: the enumerable ownership registry (dense array plus
//!   reverse index, globally and per owner), instantiated for buckets, free
//!   promises and accepted promises;
//! - [`ledger`]: the balance ledger at the interface the core consumes —
//!   unconditional transfer and a timed balance lock per identifier;
//! - [`state`]: the top-level [`state::Module`] that owns every registry and
//!   counter;
//! - [`market`], [`promises`], [`filling`], [`staking`], [`scanner`]: the
//!   operations, each specified by a transition function on the ghost model
//!   and proved to follow it;
//! - [`laws`]: system-wide laws — registration counting, the transfer
//!   bijection, swap-remove stability, acceptance and self-acceptance
//!   rejection, fill monotonicity and single fulfilment, breach detection,
//!   stake idempotence and the withdrawal preconditions — proved over those
//!   transition functions.
//!
//! Time, caller identity and fresh entity identifiers come from the host
//! driver as plain arguments; every operation returns the domain events it
//! emits, in order, for the host's event sink.

pub mod types;
pub mod registry;
pub mod ledger;
pub mod state;
pub mod market;
pub mod promises;
pub mod filling;
pub mod staking;
pub mod scanner;
pub mod laws;
