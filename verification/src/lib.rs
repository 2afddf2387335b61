//! Proportional deposit splitting for a ledger runtime.
//!
//! A deposit made by one account is divided among a registry of recipient
//! accounts in proportion to weights that only the root origin may assign.
//! The crate holds the state machine and its arithmetic; balances, storage
//! and the event log belong to the host, which performs the transfers that
//! the crate directs and records the events that it hands back.

use vstd::prelude::*;

pub mod distribution;
pub mod error;
pub mod event;
pub mod origin;
pub mod pairwise;
pub mod registry;
pub mod settlement;
pub mod splitter;

verus! {

/// Identifier of a ledger participant. Accounts are ordered by this number.
pub type AccountId = u64;

} // verus!
