//! What the host records in its event log.

use vstd::prelude::*;
use crate::AccountId;

verus! {

/// A notification for the host's append-only event log. The crate hands
/// events back and never reads the log.
#[derive(Clone, Copy, Debug, PartialEq, Eq, Structural)]
pub enum Event {
    /// The account deposited this amount for distribution.
    FundsReceived(AccountId, u64),
    /// The weight of the account was written.
    RecipientUpdated(AccountId),
    /// The weight of the ordered pair of accounts was written.
    ShareUpdated(AccountId, AccountId),
    /// The account was paid this amount out of a deposit.
    FundsSent(AccountId, u64),
}

} // verus!
