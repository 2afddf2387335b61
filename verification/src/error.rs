//! The ways in which an operation can be refused.

use vstd::prelude::*;
use crate::AccountId;

verus! {

/// Why an operation was refused. A refused operation changes nothing.
#[derive(Clone, Copy, Debug, PartialEq, Eq, Structural)]
pub enum Error {
    /// The caller lacks the privilege that the operation asks for.
    BadOrigin,
    /// The weights of the registry add up to zero, so nobody can be paid.
    NoRecipientsConfigured,
    /// The sum of the weights, or the product of the deposit and a weight,
    /// leaves the range of its integer type.
    ArithmeticOverflow,
    /// The host could not move value to this recipient.
    TransferFailed(AccountId),
}

} // verus!
