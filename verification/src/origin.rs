//! Who is calling, and the two privilege checks.

use vstd::prelude::*;
use crate::AccountId;
use crate::error::Error;

verus! {

/// The authenticated privilege attached to an incoming call.
#[derive(Clone, Copy, Debug, PartialEq, Eq, Structural)]
pub enum Origin {
    /// The call was signed by this account.
    Signed(AccountId),
    /// The call comes from the system itself.
    Root,
}

impl Origin {
    /// The account that signed the call, if one did.
    pub open spec fn signer(self) -> Option<AccountId> {
        match self {
            Origin::Signed(who) => Some(who),
            Origin::Root => None,
        }
    }
}

/// Accepts a signed origin and yields the signing account; anything else is
/// a bad origin.
pub fn ensure_signed(origin: Origin) -> (r: Result<AccountId, Error>)
    ensures
        origin.signer() is Some ==> r == Ok::<AccountId, Error>(origin.signer().unwrap()),
        origin.signer() is None ==> r == Err::<AccountId, Error>(Error::BadOrigin),
{
    match origin {
        Origin::Signed(who) => Ok(who),
        Origin::Root => Err(Error::BadOrigin),
    }
}

/// Accepts the root origin; anything else is a bad origin.
pub fn ensure_root(origin: Origin) -> (r: Result<(), Error>)
    ensures
        origin is Root ==> r == Ok::<(), Error>(()),
        !(origin is Root) ==> r == Err::<(), Error>(Error::BadOrigin),
{
    match origin {
        Origin::Root => Ok(()),
        Origin::Signed(_) => Err(Error::BadOrigin),
    }
}

} // verus!
