//! The splitter: the two tables and the three operations on them.
//!
//! Weights are written by the root origin alone. A deposit can be made by
//! any signed origin, whether that account is a recipient or not. An
//! operation that is refused leaves both tables as they were.

use vstd::prelude::*;
use crate::AccountId;
use crate::distribution::{
    distribute, lemma_empty_registry_refused, lemma_product_overflow_refused, lemma_zero_deposit,
    product_overflows, refusal, splits, Distribution,
};
use crate::error::Error;
use crate::event::Event;
use crate::origin::{ensure_root, ensure_signed, Origin};
use crate::pairwise::PairwiseShareTable;
use crate::registry::{lemma_ascending_unique, Recipient, ShareRegistry};

verus! {

/// The state of the splitter: the recipient registry and the table of
/// pairwise weights.
#[derive(Debug, PartialEq, Eq)]
pub struct Splitter {
    recipients: ShareRegistry,
    shares: PairwiseShareTable,
}

impl Clone for Splitter {
    /// A splitter with the same entries in both tables.
    fn clone(&self) -> (s: Self)
        ensures
            s.registry().recipients() == self.registry().recipients(),
            s.table().pairs() == self.table().pairs(),
    {
        Splitter { recipients: self.recipients.clone(), shares: self.shares.clone() }
    }
}

impl Splitter {
    /// The recipient registry.
    pub closed spec fn registry(&self) -> ShareRegistry {
        self.recipients
    }

    /// The table of pairwise weights.
    pub closed spec fn table(&self) -> PairwiseShareTable {
        self.shares
    }

    /// Both tables are well formed.
    pub open spec fn wf(&self) -> bool {
        self.registry().wf() && self.table().wf()
    }

    /// A splitter with no recipient and no pairwise weight.
    pub fn new() -> (s: Self)
        ensures
            s.wf(),
            s.registry()@ == Map::<AccountId, u32>::empty(),
            s.registry().recipients() == Seq::<Recipient>::empty(),
            s.table()@ == Map::<(AccountId, AccountId), u32>::empty(),
    {
        Splitter { recipients: ShareRegistry::new(), shares: PairwiseShareTable::new() }
    }

    /// A splitter over tables that the host has kept.
    pub fn from_parts(recipients: ShareRegistry, shares: PairwiseShareTable) -> (s: Self)
        requires
            recipients.wf(),
            shares.wf(),
        ensures
            s.wf(),
            s.registry() == recipients,
            s.table() == shares,
    {
        Splitter { recipients, shares }
    }

    /// The recipient registry.
    pub fn recipients(&self) -> (r: &ShareRegistry)
        ensures
            *r == self.registry(),
    {
        &self.recipients
    }

    /// The table of pairwise weights.
    pub fn shares(&self) -> (r: &PairwiseShareTable)
        ensures
            *r == self.table(),
    {
        &self.shares
    }

    /// Gives the recipient this weight. Only the root origin may do so.
    ///
    /// The event is handed out on every accepted call, also where the
    /// weight written is the one that the recipient had.
    pub fn update_recipient(&mut self, origin: Origin, recipient: AccountId, shares: u32) -> (r:
        Result<Event, Error>)
        requires
            old(self).wf(),
        ensures
            final(self).wf(),
            final(self).table() == old(self).table(),
            origin is Root ==> r == Ok::<Event, Error>(Event::RecipientUpdated(recipient)),
            origin is Root ==> final(self).registry()@ == old(self).registry()@.insert(
                recipient,
                shares,
            ),
            !(origin is Root) ==> r == Err::<Event, Error>(Error::BadOrigin),
            !(origin is Root) ==> *final(self) == *old(self),
    {
        match ensure_root(origin) {
            Ok(()) => {
                self.recipients.set_weight(recipient, shares);
                Ok(Event::RecipientUpdated(recipient))
            },
            Err(e) => Err(e),
        }
    }

    /// Gives the ordered pair of recipients this weight. Only the root
    /// origin may do so. The weight has no part in dividing a deposit.
    pub fn update_share(
        &mut self,
        origin: Origin,
        recipient1: AccountId,
        recipient2: AccountId,
        share: u32,
    ) -> (r: Result<Event, Error>)
        requires
            old(self).wf(),
        ensures
            final(self).wf(),
            final(self).registry() == old(self).registry(),
            origin is Root ==> r == Ok::<Event, Error>(Event::ShareUpdated(recipient1, recipient2)),
            origin is Root ==> final(self).table()@ == old(self).table()@.insert(
                (recipient1, recipient2),
                share,
            ),
            !(origin is Root) ==> r == Err::<Event, Error>(Error::BadOrigin),
            !(origin is Root) ==> *final(self) == *old(self),
    {
        match ensure_root(origin) {
            Ok(()) => {
                self.shares.set_pair_share(recipient1, recipient2, share);
                Ok(Event::ShareUpdated(recipient1, recipient2))
            },
            Err(e) => Err(e),
        }
    }

    /// Divides a deposit of the signing account among the recipients.
    ///
    /// The result is the plan of payments; nothing has been paid yet and
    /// the tables are only read. An origin that is not signed is refused
    /// before anything else is looked at. For a signed origin the deposit is
    /// refused or divided as `refusal` and `splits` say of the registry as
    /// it stands.
    pub fn receive_funds(&self, origin: Origin, amount: u64) -> (r: Result<Distribution, Error>)
        requires
            self.wf(),
        ensures
            origin.signer() is None ==> r == Err::<Distribution, Error>(Error::BadOrigin),
            origin.signer() is Some ==> (refusal(self.registry().recipients(), amount) matches Some(
                e,
            ) ==> r == Err::<Distribution, Error>(e)),
            origin.signer() is Some && refusal(self.registry().recipients(), amount) is None
                ==> r is Ok,
            r matches Ok(d) ==> {
                &&& origin.signer() == Some(d.sender)
                &&& d.amount == amount
                &&& d.transfers@ == splits(self.registry().recipients(), amount)
                &&& d.conserved()
                &&& d.remainder < d.transfers@.len()
                &&& forall|i: int, j: int|
                    0 <= i < j < d.transfers@.len() ==> d.transfers@[i].recipient
                        < d.transfers@[j].recipient
            },
            // No recipients, no distribution.
            origin.signer() is Some && self.registry().recipients().len() == 0 ==> r == Err::<
                Distribution,
                Error,
            >(Error::NoRecipientsConfigured),
            // A product that overflows is an error, never a wrapped amount.
            origin.signer() is Some && product_overflows(self.registry().recipients(), amount)
                ==> r == Err::<Distribution, Error>(Error::ArithmeticOverflow),
            // A deposit of zero pays everybody zero.
            origin.signer() is Some && amount == 0 && 0 < self.registry().total() <= u32::MAX ==> (r
                matches Ok(d) && d.remainder == 0 && forall|i: int|
                0 <= i < d.transfers@.len() ==> (#[trigger] d.transfers@[i]).amount == 0),
    {
        let sender = match ensure_signed(origin) {
            Ok(who) => who,
            Err(e) => {
                return Err(e);
            },
        };
        proof {
            let entries = self.registry().recipients();
            if entries.len() == 0 {
                lemma_empty_registry_refused(entries, amount);
            }
            if product_overflows(entries, amount) {
                lemma_product_overflow_refused(entries, amount);
            }
            if amount == 0 && 0 < self.registry().total() <= u32::MAX {
                lemma_zero_deposit(entries);
            }
        }
        distribute(&self.recipients, sender, amount)
    }
}

/// Writing the same weight for a recipient twice leaves the registry as the
/// first write left it: the same mapping, held by the same entries.
pub proof fn lemma_update_recipient_idempotent(
    before: Splitter,
    once: Splitter,
    twice: Splitter,
    recipient: AccountId,
    shares: u32,
)
    requires
        once.wf(),
        twice.wf(),
        once.table() == before.table(),
        once.registry()@ == before.registry()@.insert(recipient, shares),
        twice.table() == once.table(),
        twice.registry()@ == once.registry()@.insert(recipient, shares),
    ensures
        twice.registry()@ == once.registry()@,
        twice.registry().recipients() == once.registry().recipients(),
        twice.table() == once.table(),
{
    assert(twice.registry()@ =~= once.registry()@);
    lemma_ascending_unique(twice.registry().recipients(), once.registry().recipients());
}

} // verus!
