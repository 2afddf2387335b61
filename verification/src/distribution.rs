//! The proportional split of one deposit.
//!
//! Every recipient gets the deposit times its weight, divided by the sum of
//! all weights and rounded down. What the rounding leaves over stays with the
//! sender: it is reported as the remainder and never transferred.

use vstd::prelude::*;
use crate::AccountId;
use crate::error::Error;
use crate::event::Event;
use crate::registry::{
    ascending, entry_at, index_of, lemma_sum_prefix, lemma_weight_at, lemma_weight_le_sum,
    sum_weights, weights_of, Recipient, ShareRegistry,
};

verus! {

/// One payment out of a deposit.
#[derive(Clone, Copy, Debug, PartialEq, Eq, Structural)]
pub struct Transfer {
    pub recipient: AccountId,
    pub amount: u64,
}

/// The share of a deposit that falls to one weight out of a total, rounded
/// down.
pub open spec fn share_of(amount: u64, weight: u32, total: nat) -> int {
    (amount as int * weight as int) / (total as int)
}

/// The sum of the amounts of a sequence of payments.
pub open spec fn sum_amounts(s: Seq<Transfer>) -> int
    decreases s.len(),
{
    if s.len() == 0 {
        0
    } else {
        sum_amounts(s.drop_last()) + s.last().amount as int
    }
}

/// Whether the deposit times the weight of some entry leaves the range of 64
/// bits.
pub open spec fn product_overflows(entries: Seq<Recipient>, amount: u64) -> bool {
    exists|i: int|
        0 <= i < entries.len() && amount as int * #[trigger] entries[i].weight as int > u64::MAX
}

/// Why a deposit cannot be divided among the entries, if it cannot.
pub open spec fn refusal(entries: Seq<Recipient>, amount: u64) -> Option<Error> {
    if sum_weights(entries) > u32::MAX {
        Some(Error::ArithmeticOverflow)
    } else if sum_weights(entries) == 0 {
        Some(Error::NoRecipientsConfigured)
    } else if product_overflows(entries, amount) {
        Some(Error::ArithmeticOverflow)
    } else {
        None
    }
}

/// The payments into which the deposit is divided: one for every entry, in
/// the order of the entries.
pub open spec fn splits(entries: Seq<Recipient>, amount: u64) -> Seq<Transfer> {
    Seq::new(
        entries.len(),
        |i: int|
            Transfer {
                recipient: entries[i].account,
                amount: share_of(amount, entries[i].weight, sum_weights(entries)) as u64,
            },
    )
}

/// The events that record a deposit once all of its payments are made: one
/// for every payment, in their order, and then the one for the deposit.
pub open spec fn events_of(sender: AccountId, amount: u64, transfers: Seq<Transfer>) -> Seq<Event> {
    Seq::new(
        transfers.len(),
        |i: int| Event::FundsSent(transfers[i].recipient, transfers[i].amount),
    ).push(Event::FundsReceived(sender, amount))
}

/// A deposit divided among the recipients: what each of them is to be paid,
/// and what stays with the sender.
#[derive(Debug, PartialEq, Eq)]
pub struct Distribution {
    /// The account that made the deposit.
    pub sender: AccountId,
    /// The deposit.
    pub amount: u64,
    /// The payments, by recipient account, smallest first.
    pub transfers: Vec<Transfer>,
    /// The part of the deposit that no payment covers. It stays with the
    /// sender.
    pub remainder: u64,
}

impl Clone for Distribution {
    /// A distribution with the same payments.
    fn clone(&self) -> (d: Self)
        ensures
            d.sender == self.sender,
            d.amount == self.amount,
            d.transfers@ == self.transfers@,
            d.remainder == self.remainder,
    {
        let d = Distribution {
            sender: self.sender,
            amount: self.amount,
            transfers: self.transfers.clone(),
            remainder: self.remainder,
        };
        assert(d.transfers@ =~= self.transfers@);
        d
    }
}

impl Distribution {
    /// The sum of all payments.
    pub open spec fn distributed(&self) -> int {
        sum_amounts(self.transfers@)
    }

    /// The payments and the remainder account for the deposit exactly.
    pub open spec fn conserved(&self) -> bool {
        self.distributed() + self.remainder == self.amount
    }

    /// The events that record the deposit once all of its payments are made.
    pub open spec fn events_spec(&self) -> Seq<Event> {
        events_of(self.sender, self.amount, self.transfers@)
    }

    /// The events that record the deposit once all of its payments are made:
    /// one for every payment, also where the amount is zero, and then the one
    /// for the deposit.
    pub fn events(&self) -> (v: Vec<Event>)
        ensures
            v@ == self.events_spec(),
    {
        let mut v: Vec<Event> = Vec::new();
        let mut i: usize = 0;
        while i < self.transfers.len()
            invariant
                i <= self.transfers.len(),
                v@.len() == i,
                forall|j: int| 0 <= j < i ==> v@[j] == Event::FundsSent(
                    self.transfers@[j].recipient,
                    self.transfers@[j].amount,
                ),
            decreases self.transfers.len() - i,
        {
            v.push(Event::FundsSent(self.transfers[i].recipient, self.transfers[i].amount));
            i += 1;
        }
        v.push(Event::FundsReceived(self.sender, self.amount));
        assert(v@ =~= self.events_spec());
        v
    }
}

/// Appending a payment adds its amount to the sum.
proof fn lemma_sum_amounts_push(s: Seq<Transfer>, t: Transfer)
    ensures
        sum_amounts(s.push(t)) == sum_amounts(s) + t.amount,
{
    assert(s.push(t).drop_last() =~= s);
}

/// One step of the split: the rounded share and what the rounding cuts off.
proof fn lemma_share_step(amount: int, weight: int, total: int)
    by (nonlinear_arith)
    requires
        0 <= amount,
        0 <= weight,
        0 < total,
    ensures
        0 <= (amount * weight) / total,
        amount * weight == total * ((amount * weight) / total) + (amount * weight) % total,
        0 <= (amount * weight) % total <= total - 1,
{
}

/// With the shares of a prefix paid, the next share still fits under the
/// deposit.
proof fn lemma_paid_bound(
    amount: int,
    total: int,
    paid: int,
    slack: int,
    prefix: int,
)
    by (nonlinear_arith)
    requires
        0 <= amount,
        0 < total,
        0 <= slack,
        0 <= prefix <= total,
        paid * total + slack == amount * prefix,
    ensures
        paid <= amount,
{
}

/// What the rounding of `count` shares cuts off is less than `count` units.
proof fn lemma_remainder_bound(amount: int, total: int, paid: int, slack: int, count: int)
    by (nonlinear_arith)
    requires
        0 < total,
        0 < count,
        0 <= slack <= count * (total - 1),
        paid * total + slack == amount * total,
    ensures
        0 <= amount - paid < count,
{
}

/// Divides the deposit among the recipients of the registry in proportion to
/// their weights.
///
/// The division is refused where the weights add up to zero or to more than
/// 32 bits hold, and where the deposit times a weight leaves the range of 64
/// bits. Otherwise every recipient is assigned its rounded-down share, in
/// ascending order of account, and the remainder is what the shares leave of
/// the deposit: less than one unit for each recipient.
pub fn distribute(registry: &ShareRegistry, sender: AccountId, amount: u64) -> (r: Result<
    Distribution,
    Error,
>)
    ensures
        refusal(registry.recipients(), amount) matches Some(e) ==> r == Err::<Distribution, Error>(
            e,
        ),
        refusal(registry.recipients(), amount) is None ==> r is Ok,
        r matches Ok(d) ==> {
            &&& d.sender == sender
            &&& d.amount == amount
            &&& d.transfers@ == splits(registry.recipients(), amount)
            &&& d.conserved()
            &&& d.remainder < d.transfers@.len()
        },
{
    let entries = registry.entries();
    let total: u32 = match registry.total_weight() {
        Ok(t) => t,
        Err(e) => {
            return Err(e);
        },
    };
    if total == 0 {
        return Err(Error::NoRecipientsConfigured);
    }
    let ghost model = splits(entries@, amount);
    let ghost mut slack: int = 0;
    let mut transfers: Vec<Transfer> = Vec::new();
    let mut paid: u64 = 0;
    let mut i: usize = 0;
    proof {
        assert(sum_weights(entries@.subrange(0, 0)) == 0);
    }
    while i < entries.len()
        invariant
            i <= entries.len(),
            entries@ == registry.recipients(),
            0 < total == sum_weights(entries@),
            model == splits(entries@, amount),
            transfers@.len() == i,
            forall|j: int| 0 <= j < i ==> transfers@[j] == model[j],
            forall|j: int|
                0 <= j < i ==> amount as int * #[trigger] entries@[j].weight as int <= u64::MAX,
            paid == sum_amounts(transfers@),
            0 <= slack <= i * (total - 1),
            paid * total + slack == amount * sum_weights(entries@.subrange(0, i as int)),
        decreases entries.len() - i,
    {
        let entry = entries[i];
        let product: u64 = match amount.checked_mul(entry.weight as u64) {
            Some(p) => p,
            None => {
                return Err(Error::ArithmeticOverflow);
            },
        };
        let share: u64 = product / (total as u64);
        proof {
            let w = entry.weight as int;
            let before = sum_weights(entries@.subrange(0, i as int)) as int;
            assert(entries@.subrange(0, i + 1).drop_last() =~= entries@.subrange(0, i as int));
            assert(sum_weights(entries@.subrange(0, i + 1)) == before + w);
            lemma_sum_prefix(entries@, i + 1);
            lemma_share_step(amount as int, w, total as int);
            let cut = (amount as int * w) % (total as int);
            assert((paid + share) * total + (slack + cut) == amount * (before + w))
                by (nonlinear_arith)
                requires
                    paid * total + slack == amount * before,
                    amount * w == total * share + cut,
            ;
            lemma_paid_bound(amount as int, total as int, paid + share, slack + cut, before + w);
            assert((i + 1) * (total - 1) == i * (total - 1) + (total - 1)) by (nonlinear_arith);
            slack = slack + cut;
            lemma_sum_amounts_push(
                transfers@,
                Transfer { recipient: entry.account, amount: share },
            );
        }
        paid = paid + share;
        transfers.push(Transfer { recipient: entry.account, amount: share });
        i += 1;
    }
    proof {
        assert(entries@.subrange(0, i as int) =~= entries@);
        assert(transfers@ =~= model);
        if i == 0 {
            assert(sum_weights(entries@) == 0);
        }
        lemma_remainder_bound(amount as int, total as int, paid as int, slack, i as int);
        assert(!product_overflows(entries@, amount));
    }
    Ok(Distribution { sender, amount, transfers, remainder: amount - paid })
}

/// A share is never negative and never more than the deposit, so it fits
/// into 64 bits.
pub proof fn lemma_share_within_deposit(amount: u64, weight: u32, total: nat)
    requires
        weight <= total,
        0 < total,
    ensures
        0 <= share_of(amount, weight, total) <= amount,
{
    let product = amount as int * weight as int;
    let whole = total as int;
    lemma_share_step(amount as int, weight as int, whole);
    assert(product <= amount * whole) by (nonlinear_arith)
        requires
            product == amount as int * weight as int,
            0 <= amount,
            0 <= weight <= whole,
    ;
    assert(product / whole <= amount) by (nonlinear_arith)
        requires
            0 <= amount,
            0 < whole,
            product <= amount * whole,
            product == whole * (product / whole) + product % whole,
            0 <= product % whole,
    ;
}

/// Every account of the registry is paid exactly once: the share that its
/// weight in the mapping earns, at the place of its entry.
pub proof fn lemma_recipient_paid(entries: Seq<Recipient>, amount: u64, account: AccountId)
    requires
        ascending(entries),
        weights_of(entries).contains_key(account),
    ensures
        exists|i: int|
            0 <= i < entries.len() && #[trigger] splits(entries, amount)[i] == (Transfer {
                recipient: account,
                amount: share_of(amount, weights_of(entries)[account], sum_weights(entries)) as u64,
            }),
        forall|i: int, j: int|
            0 <= i < j < entries.len() ==> splits(entries, amount)[i].recipient < splits(
                entries,
                amount,
            )[j].recipient,
{
    let i = index_of(entries, account);
    assert(entry_at(entries, account, i));
    lemma_weight_at(entries, i);
    assert(splits(entries, amount)[i] == (Transfer {
        recipient: account,
        amount: share_of(amount, weights_of(entries)[account], sum_weights(entries)) as u64,
    }));
}

/// Nothing can be divided among no recipients.
pub proof fn lemma_empty_registry_refused(entries: Seq<Recipient>, amount: u64)
    requires
        entries.len() == 0,
    ensures
        refusal(entries, amount) == Some(Error::NoRecipientsConfigured),
{
}

/// A deposit whose product with some weight leaves the range of 64 bits is
/// refused as an overflow, whatever the other weights are.
pub proof fn lemma_product_overflow_refused(entries: Seq<Recipient>, amount: u64)
    requires
        product_overflows(entries, amount),
    ensures
        refusal(entries, amount) == Some(Error::ArithmeticOverflow),
{
    let i = choose|i: int|
        0 <= i < entries.len() && amount as int * #[trigger] entries[i].weight as int > u64::MAX;
    lemma_weight_le_sum(entries, i);
    assert(entries[i].weight > 0) by (nonlinear_arith)
        requires
            amount as int * entries[i].weight as int > u64::MAX,
            0 <= entries[i].weight,
    ;
}

/// A deposit of zero is divided into payments of zero, with nothing left
/// over, wherever the weights add up to a total that is not zero and fits
/// into 32 bits.
pub proof fn lemma_zero_deposit(entries: Seq<Recipient>)
    requires
        0 < sum_weights(entries) <= u32::MAX,
    ensures
        refusal(entries, 0) is None,
        forall|i: int| 0 <= i < entries.len() ==> (#[trigger] splits(entries, 0)[i]).amount == 0,
        sum_amounts(splits(entries, 0)) == 0,
{
    let total = sum_weights(entries);
    assert forall|i: int| 0 <= i < entries.len() implies (#[trigger] splits(entries, 0)[i]).amount
        == 0 by {
        assert(0int / (total as int) == 0) by (nonlinear_arith)
            requires
                total > 0,
        ;
    }
    lemma_sum_zero(splits(entries, 0));
}

/// Payments of zero add up to zero.
proof fn lemma_sum_zero(s: Seq<Transfer>)
    requires
        forall|i: int| 0 <= i < s.len() ==> (#[trigger] s[i]).amount == 0,
    ensures
        sum_amounts(s) == 0,
    decreases s.len(),
{
    if s.len() > 0 {
        lemma_sum_zero(s.drop_last());
    }
}

} // verus!
