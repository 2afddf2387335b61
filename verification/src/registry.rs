//! The recipient registry: which account holds which weight.
//!
//! The registry is kept as a list of entries whose accounts rise strictly, so
//! that every account occurs at most once and the recipients are always
//! enumerated in the same order, smallest account first.

use vstd::prelude::*;
use crate::AccountId;
use crate::error::Error;

verus! {

/// One entry of the registry: an account and its relative claim on a deposit.
#[derive(Clone, Copy, Debug, PartialEq, Eq, Structural)]
pub struct Recipient {
    pub account: AccountId,
    pub weight: u32,
}

/// Accounts rise strictly along the sequence, so none occurs twice.
pub open spec fn ascending(s: Seq<Recipient>) -> bool {
    forall|i: int, j: int| 0 <= i < j < s.len() ==> s[i].account < s[j].account
}

/// Whether position `i` of the sequence holds the entry of `account`.
pub open spec fn entry_at(s: Seq<Recipient>, account: AccountId, i: int) -> bool {
    0 <= i < s.len() && s[i].account == account
}

/// Whether the sequence holds an entry for the account.
pub open spec fn lists(s: Seq<Recipient>, account: AccountId) -> bool {
    exists|i: int| entry_at(s, account, i)
}

/// A position at which the sequence holds the entry of `account`.
pub open spec fn index_of(s: Seq<Recipient>, account: AccountId) -> int {
    choose|i: int| entry_at(s, account, i)
}

/// The mapping from account to weight that a sequence of entries stands for.
pub open spec fn weights_of(s: Seq<Recipient>) -> Map<AccountId, u32> {
    Map::new(|a: AccountId| lists(s, a), |a: AccountId| s[index_of(s, a)].weight)
}

/// The sum of all weights in the sequence.
pub open spec fn sum_weights(s: Seq<Recipient>) -> nat
    decreases s.len(),
{
    if s.len() == 0 {
        0
    } else {
        sum_weights(s.drop_last()) + s.last().weight as nat
    }
}

/// In an ascending sequence the entry at position `i` is the only one for its
/// account, so the mapping gives that account the weight found there.
pub proof fn lemma_weight_at(s: Seq<Recipient>, i: int)
    requires
        ascending(s),
        0 <= i < s.len(),
    ensures
        lists(s, s[i].account),
        index_of(s, s[i].account) == i,
        weights_of(s).contains_key(s[i].account),
        weights_of(s)[s[i].account] == s[i].weight,
{
    let a = s[i].account;
    assert(entry_at(s, a, i));
    let j = index_of(s, a);
    assert(entry_at(s, a, j));
    if j < i {
        assert(s[j].account < s[i].account);
    }
    if i < j {
        assert(s[i].account < s[j].account);
    }
}

/// Two ascending sequences that stand for the same mapping are the same
/// sequence: a registry has one representation.
pub proof fn lemma_ascending_unique(s: Seq<Recipient>, t: Seq<Recipient>)
    requires
        ascending(s),
        ascending(t),
        weights_of(s) == weights_of(t),
    ensures
        s == t,
    decreases s.len(),
{
    if s.len() == 0 {
        if t.len() > 0 {
            lemma_weight_at(t, 0);
            let j = index_of(s, t[0].account);
            assert(entry_at(s, t[0].account, j));
        }
        assert(s =~= t);
    } else if t.len() == 0 {
        lemma_weight_at(s, 0);
        let j = index_of(t, s[0].account);
        assert(entry_at(t, s[0].account, j));
    } else {
        // The last entries agree: each is the largest account of the mapping.
        let n = s.len() - 1;
        let m = t.len() - 1;
        lemma_weight_at(s, n);
        lemma_weight_at(t, m);
        let js = index_of(t, s[n].account);
        assert(entry_at(t, s[n].account, js));
        let jt = index_of(s, t[m].account);
        assert(entry_at(s, t[m].account, jt));
        if js < m {
            assert(t[js].account < t[m].account);
        }
        if jt < n {
            assert(s[jt].account < s[n].account);
        }
        assert(s[n].account == t[m].account);
        assert(s[n] == t[m]);
        let s0 = s.drop_last();
        let t0 = t.drop_last();
        assert(ascending(s0));
        assert(ascending(t0));
        assert forall|a: AccountId| lists(s0, a) <==> lists(t0, a) by {
            if lists(s0, a) {
                let i = index_of(s0, a);
                assert(entry_at(s0, a, i));
                assert(s[i].account < s[n].account);
                lemma_weight_at(s, i);
                let k = index_of(t, a);
                assert(entry_at(t, a, k));
                assert(entry_at(t0, a, k));
            }
            if lists(t0, a) {
                let i = index_of(t0, a);
                assert(entry_at(t0, a, i));
                assert(t[i].account < t[m].account);
                lemma_weight_at(t, i);
                let k = index_of(s, a);
                assert(entry_at(s, a, k));
                assert(entry_at(s0, a, k));
            }
        }
        assert forall|a: AccountId| lists(s0, a) implies weights_of(s0)[a] == weights_of(t0)[a] by {
            let i = index_of(s0, a);
            assert(entry_at(s0, a, i));
            let k = index_of(t0, a);
            assert(entry_at(t0, a, k));
            lemma_weight_at(s, i);
            lemma_weight_at(t, k);
        }
        assert(weights_of(s0) =~= weights_of(t0));
        lemma_ascending_unique(s0, t0);
        assert(s =~= s0.push(s[n]));
        assert(t =~= t0.push(t[m]));
    }
}

/// The weights of a prefix add up to no more than those of the whole.
pub proof fn lemma_sum_prefix(s: Seq<Recipient>, k: int)
    requires
        0 <= k <= s.len(),
    ensures
        sum_weights(s.subrange(0, k)) <= sum_weights(s),
    decreases s.len() - k,
{
    if k == s.len() {
        assert(s.subrange(0, k) =~= s);
    } else {
        lemma_sum_prefix(s, k + 1);
        assert(s.subrange(0, k + 1).drop_last() =~= s.subrange(0, k));
    }
}

/// No single weight exceeds the sum of all of them.
pub proof fn lemma_weight_le_sum(s: Seq<Recipient>, i: int)
    requires
        0 <= i < s.len(),
    ensures
        s[i].weight <= sum_weights(s),
{
    lemma_sum_prefix(s, i + 1);
    assert(s.subrange(0, i + 1).last() == s[i]);
}

/// Putting a new account at its place in an ascending sequence keeps the
/// sequence ascending and adds the account to the mapping.
proof fn lemma_insert_entry(s: Seq<Recipient>, idx: int, r: Recipient)
    requires
        ascending(s),
        0 <= idx <= s.len(),
        forall|i: int| 0 <= i < idx ==> s[i].account < r.account,
        forall|i: int| idx <= i < s.len() ==> r.account < s[i].account,
    ensures
        ascending(s.insert(idx, r)),
        weights_of(s.insert(idx, r)) == weights_of(s).insert(r.account, r.weight),
{
    let t = s.insert(idx, r);
    assert forall|i: int, j: int| 0 <= i < j < t.len() implies t[i].account < t[j].account by {
        let si = if i < idx { i } else { i - 1 };
        let sj = if j < idx { j } else { j - 1 };
        if i != idx && j != idx {
            assert(s[si].account < s[sj].account);
        }
    }
    lemma_weight_at(t, idx);
    assert forall|a: AccountId| lists(t, a) <==> (a == r.account || lists(s, a)) by {
        if lists(t, a) && a != r.account {
            let j = index_of(t, a);
            assert(entry_at(t, a, j));
            let sj = if j < idx { j } else { j - 1 };
            assert(entry_at(s, a, sj));
        }
        if lists(s, a) {
            let j = index_of(s, a);
            assert(entry_at(s, a, j));
            let tj = if j < idx { j } else { j + 1 };
            assert(entry_at(t, a, tj));
        }
    }
    assert forall|a: AccountId| lists(s, a) && a != r.account implies weights_of(t)[a]
        == weights_of(s)[a] by {
        let j = index_of(s, a);
        assert(entry_at(s, a, j));
        let tj = if j < idx { j } else { j + 1 };
        lemma_weight_at(s, j);
        lemma_weight_at(t, tj);
    }
    assert(weights_of(t) =~= weights_of(s).insert(r.account, r.weight));
}

/// Replacing the weight of an account that is present keeps the sequence
/// ascending and overwrites the account in the mapping.
proof fn lemma_update_entry(s: Seq<Recipient>, idx: int, r: Recipient)
    requires
        ascending(s),
        0 <= idx < s.len(),
        s[idx].account == r.account,
    ensures
        ascending(s.update(idx, r)),
        weights_of(s.update(idx, r)) == weights_of(s).insert(r.account, r.weight),
{
    let t = s.update(idx, r);
    assert forall|i: int, j: int| 0 <= i < j < t.len() implies t[i].account < t[j].account by {
        assert(s[i].account < s[j].account);
    }
    lemma_weight_at(t, idx);
    assert forall|a: AccountId| lists(t, a) <==> (a == r.account || lists(s, a)) by {
        if lists(t, a) {
            let j = index_of(t, a);
            assert(entry_at(t, a, j));
            assert(entry_at(s, a, j));
        }
        if lists(s, a) {
            let j = index_of(s, a);
            assert(entry_at(s, a, j));
            assert(entry_at(t, a, j));
        }
    }
    assert forall|a: AccountId| lists(s, a) && a != r.account implies weights_of(t)[a]
        == weights_of(s)[a] by {
        let j = index_of(s, a);
        assert(entry_at(s, a, j));
        lemma_weight_at(s, j);
        lemma_weight_at(t, j);
    }
    assert(weights_of(t) =~= weights_of(s).insert(r.account, r.weight));
}

/// The registry of recipients and their weights.
#[derive(Debug, PartialEq, Eq)]
pub struct ShareRegistry {
    entries: Vec<Recipient>,
}

impl Clone for ShareRegistry {
    /// A registry with the same entries.
    fn clone(&self) -> (r: Self)
        ensures
            r.recipients() == self.recipients(),
    {
        let r = ShareRegistry { entries: self.entries.clone() };
        assert(r.entries@ =~= self.entries@);
        r
    }
}

impl ShareRegistry {
    /// The entries in the order in which recipients are paid: by account,
    /// smallest first.
    pub closed spec fn recipients(&self) -> Seq<Recipient> {
        self.entries@
    }

    /// Every account has at most one entry, and the entries are in order.
    pub open spec fn wf(&self) -> bool {
        ascending(self.recipients())
    }

    /// The registry as a mapping from account to weight.
    pub open spec fn view(&self) -> Map<AccountId, u32> {
        weights_of(self.recipients())
    }

    /// The sum of all registered weights, as a mathematical integer.
    pub open spec fn total(&self) -> nat {
        sum_weights(self.recipients())
    }

    /// A registry without recipients.
    pub fn new() -> (r: Self)
        ensures
            r.wf(),
            r.recipients() == Seq::<Recipient>::empty(),
            r@ == Map::<AccountId, u32>::empty(),
    {
        let r = ShareRegistry { entries: Vec::new() };
        proof {
            assert forall|a: AccountId| !lists(r.recipients(), a) by {
                if lists(r.recipients(), a) {
                    let i = index_of(r.recipients(), a);
                    assert(entry_at(r.recipients(), a, i));
                }
            }
            assert(r@ =~= Map::<AccountId, u32>::empty());
        }
        r
    }

    /// The number of registered accounts.
    pub fn len(&self) -> (n: usize)
        ensures
            n == self.recipients().len(),
    {
        self.entries.len()
    }

    /// Whether no account is registered.
    pub fn is_empty(&self) -> (b: bool)
        ensures
            b == (self.recipients().len() == 0),
    {
        self.entries.len() == 0
    }

    /// The entries in paying order.
    pub fn entries(&self) -> (r: &Vec<Recipient>)
        ensures
            r@ == self.recipients(),
    {
        &self.entries
    }

    /// The first position whose account is not below `account`.
    fn position(&self, account: AccountId) -> (idx: usize)
        requires
            self.wf(),
        ensures
            idx <= self.recipients().len(),
            forall|i: int| 0 <= i < idx ==> self.recipients()[i].account < account,
            forall|i: int|
                idx <= i < self.recipients().len() ==> account <= self.recipients()[i].account,
    {
        let mut lo: usize = 0;
        let mut hi: usize = self.entries.len();
        while lo < hi
            invariant
                lo <= hi <= self.entries.len(),
                ascending(self.entries@),
                forall|i: int| 0 <= i < lo ==> self.entries@[i].account < account,
                forall|i: int| hi <= i < self.entries.len() ==> account <= self.entries@[i].account,
            decreases hi - lo,
        {
            let mid: usize = lo + (hi - lo) / 2;
            if self.entries[mid].account < account {
                assert forall|i: int| 0 <= i < mid + 1 implies self.entries@[i].account
                    < account by {
                    if i < mid {
                        assert(self.entries@[i].account < self.entries@[mid as int].account);
                    }
                }
                lo = mid + 1;
            } else {
                assert forall|i: int| mid <= i < self.entries.len() implies account
                    <= self.entries@[i].account by {
                    if mid < i {
                        assert(self.entries@[mid as int].account < self.entries@[i].account);
                    }
                }
                hi = mid;
            }
        }
        lo
    }

    /// Whether the account was ever given a weight, be it zero.
    pub fn contains(&self, account: AccountId) -> (b: bool)
        requires
            self.wf(),
        ensures
            b == self@.contains_key(account),
    {
        let idx = self.position(account);
        if idx < self.entries.len() && self.entries[idx].account == account {
            proof {
                lemma_weight_at(self.recipients(), idx as int);
            }
            true
        } else {
            proof {
                if lists(self.recipients(), account) {
                    let j = index_of(self.recipients(), account);
                    assert(entry_at(self.recipients(), account, j));
                }
            }
            false
        }
    }

    /// The weight of the account; zero for an account that has none.
    pub fn get_weight(&self, account: AccountId) -> (w: u32)
        requires
            self.wf(),
        ensures
            self@.contains_key(account) ==> w == self@[account],
            !self@.contains_key(account) ==> w == 0,
    {
        let idx = self.position(account);
        if idx < self.entries.len() && self.entries[idx].account == account {
            proof {
                lemma_weight_at(self.recipients(), idx as int);
            }
            self.entries[idx].weight
        } else {
            proof {
                if lists(self.recipients(), account) {
                    let j = index_of(self.recipients(), account);
                    assert(entry_at(self.recipients(), account, j));
                }
            }
            0
        }
    }

    /// Gives the account this weight, whether or not it had one before.
    pub fn set_weight(&mut self, account: AccountId, weight: u32)
        requires
            old(self).wf(),
        ensures
            final(self).wf(),
            final(self)@ == old(self)@.insert(account, weight),
    {
        let idx = self.position(account);
        let entry = Recipient { account, weight };
        if idx < self.entries.len() && self.entries[idx].account == account {
            proof {
                lemma_update_entry(self.recipients(), idx as int, entry);
            }
            self.entries[idx] = entry;
        } else {
            proof {
                lemma_insert_entry(self.recipients(), idx as int, entry);
            }
            self.entries.insert(idx, entry);
        }
    }

    /// The sum of all weights, or an overflow error where it does not fit
    /// into 32 bits. An empty registry has the sum zero.
    pub fn total_weight(&self) -> (r: Result<u32, Error>)
        ensures
            self.total() <= u32::MAX ==> r == Ok::<u32, Error>(self.total() as u32),
            self.total() > u32::MAX ==> r == Err::<u32, Error>(Error::ArithmeticOverflow),
    {
        let mut sum: u32 = 0;
        let mut i: usize = 0;
        while i < self.entries.len()
            invariant
                i <= self.entries.len(),
                sum == sum_weights(self.entries@.subrange(0, i as int)),
            decreases self.entries.len() - i,
        {
            proof {
                assert(self.entries@.subrange(0, i + 1).drop_last() =~= self.entries@.subrange(
                    0,
                    i as int,
                ));
                lemma_sum_prefix(self.entries@, i + 1);
            }
            match sum.checked_add(self.entries[i].weight) {
                Some(next) => {
                    sum = next;
                },
                None => {
                    return Err(Error::ArithmeticOverflow);
                },
            }
            i += 1;
        }
        proof {
            assert(self.entries@.subrange(0, i as int) =~= self.entries@);
        }
        Ok(sum)
    }
}

} // verus!
