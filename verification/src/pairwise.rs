//! The table of weights held by ordered pairs of accounts.
//!
//! The table is a plain key-value store. Nothing that divides a deposit reads
//! it: it is written by the root origin and kept for the host to query.

use vstd::prelude::*;
use crate::AccountId;

verus! {

/// One entry of the table: an ordered pair of accounts and its weight.
#[derive(Clone, Copy, Debug, PartialEq, Eq, Structural)]
pub struct PairShare {
    pub first: AccountId,
    pub second: AccountId,
    pub weight: u32,
}

impl PairShare {
    /// The ordered pair that the entry is stored under.
    pub open spec fn key(self) -> (AccountId, AccountId) {
        (self.first, self.second)
    }
}

/// No ordered pair has two entries.
pub open spec fn distinct_pairs(s: Seq<PairShare>) -> bool {
    forall|i: int, j: int| 0 <= i < j < s.len() ==> s[i].key() != s[j].key()
}

/// Whether position `i` of the sequence holds the entry of the pair.
pub open spec fn pair_at(s: Seq<PairShare>, key: (AccountId, AccountId), i: int) -> bool {
    0 <= i < s.len() && s[i].key() == key
}

/// Whether the sequence holds an entry for the pair.
pub open spec fn lists_pair(s: Seq<PairShare>, key: (AccountId, AccountId)) -> bool {
    exists|i: int| pair_at(s, key, i)
}

/// A position at which the sequence holds the entry of the pair.
pub open spec fn index_of_pair(s: Seq<PairShare>, key: (AccountId, AccountId)) -> int {
    choose|i: int| pair_at(s, key, i)
}

/// The mapping from ordered pair to weight that a sequence of entries stands
/// for.
pub open spec fn shares_of(s: Seq<PairShare>) -> Map<(AccountId, AccountId), u32> {
    Map::new(
        |k: (AccountId, AccountId)| lists_pair(s, k),
        |k: (AccountId, AccountId)| s[index_of_pair(s, k)].weight,
    )
}

/// Where no pair occurs twice, the entry at position `i` is the only one for
/// its pair, so the mapping gives that pair the weight found there.
pub proof fn lemma_share_at(s: Seq<PairShare>, i: int)
    requires
        distinct_pairs(s),
        0 <= i < s.len(),
    ensures
        lists_pair(s, s[i].key()),
        index_of_pair(s, s[i].key()) == i,
        shares_of(s).contains_key(s[i].key()),
        shares_of(s)[s[i].key()] == s[i].weight,
{
    let k = s[i].key();
    assert(pair_at(s, k, i));
    let j = index_of_pair(s, k);
    assert(pair_at(s, k, j));
    if j < i {
        assert(s[j].key() != s[i].key());
    }
    if i < j {
        assert(s[i].key() != s[j].key());
    }
}

/// Appending an entry for a pair that is absent adds the pair to the mapping.
proof fn lemma_push_pair(s: Seq<PairShare>, e: PairShare)
    requires
        distinct_pairs(s),
        !lists_pair(s, e.key()),
    ensures
        distinct_pairs(s.push(e)),
        shares_of(s.push(e)) == shares_of(s).insert(e.key(), e.weight),
{
    let t = s.push(e);
    assert forall|i: int, j: int| 0 <= i < j < t.len() implies t[i].key() != t[j].key() by {
        if j == s.len() {
            assert(!pair_at(s, e.key(), i));
        } else {
            assert(s[i].key() != s[j].key());
        }
    }
    lemma_share_at(t, s.len() as int);
    assert forall|k: (AccountId, AccountId)| lists_pair(t, k) <==> (k == e.key() || lists_pair(
        s,
        k,
    )) by {
        if lists_pair(t, k) && k != e.key() {
            let j = index_of_pair(t, k);
            assert(pair_at(t, k, j));
            assert(pair_at(s, k, j));
        }
        if lists_pair(s, k) {
            let j = index_of_pair(s, k);
            assert(pair_at(s, k, j));
            assert(pair_at(t, k, j));
        }
    }
    assert forall|k: (AccountId, AccountId)| lists_pair(s, k) && k != e.key() implies shares_of(
        t,
    )[k] == shares_of(s)[k] by {
        let j = index_of_pair(s, k);
        assert(pair_at(s, k, j));
        lemma_share_at(s, j);
        lemma_share_at(t, j);
    }
    assert(shares_of(t) =~= shares_of(s).insert(e.key(), e.weight));
}

/// Replacing the weight of a pair that is present overwrites the pair in the
/// mapping.
proof fn lemma_update_pair(s: Seq<PairShare>, idx: int, e: PairShare)
    requires
        distinct_pairs(s),
        0 <= idx < s.len(),
        s[idx].key() == e.key(),
    ensures
        distinct_pairs(s.update(idx, e)),
        shares_of(s.update(idx, e)) == shares_of(s).insert(e.key(), e.weight),
{
    let t = s.update(idx, e);
    assert forall|i: int, j: int| 0 <= i < j < t.len() implies t[i].key() != t[j].key() by {
        assert(s[i].key() != s[j].key());
    }
    lemma_share_at(t, idx);
    assert forall|k: (AccountId, AccountId)| lists_pair(t, k) <==> (k == e.key() || lists_pair(
        s,
        k,
    )) by {
        if lists_pair(t, k) {
            let j = index_of_pair(t, k);
            assert(pair_at(t, k, j));
            assert(pair_at(s, k, j));
        }
        if lists_pair(s, k) {
            let j = index_of_pair(s, k);
            assert(pair_at(s, k, j));
            assert(pair_at(t, k, j));
        }
    }
    assert forall|k: (AccountId, AccountId)| lists_pair(s, k) && k != e.key() implies shares_of(
        t,
    )[k] == shares_of(s)[k] by {
        let j = index_of_pair(s, k);
        assert(pair_at(s, k, j));
        lemma_share_at(s, j);
        lemma_share_at(t, j);
    }
    assert(shares_of(t) =~= shares_of(s).insert(e.key(), e.weight));
}

/// The weights held by ordered pairs of accounts.
#[derive(Debug, PartialEq, Eq)]
pub struct PairwiseShareTable {
    entries: Vec<PairShare>,
}

impl Clone for PairwiseShareTable {
    /// A table with the same entries.
    fn clone(&self) -> (t: Self)
        ensures
            t.pairs() == self.pairs(),
    {
        let t = PairwiseShareTable { entries: self.entries.clone() };
        assert(t.entries@ =~= self.entries@);
        t
    }
}

impl PairwiseShareTable {
    /// The entries in the order in which their pairs were first written.
    pub closed spec fn pairs(&self) -> Seq<PairShare> {
        self.entries@
    }

    /// Every ordered pair has at most one entry.
    pub open spec fn wf(&self) -> bool {
        distinct_pairs(self.pairs())
    }

    /// The table as a mapping from ordered pair to weight.
    pub open spec fn view(&self) -> Map<(AccountId, AccountId), u32> {
        shares_of(self.pairs())
    }

    /// A table without entries.
    pub fn new() -> (t: Self)
        ensures
            t.wf(),
            t.pairs() == Seq::<PairShare>::empty(),
            t@ == Map::<(AccountId, AccountId), u32>::empty(),
    {
        let t = PairwiseShareTable { entries: Vec::new() };
        proof {
            assert forall|k: (AccountId, AccountId)| !lists_pair(t.pairs(), k) by {
                if lists_pair(t.pairs(), k) {
                    let i = index_of_pair(t.pairs(), k);
                    assert(pair_at(t.pairs(), k, i));
                }
            }
            assert(t@ =~= Map::<(AccountId, AccountId), u32>::empty());
        }
        t
    }

    /// The number of pairs that hold a weight.
    pub fn len(&self) -> (n: usize)
        ensures
            n == self.pairs().len(),
    {
        self.entries.len()
    }

    /// The entries of the table.
    pub fn entries(&self) -> (r: &Vec<PairShare>)
        ensures
            r@ == self.pairs(),
    {
        &self.entries
    }

    /// The position of the pair's entry, if it has one.
    fn find(&self, first: AccountId, second: AccountId) -> (r: Option<usize>)
        ensures
            r matches Some(i) ==> pair_at(self.pairs(), (first, second), i as int),
            r is None ==> !lists_pair(self.pairs(), (first, second)),
    {
        let mut i: usize = 0;
        while i < self.entries.len()
            invariant
                i <= self.entries.len(),
                forall|j: int| 0 <= j < i ==> !pair_at(self.entries@, (first, second), j),
            decreases self.entries.len() - i,
        {
            if self.entries[i].first == first && self.entries[i].second == second {
                return Some(i);
            }
            i += 1;
        }
        proof {
            if lists_pair(self.pairs(), (first, second)) {
                let j = index_of_pair(self.pairs(), (first, second));
                assert(pair_at(self.pairs(), (first, second), j));
            }
        }
        None
    }

    /// The weight of the ordered pair; zero for a pair that has none.
    pub fn get_share(&self, first: AccountId, second: AccountId) -> (w: u32)
        requires
            self.wf(),
        ensures
            self@.contains_key((first, second)) ==> w == self@[(first, second)],
            !self@.contains_key((first, second)) ==> w == 0,
    {
        match self.find(first, second) {
            Some(i) => {
                proof {
                    lemma_share_at(self.pairs(), i as int);
                }
                self.entries[i].weight
            },
            None => 0,
        }
    }

    /// Gives the ordered pair this weight, whether or not it had one before.
    pub fn set_pair_share(&mut self, first: AccountId, second: AccountId, weight: u32)
        requires
            old(self).wf(),
        ensures
            final(self).wf(),
            final(self)@ == old(self)@.insert((first, second), weight),
            lists_pair(old(self).pairs(), (first, second)) ==> final(self).pairs() == old(
                self,
            ).pairs().update(
                index_of_pair(old(self).pairs(), (first, second)),
                (PairShare { first, second, weight }),
            ),
            !lists_pair(old(self).pairs(), (first, second)) ==> final(self).pairs() == old(
                self,
            ).pairs().push((PairShare { first, second, weight })),
    {
        let entry = PairShare { first, second, weight };
        match self.find(first, second) {
            Some(i) => {
                proof {
                    lemma_update_pair(self.pairs(), i as int, entry);
                }
                self.entries[i] = entry;
            },
            None => {
                proof {
                    lemma_push_pair(self.pairs(), entry);
                }
                self.entries.push(entry);
            },
        }
    }
}

} // verus!
