//! The fund ledger the engine settles against.
//!
//! A deployment would back this with its currency system; here the ledger
//! is modelled as owned data so that reservation, release and transfer are
//! specified exactly.  Each account holds, per currency, a spendable
//! (`free`) part and an earmarked (`reserved`) part; their sum never
//! exceeds `u128::MAX`.

use vstd::prelude::*;

use crate::table::{keys_unique, lemma_get_absent, lemma_get_at_index, lemma_get_push,
    lemma_get_remove, lemma_unique_push, table_get};
use crate::types::{AccountId, Balance, FungibleTokenId};

verus! {

/// The smaller of two balances.
pub open spec fn min_bal(a: Balance, b: Balance) -> Balance {
    if a <= b {
        a
    } else {
        b
    }
}

/// Balances of every account in every currency.
pub struct Ledger {
    entries: Vec<((FungibleTokenId, AccountId), (Balance, Balance))>,
}

impl Ledger {
    /// The `(free, reserved)` pair of `who` in currency `currency`; an
    /// account never touched holds `(0, 0)`.
    pub closed spec fn entry_of(self, currency: FungibleTokenId, who: AccountId) -> (
        Balance,
        Balance,
    ) {
        match table_get(self.entries@, (currency, who)) {
            Some(balances) => balances,
            None => (0, 0),
        }
    }

    /// The spendable balance of `who` in `currency`.
    pub open spec fn free_of(self, currency: FungibleTokenId, who: AccountId) -> Balance {
        self.entry_of(currency, who).0
    }

    /// The reserved balance of `who` in `currency`.
    pub open spec fn reserved_of(self, currency: FungibleTokenId, who: AccountId) -> Balance {
        self.entry_of(currency, who).1
    }

    /// Each account appears at most once per currency, and its two parts
    /// always sum within the balance type.
    pub closed spec fn wf(self) -> bool {
        &&& keys_unique(self.entries@)
        &&& forall|currency: FungibleTokenId, who: AccountId|
            #![trigger self.entry_of(currency, who)]
            self.free_of(currency, who) + self.reserved_of(currency, who) <= u128::MAX
    }

    /// An empty ledger: every balance is zero.
    pub fn new() -> (r: Ledger)
        ensures
            r.wf(),
            forall|currency: FungibleTokenId, who: AccountId|
                #![trigger r.entry_of(currency, who)]
                r.free_of(currency, who) == 0 && r.reserved_of(currency, who) == 0,
    {
        let r = Ledger { entries: Vec::new() };
        proof {
            assert forall|currency: FungibleTokenId, who: AccountId|
                r.entry_of(currency, who) == (0u128, 0u128) by {
                lemma_get_absent(r.entries@, (currency, who));
            }
        }
        r
    }

    /// Index of the entry of `(currency, who)`, if one exists.
    fn find(&self, currency: FungibleTokenId, who: AccountId) -> (r: Option<usize>)
        requires
            keys_unique(self.entries@),
        ensures
            match r {
                Some(i) => i < self.entries@.len() && self.entries@[i as int].0 == (currency, who)
                    && table_get(self.entries@, (currency, who)) == Some(
                    self.entries@[i as int].1,
                ),
                None => table_get(self.entries@, (currency, who)) is None,
            },
    {
        let mut i: usize = 0;
        while i < self.entries.len()
            invariant
                i <= self.entries@.len(),
                forall|j: int| 0 <= j < i ==> (#[trigger] self.entries@[j]).0 != (currency, who),
                keys_unique(self.entries@),
            decreases self.entries@.len() - i,
        {
            let (key, _) = self.entries[i];
            if key.0 == currency && key.1 == who {
                proof {
                    lemma_get_at_index(self.entries@, i as int);
                }
                return Some(i);
            }
            i += 1;
        }
        proof {
            lemma_get_absent(self.entries@, (currency, who));
        }
        None
    }

    /// Stores `(free, reserved)` for `(currency, who)`, replacing any
    /// earlier entry.
    fn put(&mut self, currency: FungibleTokenId, who: AccountId, free: Balance, reserved: Balance)
        requires
            keys_unique(old(self).entries@),
        ensures
            keys_unique(final(self).entries@),
            final(self).entry_of(currency, who) == (free, reserved),
            forall|c2: FungibleTokenId, a2: AccountId|
                #![trigger final(self).entry_of(c2, a2)]
                (c2 != currency || a2 != who) ==> final(self).entry_of(c2, a2) == old(
                    self,
                ).entry_of(c2, a2),
    {
        let ghost s0 = self.entries@;
        let found = self.find(currency, who);
        match found {
            Some(i) => {
                self.entries.remove(i);
                proof {
                    assert forall|c2: FungibleTokenId, a2: AccountId|
                        true implies #[trigger] table_get(self.entries@, (c2, a2)) == if (
                    c2,
                    a2,
                ) == (currency, who) {
                        None::<(Balance, Balance)>
                    } else {
                        table_get(s0, (c2, a2))
                    } by {
                        lemma_get_remove(s0, i as int, (c2, a2));
                    }
                    lemma_get_remove(s0, i as int, (currency, who));
                }
            },
            None => {},
        }
        let ghost s1 = self.entries@;
        self.entries.push(((currency, who), (free, reserved)));
        proof {
            assert forall|i: int| 0 <= i < s1.len() implies (#[trigger] s1[i]).0 != (
            currency,
            who,
            ) by {
                lemma_get_at_index(s1, i);
            }
            lemma_unique_push(s1, (currency, who), (free, reserved));
            assert forall|c2: FungibleTokenId, a2: AccountId|
                true implies #[trigger] table_get(self.entries@, (c2, a2)) == if (c2, a2) == (
                currency,
                who,
            ) {
                Some((free, reserved))
            } else {
                table_get(s1, (c2, a2))
            } by {
                lemma_get_push(s1, (currency, who), (free, reserved), (c2, a2));
            }
        }
    }

    /// The spendable balance of `who` in `currency`.
    pub fn free_balance(&self, currency: FungibleTokenId, who: AccountId) -> (r: Balance)
        requires
            self.wf(),
        ensures
            r == self.free_of(currency, who),
    {
        match self.find(currency, who) {
            Some(i) => self.entries[i].1.0,
            None => 0,
        }
    }

    /// The reserved balance of `who` in `currency`.
    pub fn reserved_balance(&self, currency: FungibleTokenId, who: AccountId) -> (r: Balance)
        requires
            self.wf(),
        ensures
            r == self.reserved_of(currency, who),
    {
        match self.find(currency, who) {
            Some(i) => self.entries[i].1.1,
            None => 0,
        }
    }

    /// Sets both parts of one account outright.
    pub fn set_balance(
        &mut self,
        currency: FungibleTokenId,
        who: AccountId,
        free: Balance,
        reserved: Balance,
    )
        requires
            old(self).wf(),
            free + reserved <= u128::MAX,
        ensures
            final(self).wf(),
            final(self).free_of(currency, who) == free,
            final(self).reserved_of(currency, who) == reserved,
            forall|c2: FungibleTokenId, a2: AccountId|
                #![trigger final(self).entry_of(c2, a2)]
                (c2 != currency || a2 != who) ==> final(self).entry_of(c2, a2) == old(
                    self,
                ).entry_of(c2, a2),
    {
        self.put(currency, who, free, reserved);
    }

    /// Moves `amount` of `who`'s spendable balance into reservation; fails
    /// without effect when the spendable part is too small.
    pub fn reserve(&mut self, currency: FungibleTokenId, who: AccountId, amount: Balance) -> (ok:
        bool)
        requires
            old(self).wf(),
        ensures
            final(self).wf(),
            ok == (old(self).free_of(currency, who) >= amount),
            ok ==> final(self).free_of(currency, who) == old(self).free_of(currency, who) - amount
                && final(self).reserved_of(currency, who) == old(self).reserved_of(currency, who)
                + amount,
            !ok ==> *final(self) == *old(self),
            forall|c2: FungibleTokenId, a2: AccountId|
                #![trigger final(self).entry_of(c2, a2)]
                (c2 != currency || a2 != who) ==> final(self).entry_of(c2, a2) == old(
                    self,
                ).entry_of(c2, a2),
    {
        let free = self.free_balance(currency, who);
        let reserved = self.reserved_balance(currency, who);
        if free >= amount {
            self.put(currency, who, free - amount, reserved + amount);
            true
        } else {
            false
        }
    }

    /// Releases up to `amount` of `who`'s reservation back into the
    /// spendable part; releasing more than is reserved releases all of it.
    pub fn unreserve(&mut self, currency: FungibleTokenId, who: AccountId, amount: Balance)
        requires
            old(self).wf(),
        ensures
            final(self).wf(),
            final(self).reserved_of(currency, who) == old(self).reserved_of(currency, who)
                - min_bal(amount, old(self).reserved_of(currency, who)),
            final(self).free_of(currency, who) == old(self).free_of(currency, who) + min_bal(
                amount,
                old(self).reserved_of(currency, who),
            ),
            forall|c2: FungibleTokenId, a2: AccountId|
                #![trigger final(self).entry_of(c2, a2)]
                (c2 != currency || a2 != who) ==> final(self).entry_of(c2, a2) == old(
                    self,
                ).entry_of(c2, a2),
    {
        let free = self.free_balance(currency, who);
        let reserved = self.reserved_balance(currency, who);
        let moved = if amount <= reserved {
            amount
        } else {
            reserved
        };
        self.put(currency, who, free + moved, reserved - moved);
    }

    /// Moves `amount` of spendable balance from `from` to `to`; fails
    /// without effect when `from` cannot spend that much or `to` cannot
    /// hold it.
    pub fn transfer(
        &mut self,
        currency: FungibleTokenId,
        from: AccountId,
        to: AccountId,
        amount: Balance,
    ) -> (ok: bool)
        requires
            old(self).wf(),
        ensures
            final(self).wf(),
            ok == (old(self).free_of(currency, from) >= amount && (from == to || old(self).free_of(
                currency,
                to,
            ) + old(self).reserved_of(currency, to) + amount <= u128::MAX)),
            !ok ==> *final(self) == *old(self),
            from == to ==> *final(self) == *old(self),
            (ok && from != to) ==> final(self).free_of(currency, from) == old(self).free_of(
                currency,
                from,
            ) - amount && final(self).free_of(currency, to) == old(self).free_of(currency, to)
                + amount && final(self).reserved_of(currency, from) == old(self).reserved_of(
                currency,
                from,
            ) && final(self).reserved_of(currency, to) == old(self).reserved_of(currency, to),
            forall|c2: FungibleTokenId, a2: AccountId|
                #![trigger final(self).entry_of(c2, a2)]
                (c2 != currency || (a2 != from && a2 != to)) ==> final(self).entry_of(c2, a2)
                    == old(self).entry_of(c2, a2),
    {
        let free_from = self.free_balance(currency, from);
        if free_from < amount {
            return false;
        }
        if from == to {
            return true;
        }
        let free_to = self.free_balance(currency, to);
        let reserved_to = self.reserved_balance(currency, to);
        if u128::MAX - amount < free_to || u128::MAX - amount - free_to < reserved_to {
            return false;
        }
        let reserved_from = self.reserved_balance(currency, from);
        self.put(currency, from, free_from - amount, reserved_from);
        self.put(currency, to, free_to + amount, reserved_to);
        true
    }
}

} // verus!
