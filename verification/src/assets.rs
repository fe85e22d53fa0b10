//! The asset registries the engine dispatches transfers to.
//!
//! A deployment would keep NFTs, estates, land units and map spots in
//! registries of their own; here one owned table models what the engine
//! reads of them: who owns an asset, whether it may change hands, and who
//! owns a metaverse.  A transfer can fail — the engine's settlement paths
//! must cope with that — and it fails exactly when the asset is not the
//! sender's or is not transferable.

use vstd::prelude::*;

use crate::table::{keys_unique, lemma_get_absent, lemma_get_at_index, lemma_get_push,
    lemma_get_remove, lemma_unique_push, table_get};
use crate::types::{AccountId, ItemId, MetaverseId};

verus! {

/// What the engine knows of one asset.
#[derive(Clone, Copy, PartialEq, Eq, Structural, Debug)]
pub struct AssetEntry {
    pub owner: AccountId,
    pub transferable: bool,
}

/// Ownership records of assets and metaverses.
pub struct Assets {
    items: Vec<(ItemId, AssetEntry)>,
    metaverse_owners: Vec<(MetaverseId, AccountId)>,
}

impl Assets {
    /// The record of `item`, if the asset exists.
    pub closed spec fn entry_of(self, item: ItemId) -> Option<AssetEntry> {
        table_get(self.items@, item)
    }

    /// The owner of `metaverse_id`, if anyone owns it.
    pub closed spec fn metaverse_owner(self, metaverse_id: MetaverseId) -> Option<AccountId> {
        table_get(self.metaverse_owners@, metaverse_id)
    }

    /// Whether `who` owns `metaverse_id`.
    pub open spec fn owns_metaverse(self, who: AccountId, metaverse_id: MetaverseId) -> bool {
        self.metaverse_owner(metaverse_id) == Some(who)
    }

    /// Each asset and each metaverse has at most one record.
    pub closed spec fn wf(self) -> bool {
        &&& keys_unique(self.items@)
        &&& keys_unique(self.metaverse_owners@)
    }

    /// A registry with no assets and no metaverses.
    pub fn new() -> (r: Assets)
        ensures
            r.wf(),
            forall|item: ItemId| #[trigger] r.entry_of(item) is None,
            forall|m: MetaverseId| #[trigger] r.metaverse_owner(m) is None,
    {
        let r = Assets { items: Vec::new(), metaverse_owners: Vec::new() };
        proof {
            assert forall|item: ItemId| #[trigger] r.entry_of(item) is None by {
                lemma_get_absent(r.items@, item);
            }
            assert forall|m: MetaverseId| #[trigger] r.metaverse_owner(m) is None by {
                lemma_get_absent(r.metaverse_owners@, m);
            }
        }
        r
    }

    /// Index of the record of `item`, if the asset exists.
    fn find_item(&self, item: ItemId) -> (r: Option<usize>)
        requires
            keys_unique(self.items@),
        ensures
            match r {
                Some(i) => i < self.items@.len() && self.items@[i as int].0 == item && table_get(
                    self.items@,
                    item,
                ) == Some(self.items@[i as int].1),
                None => table_get(self.items@, item) is None,
            },
    {
        let mut i: usize = 0;
        while i < self.items.len()
            invariant
                i <= self.items@.len(),
                forall|j: int| 0 <= j < i ==> (#[trigger] self.items@[j]).0 != item,
                keys_unique(self.items@),
            decreases self.items@.len() - i,
        {
            if self.items[i].0 == item {
                proof {
                    lemma_get_at_index(self.items@, i as int);
                }
                return Some(i);
            }
            i += 1;
        }
        proof {
            lemma_get_absent(self.items@, item);
        }
        None
    }

    /// Stores a record for `item`, replacing any earlier one.
    pub fn register_item(&mut self, item: ItemId, owner: AccountId, transferable: bool)
        requires
            old(self).wf(),
        ensures
            final(self).wf(),
            final(self).entry_of(item) == Some(AssetEntry { owner, transferable }),
            forall|other: ItemId|
                other != item ==> #[trigger] final(self).entry_of(other) == old(self).entry_of(
                    other,
                ),
            forall|m: MetaverseId|
                #[trigger] final(self).metaverse_owner(m) == old(self).metaverse_owner(m),
    {
        let ghost s0 = self.items@;
        let found = self.find_item(item);
        match found {
            Some(i) => {
                self.items.remove(i);
                proof {
                    assert forall|other: ItemId| #[trigger]
                        table_get(self.items@, other) == if other == item {
                            None::<AssetEntry>
                        } else {
                            table_get(s0, other)
                        } by {
                        lemma_get_remove(s0, i as int, other);
                    }
                    lemma_get_remove(s0, i as int, item);
                }
            },
            None => {},
        }
        let ghost s1 = self.items@;
        self.items.push((item, AssetEntry { owner, transferable }));
        proof {
            assert forall|j: int| 0 <= j < s1.len() implies (#[trigger] s1[j]).0 != item by {
                lemma_get_at_index(s1, j);
            }
            lemma_unique_push(s1, item, AssetEntry { owner, transferable });
            assert forall|other: ItemId| #[trigger]
                table_get(self.items@, other) == if other == item {
                    Some(AssetEntry { owner, transferable })
                } else {
                    table_get(s1, other)
                } by {
                lemma_get_push(s1, item, AssetEntry { owner, transferable }, other);
            }
        }
    }

    /// Stores the owner of `metaverse_id`, replacing any earlier one.
    pub fn set_metaverse_owner(&mut self, metaverse_id: MetaverseId, owner: AccountId)
        requires
            old(self).wf(),
        ensures
            final(self).wf(),
            final(self).metaverse_owner(metaverse_id) == Some(owner),
            forall|m: MetaverseId|
                m != metaverse_id ==> #[trigger] final(self).metaverse_owner(m) == old(
                    self,
                ).metaverse_owner(m),
            forall|item: ItemId| #[trigger] final(self).entry_of(item) == old(self).entry_of(item),
    {
        let ghost s0 = self.metaverse_owners@;
        let mut i: usize = 0;
        let mut found: Option<usize> = None;
        while i < self.metaverse_owners.len()
            invariant
                i <= self.metaverse_owners@.len(),
                keys_unique(self.metaverse_owners@),
                match found {
                    Some(k) => k < self.metaverse_owners@.len()
                        && self.metaverse_owners@[k as int].0 == metaverse_id,
                    None => forall|j: int|
                        0 <= j < i ==> (#[trigger] self.metaverse_owners@[j]).0 != metaverse_id,
                },
            decreases self.metaverse_owners@.len() - i,
        {
            if found.is_none() && self.metaverse_owners[i].0 == metaverse_id {
                found = Some(i);
            }
            i += 1;
        }
        match found {
            Some(k) => {
                self.metaverse_owners.remove(k);
                proof {
                    assert forall|m: MetaverseId| #[trigger]
                        table_get(self.metaverse_owners@, m) == if m == metaverse_id {
                            None::<AccountId>
                        } else {
                            table_get(s0, m)
                        } by {
                        lemma_get_remove(s0, k as int, m);
                    }
                    lemma_get_remove(s0, k as int, metaverse_id);
                }
            },
            None => {},
        }
        let ghost s1 = self.metaverse_owners@;
        self.metaverse_owners.push((metaverse_id, owner));
        proof {
            assert forall|j: int| 0 <= j < s1.len() implies (#[trigger] s1[j]).0
                != metaverse_id by {
                lemma_get_at_index(s1, j);
            }
            lemma_unique_push(s1, metaverse_id, owner);
            assert forall|m: MetaverseId| #[trigger]
                table_get(self.metaverse_owners@, m) == if m == metaverse_id {
                    Some(owner)
                } else {
                    table_get(s1, m)
                } by {
                lemma_get_push(s1, metaverse_id, owner, m);
            }
        }
    }

    /// The record of `item`, if the asset exists.
    pub fn lookup_item(&self, item: ItemId) -> (r: Option<AssetEntry>)
        requires
            self.wf(),
        ensures
            r == self.entry_of(item),
    {
        match self.find_item(item) {
            Some(i) => Some(self.items[i].1),
            None => None,
        }
    }

    /// Whether `who` owns `metaverse_id`.
    pub fn check_metaverse_ownership(&self, who: AccountId, metaverse_id: MetaverseId) -> (r: bool)
        requires
            self.wf(),
        ensures
            r == self.owns_metaverse(who, metaverse_id),
    {
        let mut i: usize = 0;
        while i < self.metaverse_owners.len()
            invariant
                i <= self.metaverse_owners@.len(),
                keys_unique(self.metaverse_owners@),
                forall|j: int|
                    0 <= j < i ==> (#[trigger] self.metaverse_owners@[j]).0 != metaverse_id,
            decreases self.metaverse_owners@.len() - i,
        {
            if self.metaverse_owners[i].0 == metaverse_id {
                proof {
                    lemma_get_at_index(self.metaverse_owners@, i as int);
                }
                return self.metaverse_owners[i].1 == who;
            }
            i += 1;
        }
        proof {
            lemma_get_absent(self.metaverse_owners@, metaverse_id);
        }
        false
    }

    /// Hands `item` from `from` to `to`; fails without effect unless the
    /// asset exists, belongs to `from` and is transferable.
    pub fn transfer_item(&mut self, item: ItemId, from: AccountId, to: AccountId) -> (ok: bool)
        requires
            old(self).wf(),
        ensures
            final(self).wf(),
            ok == (old(self).entry_of(item) matches Some(e) && e.owner == from && e.transferable),
            !ok ==> *final(self) == *old(self),
            ok ==> final(self).entry_of(item) == Some(
                AssetEntry { owner: to, transferable: true },
            ),
            forall|other: ItemId|
                other != item ==> #[trigger] final(self).entry_of(other) == old(self).entry_of(
                    other,
                ),
            forall|m: MetaverseId|
                #[trigger] final(self).metaverse_owner(m) == old(self).metaverse_owner(m),
    {
        let entry = self.lookup_item(item);
        match entry {
            Some(e) => {
                if e.owner == from && e.transferable {
                    self.register_item(item, to, true);
                    true
                } else {
                    false
                }
            },
            None => false,
        }
    }
}

} // verus!
