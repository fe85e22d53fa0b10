//! The auction lifecycle state machine.
//!
//! [`Pallet`] owns every piece of marketplace state: the listing records,
//! the membership set that enforces one live auction per asset, the
//! end-time index that drives the expiry sweep, the collection
//! authorisations, and the modelled fund ledger and asset registries.
//! [`Pallet::wf`] ties them together; every operation preserves it.

use vstd::prelude::*;

use crate::assets::{AssetEntry, Assets};
use crate::ledger::{min_bal, Ledger};
use crate::table::{keys_unique, lemma_get_absent, lemma_get_at_index, lemma_get_push,
    lemma_get_remove, lemma_unique_push, table_get, table_has};
use crate::types::{AccountId, AuctionId, AuctionInfo, AuctionItem, AuctionItemView, AuctionType,
    Balance, BlockNumber, Change, ClassId, Config, Error, Event, EventView, FungibleTokenId,
    ItemId, ListingLevel, ListingLevelView, MetaverseId, OnNewBidResult, TokenId,
    ROYALTY_FEE_DENOMINATOR};

verus! {

/// Marker for the engine's built-in bid-acceptance policy, which accepts
/// every bid and never moves a deadline.
pub struct AuctionLogicHandler;

/// The whole marketplace state.
pub struct Pallet {
    config: Config,
    now: BlockNumber,
    next_auction_id: AuctionId,
    auction_infos: Vec<(AuctionId, AuctionInfo)>,
    auction_items: Vec<(AuctionId, AuctionItem)>,
    items_in_auction: Vec<(ItemId, ())>,
    auction_end_time: Vec<((BlockNumber, AuctionId), ())>,
    authorized_collections: Vec<((MetaverseId, ClassId), ())>,
    ledger: Ledger,
    assets: Assets,
    events: Vec<Event>,
}

impl Pallet {
    // ------------------------------------------------------------------
    // The mathematical model.
    // ------------------------------------------------------------------

    /// The bidding state of auction `id`, if it is live.
    pub closed spec fn auction_of(self, id: AuctionId) -> Option<AuctionInfo> {
        table_get(self.auction_infos@, id)
    }

    /// Whether auction `id` is live.
    pub open spec fn live(self, id: AuctionId) -> bool {
        self.auction_of(id) is Some
    }

    /// The listing record of auction `id`.  Records outlive settlement, so
    /// a record alone does not make an auction live.
    pub closed spec fn item_rec_of(self, id: AuctionId) -> Option<AuctionItemView> {
        match table_get(self.auction_items@, id) {
            Some(item) => Some(item@),
            None => None,
        }
    }

    /// Whether `item` is currently listed.
    pub closed spec fn in_auction(self, item: ItemId) -> bool {
        table_has(self.items_in_auction@, item)
    }

    /// Whether the end-time index holds an entry for auction `id` at time
    /// `t`.
    pub closed spec fn sched_has(self, t: BlockNumber, id: AuctionId) -> bool {
        table_has(self.auction_end_time@, (t, id))
    }

    /// Whether `class_id` is authorised in `metaverse_id`'s local
    /// marketplace.
    pub closed spec fn collection_authorized(self, metaverse_id: MetaverseId, class_id: ClassId)
        -> bool {
        table_has(self.authorized_collections@, (metaverse_id, class_id))
    }

    /// The identifier the next created auction will get.
    pub closed spec fn next_id_of(self) -> AuctionId {
        self.next_auction_id
    }

    /// The current time step.
    pub closed spec fn time_of(self) -> BlockNumber {
        self.now
    }

    /// The tuning constants.
    pub closed spec fn config_of(self) -> Config {
        self.config
    }

    /// The modelled fund ledger.
    pub closed spec fn ledger_of(self) -> Ledger {
        self.ledger
    }

    /// The modelled asset registries.
    pub closed spec fn assets_of(self) -> Assets {
        self.assets
    }

    /// The notifications emitted so far, oldest first.
    pub closed spec fn events_log(self) -> Seq<EventView> {
        self.events@.map_values(|e: Event| e@)
    }

    /// Whether live auction `id` is the auction of `item`.
    pub open spec fn references(self, id: AuctionId, item: ItemId) -> bool {
        &&& self.live(id)
        &&& self.item_rec_of(id) matches Some(it) && it.item_id == item
    }

    /// Every collection of the store keys its entries uniquely.
    pub closed spec fn wf_keys(self) -> bool {
        &&& keys_unique(self.auction_infos@)
        &&& keys_unique(self.auction_items@)
        &&& keys_unique(self.items_in_auction@)
        &&& keys_unique(self.auction_end_time@)
        &&& keys_unique(self.authorized_collections@)
        &&& self.ledger.wf()
        &&& self.assets.wf()
    }

    /// An item is listed exactly when one live auction references it, and
    /// never more than one.
    pub open spec fn wf_membership(self) -> bool {
        &&& forall|item: ItemId| #[trigger]
            self.in_auction(item) ==> exists|id: AuctionId| self.references(id, item)
        &&& forall|id: AuctionId, item: ItemId| #[trigger]
            self.references(id, item) ==> self.in_auction(item)
        &&& forall|id1: AuctionId, id2: AuctionId, item: ItemId|
            self.references(id1, item) && self.references(id2, item) ==> id1 == id2
    }

    /// The end-time index holds an entry for exactly the live auctions
    /// with a deadline, under that deadline.
    pub open spec fn wf_schedule(self) -> bool {
        &&& forall|t: BlockNumber, id: AuctionId| #[trigger]
            self.sched_has(t, id) ==> (self.auction_of(id) matches Some(a) && a.end == Some(t))
        &&& forall|id: AuctionId|
            (#[trigger] self.auction_of(id)) matches Some(a) ==> (a.end matches Some(t)
                ==> self.sched_has(t, id))
    }

    /// Identifiers below the allocation counter are the only ones ever
    /// used.
    pub open spec fn wf_fresh(self) -> bool {
        &&& forall|id: AuctionId| #[trigger] self.auction_of(id) is Some ==> id < self.next_id_of()
        &&& forall|id: AuctionId| #[trigger] self.item_rec_of(id) is Some ==> id < self.next_id_of()
    }

    /// The store invariant: every operation requires and preserves it.
    pub open spec fn wf(self) -> bool {
        &&& self.wf_keys()
        &&& self.wf_membership()
        &&& self.wf_schedule()
        &&& self.wf_fresh()
    }

    // ------------------------------------------------------------------
    // Frame predicates relating two states.
    // ------------------------------------------------------------------

    /// No auction's bidding state changed.
    pub open spec fn same_auctions(pre: Pallet, post: Pallet) -> bool {
        forall|id: AuctionId| #[trigger] post.auction_of(id) == pre.auction_of(id)
    }

    /// No listing record changed.
    pub open spec fn same_item_records(pre: Pallet, post: Pallet) -> bool {
        forall|id: AuctionId| #[trigger] post.item_rec_of(id) == pre.item_rec_of(id)
    }

    /// No item's listed-membership changed.
    pub open spec fn same_membership(pre: Pallet, post: Pallet) -> bool {
        forall|item: ItemId| #[trigger] post.in_auction(item) == pre.in_auction(item)
    }

    /// The end-time index did not change.
    pub open spec fn same_schedule(pre: Pallet, post: Pallet) -> bool {
        forall|t: BlockNumber, id: AuctionId| #[trigger]
            post.sched_has(t, id) == pre.sched_has(t, id)
    }

    /// No collection authorisation changed.
    pub open spec fn same_authorized(pre: Pallet, post: Pallet) -> bool {
        forall|m: MetaverseId, c: ClassId| #[trigger]
            post.collection_authorized(m, c) == pre.collection_authorized(m, c)
    }

    /// No balance moved.
    pub open spec fn same_balances(pre: Pallet, post: Pallet) -> bool {
        forall|currency: FungibleTokenId, who: AccountId| #[trigger]
            post.ledger_of().entry_of(currency, who) == pre.ledger_of().entry_of(currency, who)
    }

    /// No asset or metaverse record changed.
    pub open spec fn same_assets(pre: Pallet, post: Pallet) -> bool {
        &&& forall|item: ItemId| #[trigger]
            post.assets_of().entry_of(item) == pre.assets_of().entry_of(item)
        &&& forall|m: MetaverseId| #[trigger]
            post.assets_of().metaverse_owner(m) == pre.assets_of().metaverse_owner(m)
    }

    /// Configuration, clock and identifier counter kept.
    pub open spec fn same_meta(pre: Pallet, post: Pallet) -> bool {
        &&& post.config_of() == pre.config_of()
        &&& post.time_of() == pre.time_of()
        &&& post.next_id_of() == pre.next_id_of()
    }

    /// Nothing was emitted.
    pub open spec fn same_events(pre: Pallet, post: Pallet) -> bool {
        post.events_log() == pre.events_log()
    }

    // ------------------------------------------------------------------
    // Construction.
    // ------------------------------------------------------------------

    /// An empty marketplace at time zero.
    pub fn new(config: Config) -> (r: Pallet)
        ensures
            r.wf(),
            r.config_of() == config,
            r.time_of() == 0,
            r.next_id_of() == 0,
            forall|id: AuctionId| #[trigger] r.auction_of(id) is None,
            forall|id: AuctionId| #[trigger] r.item_rec_of(id) is None,
            forall|item: ItemId| !#[trigger] r.in_auction(item),
            forall|m: MetaverseId, c: ClassId| !#[trigger] r.collection_authorized(m, c),
            forall|currency: FungibleTokenId, who: AccountId|
                #![trigger r.ledger_of().entry_of(currency, who)]
                r.ledger_of().free_of(currency, who) == 0 && r.ledger_of().reserved_of(
                    currency,
                    who,
                ) == 0,
            forall|item: ItemId| #[trigger] r.assets_of().entry_of(item) is None,
            forall|m: MetaverseId| #[trigger] r.assets_of().metaverse_owner(m) is None,
            r.events_log() == Seq::<EventView>::empty(),
    {
        let r = Pallet {
            config,
            now: 0,
            next_auction_id: 0,
            auction_infos: Vec::new(),
            auction_items: Vec::new(),
            items_in_auction: Vec::new(),
            auction_end_time: Vec::new(),
            authorized_collections: Vec::new(),
            ledger: Ledger::new(),
            assets: Assets::new(),
            events: Vec::new(),
        };
        proof {
            assert forall|id: AuctionId| #[trigger] r.auction_of(id) is None by {
                lemma_get_absent(r.auction_infos@, id);
            }
            assert forall|id: AuctionId| #[trigger] r.item_rec_of(id) is None by {
                lemma_get_absent(r.auction_items@, id);
            }
            assert forall|item: ItemId| !#[trigger] r.in_auction(item) by {
                lemma_get_absent(r.items_in_auction@, item);
            }
            assert forall|t: BlockNumber, id: AuctionId| !#[trigger] r.sched_has(t, id) by {
                lemma_get_absent(r.auction_end_time@, (t, id));
            }
            assert forall|m: MetaverseId, c: ClassId| !#[trigger]
                r.collection_authorized(m, c) by {
                lemma_get_absent(r.authorized_collections@, (m, c));
            }
            assert(r.events@.map_values(|e: Event| e@) =~= Seq::<EventView>::empty());
        }
        r
    }

    // ------------------------------------------------------------------
    // Internal table operations, one set per collection.
    // ------------------------------------------------------------------

    spec fn eq_but_auction_infos(pre: Pallet, post: Pallet) -> bool {
        &&& post.config == pre.config
        &&& post.now == pre.now
        &&& post.next_auction_id == pre.next_auction_id
        &&& post.auction_items == pre.auction_items
        &&& post.items_in_auction == pre.items_in_auction
        &&& post.auction_end_time == pre.auction_end_time
        &&& post.authorized_collections == pre.authorized_collections
        &&& post.ledger == pre.ledger
        &&& post.assets == pre.assets
        &&& post.events == pre.events
    }

    spec fn eq_but_auction_items(pre: Pallet, post: Pallet) -> bool {
        &&& post.config == pre.config
        &&& post.now == pre.now
        &&& post.next_auction_id == pre.next_auction_id
        &&& post.auction_infos == pre.auction_infos
        &&& post.items_in_auction == pre.items_in_auction
        &&& post.auction_end_time == pre.auction_end_time
        &&& post.authorized_collections == pre.authorized_collections
        &&& post.ledger == pre.ledger
        &&& post.assets == pre.assets
        &&& post.events == pre.events
    }

    spec fn eq_but_membership(pre: Pallet, post: Pallet) -> bool {
        &&& post.config == pre.config
        &&& post.now == pre.now
        &&& post.next_auction_id == pre.next_auction_id
        &&& post.auction_infos == pre.auction_infos
        &&& post.auction_items == pre.auction_items
        &&& post.auction_end_time == pre.auction_end_time
        &&& post.authorized_collections == pre.authorized_collections
        &&& post.ledger == pre.ledger
        &&& post.assets == pre.assets
        &&& post.events == pre.events
    }

    spec fn eq_but_schedule(pre: Pallet, post: Pallet) -> bool {
        &&& post.config == pre.config
        &&& post.now == pre.now
        &&& post.next_auction_id == pre.next_auction_id
        &&& post.auction_infos == pre.auction_infos
        &&& post.auction_items == pre.auction_items
        &&& post.items_in_auction == pre.items_in_auction
        &&& post.authorized_collections == pre.authorized_collections
        &&& post.ledger == pre.ledger
        &&& post.assets == pre.assets
        &&& post.events == pre.events
    }

    spec fn eq_but_authorized(pre: Pallet, post: Pallet) -> bool {
        &&& post.config == pre.config
        &&& post.now == pre.now
        &&& post.next_auction_id == pre.next_auction_id
        &&& post.auction_infos == pre.auction_infos
        &&& post.auction_items == pre.auction_items
        &&& post.items_in_auction == pre.items_in_auction
        &&& post.auction_end_time == pre.auction_end_time
        &&& post.ledger == pre.ledger
        &&& post.assets == pre.assets
        &&& post.events == pre.events
    }

    spec fn eq_but_events(pre: Pallet, post: Pallet) -> bool {
        &&& post.config == pre.config
        &&& post.now == pre.now
        &&& post.next_auction_id == pre.next_auction_id
        &&& post.auction_infos == pre.auction_infos
        &&& post.auction_items == pre.auction_items
        &&& post.items_in_auction == pre.items_in_auction
        &&& post.auction_end_time == pre.auction_end_time
        &&& post.authorized_collections == pre.authorized_collections
        &&& post.ledger == pre.ledger
        &&& post.assets == pre.assets
    }

    fn auctions_find(&self, id: AuctionId) -> (r: Option<usize>)
        requires
            keys_unique(self.auction_infos@),
        ensures
            match r {
                Some(i) => i < self.auction_infos@.len() && self.auction_infos@[i as int].0 == id
                    && table_get(self.auction_infos@, id) == Some(
                    self.auction_infos@[i as int].1,
                ),
                None => table_get(self.auction_infos@, id) is None,
            },
    {
        let mut i: usize = 0;
        while i < self.auction_infos.len()
            invariant
                i <= self.auction_infos@.len(),
                keys_unique(self.auction_infos@),
                forall|j: int| 0 <= j < i ==> (#[trigger] self.auction_infos@[j]).0 != id,
            decreases self.auction_infos@.len() - i,
        {
            if self.auction_infos[i].0 == id {
                proof {
                    lemma_get_at_index(self.auction_infos@, i as int);
                }
                return Some(i);
            }
            i += 1;
        }
        proof {
            lemma_get_absent(self.auction_infos@, id);
        }
        None
    }

    fn auctions_put(&mut self, id: AuctionId, info: AuctionInfo)
        requires
            keys_unique(old(self).auction_infos@),
        ensures
            keys_unique(final(self).auction_infos@),
            forall|x: AuctionId| #[trigger]
                table_get(final(self).auction_infos@, x) == if x == id {
                    Some(info)
                } else {
                    table_get(old(self).auction_infos@, x)
                },
            Pallet::eq_but_auction_infos(*old(self), *final(self)),
    {
        let ghost s0 = self.auction_infos@;
        let found = self.auctions_find(id);
        match found {
            Some(i) => {
                self.auction_infos.remove(i);
                proof {
                    assert forall|x: AuctionId| #[trigger]
                        table_get(self.auction_infos@, x) == if x == id {
                            None::<AuctionInfo>
                        } else {
                            table_get(s0, x)
                        } by {
                        lemma_get_remove(s0, i as int, x);
                    }
                    lemma_get_remove(s0, i as int, id);
                }
            },
            None => {},
        }
        let ghost s1 = self.auction_infos@;
        self.auction_infos.push((id, info));
        proof {
            assert forall|j: int| 0 <= j < s1.len() implies (#[trigger] s1[j]).0 != id by {
                lemma_get_at_index(s1, j);
            }
            lemma_unique_push(s1, id, info);
            assert forall|x: AuctionId| #[trigger]
                table_get(self.auction_infos@, x) == if x == id {
                    Some(info)
                } else {
                    table_get(s1, x)
                } by {
                lemma_get_push(s1, id, info, x);
            }
        }
    }

    fn auctions_del(&mut self, id: AuctionId)
        requires
            keys_unique(old(self).auction_infos@),
        ensures
            keys_unique(final(self).auction_infos@),
            forall|x: AuctionId| #[trigger]
                table_get(final(self).auction_infos@, x) == if x == id {
                    None::<AuctionInfo>
                } else {
                    table_get(old(self).auction_infos@, x)
                },
            Pallet::eq_but_auction_infos(*old(self), *final(self)),
    {
        let ghost s0 = self.auction_infos@;
        let found = self.auctions_find(id);
        match found {
            Some(i) => {
                self.auction_infos.remove(i);
                proof {
                    assert forall|x: AuctionId| #[trigger]
                        table_get(self.auction_infos@, x) == if x == id {
                            None::<AuctionInfo>
                        } else {
                            table_get(s0, x)
                        } by {
                        lemma_get_remove(s0, i as int, x);
                    }
                    lemma_get_remove(s0, i as int, id);
                }
            },
            None => {},
        }
    }

    fn items_find(&self, id: AuctionId) -> (r: Option<usize>)
        requires
            keys_unique(self.auction_items@),
        ensures
            match r {
                Some(i) => i < self.auction_items@.len() && self.auction_items@[i as int].0 == id
                    && table_get(self.auction_items@, id) == Some(
                    self.auction_items@[i as int].1,
                ),
                None => table_get(self.auction_items@, id) is None,
            },
    {
        let mut i: usize = 0;
        while i < self.auction_items.len()
            invariant
                i <= self.auction_items@.len(),
                keys_unique(self.auction_items@),
                forall|j: int| 0 <= j < i ==> (#[trigger] self.auction_items@[j]).0 != id,
            decreases self.auction_items@.len() - i,
        {
            if self.auction_items[i].0 == id {
                proof {
                    lemma_get_at_index(self.auction_items@, i as int);
                }
                return Some(i);
            }
            i += 1;
        }
        proof {
            lemma_get_absent(self.auction_items@, id);
        }
        None
    }

    fn items_put(&mut self, id: AuctionId, item: AuctionItem)
        requires
            keys_unique(old(self).auction_items@),
        ensures
            keys_unique(final(self).auction_items@),
            table_get(final(self).auction_items@, id) == Some(item),
            forall|x: AuctionId|
                x != id ==> #[trigger] table_get(final(self).auction_items@, x) == table_get(
                    old(self).auction_items@,
                    x,
                ),
            Pallet::eq_but_auction_items(*old(self), *final(self)),
    {
        let ghost s0 = self.auction_items@;
        let found = self.items_find(id);
        match found {
            Some(i) => {
                self.auction_items.remove(i);
                proof {
                    assert forall|x: AuctionId| #[trigger]
                        table_get(self.auction_items@, x) == if x == id {
                            None::<AuctionItem>
                        } else {
                            table_get(s0, x)
                        } by {
                        lemma_get_remove(s0, i as int, x);
                    }
                    lemma_get_remove(s0, i as int, id);
                }
            },
            None => {},
        }
        let ghost s1 = self.auction_items@;
        self.auction_items.push((id, item));
        proof {
            assert forall|j: int| 0 <= j < s1.len() implies (#[trigger] s1[j]).0 != id by {
                lemma_get_at_index(s1, j);
            }
            lemma_unique_push(s1, id, item);
            assert forall|x: AuctionId|
                x != id implies #[trigger] table_get(self.auction_items@, x) == table_get(
                s1,
                x,
            ) by {
                lemma_get_push(s1, id, item, x);
            }
            lemma_get_push(s1, id, item, id);
        }
    }

    fn membership_put(&mut self, item: ItemId)
        requires
            keys_unique(old(self).items_in_auction@),
        ensures
            keys_unique(final(self).items_in_auction@),
            forall|x: ItemId| #[trigger]
                table_get(final(self).items_in_auction@, x) == if x == item {
                    Some(())
                } else {
                    table_get(old(self).items_in_auction@, x)
                },
            Pallet::eq_but_membership(*old(self), *final(self)),
    {
        let ghost s0 = self.items_in_auction@;
        let mut i: usize = 0;
        while i < self.items_in_auction.len()
            invariant
                *self == *old(self),
                i <= self.items_in_auction@.len(),
                self.items_in_auction@ == s0,
                keys_unique(s0),
                forall|j: int| 0 <= j < i ==> (#[trigger] s0[j]).0 != item,
            decreases self.items_in_auction@.len() - i,
        {
            if self.items_in_auction[i].0 == item {
                proof {
                    lemma_get_at_index(s0, i as int);
                }
                return ;
            }
            i += 1;
        }
        proof {
            lemma_get_absent(s0, item);
        }
        self.items_in_auction.push((item, ()));
        proof {
            lemma_unique_push(s0, item, ());
            assert forall|x: ItemId| #[trigger]
                table_get(self.items_in_auction@, x) == if x == item {
                    Some(())
                } else {
                    table_get(s0, x)
                } by {
                lemma_get_push(s0, item, (), x);
            }
        }
    }

    fn membership_del(&mut self, item: ItemId)
        requires
            keys_unique(old(self).items_in_auction@),
        ensures
            keys_unique(final(self).items_in_auction@),
            forall|x: ItemId| #[trigger]
                table_get(final(self).items_in_auction@, x) == if x == item {
                    None::<()>
                } else {
                    table_get(old(self).items_in_auction@, x)
                },
            Pallet::eq_but_membership(*old(self), *final(self)),
    {
        let ghost s0 = self.items_in_auction@;
        let mut i: usize = 0;
        while i < self.items_in_auction.len()
            invariant
                *self == *old(self),
                i <= self.items_in_auction@.len(),
                self.items_in_auction@ == s0,
                keys_unique(s0),
                forall|j: int| 0 <= j < i ==> (#[trigger] s0[j]).0 != item,
            decreases self.items_in_auction@.len() - i,
        {
            if self.items_in_auction[i].0 == item {
                self.items_in_auction.remove(i);
                proof {
                    assert forall|x: ItemId| #[trigger]
                        table_get(self.items_in_auction@, x) == if x == item {
                            None::<()>
                        } else {
                            table_get(s0, x)
                        } by {
                        lemma_get_remove(s0, i as int, x);
                    }
                    lemma_get_remove(s0, i as int, item);
                }
                return ;
            }
            i += 1;
        }
        proof {
            lemma_get_absent(s0, item);
        }
    }

    fn sched_put(&mut self, t: BlockNumber, id: AuctionId)
        requires
            keys_unique(old(self).auction_end_time@),
        ensures
            keys_unique(final(self).auction_end_time@),
            forall|t2: BlockNumber, x: AuctionId| #[trigger]
                table_get(final(self).auction_end_time@, (t2, x)) == if t2 == t && x == id {
                    Some(())
                } else {
                    table_get(old(self).auction_end_time@, (t2, x))
                },
            Pallet::eq_but_schedule(*old(self), *final(self)),
    {
        let ghost s0 = self.auction_end_time@;
        let mut i: usize = 0;
        while i < self.auction_end_time.len()
            invariant
                *self == *old(self),
                i <= self.auction_end_time@.len(),
                self.auction_end_time@ == s0,
                keys_unique(s0),
                forall|j: int| 0 <= j < i ==> (#[trigger] s0[j]).0 != (t, id),
            decreases self.auction_end_time@.len() - i,
        {
            let key = self.auction_end_time[i].0;
            if key.0 == t && key.1 == id {
                proof {
                    lemma_get_at_index(s0, i as int);
                }
                return ;
            }
            i += 1;
        }
        proof {
            lemma_get_absent(s0, (t, id));
        }
        self.auction_end_time.push(((t, id), ()));
        proof {
            lemma_unique_push(s0, (t, id), ());
            assert forall|t2: BlockNumber, x: AuctionId| #[trigger]
                table_get(self.auction_end_time@, (t2, x)) == if (t2, x) == (t, id) {
                    Some(())
                } else {
                    table_get(s0, (t2, x))
                } by {
                lemma_get_push(s0, (t, id), (), (t2, x));
            }
        }
    }

    fn sched_del(&mut self, t: BlockNumber, id: AuctionId)
        requires
            keys_unique(old(self).auction_end_time@),
        ensures
            keys_unique(final(self).auction_end_time@),
            forall|t2: BlockNumber, x: AuctionId| #[trigger]
                table_get(final(self).auction_end_time@, (t2, x)) == if t2 == t && x == id {
                    None::<()>
                } else {
                    table_get(old(self).auction_end_time@, (t2, x))
                },
            Pallet::eq_but_schedule(*old(self), *final(self)),
    {
        let ghost s0 = self.auction_end_time@;
        let mut i: usize = 0;
        while i < self.auction_end_time.len()
            invariant
                *self == *old(self),
                i <= self.auction_end_time@.len(),
                self.auction_end_time@ == s0,
                keys_unique(s0),
                forall|j: int| 0 <= j < i ==> (#[trigger] s0[j]).0 != (t, id),
            decreases self.auction_end_time@.len() - i,
        {
            let key = self.auction_end_time[i].0;
            if key.0 == t && key.1 == id {
                self.auction_end_time.remove(i);
                proof {
                    assert forall|t2: BlockNumber, x: AuctionId| #[trigger]
                        table_get(self.auction_end_time@, (t2, x)) == if (t2, x) == (t, id) {
                            None::<()>
                        } else {
                            table_get(s0, (t2, x))
                        } by {
                        lemma_get_remove(s0, i as int, (t2, x));
                    }
                    lemma_get_remove(s0, i as int, (t, id));
                }
                return ;
            }
            i += 1;
        }
        proof {
            lemma_get_absent(s0, (t, id));
        }
    }

    fn authorized_put(&mut self, metaverse_id: MetaverseId, class_id: ClassId)
        requires
            keys_unique(old(self).authorized_collections@),
            !old(self).collection_authorized(metaverse_id, class_id),
        ensures
            keys_unique(final(self).authorized_collections@),
            forall|m: MetaverseId, c: ClassId| #[trigger]
                table_get(final(self).authorized_collections@, (m, c)) == if m == metaverse_id
                    && c == class_id {
                    Some(())
                } else {
                    table_get(old(self).authorized_collections@, (m, c))
                },
            Pallet::eq_but_authorized(*old(self), *final(self)),
    {
        let ghost s0 = self.authorized_collections@;
        proof {
            if exists|j: int| 0 <= j < s0.len() && (#[trigger] s0[j]).0 == (
            metaverse_id,
            class_id,
            ) {
                let j = choose|j: int|
                    0 <= j < s0.len() && (#[trigger] s0[j]).0 == (metaverse_id, class_id);
                lemma_get_at_index(s0, j);
            }
        }
        self.authorized_collections.push(((metaverse_id, class_id), ()));
        proof {
            assert forall|j: int| 0 <= j < s0.len() implies (#[trigger] s0[j]).0 != (
            metaverse_id,
            class_id,
            ) by {
                lemma_get_at_index(s0, j);
            }
            lemma_unique_push(s0, (metaverse_id, class_id), ());
            assert forall|m: MetaverseId, c: ClassId| #[trigger]
                table_get(self.authorized_collections@, (m, c)) == if (m, c) == (
                metaverse_id,
                class_id,
            ) {
                    Some(())
                } else {
                    table_get(s0, (m, c))
                } by {
                lemma_get_push(s0, (metaverse_id, class_id), (), (m, c));
            }
        }
    }

    fn authorized_del(&mut self, metaverse_id: MetaverseId, class_id: ClassId)
        requires
            keys_unique(old(self).authorized_collections@),
        ensures
            keys_unique(final(self).authorized_collections@),
            forall|m: MetaverseId, c: ClassId| #[trigger]
                table_get(final(self).authorized_collections@, (m, c)) == if m == metaverse_id
                    && c == class_id {
                    None::<()>
                } else {
                    table_get(old(self).authorized_collections@, (m, c))
                },
            Pallet::eq_but_authorized(*old(self), *final(self)),
    {
        let ghost s0 = self.authorized_collections@;
        let mut i: usize = 0;
        while i < self.authorized_collections.len()
            invariant
                *self == *old(self),
                i <= self.authorized_collections@.len(),
                self.authorized_collections@ == s0,
                keys_unique(s0),
                forall|j: int| 0 <= j < i ==> (#[trigger] s0[j]).0 != (metaverse_id, class_id),
            decreases self.authorized_collections@.len() - i,
        {
            let key = self.authorized_collections[i].0;
            if key.0 == metaverse_id && key.1 == class_id {
                self.authorized_collections.remove(i);
                proof {
                    assert forall|m: MetaverseId, c: ClassId| #[trigger]
                        table_get(self.authorized_collections@, (m, c)) == if (m, c) == (
                        metaverse_id,
                        class_id,
                    ) {
                            None::<()>
                        } else {
                            table_get(s0, (m, c))
                        } by {
                        lemma_get_remove(s0, i as int, (m, c));
                    }
                    lemma_get_remove(s0, i as int, (metaverse_id, class_id));
                }
                return ;
            }
            i += 1;
        }
        proof {
            lemma_get_absent(s0, (metaverse_id, class_id));
        }
    }

    fn events_push(&mut self, event: Event)
        ensures
            final(self).events_log() == old(self).events_log().push(event@),
            Pallet::eq_but_events(*old(self), *final(self)),
    {
        let ghost e0 = self.events@;
        self.events.push(event);
        proof {
            assert(self.events@.map_values(|e: Event| e@) =~= e0.map_values(|e: Event| e@).push(
                event@,
            ));
        }
    }

    /// When the registry collections are untouched, the invariant carries
    /// over.
    proof fn lemma_wf_same_registry(pre: Pallet, post: Pallet)
        requires
            pre.wf(),
            post.auction_infos == pre.auction_infos,
            post.auction_items == pre.auction_items,
            post.items_in_auction == pre.items_in_auction,
            post.auction_end_time == pre.auction_end_time,
            post.next_auction_id == pre.next_auction_id,
            keys_unique(post.authorized_collections@),
            post.ledger.wf(),
            post.assets.wf(),
        ensures
            post.wf(),
    {
        assert forall|item: ItemId| #[trigger] post.in_auction(item) implies exists|id: AuctionId|
            post.references(id, item) by {
            assert(pre.in_auction(item));
            let id = choose|id: AuctionId| pre.references(id, item);
            assert(post.references(id, item));
        }
        assert forall|id: AuctionId, item: ItemId| #[trigger]
            post.references(id, item) implies post.in_auction(item) by {
            assert(pre.references(id, item));
        }
        assert forall|id1: AuctionId, id2: AuctionId, item: ItemId|
            post.references(id1, item) && post.references(id2, item) implies id1 == id2 by {
            assert(pre.references(id1, item));
            assert(pre.references(id2, item));
        }
        assert forall|t: BlockNumber, id: AuctionId| #[trigger]
            post.sched_has(t, id) implies (post.auction_of(id) matches Some(a) && a.end == Some(
            t,
        )) by {
            assert(pre.sched_has(t, id));
        }
        assert forall|id: AuctionId|
            (#[trigger] post.auction_of(id)) is Some && post.auction_of(id).unwrap().end
                is Some implies post.sched_has(post.auction_of(id).unwrap().end.unwrap(), id) by {
            assert(post.auction_of(id) == pre.auction_of(id));
        }
        assert forall|id: AuctionId| #[trigger] post.auction_of(id) is Some implies id
            < post.next_id_of() by {
            assert(pre.auction_of(id) is Some);
        }
        assert forall|id: AuctionId| #[trigger] post.item_rec_of(id) is Some implies id
            < post.next_id_of() by {
            assert(pre.item_rec_of(id) is Some);
        }
    }

    // ------------------------------------------------------------------
    // Collection authorisation.
    // ------------------------------------------------------------------

    /// Whether `class_id` is authorised in `metaverse_id`.
    pub fn is_collection_authorized(&self, metaverse_id: MetaverseId, class_id: ClassId) -> (r:
        bool)
        requires
            self.wf(),
        ensures
            r == self.collection_authorized(metaverse_id, class_id),
    {
        let mut i: usize = 0;
        while i < self.authorized_collections.len()
            invariant
                i <= self.authorized_collections@.len(),
                keys_unique(self.authorized_collections@),
                forall|j: int|
                    0 <= j < i ==> (#[trigger] self.authorized_collections@[j]).0 != (
                    metaverse_id,
                    class_id,
                    ),
            decreases self.authorized_collections@.len() - i,
        {
            let key = self.authorized_collections[i].0;
            if key.0 == metaverse_id && key.1 == class_id {
                proof {
                    lemma_get_at_index(self.authorized_collections@, i as int);
                }
                return true;
            }
            i += 1;
        }
        proof {
            lemma_get_absent(self.authorized_collections@, (metaverse_id, class_id));
        }
        false
    }

    /// Grants `class_id` blanket permission to be listed in
    /// `metaverse_id`'s local marketplace.  Only the metaverse owner may
    /// grant it, and granting twice is an error.
    pub fn authorise_metaverse_collection(
        &mut self,
        from: AccountId,
        class_id: ClassId,
        metaverse_id: MetaverseId,
    ) -> (r: Result<(), Error>)
        requires
            old(self).wf(),
        ensures
            final(self).wf(),
            !old(self).assets_of().owns_metaverse(from, metaverse_id) ==> r == Err::<(), Error>(
                Error::NoPermissionToAuthoriseCollection,
            ) && *final(self) == *old(self),
            old(self).assets_of().owns_metaverse(from, metaverse_id) && old(
                self,
            ).collection_authorized(metaverse_id, class_id) ==> r == Err::<(), Error>(
                Error::CollectionAlreadyAuthorised,
            ) && *final(self) == *old(self),
            old(self).assets_of().owns_metaverse(from, metaverse_id) && !old(
                self,
            ).collection_authorized(metaverse_id, class_id) ==> {
                &&& r == Ok::<(), Error>(())
                &&& final(self).collection_authorized(metaverse_id, class_id)
                &&& forall|m: MetaverseId, c: ClassId|
                    (m != metaverse_id || c != class_id) ==> #[trigger] final(self).collection_authorized(m, c) == old(self).collection_authorized(m, c)
                &&& Pallet::same_auctions(*old(self), *final(self))
                &&& Pallet::same_item_records(*old(self), *final(self))
                &&& Pallet::same_membership(*old(self), *final(self))
                &&& Pallet::same_schedule(*old(self), *final(self))
                &&& Pallet::same_balances(*old(self), *final(self))
                &&& Pallet::same_assets(*old(self), *final(self))
                &&& Pallet::same_meta(*old(self), *final(self))
                &&& final(self).events_log() == old(self).events_log().push(
                    EventView::CollectionAuthorizedInMetaverse(class_id, metaverse_id),
                )
            },
    {
        if !self.assets.check_metaverse_ownership(from, metaverse_id) {
            return Err(Error::NoPermissionToAuthoriseCollection);
        }
        if self.is_collection_authorized(metaverse_id, class_id) {
            return Err(Error::CollectionAlreadyAuthorised);
        }
        self.authorized_put(metaverse_id, class_id);
        self.events_push(Event::CollectionAuthorizedInMetaverse(class_id, metaverse_id));
        proof {
            Pallet::lemma_wf_same_registry(*old(self), *self);
        }
        Ok(())
    }

    /// Withdraws a collection's authorisation in a metaverse.  Only the
    /// metaverse owner may withdraw it, and it must be in force.
    pub fn remove_authorise_metaverse_collection(
        &mut self,
        from: AccountId,
        class_id: ClassId,
        metaverse_id: MetaverseId,
    ) -> (r: Result<(), Error>)
        requires
            old(self).wf(),
        ensures
            final(self).wf(),
            !old(self).assets_of().owns_metaverse(from, metaverse_id) ==> r == Err::<(), Error>(
                Error::NoPermissionToAuthoriseCollection,
            ) && *final(self) == *old(self),
            old(self).assets_of().owns_metaverse(from, metaverse_id) && !old(
                self,
            ).collection_authorized(metaverse_id, class_id) ==> r == Err::<(), Error>(
                Error::CollectionIsNotAuthorised,
            ) && *final(self) == *old(self),
            old(self).assets_of().owns_metaverse(from, metaverse_id) && old(
                self,
            ).collection_authorized(metaverse_id, class_id) ==> {
                &&& r == Ok::<(), Error>(())
                &&& !final(self).collection_authorized(metaverse_id, class_id)
                &&& forall|m: MetaverseId, c: ClassId|
                    (m != metaverse_id || c != class_id) ==> #[trigger] final(self).collection_authorized(m, c) == old(self).collection_authorized(m, c)
                &&& Pallet::same_auctions(*old(self), *final(self))
                &&& Pallet::same_item_records(*old(self), *final(self))
                &&& Pallet::same_membership(*old(self), *final(self))
                &&& Pallet::same_schedule(*old(self), *final(self))
                &&& Pallet::same_balances(*old(self), *final(self))
                &&& Pallet::same_assets(*old(self), *final(self))
                &&& Pallet::same_meta(*old(self), *final(self))
                &&& final(self).events_log() == old(self).events_log().push(
                    EventView::CollectionAuthorizationRemoveInMetaverse(class_id, metaverse_id),
                )
            },
    {
        if !self.assets.check_metaverse_ownership(from, metaverse_id) {
            return Err(Error::NoPermissionToAuthoriseCollection);
        }
        if !self.is_collection_authorized(metaverse_id, class_id) {
            return Err(Error::CollectionIsNotAuthorised);
        }
        self.authorized_del(metaverse_id, class_id);
        self.events_push(Event::CollectionAuthorizationRemoveInMetaverse(class_id, metaverse_id));
        proof {
            Pallet::lemma_wf_same_registry(*old(self), *self);
        }
        Ok(())
    }

    // ------------------------------------------------------------------
    // Registry operations.
    // ------------------------------------------------------------------

    /// Allocates a fresh auction identifier and writes an empty bidding
    /// record for it; fails only when the identifier space is exhausted.
    /// The listing record is the caller's to write.
    pub fn new_auction(
        &mut self,
        _recipient: AccountId,
        _initial_amount: Balance,
        start: BlockNumber,
        end: Option<BlockNumber>,
    ) -> (r: Result<AuctionId, Error>)
        requires
            old(self).wf(),
        ensures
            final(self).wf(),
            old(self).next_id_of() == u64::MAX ==> r == Err::<AuctionId, Error>(
                Error::NoAvailableAuctionId,
            ) && *final(self) == *old(self),
            old(self).next_id_of() < u64::MAX ==> {
                let id = old(self).next_id_of();
                &&& r == Ok::<AuctionId, Error>(id)
                &&& final(self).next_id_of() == id + 1
                &&& final(self).auction_of(id) == Some(AuctionInfo { bid: None, start, end })
                &&& forall|x: AuctionId|
                    x != id ==> #[trigger] final(self).auction_of(x) == old(self).auction_of(x)
                &&& forall|t: BlockNumber, x: AuctionId| #[trigger]
                    final(self).sched_has(t, x) == ((x == id && end == Some(t)) || old(
                        self,
                    ).sched_has(t, x))
                &&& Pallet::same_item_records(*old(self), *final(self))
                &&& Pallet::same_membership(*old(self), *final(self))
                &&& Pallet::same_authorized(*old(self), *final(self))
                &&& Pallet::same_balances(*old(self), *final(self))
                &&& Pallet::same_assets(*old(self), *final(self))
                &&& Pallet::same_events(*old(self), *final(self))
                &&& final(self).config_of() == old(self).config_of()
                &&& final(self).time_of() == old(self).time_of()
            },
    {
        if self.next_auction_id == u64::MAX {
            return Err(Error::NoAvailableAuctionId);
        }
        let id = self.next_auction_id;
        self.next_auction_id = id + 1;
        let info = AuctionInfo { bid: None, start, end };
        self.auctions_put(id, info);
        match end {
            Some(end_block) => {
                self.sched_put(end_block, id);
            },
            None => {},
        }
        proof {
            let pre = *old(self);
            let post = *self;
            assert(!pre.live(id));
            assert(pre.item_rec_of(id) is None);
            assert forall|t: BlockNumber, x: AuctionId| #[trigger]
                pre.sched_has(t, x) implies x != id by {}
            assert forall|item: ItemId| #[trigger] post.in_auction(item) implies exists|
                x: AuctionId,
            | post.references(x, item) by {
                assert(pre.in_auction(item));
                let x = choose|x: AuctionId| pre.references(x, item);
                assert(post.references(x, item));
            }
            assert forall|x: AuctionId, item: ItemId| #[trigger]
                post.references(x, item) implies post.in_auction(item) by {
                assert(x != id);
                assert(pre.references(x, item));
            }
            assert forall|x1: AuctionId, x2: AuctionId, item: ItemId|
                post.references(x1, item) && post.references(x2, item) implies x1 == x2 by {
                assert(x1 != id && x2 != id);
                assert(pre.references(x1, item));
                assert(pre.references(x2, item));
            }
            assert forall|t: BlockNumber, x: AuctionId| #[trigger]
                post.sched_has(t, x) implies (post.auction_of(x) matches Some(a) && a.end == Some(
                t,
            )) by {
                if !(x == id && end == Some(t)) {
                    assert(pre.sched_has(t, x));
                }
            }
            assert forall|x: AuctionId|
                (#[trigger] post.auction_of(x)) is Some && post.auction_of(x).unwrap().end
                    is Some implies post.sched_has(post.auction_of(x).unwrap().end.unwrap(), x) by {
                if x != id {
                    assert(post.auction_of(x) == pre.auction_of(x));
                }
            }
            assert forall|x: AuctionId| #[trigger] post.auction_of(x) is Some implies x
                < post.next_id_of() by {
                if x != id {
                    assert(pre.auction_of(x) is Some);
                }
            }
            assert forall|x: AuctionId| #[trigger] post.item_rec_of(x) is Some implies x
                < post.next_id_of() by {
                assert(pre.item_rec_of(x) is Some);
            }
        }
        Ok(id)
    }

    /// Replaces the bidding record of a live auction, relocating its
    /// end-time index entry when the deadline moved.
    pub fn update_auction(&mut self, id: AuctionId, info: AuctionInfo) -> (r: Result<(), Error>)
        requires
            old(self).wf(),
        ensures
            final(self).wf(),
            old(self).auction_of(id) is None ==> r == Err::<(), Error>(Error::AuctionNotExist)
                && *final(self) == *old(self),
            old(self).auction_of(id) is Some ==> {
                &&& r == Ok::<(), Error>(())
                &&& final(self).auction_of(id) == Some(info)
                &&& forall|x: AuctionId|
                    x != id ==> #[trigger] final(self).auction_of(x) == old(self).auction_of(x)
                &&& forall|t: BlockNumber, x: AuctionId| #[trigger]
                    final(self).sched_has(t, x) == if x == id {
                        info.end == Some(t)
                    } else {
                        old(self).sched_has(t, x)
                    }
                &&& Pallet::same_item_records(*old(self), *final(self))
                &&& Pallet::same_membership(*old(self), *final(self))
                &&& Pallet::same_authorized(*old(self), *final(self))
                &&& Pallet::same_balances(*old(self), *final(self))
                &&& Pallet::same_assets(*old(self), *final(self))
                &&& Pallet::same_events(*old(self), *final(self))
                &&& Pallet::same_meta(*old(self), *final(self))
            },
    {
        let found = self.auctions_find(id);
        match found {
            None => Err(Error::AuctionNotExist),
            Some(i) => {
                let auction = self.auction_infos[i].1;
                match auction.end {
                    Some(old_end) => {
                        self.sched_del(old_end, id);
                    },
                    None => {},
                }
                match info.end {
                    Some(new_end) => {
                        self.sched_put(new_end, id);
                    },
                    None => {},
                }
                self.auctions_put(id, info);
                proof {
                    let pre = *old(self);
                    let post = *self;
                    assert forall|t: BlockNumber, x: AuctionId| #[trigger]
                        pre.sched_has(t, x) && x == id implies auction.end == Some(t) by {}
                    assert forall|item: ItemId| #[trigger] post.in_auction(item) implies exists|
                        x: AuctionId,
                    | post.references(x, item) by {
                        assert(pre.in_auction(item));
                        let x = choose|x: AuctionId| pre.references(x, item);
                        assert(post.references(x, item));
                    }
                    assert forall|x: AuctionId, item: ItemId| #[trigger]
                        post.references(x, item) implies post.in_auction(item) by {
                        assert(pre.references(x, item));
                    }
                    assert forall|x1: AuctionId, x2: AuctionId, item: ItemId|
                        post.references(x1, item) && post.references(x2, item) implies x1
                        == x2 by {
                        assert(pre.references(x1, item));
                        assert(pre.references(x2, item));
                    }
                    assert forall|t: BlockNumber, x: AuctionId| #[trigger]
                        post.sched_has(t, x) implies (post.auction_of(x) matches Some(a) && a.end
                        == Some(t)) by {
                        if x != id {
                            assert(pre.sched_has(t, x));
                        } else {
                            if info.end != Some(t) {
                                assert(pre.sched_has(t, id));
                                assert(false);
                            }
                        }
                    }
                    assert forall|x: AuctionId|
                        (#[trigger] post.auction_of(x)) is Some && post.auction_of(
                            x,
                        ).unwrap().end is Some implies post.sched_has(
                        post.auction_of(x).unwrap().end.unwrap(),
                        x,
                    ) by {
                        if x != id {
                            assert(post.auction_of(x) == pre.auction_of(x));
                        }
                    }
                    assert forall|x: AuctionId| #[trigger] post.auction_of(x) is Some implies x
                        < post.next_id_of() by {
                        if x != id {
                            assert(pre.auction_of(x) is Some);
                        } else {
                            assert(pre.auction_of(id) is Some);
                        }
                    }
                    assert forall|x: AuctionId| #[trigger] post.item_rec_of(x) is Some implies x
                        < post.next_id_of() by {
                        assert(pre.item_rec_of(x) is Some);
                    }
                }
                Ok(())
            },
        }
    }

    /// Removes a live listing as one unit: the end-time index entry, the
    /// bidding record and the item's membership.  A listing whose record
    /// has no deadline, or an identifier already removed, is left alone.
    /// The listing record itself survives so settlement can still read it.
    pub fn remove_auction(&mut self, id: AuctionId, item_id: ItemId)
        requires
            old(self).wf(),
            old(self).live(id) ==> match old(self).item_rec_of(id) {
                Some(it) => it.item_id == item_id,
                None => !old(self).in_auction(item_id),
            },
        ensures
            final(self).wf(),
            (old(self).auction_of(id) is None || (old(self).auction_of(id) matches Some(a)
                && a.end is None)) ==> *final(self) == *old(self),
            (old(self).auction_of(id) matches Some(a) && a.end is Some) ==> {
                &&& !final(self).live(id)
                &&& forall|x: AuctionId|
                    x != id ==> #[trigger] final(self).auction_of(x) == old(self).auction_of(x)
                &&& !final(self).in_auction(item_id)
                &&& forall|x: ItemId|
                    x != item_id ==> #[trigger] final(self).in_auction(x) == old(self).in_auction(
                        x,
                    )
                &&& forall|t: BlockNumber, x: AuctionId| #[trigger]
                    final(self).sched_has(t, x) == (old(self).sched_has(t, x) && x != id)
                &&& Pallet::same_item_records(*old(self), *final(self))
                &&& Pallet::same_authorized(*old(self), *final(self))
                &&& Pallet::same_balances(*old(self), *final(self))
                &&& Pallet::same_assets(*old(self), *final(self))
                &&& Pallet::same_events(*old(self), *final(self))
                &&& Pallet::same_meta(*old(self), *final(self))
            },
    {
        let found = self.auctions_find(id);
        match found {
            Some(i) => {
                let auction = self.auction_infos[i].1;
                match auction.end {
                    Some(end_block) => {
                        self.sched_del(end_block, id);
                        self.auctions_del(id);
                        self.membership_del(item_id);
                        proof {
                            let pre = *old(self);
                            let post = *self;
                            assert forall|item: ItemId| #[trigger]
                                post.in_auction(item) implies exists|x: AuctionId|
                                post.references(x, item) by {
                                assert(pre.in_auction(item));
                                let x = choose|x: AuctionId| pre.references(x, item);
                                if x == id {
                                    assert(pre.item_rec_of(id) matches Some(it) && it.item_id
                                        == item_id);
                                    assert(item == item_id);
                                    assert(false);
                                }
                                assert(post.references(x, item));
                            }
                            assert forall|x: AuctionId, item: ItemId| #[trigger]
                                post.references(x, item) implies post.in_auction(item) by {
                                assert(x != id);
                                assert(pre.references(x, item));
                                if item == item_id {
                                    if pre.item_rec_of(id) matches Some(it) {
                                        assert(pre.references(id, item_id));
                                        assert(x == id);
                                        assert(false);
                                    } else {
                                        assert(!pre.in_auction(item_id));
                                        assert(false);
                                    }
                                }
                            }
                            assert forall|x1: AuctionId, x2: AuctionId, item: ItemId|
                                post.references(x1, item) && post.references(x2, item) implies x1
                                == x2 by {
                                assert(pre.references(x1, item));
                                assert(pre.references(x2, item));
                            }
                            assert forall|t: BlockNumber, x: AuctionId| #[trigger]
                                post.sched_has(t, x) implies (post.auction_of(x) matches Some(a)
                                && a.end == Some(t)) by {
                                assert(pre.sched_has(t, x));
                                assert(x != id);
                            }
                            assert forall|x: AuctionId|
                                (#[trigger] post.auction_of(x)) is Some && post.auction_of(
                                    x,
                                ).unwrap().end is Some implies post.sched_has(
                                post.auction_of(x).unwrap().end.unwrap(),
                                x,
                            ) by {
                                if x != id {
                                    assert(post.auction_of(x) == pre.auction_of(x));
                                }
                            }
                            assert forall|x: AuctionId| #[trigger]
                                post.auction_of(x) is Some implies x < post.next_id_of() by {
                                assert(pre.auction_of(x) is Some);
                            }
                            assert forall|x: AuctionId| #[trigger]
                                post.item_rec_of(x) is Some implies x < post.next_id_of() by {
                                assert(pre.item_rec_of(x) is Some);
                            }
                        }
                    },
                    None => {},
                }
            },
            None => {},
        }
    }

    // ------------------------------------------------------------------
    // Listing creation.
    // ------------------------------------------------------------------

    /// What a successful creation writes: a fresh identifier, an empty
    /// bidding record with the given window, the listing record, the
    /// item's membership, one index entry and one notification.
    pub open spec fn spec_created(
        pre: Pallet,
        post: Pallet,
        r: Result<AuctionId, Error>,
        auction_type: AuctionType,
        item_id: ItemId,
        recipient: AccountId,
        initial_amount: Balance,
        end_time: BlockNumber,
        stored_level: ListingLevelView,
        event_level: ListingLevelView,
    ) -> bool {
        let id = pre.next_id_of();
        &&& r == Ok::<AuctionId, Error>(id)
        &&& post.next_id_of() == id + 1
        &&& post.auction_of(id) == Some(
            AuctionInfo { bid: None, start: pre.time_of(), end: Some(end_time) },
        )
        &&& forall|x: AuctionId|
            x != id ==> #[trigger] post.auction_of(x) == pre.auction_of(x)
        &&& post.item_rec_of(id) == Some(
            AuctionItemView {
                item_id,
                recipient,
                initial_amount,
                amount: initial_amount,
                start_time: pre.time_of(),
                end_time,
                auction_type,
                listing_level: stored_level,
                currency_id: FungibleTokenId::NativeToken(0),
            },
        )
        &&& forall|x: AuctionId|
            x != id ==> #[trigger] post.item_rec_of(x) == pre.item_rec_of(x)
        &&& post.in_auction(item_id)
        &&& forall|x: ItemId| x != item_id ==> #[trigger] post.in_auction(x) == pre.in_auction(x)
        &&& forall|t: BlockNumber, x: AuctionId| #[trigger]
            post.sched_has(t, x) == ((x == id && t == end_time) || pre.sched_has(t, x))
        &&& Pallet::same_authorized(pre, post)
        &&& Pallet::same_balances(pre, post)
        &&& Pallet::same_assets(pre, post)
        &&& post.events_log() == pre.events_log().push(
            EventView::NewAuctionItem(
                id,
                recipient,
                event_level,
                initial_amount,
                initial_amount,
                end_time,
            ),
        )
        &&& post.config_of() == pre.config_of()
        &&& post.time_of() == pre.time_of()
    }

    /// Writes the four pieces of a new listing as one unit.
    fn create_listing(
        &mut self,
        auction_type: AuctionType,
        item_id: ItemId,
        recipient: AccountId,
        initial_amount: Balance,
        end_time: BlockNumber,
        level_for_record: ListingLevel,
        level_for_event: ListingLevel,
    ) -> (r: Result<AuctionId, Error>)
        requires
            old(self).wf(),
            !old(self).in_auction(item_id),
        ensures
            final(self).wf(),
            old(self).next_id_of() == u64::MAX ==> r == Err::<AuctionId, Error>(
                Error::NoAvailableAuctionId,
            ) && *final(self) == *old(self),
            old(self).next_id_of() < u64::MAX ==> Pallet::spec_created(
                *old(self),
                *final(self),
                r,
                auction_type,
                item_id,
                recipient,
                initial_amount,
                end_time,
                level_for_record@,
                level_for_event@,
            ),
    {
        let start_time = self.now;
        let id = match self.new_auction(recipient, initial_amount, start_time, Some(end_time)) {
            Ok(id) => id,
            Err(e) => {
                return Err(e);
            },
        };
        let ghost m1 = *self;
        let record = AuctionItem {
            item_id,
            recipient,
            initial_amount,
            amount: initial_amount,
            start_time,
            end_time,
            auction_type,
            listing_level: level_for_record,
            currency_id: crate::types::native_currency(),
        };
        let ghost record_view = record@;
        self.items_put(id, record);
        self.events_push(
            Event::NewAuctionItem(
                id,
                recipient,
                level_for_event,
                initial_amount,
                initial_amount,
                end_time,
            ),
        );
        self.membership_put(item_id);
        proof {
            let pre = *old(self);
            let post = *self;
            assert forall|x: AuctionId| true implies #[trigger] post.auction_of(x)
                == m1.auction_of(x) by {}
            assert forall|t: BlockNumber, x: AuctionId| true implies #[trigger] post.sched_has(
                t,
                x,
            ) == m1.sched_has(t, x) by {}
            assert(post.item_rec_of(id) == Some(record_view));
            assert forall|x: AuctionId| x != id implies #[trigger] post.item_rec_of(x)
                == m1.item_rec_of(x) by {}
            assert(post.in_auction(item_id));
            assert forall|x: ItemId| x != item_id implies #[trigger] post.in_auction(x)
                == m1.in_auction(x) by {}
            assert(m1.item_rec_of(id) is None);
            assert forall|m: MetaverseId, c: ClassId| true implies #[trigger]
                post.collection_authorized(m, c) == pre.collection_authorized(m, c) by {
                assert(m1.collection_authorized(m, c) == pre.collection_authorized(m, c));
            }
            assert forall|cur: FungibleTokenId, who: AccountId| true implies #[trigger]
                post.ledger_of().entry_of(cur, who) == pre.ledger_of().entry_of(cur, who) by {
                assert(m1.ledger_of().entry_of(cur, who) == pre.ledger_of().entry_of(cur, who));
            }
            assert forall|x: ItemId| true implies #[trigger] post.assets_of().entry_of(x)
                == pre.assets_of().entry_of(x) by {
                assert(m1.assets_of().entry_of(x) == pre.assets_of().entry_of(x));
            }
            assert forall|m: MetaverseId| true implies #[trigger] post.assets_of().metaverse_owner(
                m,
            ) == pre.assets_of().metaverse_owner(m) by {
                assert(m1.assets_of().metaverse_owner(m) == pre.assets_of().metaverse_owner(m));
            }
            assert(post.config_of() == m1.config_of());
            assert(post.time_of() == m1.time_of());
            assert(post.next_id_of() == m1.next_id_of());
            // the invariant, clause by clause
            assert forall|item: ItemId| #[trigger] post.in_auction(item) implies exists|
                x: AuctionId,
            | post.references(x, item) by {
                if item == item_id {
                    assert(post.references(id, item));
                } else {
                    assert(m1.in_auction(item));
                    assert(pre.in_auction(item));
                    let x = choose|x: AuctionId| pre.references(x, item);
                    assert(!pre.live(id));
                    assert(m1.auction_of(x) == pre.auction_of(x));
                    assert(m1.item_rec_of(x) == pre.item_rec_of(x));
                    assert(post.references(x, item));
                }
            }
            assert forall|x: AuctionId, item: ItemId| #[trigger]
                post.references(x, item) implies post.in_auction(item) by {
                if x != id {
                    assert(m1.item_rec_of(x) == pre.item_rec_of(x));
                    assert(m1.auction_of(x) == pre.auction_of(x));
                    assert(pre.references(x, item));
                    assert(pre.in_auction(item));
                }
            }
            assert forall|x1: AuctionId, x2: AuctionId, item: ItemId|
                post.references(x1, item) && post.references(x2, item) implies x1 == x2 by {
                if x1 != id && x2 != id {
                    assert(m1.auction_of(x1) == pre.auction_of(x1));
                    assert(m1.auction_of(x2) == pre.auction_of(x2));
                    assert(m1.item_rec_of(x1) == pre.item_rec_of(x1));
                    assert(m1.item_rec_of(x2) == pre.item_rec_of(x2));
                    assert(pre.references(x1, item));
                    assert(pre.references(x2, item));
                } else if x1 == id && x2 != id {
                    assert(m1.auction_of(x2) == pre.auction_of(x2));
                    assert(m1.item_rec_of(x2) == pre.item_rec_of(x2));
                    assert(pre.references(x2, item));
                    assert(pre.in_auction(item));
                    assert(item == item_id);
                    assert(false);
                } else if x1 != id && x2 == id {
                    assert(m1.auction_of(x1) == pre.auction_of(x1));
                    assert(m1.item_rec_of(x1) == pre.item_rec_of(x1));
                    assert(pre.references(x1, item));
                    assert(pre.in_auction(item));
                    assert(item == item_id);
                    assert(false);
                }
            }
            assert forall|t: BlockNumber, x: AuctionId| #[trigger]
                post.sched_has(t, x) implies (post.auction_of(x) matches Some(a) && a.end == Some(
                t,
            )) by {
                assert(m1.sched_has(t, x));
            }
            assert forall|x: AuctionId|
                (#[trigger] post.auction_of(x)) is Some && post.auction_of(x).unwrap().end
                    is Some implies post.sched_has(post.auction_of(x).unwrap().end.unwrap(), x) by {
                assert(m1.auction_of(x) == post.auction_of(x));
            }
            assert forall|x: AuctionId| #[trigger] post.auction_of(x) is Some implies x
                < post.next_id_of() by {
                assert(m1.auction_of(x) is Some);
            }
            assert forall|x: AuctionId| #[trigger] post.item_rec_of(x) is Some implies x
                < post.next_id_of() by {
                if x != id {
                    assert(m1.item_rec_of(x) is Some);
                }
            }
            assert(post.events_log() =~= pre.events_log().push(
                EventView::NewAuctionItem(
                    id,
                    recipient,
                    level_for_event@,
                    initial_amount,
                    initial_amount,
                    end_time,
                ),
            ));
        }
        Ok(id)
    }

    /// Creates a listing for `item_id`, validating eligibility with the
    /// asset registries: the seller must own a transferable NFT (with the
    /// local-marketplace gate for `Local` listings), an estate or land
    /// unit must exist, a spot is taken as offered, and `Country`/`Block`
    /// kinds are rejected.  The deadline is `end` where given and honoured
    /// (NFT listings), and the configured default length otherwise.
    pub fn create_auction(
        &mut self,
        auction_type: AuctionType,
        item_id: ItemId,
        end: Option<BlockNumber>,
        recipient: AccountId,
        initial_amount: Balance,
        _start: BlockNumber,
        listing_level: ListingLevel,
    ) -> (r: Result<AuctionId, Error>)
        requires
            old(self).wf(),
            (match item_id {
                ItemId::NFT(_, _) => end is None,
                ItemId::Spot(_, _) => true,
                ItemId::Estate(_) => old(self).assets_of().entry_of(item_id) is Some,
                ItemId::LandUnit(_, _, _) => old(self).assets_of().entry_of(item_id) is Some,
                _ => false,
            }) ==> old(self).time_of() + old(self).config_of().auction_time_to_close
                <= u64::MAX,
        ensures
            final(self).wf(),
            r is Err ==> *final(self) == *old(self),
            ({
                let pre = *old(self);
                let post = *final(self);
                let default_end = (pre.time_of() + pre.config_of().auction_time_to_close) as u64;
                if pre.in_auction(item_id) {
                    r == Err::<AuctionId, Error>(Error::ItemAlreadyInAuction)
                } else {
                    match item_id {
                        ItemId::NFT(class_id, _token_id) => {
                            if pre.assets_of().entry_of(item_id) is None {
                                r == Err::<AuctionId, Error>(Error::AssetIsNotExist)
                            } else if pre.assets_of().entry_of(item_id).unwrap().owner
                                != recipient {
                                r == Err::<AuctionId, Error>(Error::NoPermissionToCreateAuction)
                            } else if !pre.assets_of().entry_of(item_id).unwrap().transferable {
                                r == Err::<AuctionId, Error>(Error::NoPermissionToCreateAuction)
                            } else if (listing_level@ matches ListingLevelView::Local(m)
                                && !(pre.collection_authorized(m, class_id) || pre.assets_of(
                            ).owns_metaverse(recipient, m))) {
                                r == Err::<AuctionId, Error>(Error::NoPermissionToCreateAuction)
                            } else if pre.next_id_of() == u64::MAX {
                                r == Err::<AuctionId, Error>(Error::NoAvailableAuctionId)
                            } else {
                                Pallet::spec_created(
                                    pre,
                                    post,
                                    r,
                                    auction_type,
                                    item_id,
                                    recipient,
                                    initial_amount,
                                    if end is Some {
                                        end.unwrap()
                                    } else {
                                        default_end
                                    },
                                    listing_level@,
                                    listing_level@,
                                )
                            }
                        },
                        ItemId::Spot(_, _) => {
                            if pre.next_id_of() == u64::MAX {
                                r == Err::<AuctionId, Error>(Error::NoAvailableAuctionId)
                            } else {
                                Pallet::spec_created(
                                    pre,
                                    post,
                                    r,
                                    auction_type,
                                    item_id,
                                    recipient,
                                    initial_amount,
                                    default_end,
                                    listing_level@,
                                    listing_level@,
                                )
                            }
                        },
                        ItemId::Estate(_) => {
                            if pre.assets_of().entry_of(item_id) is None {
                                r == Err::<AuctionId, Error>(Error::EstateDoesNotExist)
                            } else if pre.next_id_of() == u64::MAX {
                                r == Err::<AuctionId, Error>(Error::NoAvailableAuctionId)
                            } else {
                                Pallet::spec_created(
                                    pre,
                                    post,
                                    r,
                                    auction_type,
                                    item_id,
                                    recipient,
                                    initial_amount,
                                    default_end,
                                    ListingLevelView::Global,
                                    listing_level@,
                                )
                            }
                        },
                        ItemId::LandUnit(_, _, _) => {
                            if pre.assets_of().entry_of(item_id) is None {
                                r == Err::<AuctionId, Error>(Error::LandUnitDoesNotExist)
                            } else if pre.next_id_of() == u64::MAX {
                                r == Err::<AuctionId, Error>(Error::NoAvailableAuctionId)
                            } else {
                                Pallet::spec_created(
                                    pre,
                                    post,
                                    r,
                                    auction_type,
                                    item_id,
                                    recipient,
                                    initial_amount,
                                    default_end,
                                    ListingLevelView::Global,
                                    listing_level@,
                                )
                            }
                        },
                        _ => r == Err::<AuctionId, Error>(Error::AuctionTypeIsNotSupported),
                    }
                }
            }),
    {
        if self.check_item_in_auction(item_id) {
            return Err(Error::ItemAlreadyInAuction);
        }
        match item_id {
            ItemId::NFT(class_id, _token_id) => {
                let entry = match self.assets.lookup_item(item_id) {
                    Some(entry) => entry,
                    None => {
                        return Err(Error::AssetIsNotExist);
                    },
                };
                if entry.owner != recipient {
                    return Err(Error::NoPermissionToCreateAuction);
                }
                if !entry.transferable {
                    return Err(Error::NoPermissionToCreateAuction);
                }
                match &listing_level {
                    ListingLevel::Local(metaverse_id) => {
                        let authorized = self.is_collection_authorized(*metaverse_id, class_id);
                        if !(authorized || self.assets.check_metaverse_ownership(
                            recipient,
                            *metaverse_id,
                        )) {
                            return Err(Error::NoPermissionToCreateAuction);
                        }
                    },
                    _ => {},
                }
                let end_time = match end {
                    Some(end_block) => end_block,
                    None => self.now + self.config.auction_time_to_close,
                };
                let record_level = listing_level.duplicate();
                self.create_listing(
                    auction_type,
                    item_id,
                    recipient,
                    initial_amount,
                    end_time,
                    record_level,
                    listing_level,
                )
            },
            ItemId::Spot(_, _) => {
                let end_time = self.now + self.config.auction_time_to_close;
                let record_level = listing_level.duplicate();
                self.create_listing(
                    auction_type,
                    item_id,
                    recipient,
                    initial_amount,
                    end_time,
                    record_level,
                    listing_level,
                )
            },
            ItemId::Estate(_) => {
                if self.assets.lookup_item(item_id).is_none() {
                    return Err(Error::EstateDoesNotExist);
                }
                let end_time = self.now + self.config.auction_time_to_close;
                self.create_listing(
                    auction_type,
                    item_id,
                    recipient,
                    initial_amount,
                    end_time,
                    ListingLevel::Global,
                    listing_level,
                )
            },
            ItemId::LandUnit(_, _, _) => {
                if self.assets.lookup_item(item_id).is_none() {
                    return Err(Error::LandUnitDoesNotExist);
                }
                let end_time = self.now + self.config.auction_time_to_close;
                self.create_listing(
                    auction_type,
                    item_id,
                    recipient,
                    initial_amount,
                    end_time,
                    ListingLevel::Global,
                    listing_level,
                )
            },
            _ => Err(Error::AuctionTypeIsNotSupported),
        }
    }

    /// Lists an NFT for ascending bidding.  Only NFTs may be listed
    /// through this entry point, the deadline must leave at least the
    /// configured minimum duration, and the seller must be eligible as
    /// [`Pallet::create_auction`] demands.
    pub fn create_new_auction(
        &mut self,
        from: AccountId,
        item_id: ItemId,
        value: Balance,
        end_time: BlockNumber,
        listing_level: ListingLevel,
    ) -> (r: Result<(), Error>)
        requires
            old(self).wf(),
        ensures
            final(self).wf(),
            r is Err ==> *final(self) == *old(self),
            Pallet::spec_new_listing(
                *old(self),
                *final(self),
                r,
                AuctionType::Auction,
                from,
                item_id,
                value,
                end_time,
                listing_level@,
            ),
    {
        self.create_listing_checked(AuctionType::Auction, from, item_id, value, end_time, listing_level)
    }

    /// Lists an NFT at a fixed price, under the same gates as
    /// [`Pallet::create_new_auction`].
    pub fn create_new_buy_now(
        &mut self,
        from: AccountId,
        item_id: ItemId,
        value: Balance,
        end_time: BlockNumber,
        listing_level: ListingLevel,
    ) -> (r: Result<(), Error>)
        requires
            old(self).wf(),
        ensures
            final(self).wf(),
            r is Err ==> *final(self) == *old(self),
            Pallet::spec_new_listing(
                *old(self),
                *final(self),
                r,
                AuctionType::BuyNow,
                from,
                item_id,
                value,
                end_time,
                listing_level@,
            ),
    {
        self.create_listing_checked(AuctionType::BuyNow, from, item_id, value, end_time, listing_level)
    }

    /// What the public creation entry points do: their own gates, then
    /// the checks and effect of [`Pallet::create_auction`] with the given
    /// deadline.
    pub open spec fn spec_new_listing(
        pre: Pallet,
        post: Pallet,
        r: Result<(), Error>,
        auction_type: AuctionType,
        from: AccountId,
        item_id: ItemId,
        value: Balance,
        end_time: BlockNumber,
        level: ListingLevelView,
    ) -> bool {
        if !(item_id matches ItemId::NFT(_, _)) {
            r == Err::<(), Error>(Error::NoPermissionToCreateAuction)
        } else if end_time < pre.time_of() {
            r == Err::<(), Error>(Error::Overflow)
        } else if end_time - pre.time_of() < pre.config_of().minimum_auction_duration {
            r == Err::<(), Error>(Error::AuctionEndIsLessThanMinimumDuration)
        } else if pre.in_auction(item_id) {
            r == Err::<(), Error>(Error::ItemAlreadyInAuction)
        } else {
            match item_id {
                ItemId::NFT(class_id, _token_id) => {
                    if pre.assets_of().entry_of(item_id) is None {
                        r == Err::<(), Error>(Error::AssetIsNotExist)
                    } else if pre.assets_of().entry_of(item_id).unwrap().owner != from {
                        r == Err::<(), Error>(Error::NoPermissionToCreateAuction)
                    } else if !pre.assets_of().entry_of(item_id).unwrap().transferable {
                        r == Err::<(), Error>(Error::NoPermissionToCreateAuction)
                    } else if (level matches ListingLevelView::Local(m) && !(
                    pre.collection_authorized(m, class_id) || pre.assets_of().owns_metaverse(
                        from,
                        m,
                    ))) {
                        r == Err::<(), Error>(Error::NoPermissionToCreateAuction)
                    } else if pre.next_id_of() == u64::MAX {
                        r == Err::<(), Error>(Error::NoAvailableAuctionId)
                    } else {
                        r == Ok::<(), Error>(()) && Pallet::spec_created(
                            pre,
                            post,
                            Ok::<AuctionId, Error>(pre.next_id_of()),
                            auction_type,
                            item_id,
                            from,
                            value,
                            end_time,
                            level,
                            level,
                        )
                    }
                },
                _ => false,
            }
        }
    }

    /// The shared body of the public creation entry points.
    fn create_listing_checked(
        &mut self,
        auction_type: AuctionType,
        from: AccountId,
        item_id: ItemId,
        value: Balance,
        end_time: BlockNumber,
        listing_level: ListingLevel,
    ) -> (r: Result<(), Error>)
        requires
            old(self).wf(),
        ensures
            final(self).wf(),
            r is Err ==> *final(self) == *old(self),
            Pallet::spec_new_listing(
                *old(self),
                *final(self),
                r,
                auction_type,
                from,
                item_id,
                value,
                end_time,
                listing_level@,
            ),
    {
        let is_nft = matches!(item_id, ItemId::NFT(_, _));
        if !is_nft {
            return Err(Error::NoPermissionToCreateAuction);
        }
        let start_time = self.now;
        if end_time < start_time {
            return Err(Error::Overflow);
        }
        let remaining_time = end_time - start_time;
        if remaining_time < self.config.minimum_auction_duration {
            return Err(Error::AuctionEndIsLessThanMinimumDuration);
        }
        match self.create_auction(
            auction_type,
            item_id,
            Some(end_time),
            from,
            value,
            start_time,
            listing_level,
        ) {
            Ok(_id) => Ok(()),
            Err(e) => Err(e),
        }
    }

    // ------------------------------------------------------------------
    // Bidding.
    // ------------------------------------------------------------------

    /// The engine's built-in bid-acceptance hook: every bid is accepted
    /// and no deadline moves.
    pub fn on_new_bid(
        _now: BlockNumber,
        _id: AuctionId,
        _new_bid: (AccountId, Balance),
        _last_bid: Option<(AccountId, Balance)>,
    ) -> (r: OnNewBidResult)
        ensures
            r.accept_bid == true,
            r.auction_end_change == Change::NoChange,
    {
        OnNewBidResult { accept_bid: true, auction_end_change: Change::NoChange }
    }

    /// Notification that an auction ended; the built-in policy does
    /// nothing with it.
    pub fn on_auction_ended(_id: AuctionId, _winner: Option<(AccountId, Balance)>) {
    }

    /// A first reservation: `value` moves from `bidder`'s spendable
    /// balance into reservation and nothing else changes.
    pub open spec fn spec_escrow_fresh(
        currency: FungibleTokenId,
        l0: Ledger,
        l1: Ledger,
        bidder: AccountId,
        value: Balance,
    ) -> bool {
        &&& l1.free_of(currency, bidder) == l0.free_of(currency, bidder) - value
        &&& l1.reserved_of(currency, bidder) == l0.reserved_of(currency, bidder) + value
        &&& forall|c: FungibleTokenId, a: AccountId|
            (c != currency || a != bidder) ==> #[trigger] l1.entry_of(c, a) == l0.entry_of(c, a)
    }

    /// Replacing an earlier bid: the previous bidder's reservation for it
    /// is released (whatever of it is still reserved), then `value` is
    /// reserved for the new bidder.
    pub open spec fn spec_escrow_replace(
        currency: FungibleTokenId,
        l0: Ledger,
        l1: Ledger,
        prev_bidder: AccountId,
        prev_value: Balance,
        bidder: AccountId,
        value: Balance,
    ) -> bool {
        let moved = min_bal(prev_value, l0.reserved_of(currency, prev_bidder));
        if prev_bidder == bidder {
            &&& l1.reserved_of(currency, bidder) == l0.reserved_of(currency, bidder) - moved
                + value
            &&& l1.free_of(currency, bidder) == l0.free_of(currency, bidder) + moved - value
            &&& forall|c: FungibleTokenId, a: AccountId|
                (c != currency || a != bidder) ==> #[trigger] l1.entry_of(c, a) == l0.entry_of(
                    c,
                    a,
                )
        } else {
            &&& l1.reserved_of(currency, prev_bidder) == l0.reserved_of(currency, prev_bidder)
                - moved
            &&& l1.free_of(currency, prev_bidder) == l0.free_of(currency, prev_bidder) + moved
            &&& l1.reserved_of(currency, bidder) == l0.reserved_of(currency, bidder) + value
            &&& l1.free_of(currency, bidder) == l0.free_of(currency, bidder) - value
            &&& forall|c: FungibleTokenId, a: AccountId|
                (c != currency || (a != bidder && a != prev_bidder)) ==> #[trigger] l1.entry_of(
                    c,
                    a,
                ) == l0.entry_of(c, a)
        }
    }

    /// What accepting a bid does to the ledger, depending on whether a
    /// previous bid had funds reserved.
    pub open spec fn spec_escrow_update(
        currency: FungibleTokenId,
        l0: Ledger,
        l1: Ledger,
        last_bid: Option<(AccountId, Balance)>,
        bidder: AccountId,
        value: Balance,
    ) -> bool {
        match last_bid {
            None => Pallet::spec_escrow_fresh(currency, l0, l1, bidder, value),
            Some((prev_bidder, prev_value)) => {
                if prev_value == 0 {
                    Pallet::spec_escrow_fresh(currency, l0, l1, bidder, value)
                } else {
                    Pallet::spec_escrow_replace(
                        currency,
                        l0,
                        l1,
                        prev_bidder,
                        prev_value,
                        bidder,
                        value,
                    )
                }
            },
        }
    }

    /// Whether the bidder can cover `value` once the previous bid's
    /// reservation (their own, if they were the previous bidder) returns.
    pub open spec fn spec_escrow_possible(
        currency: FungibleTokenId,
        l0: Ledger,
        last_bid: Option<(AccountId, Balance)>,
        bidder: AccountId,
        value: Balance,
    ) -> bool {
        let back = match last_bid {
            Some((prev_bidder, prev_value)) => {
                if prev_bidder == bidder && prev_value > 0 {
                    min_bal(prev_value, l0.reserved_of(currency, prev_bidder)) as int
                } else {
                    0
                }
            },
            None => 0,
        };
        l0.free_of(currency, bidder) + back >= value
    }

    /// Releases the previous bid's reservation, reserves the new bid and
    /// records the new amount for sale, as one unit: on failure nothing
    /// changes.
    fn apply_bid_escrow(
        &mut self,
        currency: FungibleTokenId,
        id: AuctionId,
        bidder: AccountId,
        value: Balance,
        last_bid: Option<(AccountId, Balance)>,
    ) -> (r: Result<(), Error>)
        requires
            old(self).wf(),
            old(self).item_rec_of(id) is Some,
        ensures
            final(self).wf(),
            r is Err ==> *final(self) == *old(self),
            !Pallet::spec_escrow_possible(
                currency,
                old(self).ledger_of(),
                last_bid,
                bidder,
                value,
            ) ==> r == Err::<(), Error>(Error::InsufficientFreeBalance),
            Pallet::spec_escrow_possible(currency, old(self).ledger_of(), last_bid, bidder, value)
                ==> {
                &&& r == Ok::<(), Error>(())
                &&& Pallet::spec_escrow_update(
                    currency,
                    old(self).ledger_of(),
                    final(self).ledger_of(),
                    last_bid,
                    bidder,
                    value,
                )
                &&& final(self).item_rec_of(id) == Some(
                    AuctionItemView { amount: value, ..old(self).item_rec_of(id).unwrap() },
                )
                &&& forall|x: AuctionId|
                    x != id ==> #[trigger] final(self).item_rec_of(x) == old(self).item_rec_of(x)
                &&& Pallet::same_auctions(*old(self), *final(self))
                &&& Pallet::same_membership(*old(self), *final(self))
                &&& Pallet::same_schedule(*old(self), *final(self))
                &&& Pallet::same_authorized(*old(self), *final(self))
                &&& Pallet::same_assets(*old(self), *final(self))
                &&& Pallet::same_events(*old(self), *final(self))
                &&& Pallet::same_meta(*old(self), *final(self))
            },
    {
        // check that the reservation will go through before releasing
        // anything, so a failure leaves no partial state behind
        let free_now = self.ledger.free_balance(currency, bidder);
        let back: Balance = match last_bid {
            Some((prev_bidder, prev_value)) => {
                if prev_bidder == bidder && prev_value > 0 {
                    let reserved_prev = self.ledger.reserved_balance(currency, prev_bidder);
                    if prev_value <= reserved_prev {
                        prev_value
                    } else {
                        reserved_prev
                    }
                } else {
                    0
                }
            },
            None => 0,
        };
        if free_now < value && value - free_now > back {
            return Err(Error::InsufficientFreeBalance);
        }
        let item = match self.get_auction_item(id) {
            Some(item) => item,
            None => {
                proof {
                    assert(false);
                }
                return Err(Error::AuctionNotExist);
            },
        };
        match last_bid {
            Some((prev_bidder, prev_value)) => {
                if prev_value > 0 {
                    self.ledger.unreserve(currency, prev_bidder, prev_value);
                }
            },
            None => {},
        }
        let reserved_ok = self.ledger.reserve(currency, bidder, value);
        proof {
            assert(reserved_ok);
        }
        let updated = AuctionItem { amount: value, ..item };
        let ghost m1 = *self;
        self.items_put(id, updated);
        proof {
            let pre = *old(self);
            let post = *self;
            assert(post.item_rec_of(id) == Some(
                AuctionItemView { amount: value, ..pre.item_rec_of(id).unwrap() },
            ));
            assert forall|x: AuctionId| x != id implies #[trigger] post.item_rec_of(x)
                == pre.item_rec_of(x) by {}
            assert forall|item2: ItemId| #[trigger] post.in_auction(item2) implies exists|
                x: AuctionId,
            | post.references(x, item2) by {
                assert(pre.in_auction(item2));
                let x = choose|x: AuctionId| pre.references(x, item2);
                assert(post.references(x, item2));
            }
            assert forall|x: AuctionId, item2: ItemId| #[trigger]
                post.references(x, item2) implies post.in_auction(item2) by {
                assert(pre.references(x, item2));
            }
            assert forall|x1: AuctionId, x2: AuctionId, item2: ItemId|
                post.references(x1, item2) && post.references(x2, item2) implies x1 == x2 by {
                assert(pre.references(x1, item2));
                assert(pre.references(x2, item2));
            }
            assert forall|t: BlockNumber, x: AuctionId| #[trigger]
                post.sched_has(t, x) implies (post.auction_of(x) matches Some(a) && a.end == Some(
                t,
            )) by {
                assert(pre.sched_has(t, x));
            }
            assert forall|x: AuctionId|
                (#[trigger] post.auction_of(x)) is Some && post.auction_of(x).unwrap().end
                    is Some implies post.sched_has(post.auction_of(x).unwrap().end.unwrap(), x) by {
                assert(post.auction_of(x) == pre.auction_of(x));
            }
            assert forall|x: AuctionId| #[trigger] post.auction_of(x) is Some implies x
                < post.next_id_of() by {
                assert(pre.auction_of(x) is Some);
            }
            assert forall|x: AuctionId| #[trigger] post.item_rec_of(x) is Some implies x
                < post.next_id_of() by {
                if x != id {
                    assert(pre.item_rec_of(x) is Some);
                }
            }
        }
        Ok(())
    }

    /// Validates and applies a bid's escrow transition on the native
    /// ledger: the amount must be nonzero, the listing must exist, a
    /// `NetworkSpot` listing only admits bidders on its allow-list, and
    /// the bidder must be able to cover the amount.  On success the
    /// previous reservation is released, the new one established and the
    /// amount for sale updated; any failure leaves all state unchanged.
    pub fn auction_bid_handler(
        &mut self,
        _now: BlockNumber,
        id: AuctionId,
        new_bid: (AccountId, Balance),
        last_bid: Option<(AccountId, Balance)>,
    ) -> (r: Result<(), Error>)
        requires
            old(self).wf(),
        ensures
            final(self).wf(),
            r is Err ==> *final(self) == *old(self),
            ({
                let pre = *old(self);
                let native = FungibleTokenId::NativeToken(0);
                if new_bid.1 == 0 {
                    r == Err::<(), Error>(Error::InvalidBidPrice)
                } else if pre.item_rec_of(id) is None {
                    r == Err::<(), Error>(Error::AuctionNotExist)
                } else if (pre.item_rec_of(id).unwrap().listing_level matches
                    ListingLevelView::NetworkSpot(allowed) && !allowed.contains(new_bid.0)) {
                    r == Err::<(), Error>(Error::BidNotAccepted)
                } else if !Pallet::spec_escrow_possible(
                    native,
                    pre.ledger_of(),
                    last_bid,
                    new_bid.0,
                    new_bid.1,
                ) {
                    r == Err::<(), Error>(Error::InsufficientFreeBalance)
                } else {
                    &&& r == Ok::<(), Error>(())
                    &&& Pallet::spec_escrow_update(
                        native,
                        pre.ledger_of(),
                        final(self).ledger_of(),
                        last_bid,
                        new_bid.0,
                        new_bid.1,
                    )
                    &&& final(self).item_rec_of(id) == Some(
                        AuctionItemView { amount: new_bid.1, ..pre.item_rec_of(id).unwrap() },
                    )
                    &&& forall|x: AuctionId|
                        x != id ==> #[trigger] final(self).item_rec_of(x) == pre.item_rec_of(x)
                    &&& Pallet::same_auctions(pre, *final(self))
                    &&& Pallet::same_membership(pre, *final(self))
                    &&& Pallet::same_schedule(pre, *final(self))
                    &&& Pallet::same_authorized(pre, *final(self))
                    &&& Pallet::same_assets(pre, *final(self))
                    &&& Pallet::same_events(pre, *final(self))
                    &&& Pallet::same_meta(pre, *final(self))
                }
            }),
    {
        let (new_bidder, new_bid_price) = new_bid;
        if new_bid_price == 0 {
            return Err(Error::InvalidBidPrice);
        }
        let item = match self.get_auction_item(id) {
            Some(item) => item,
            None => {
                return Err(Error::AuctionNotExist);
            },
        };
        match &item.listing_level {
            ListingLevel::NetworkSpot(allowed_bidders) => {
                if !crate::types::accounts_contain(allowed_bidders, new_bidder) {
                    return Err(Error::BidNotAccepted);
                }
            },
            _ => {},
        }
        self.apply_bid_escrow(
            crate::types::native_currency(),
            id,
            new_bidder,
            new_bid_price,
            last_bid,
        )
    }

    /// The same escrow transition against the secondary fungible-token
    /// ledger selected by `social_currency_id`, for metaverse-local
    /// social-currency listings.  The allow-list rule applies to both
    /// escrow variants: a `NetworkSpot` listing only admits bidders on
    /// its list, checked before any balance movement.
    pub fn local_auction_bid_handler(
        &mut self,
        _now: BlockNumber,
        id: AuctionId,
        new_bid: (AccountId, Balance),
        last_bid: Option<(AccountId, Balance)>,
        social_currency_id: FungibleTokenId,
    ) -> (r: Result<(), Error>)
        requires
            old(self).wf(),
        ensures
            final(self).wf(),
            r is Err ==> *final(self) == *old(self),
            ({
                let pre = *old(self);
                if new_bid.1 == 0 {
                    r == Err::<(), Error>(Error::InvalidBidPrice)
                } else if pre.item_rec_of(id) is None {
                    r == Err::<(), Error>(Error::AuctionNotExist)
                } else if (pre.item_rec_of(id).unwrap().listing_level matches
                    ListingLevelView::NetworkSpot(allowed) && !allowed.contains(new_bid.0)) {
                    r == Err::<(), Error>(Error::BidNotAccepted)
                } else if !Pallet::spec_escrow_possible(
                    social_currency_id,
                    pre.ledger_of(),
                    last_bid,
                    new_bid.0,
                    new_bid.1,
                ) {
                    r == Err::<(), Error>(Error::InsufficientFreeBalance)
                } else {
                    &&& r == Ok::<(), Error>(())
                    &&& Pallet::spec_escrow_update(
                        social_currency_id,
                        pre.ledger_of(),
                        final(self).ledger_of(),
                        last_bid,
                        new_bid.0,
                        new_bid.1,
                    )
                    &&& final(self).item_rec_of(id) == Some(
                        AuctionItemView { amount: new_bid.1, ..pre.item_rec_of(id).unwrap() },
                    )
                    &&& forall|x: AuctionId|
                        x != id ==> #[trigger] final(self).item_rec_of(x) == pre.item_rec_of(x)
                    &&& Pallet::same_auctions(pre, *final(self))
                    &&& Pallet::same_membership(pre, *final(self))
                    &&& Pallet::same_schedule(pre, *final(self))
                    &&& Pallet::same_authorized(pre, *final(self))
                    &&& Pallet::same_assets(pre, *final(self))
                    &&& Pallet::same_events(pre, *final(self))
                    &&& Pallet::same_meta(pre, *final(self))
                }
            }),
    {
        let (new_bidder, new_bid_price) = new_bid;
        if new_bid_price == 0 {
            return Err(Error::InvalidBidPrice);
        }
        let item = match self.get_auction_item(id) {
            Some(item) => item,
            None => {
                return Err(Error::AuctionNotExist);
            },
        };
        match &item.listing_level {
            ListingLevel::NetworkSpot(allowed_bidders) => {
                if !crate::types::accounts_contain(allowed_bidders, new_bidder) {
                    return Err(Error::BidNotAccepted);
                }
            },
            _ => {},
        }
        self.apply_bid_escrow(social_currency_id, id, new_bidder, new_bid_price, last_bid)
    }

    /// Everything [`Pallet::bid`] checks and does, in the order it checks
    /// it: each error with exactly the inputs that cause it, and on
    /// success the recorded high bid, the new amount for sale, the escrow
    /// transition and one notification — nothing else.
    pub open spec fn spec_bid(
        pre: Pallet,
        post: Pallet,
        r: Result<(), Error>,
        from: AccountId,
        id: AuctionId,
        value: Balance,
    ) -> bool {
        let native = FungibleTokenId::NativeToken(0);
        if pre.item_rec_of(id) is None {
            r == Err::<(), Error>(Error::AuctionNotExist)
        } else {
            let it = pre.item_rec_of(id).unwrap();
            if it.auction_type != AuctionType::Auction {
                r == Err::<(), Error>(Error::InvalidAuctionType)
            } else if it.recipient == from {
                r == Err::<(), Error>(Error::SelfBidNotAccepted)
            } else if pre.auction_of(id) is None {
                r == Err::<(), Error>(Error::AuctionNotExist)
            } else {
                let a = pre.auction_of(id).unwrap();
                if pre.time_of() < a.start {
                    r == Err::<(), Error>(Error::AuctionNotStarted)
                } else if (a.end matches Some(end) && pre.time_of() >= end) {
                    r == Err::<(), Error>(Error::AuctionIsExpired)
                } else if (match a.bid {
                    Some(prev) => value <= prev.1,
                    None => value == 0,
                }) {
                    r == Err::<(), Error>(Error::InvalidBidPrice)
                } else if pre.ledger_of().free_of(native, from) < value {
                    r == Err::<(), Error>(Error::InsufficientFreeBalance)
                } else if (it.listing_level matches ListingLevelView::NetworkSpot(allowed)
                    && !allowed.contains(from)) {
                    r == Err::<(), Error>(Error::BidNotAccepted)
                } else {
                    &&& r == Ok::<(), Error>(())
                    &&& post.auction_of(id) == Some(
                        AuctionInfo { bid: Some((from, value)), start: a.start, end: a.end },
                    )
                    &&& forall|x: AuctionId|
                        x != id ==> #[trigger] post.auction_of(x) == pre.auction_of(x)
                    &&& post.item_rec_of(id) == Some(AuctionItemView { amount: value, ..it })
                    &&& forall|x: AuctionId|
                        x != id ==> #[trigger] post.item_rec_of(x) == pre.item_rec_of(x)
                    &&& Pallet::spec_escrow_update(
                        native,
                        pre.ledger_of(),
                        post.ledger_of(),
                        a.bid,
                        from,
                        value,
                    )
                    &&& Pallet::same_membership(pre, post)
                    &&& Pallet::same_schedule(pre, post)
                    &&& Pallet::same_authorized(pre, post)
                    &&& Pallet::same_assets(pre, post)
                    &&& Pallet::same_meta(pre, post)
                    &&& post.events_log() == pre.events_log().push(EventView::Bid(id, from, value))
                }
            }
        }
    }

    /// Places a bid on an `Auction`-type listing.  The listing must be
    /// running — a record without a deadline never expires, as on the
    /// fixed-price path — the bid strictly above the current one (nonzero
    /// if it is the first), the seller may not bid, the bidder must be
    /// admitted and able to cover the amount; then the previous bidder's
    /// escrow is released, the new bidder's established, and the high bid
    /// recorded, all as one unit.
    pub fn bid(&mut self, from: AccountId, id: AuctionId, value: Balance) -> (r: Result<
        (),
        Error,
    >)
        requires
            old(self).wf(),
        ensures
            final(self).wf(),
            r is Err ==> *final(self) == *old(self),
            Pallet::spec_bid(*old(self), *final(self), r, from, id, value),
    {
        let item = match self.get_auction_item(id) {
            Some(item) => item,
            None => {
                return Err(Error::AuctionNotExist);
            },
        };
        if item.auction_type != AuctionType::Auction {
            return Err(Error::InvalidAuctionType);
        }
        if item.recipient == from {
            return Err(Error::SelfBidNotAccepted);
        }
        let auction = match self.auction_info(id) {
            Some(auction) => auction,
            None => {
                return Err(Error::AuctionNotExist);
            },
        };
        let block_number = self.now;
        if block_number < auction.start {
            return Err(Error::AuctionNotStarted);
        }
        match auction.end {
            Some(auction_end) => {
                if block_number >= auction_end {
                    return Err(Error::AuctionIsExpired);
                }
            },
            None => {},
        }
        match auction.bid {
            Some(current_bid) => {
                if value <= current_bid.1 {
                    return Err(Error::InvalidBidPrice);
                }
            },
            None => {
                if value == 0 {
                    return Err(Error::InvalidBidPrice);
                }
            },
        }
        let bid_result = Pallet::on_new_bid(block_number, id, (from, value), auction.bid);
        if !bid_result.accept_bid {
            return Err(Error::BidNotAccepted);
        }
        if self.ledger.free_balance(crate::types::native_currency(), from) < value {
            return Err(Error::InsufficientFreeBalance);
        }
        match self.auction_bid_handler(block_number, id, (from, value), auction.bid) {
            Ok(()) => {},
            Err(e) => {
                return Err(e);
            },
        }
        let ghost m1 = *self;
        let new_info = AuctionInfo {
            bid: Some((from, value)),
            start: auction.start,
            end: auction.end,
        };
        self.auctions_put(id, new_info);
        self.events_push(Event::Bid(id, from, value));
        proof {
            let pre = *old(self);
            let post = *self;
            assert forall|x: AuctionId| x != id implies #[trigger] post.auction_of(x)
                == pre.auction_of(x) by {
                assert(m1.auction_of(x) == pre.auction_of(x));
            }
            assert(m1.auction_of(id) == pre.auction_of(id));
            assert(post.auction_of(id) == Some(new_info));
            assert forall|x: AuctionId| true implies #[trigger] post.item_rec_of(x)
                == m1.item_rec_of(x) by {}
            assert forall|x: ItemId| true implies #[trigger] post.in_auction(x) == pre.in_auction(
                x,
            ) by {
                assert(m1.in_auction(x) == pre.in_auction(x));
            }
            assert forall|t: BlockNumber, x: AuctionId| true implies #[trigger] post.sched_has(
                t,
                x,
            ) == pre.sched_has(t, x) by {
                assert(m1.sched_has(t, x) == pre.sched_has(t, x));
            }
            assert forall|m: MetaverseId, c: ClassId| true implies #[trigger]
                post.collection_authorized(m, c) == pre.collection_authorized(m, c) by {
                assert(m1.collection_authorized(m, c) == pre.collection_authorized(m, c));
            }
            assert forall|x: ItemId| true implies #[trigger] post.assets_of().entry_of(x)
                == pre.assets_of().entry_of(x) by {
                assert(m1.assets_of().entry_of(x) == pre.assets_of().entry_of(x));
            }
            assert forall|m: MetaverseId| true implies #[trigger] post.assets_of().metaverse_owner(
                m,
            ) == pre.assets_of().metaverse_owner(m) by {
                assert(m1.assets_of().metaverse_owner(m) == pre.assets_of().metaverse_owner(m));
            }
            assert(post.ledger_of() == m1.ledger_of());
            assert(post.events_log() == m1.events_log().push(EventView::Bid(id, from, value)));
            assert(m1.events_log() == pre.events_log());
            // the invariant
            assert forall|x: AuctionId, item2: ItemId| true implies #[trigger] post.references(
                x,
                item2,
            ) == pre.references(x, item2) by {
                if x != id {
                    assert(m1.item_rec_of(x) == pre.item_rec_of(x));
                    assert(post.auction_of(x) == pre.auction_of(x));
                } else {
                    assert(m1.item_rec_of(id) == Some(
                        AuctionItemView { amount: value, ..pre.item_rec_of(id).unwrap() },
                    ));
                    assert(post.item_rec_of(id).unwrap().item_id == pre.item_rec_of(
                        id,
                    ).unwrap().item_id);
                }
            }
            assert forall|item2: ItemId| #[trigger] post.in_auction(item2) implies exists|
                x: AuctionId,
            | post.references(x, item2) by {
                assert(pre.in_auction(item2));
                let x = choose|x: AuctionId| pre.references(x, item2);
                assert(post.references(x, item2));
            }
            assert forall|x: AuctionId, item2: ItemId| #[trigger]
                post.references(x, item2) implies post.in_auction(item2) by {
                assert(pre.references(x, item2));
            }
            assert forall|x1: AuctionId, x2: AuctionId, item2: ItemId|
                post.references(x1, item2) && post.references(x2, item2) implies x1 == x2 by {
                assert(pre.references(x1, item2));
                assert(pre.references(x2, item2));
            }
            assert forall|t: BlockNumber, x: AuctionId| #[trigger]
                post.sched_has(t, x) implies (post.auction_of(x) matches Some(a2) && a2.end
                == Some(t)) by {
                assert(pre.sched_has(t, x));
            }
            assert forall|x: AuctionId|
                (#[trigger] post.auction_of(x)) is Some && post.auction_of(x).unwrap().end
                    is Some implies post.sched_has(post.auction_of(x).unwrap().end.unwrap(), x) by {
                if x != id {
                    assert(post.auction_of(x) == pre.auction_of(x));
                } else {
                    assert(pre.auction_of(id).unwrap().end == new_info.end);
                }
            }
            assert forall|x: AuctionId| #[trigger] post.auction_of(x) is Some implies x
                < post.next_id_of() by {
                if x != id {
                    assert(pre.auction_of(x) is Some);
                } else {
                    assert(pre.auction_of(id) is Some);
                }
            }
            assert forall|x: AuctionId| #[trigger] post.item_rec_of(x) is Some implies x
                < post.next_id_of() by {
                if x != id {
                    assert(m1.item_rec_of(x) == pre.item_rec_of(x));
                    assert(pre.item_rec_of(x) is Some);
                } else {
                    assert(pre.item_rec_of(id) is Some);
                }
            }
        }
        Ok(())
    }

    // ------------------------------------------------------------------
    // Royalty and buy-now settlement.
    // ------------------------------------------------------------------

    /// The royalty cut of a traded amount: basis points of it, the
    /// product saturated at the balance type's limit, rounded down.
    pub open spec fn spec_royalty_fee(amount: Balance, fee_bps: u16) -> Balance {
        let product = amount * fee_bps;
        let saturated: int = if product > u128::MAX {
            u128::MAX as int
        } else {
            product
        };
        (saturated / (ROYALTY_FEE_DENOMINATOR as int)) as Balance
    }

    /// Whether the royalty leg goes through, judged on the ledger as the
    /// sale transfer left it: the payer (the seller) must be able to
    /// spend the fee and the fee sink able to hold it.
    pub open spec fn spec_royalty_applies(
        l0: Ledger,
        buyer: AccountId,
        seller: AccountId,
        value: Balance,
        royalty: Option<(Balance, AccountId)>,
    ) -> bool {
        let native = FungibleTokenId::NativeToken(0);
        match royalty {
            None => false,
            Some((fee, fund)) => {
                let free_seller_after = l0.free_of(native, seller) + value;
                let free_fund_after = l0.free_of(native, fund) + (if fund == seller {
                    value as int
                } else {
                    0
                }) - (if fund == buyer {
                    value as int
                } else {
                    0
                });
                &&& free_seller_after >= fee
                &&& (seller == fund || free_fund_after + l0.reserved_of(native, fund) + fee
                    <= u128::MAX)
            },
        }
    }

    /// The ledger after a settled sale: the buyer pays the seller, and
    /// where a royalty applies the seller's cut of it moves into the fee
    /// sink's reservation.  Every other balance is untouched.
    pub open spec fn spec_settlement_funds(
        l0: Ledger,
        l1: Ledger,
        buyer: AccountId,
        seller: AccountId,
        value: Balance,
        royalty: Option<(Balance, AccountId)>,
    ) -> bool {
        let native = FungibleTokenId::NativeToken(0);
        let applied = Pallet::spec_royalty_applies(l0, buyer, seller, value, royalty);
        forall|c: FungibleTokenId, x: AccountId| #[trigger]
            l1.entry_of(c, x) == if c != native {
                l0.entry_of(c, x)
            } else {
                let fee: int = if applied {
                    royalty.unwrap().0 as int
                } else {
                    0
                };
                let fund_delta: int = if applied && x == royalty.unwrap().1 {
                    fee
                } else {
                    0
                };
                let free_after = l0.free_of(native, x) + (if x == seller {
                    value as int
                } else {
                    0
                }) - (if x == buyer {
                    value as int
                } else {
                    0
                }) - (if x == seller {
                    fee
                } else {
                    0
                });
                let res_after = l0.reserved_of(native, x) + fund_delta;
                (free_after as Balance, res_after as Balance)
            }
    }

    /// Computes the royalty cut of `high_bid_price` and moves it from
    /// `high_bidder` (the paying side of the settlement) into the
    /// reservation of the collection's fee sink, in `social_currency_id`.
    /// Fails without effect when the payer cannot spend the fee or the
    /// sink cannot hold it.
    pub fn collect_royalty_fee(
        &mut self,
        high_bid_price: &Balance,
        high_bidder: &AccountId,
        asset_id: &(ClassId, TokenId),
        social_currency_id: FungibleTokenId,
    ) -> (r: Result<(), Error>)
        requires
            old(self).wf(),
        ensures
            final(self).wf(),
            r is Err ==> *final(self) == *old(self),
            ({
                let pre = *old(self);
                let post = *final(self);
                let fee = Pallet::spec_royalty_fee(
                    *high_bid_price,
                    pre.config_of().royalty_fee,
                );
                let fund = crate::types::spec_class_fund_account(asset_id.0);
                let l0 = pre.ledger_of();
                let l1 = post.ledger_of();
                if l0.free_of(social_currency_id, *high_bidder) < fee || (*high_bidder != fund
                    && l0.free_of(social_currency_id, fund) + l0.reserved_of(
                    social_currency_id,
                    fund,
                ) + fee > u128::MAX) {
                    r == Err::<(), Error>(Error::InsufficientFunds)
                } else {
                    &&& r == Ok::<(), Error>(())
                    &&& l1.free_of(social_currency_id, *high_bidder) == l0.free_of(
                        social_currency_id,
                        *high_bidder,
                    ) - fee
                    &&& l1.reserved_of(social_currency_id, fund) == l0.reserved_of(
                        social_currency_id,
                        fund,
                    ) + fee
                    &&& *high_bidder != fund ==> l1.free_of(social_currency_id, fund)
                        == l0.free_of(social_currency_id, fund) && l1.reserved_of(
                        social_currency_id,
                        *high_bidder,
                    ) == l0.reserved_of(social_currency_id, *high_bidder)
                    &&& forall|c: FungibleTokenId, x: AccountId|
                        (c != social_currency_id || (x != *high_bidder && x != fund))
                            ==> #[trigger] l1.entry_of(c, x) == l0.entry_of(c, x)
                    &&& Pallet::same_auctions(pre, post)
                    &&& Pallet::same_item_records(pre, post)
                    &&& Pallet::same_membership(pre, post)
                    &&& Pallet::same_schedule(pre, post)
                    &&& Pallet::same_authorized(pre, post)
                    &&& Pallet::same_assets(pre, post)
                    &&& Pallet::same_events(pre, post)
                    &&& Pallet::same_meta(pre, post)
                }
            }),
    {
        let fee_scale = self.config.royalty_fee;
        let amount = *high_bid_price;
        // saturating multiplication, then division by the (nonzero)
        // denominator
        let product: u128;
        if fee_scale == 0 {
            product = 0;
        } else {
            let cap = u128::MAX / (fee_scale as u128);
            proof {
                let f = fee_scale as int;
                let q = cap as int;
                vstd::arithmetic::div_mod::lemma_fundamental_div_mod(u128::MAX as int, f);
                vstd::arithmetic::div_mod::lemma_mod_bound(u128::MAX as int, f);
                vstd::arithmetic::mul::lemma_mul_is_commutative(amount as int, f);
                vstd::arithmetic::mul::lemma_mul_is_commutative(q, f);
                if amount <= cap {
                    vstd::arithmetic::mul::lemma_mul_inequality(amount as int, q, f);
                } else {
                    vstd::arithmetic::mul::lemma_mul_inequality(q + 1, amount as int, f);
                    vstd::arithmetic::mul::lemma_mul_is_distributive_add_other_way(f, q, 1);
                    vstd::arithmetic::mul::lemma_mul_basics(f);
                }
            }
            if amount <= cap {
                product = amount * (fee_scale as u128);
            } else {
                product = u128::MAX;
            }
        }
        let royalty_fee = product / (ROYALTY_FEE_DENOMINATOR as u128);
        let class_fund = crate::types::class_fund_account(asset_id.0);
        let payer = *high_bidder;
        let moved = self.ledger.transfer(social_currency_id, payer, class_fund, royalty_fee);
        if !moved {
            return Err(Error::InsufficientFunds);
        }
        let ghost lmid = self.ledger;
        let reserved_ok = self.ledger.reserve(social_currency_id, class_fund, royalty_fee);
        proof {
            assert(reserved_ok);
            Pallet::lemma_wf_same_registry(*old(self), *self);
            let l0 = old(self).ledger;
            assert forall|c: FungibleTokenId, x: AccountId|
                (c != social_currency_id || (x != payer && x != class_fund)) implies #[trigger]
                self.ledger.entry_of(c, x) == l0.entry_of(c, x) by {
                assert(lmid.entry_of(c, x) == l0.entry_of(c, x));
            }
            assert(lmid.entry_of(social_currency_id, payer) == lmid.entry_of(
                social_currency_id,
                payer,
            ));
            assert(lmid.entry_of(social_currency_id, class_fund) == lmid.entry_of(
                social_currency_id,
                class_fund,
            ));
        }
        Ok(())
    }

    /// Everything [`Pallet::buy_now`] checks and does: each error with
    /// exactly the inputs that cause it; on success the listing is
    /// removed (where its record carries a deadline — one without any
    /// stays as it is), and then, best effort, the buyer pays the seller,
    /// an NFT sale routes the royalty cut, the asset changes hands and
    /// one notification reports the completed trade.  A settlement leg
    /// that fails leaves the later legs undone and is visible only as the
    /// missing notification.
    pub open spec fn spec_buy_now(
        pre: Pallet,
        post: Pallet,
        r: Result<(), Error>,
        from: AccountId,
        auction_id: AuctionId,
        value: Balance,
    ) -> bool {
        let native = FungibleTokenId::NativeToken(0);
        if pre.auction_of(auction_id) is None || pre.item_rec_of(auction_id) is None {
            r == Err::<(), Error>(Error::AuctionNotExist)
        } else {
            let a = pre.auction_of(auction_id).unwrap();
            let it = pre.item_rec_of(auction_id).unwrap();
            if it.auction_type != AuctionType::BuyNow {
                r == Err::<(), Error>(Error::InvalidAuctionType)
            } else if it.recipient == from {
                r == Err::<(), Error>(Error::CannotBidOnOwnAuction)
            } else if pre.time_of() < a.start {
                r == Err::<(), Error>(Error::AuctionNotStarted)
            } else if (a.end matches Some(end) && pre.time_of() >= end) {
                r == Err::<(), Error>(Error::AuctionIsExpired)
            } else if value != it.amount {
                r == Err::<(), Error>(Error::InvalidBuyItNowPrice)
            } else if pre.ledger_of().free_of(native, from) < value {
                r == Err::<(), Error>(Error::InsufficientFunds)
            } else {
                &&& r == Ok::<(), Error>(())
                &&& (a.end is Some ==> {
                    &&& !post.live(auction_id)
                    &&& !post.in_auction(it.item_id)
                    &&& forall|x: AuctionId|
                        x != auction_id ==> #[trigger] post.auction_of(x) == pre.auction_of(x)
                    &&& forall|x: ItemId|
                        x != it.item_id ==> #[trigger] post.in_auction(x) == pre.in_auction(x)
                    &&& forall|t: BlockNumber, x: AuctionId| #[trigger]
                        post.sched_has(t, x) == (pre.sched_has(t, x) && x != auction_id)
                })
                &&& (a.end is None ==> Pallet::same_auctions(pre, post)
                    && Pallet::same_membership(pre, post) && Pallet::same_schedule(pre, post))
                &&& Pallet::same_item_records(pre, post)
                &&& Pallet::same_authorized(pre, post)
                &&& Pallet::same_meta(pre, post)
                &&& Pallet::spec_buy_now_settled(pre, post, from, it, auction_id, value)
            }
        }
    }

    /// The settlement legs of a purchase, given the pre-state, the
    /// listing record and the price.
    pub open spec fn spec_buy_now_settled(
        pre: Pallet,
        post: Pallet,
        from: AccountId,
        it: AuctionItemView,
        auction_id: AuctionId,
        value: Balance,
    ) -> bool {
        let native = FungibleTokenId::NativeToken(0);
        let l0 = pre.ledger_of();
        let seller = it.recipient;
        let sale_ok = l0.free_of(native, seller) + l0.reserved_of(native, seller) + value
            <= u128::MAX;
        if !sale_ok {
            &&& Pallet::same_balances(pre, post)
            &&& Pallet::same_assets(pre, post)
            &&& Pallet::same_events(pre, post)
        } else {
            let royalty = match it.item_id {
                ItemId::NFT(class_id, _token_id) => Some(
                    (
                        Pallet::spec_royalty_fee(value, pre.config_of().royalty_fee),
                        crate::types::spec_class_fund_account(class_id),
                    ),
                ),
                _ => None,
            };
            let asset_moves = match it.item_id {
                ItemId::Country(_) => false,
                ItemId::Block(_) => false,
                _ => (pre.assets_of().entry_of(it.item_id) matches Some(e) && e.owner == seller
                    && e.transferable),
            };
            &&& Pallet::spec_settlement_funds(
                l0,
                post.ledger_of(),
                from,
                seller,
                value,
                royalty,
            )
            &&& (asset_moves ==> post.assets_of().entry_of(it.item_id) == Some(
                AssetEntry { owner: from, transferable: true },
            ) && (forall|x: ItemId|
                x != it.item_id ==> #[trigger] post.assets_of().entry_of(x)
                    == pre.assets_of().entry_of(x)))
            &&& (!asset_moves ==> forall|x: ItemId|
                #[trigger] post.assets_of().entry_of(x) == pre.assets_of().entry_of(x))
            &&& forall|m: MetaverseId|
                #[trigger] post.assets_of().metaverse_owner(m) == pre.assets_of().metaverse_owner(
                    m,
                )
            &&& (asset_moves ==> post.events_log() == pre.events_log().push(
                EventView::BuyNowFinalised(auction_id, from, value),
            ))
            &&& (!asset_moves ==> Pallet::same_events(pre, post))
        }
    }

    /// Buys a fixed-price listing outright: the listing is removed, the
    /// buyer pays the seller directly (no escrow phase), the royalty cut
    /// is routed for NFT sales, and the asset is dispatched to its new
    /// owner.
    #[verifier::rlimit(80)]
    pub fn buy_now(&mut self, from: AccountId, auction_id: AuctionId, value: Balance) -> (r:
        Result<(), Error>)
        requires
            old(self).wf(),
        ensures
            final(self).wf(),
            r is Err ==> *final(self) == *old(self),
            Pallet::spec_buy_now(*old(self), *final(self), r, from, auction_id, value),
    {
        let auction = match self.auction_info(auction_id) {
            Some(auction) => auction,
            None => {
                return Err(Error::AuctionNotExist);
            },
        };
        let item = match self.get_auction_item(auction_id) {
            Some(item) => item,
            None => {
                return Err(Error::AuctionNotExist);
            },
        };
        if item.auction_type != AuctionType::BuyNow {
            return Err(Error::InvalidAuctionType);
        }
        if item.recipient == from {
            return Err(Error::CannotBidOnOwnAuction);
        }
        let block_number = self.now;
        if block_number < auction.start {
            return Err(Error::AuctionNotStarted);
        }
        match auction.end {
            Some(auction_end) => {
                if block_number >= auction_end {
                    return Err(Error::AuctionIsExpired);
                }
            },
            None => {},
        }
        if value != item.amount {
            return Err(Error::InvalidBuyItNowPrice);
        }
        if self.ledger.free_balance(crate::types::native_currency(), from) < value {
            return Err(Error::InsufficientFunds);
        }
        let seller = item.recipient;
        self.remove_auction(auction_id, item.item_id);
        let ghost m1 = *self;
        let transfer_ok = self.ledger.transfer(
            crate::types::native_currency(),
            from,
            seller,
            value,
        );
        let ghost m2 = *self;
        proof {
            Pallet::lemma_wf_same_registry(m1, *self);
        }
        let mut royalty_ok = false;
        if transfer_ok {
            match item.item_id {
                ItemId::NFT(class_id, token_id) => {
                    match self.collect_royalty_fee(
                        &value,
                        &seller,
                        &(class_id, token_id),
                        crate::types::native_currency(),
                    ) {
                        Ok(()) => {
                            royalty_ok = true;
                        },
                        Err(_) => {},
                    }
                },
                _ => {},
            }
            let ghost m3 = *self;
            let asset_ok = match item.item_id {
                ItemId::Country(_) => false,
                ItemId::Block(_) => false,
                _ => self.assets.transfer_item(item.item_id, seller, from),
            };
            proof {
                Pallet::lemma_wf_same_registry(m3, *self);
            }
            let ghost m4 = *self;
            if asset_ok {
                self.events_push(Event::BuyNowFinalised(auction_id, from, value));
            }
            proof {
                Pallet::lemma_wf_same_registry(m4, *self);
                let pre = *old(self);
                let post = *self;
                let native = FungibleTokenId::NativeToken(0);
                let it = pre.item_rec_of(auction_id).unwrap();
                // the registry is as the removal left it
                assert forall|x: AuctionId| true implies #[trigger] post.auction_of(x)
                    == m1.auction_of(x) by {
                    assert(m3.auction_of(x) == m2.auction_of(x));
                    assert(m4.auction_of(x) == m3.auction_of(x));
                }
                assert forall|x: AuctionId| true implies #[trigger] post.item_rec_of(x)
                    == m1.item_rec_of(x) by {
                    assert(m3.item_rec_of(x) == m2.item_rec_of(x));
                    assert(m4.item_rec_of(x) == m3.item_rec_of(x));
                }
                assert forall|x: ItemId| true implies #[trigger] post.in_auction(x)
                    == m1.in_auction(x) by {
                    assert(m3.in_auction(x) == m2.in_auction(x));
                    assert(m4.in_auction(x) == m3.in_auction(x));
                }
                assert forall|t: BlockNumber, x: AuctionId| true implies #[trigger] post.sched_has(
                    t,
                    x,
                ) == m1.sched_has(t, x) by {
                    assert(m3.sched_has(t, x) == m2.sched_has(t, x));
                    assert(m4.sched_has(t, x) == m3.sched_has(t, x));
                }
                assert forall|m: MetaverseId, c: ClassId| true implies #[trigger]
                    post.collection_authorized(m, c) == m1.collection_authorized(m, c) by {
                    assert(m3.collection_authorized(m, c) == m2.collection_authorized(m, c));
                    assert(m4.collection_authorized(m, c) == m3.collection_authorized(m, c));
                }
                assert(post.config_of() == m3.config_of());
                assert(post.time_of() == m3.time_of());
                assert(post.next_id_of() == m3.next_id_of());
                // the funds moved as the settlement formula says
                let royalty = match it.item_id {
                    ItemId::NFT(class_id, _token_id) => Some(
                        (
                            Pallet::spec_royalty_fee(value, pre.config_of().royalty_fee),
                            crate::types::spec_class_fund_account(class_id),
                        ),
                    ),
                    _ => None,
                };
                assert(royalty_ok == Pallet::spec_royalty_applies(
                    pre.ledger_of(),
                    from,
                    seller,
                    value,
                    royalty,
                )) by {
                    assert(m2.ledger_of().entry_of(native, seller) == m2.ledger_of().entry_of(
                        native,
                        seller,
                    ));
                    match royalty {
                        Some((fee, fund)) => {
                            assert(m1.ledger_of().entry_of(native, fund) == pre.ledger_of(
                            ).entry_of(native, fund));
                            assert(m1.ledger_of().entry_of(native, seller) == pre.ledger_of(
                            ).entry_of(native, seller));
                            assert(m2.ledger_of().entry_of(native, fund) == m2.ledger_of(
                            ).entry_of(native, fund));
                        },
                        None => {},
                    }
                }
                assert forall|c: FungibleTokenId, x: AccountId| true implies #[trigger]
                    post.ledger_of().entry_of(c, x) == m3.ledger_of().entry_of(c, x) by {
                    assert(m4.ledger_of().entry_of(c, x) == m3.ledger_of().entry_of(c, x));
                }
                assert(Pallet::spec_settlement_funds(
                    pre.ledger_of(),
                    post.ledger_of(),
                    from,
                    seller,
                    value,
                    royalty,
                )) by {
                    assert forall|c: FungibleTokenId, x: AccountId| true implies #[trigger]
                        post.ledger_of().entry_of(c, x) == (if c
                            != FungibleTokenId::NativeToken(0) {
                            pre.ledger_of().entry_of(c, x)
                        } else {
                            let applied = Pallet::spec_royalty_applies(
                                pre.ledger_of(),
                                from,
                                seller,
                                value,
                                royalty,
                            );
                            let fee: int = if applied {
                                royalty.unwrap().0 as int
                            } else {
                                0
                            };
                            let fund_delta: int = if applied && x == royalty.unwrap().1 {
                                fee
                            } else {
                                0
                            };
                            let free_after = pre.ledger_of().free_of(native, x) + (if x
                                == seller {
                                value as int
                            } else {
                                0
                            }) - (if x == from {
                                value as int
                            } else {
                                0
                            }) - (if x == seller {
                                fee
                            } else {
                                0
                            });
                            let res_after = pre.ledger_of().reserved_of(native, x) + fund_delta;
                            (free_after as Balance, res_after as Balance)
                        }) by {
                        // name each intermediate balance so the chained
                        // contracts of the settlement legs apply to it
                        assert(m1.ledger_of().entry_of(c, x) == pre.ledger_of().entry_of(c, x));
                        assert(m2.ledger_of().entry_of(c, x) == m2.ledger_of().entry_of(c, x));
                        assert(m3.ledger_of().entry_of(c, x) == m3.ledger_of().entry_of(c, x));
                        assert(post.ledger_of().entry_of(c, x) == m3.ledger_of().entry_of(c, x));
                        match royalty {
                            Some((fee, fund)) => {
                                assert(m2.ledger_of().entry_of(native, seller) == m2.ledger_of(
                                ).entry_of(native, seller));
                                assert(m3.ledger_of().entry_of(native, fund) == m3.ledger_of(
                                ).entry_of(native, fund));
                                assert(m3.ledger_of().entry_of(native, seller) == m3.ledger_of(
                                ).entry_of(native, seller));
                            },
                            None => {},
                        }
                    }
                }
                // the asset and the notification
                assert forall|x: ItemId| true implies #[trigger] m3.assets_of().entry_of(x)
                    == pre.assets_of().entry_of(x) by {
                    assert(m1.assets_of().entry_of(x) == pre.assets_of().entry_of(x));
                    assert(m3.assets_of().entry_of(x) == m2.assets_of().entry_of(x));
                }
                assert forall|x: ItemId| true implies #[trigger] post.assets_of().entry_of(x)
                    == m4.assets_of().entry_of(x) by {}
                assert forall|m: MetaverseId| true implies #[trigger]
                    post.assets_of().metaverse_owner(m) == pre.assets_of().metaverse_owner(m) by {
                    assert(m1.assets_of().metaverse_owner(m) == pre.assets_of().metaverse_owner(
                        m,
                    ));
                    assert(m3.assets_of().metaverse_owner(m) == m2.assets_of().metaverse_owner(
                        m,
                    ));
                    assert(m4.assets_of().metaverse_owner(m) == m3.assets_of().metaverse_owner(
                        m,
                    ));
                }
                assert(m4.events_log() == pre.events_log()) by {
                    assert(m1.events_log() == pre.events_log());
                    assert(m3.events_log() == m2.events_log());
                    assert(m4.events_log() == m3.events_log());
                }
                assert(m1.ledger_of().entry_of(native, seller) == pre.ledger_of().entry_of(
                    native,
                    seller,
                ));
                assert(m1.ledger_of().entry_of(native, from) == pre.ledger_of().entry_of(
                    native,
                    from,
                ));
                assert(m3.assets_of().entry_of(it.item_id) == pre.assets_of().entry_of(
                    it.item_id,
                ));
                assert(Pallet::spec_buy_now_settled(pre, post, from, it, auction_id, value));
            }
        } else {
            proof {
                let pre = *old(self);
                let post = *self;
                assert forall|x: AuctionId| true implies #[trigger] post.auction_of(x)
                    == m1.auction_of(x) by {}
                assert forall|x: AuctionId| true implies #[trigger] post.item_rec_of(x)
                    == m1.item_rec_of(x) by {}
                assert forall|x: ItemId| true implies #[trigger] post.in_auction(x)
                    == m1.in_auction(x) by {}
                assert forall|t: BlockNumber, x: AuctionId| true implies #[trigger] post.sched_has(
                    t,
                    x,
                ) == m1.sched_has(t, x) by {}
                assert forall|m: MetaverseId, c: ClassId| true implies #[trigger]
                    post.collection_authorized(m, c) == m1.collection_authorized(m, c) by {}
                assert forall|c: FungibleTokenId, x: AccountId| true implies #[trigger]
                    post.ledger_of().entry_of(c, x) == pre.ledger_of().entry_of(c, x) by {
                    assert(m1.ledger_of().entry_of(c, x) == pre.ledger_of().entry_of(c, x));
                }
                assert forall|x: ItemId| true implies #[trigger] post.assets_of().entry_of(x)
                    == pre.assets_of().entry_of(x) by {
                    assert(m1.assets_of().entry_of(x) == pre.assets_of().entry_of(x));
                }
                assert forall|m: MetaverseId| true implies #[trigger]
                    post.assets_of().metaverse_owner(m) == pre.assets_of().metaverse_owner(m) by {
                    assert(m1.assets_of().metaverse_owner(m) == pre.assets_of().metaverse_owner(
                        m,
                    ));
                }
                assert(post.events_log() == pre.events_log()) by {
                    assert(m1.events_log() == pre.events_log());
                }
            }
        }
        Ok(())
    }

    // ------------------------------------------------------------------
    // The expiry sweep.
    // ------------------------------------------------------------------

    /// How many end-time index entries sit in the bucket for time `t`.
    pub closed spec fn spec_due_count(self, t: BlockNumber) -> nat {
        count_at(self.auction_end_time@, t)
    }

    /// The ledger after one winner settlement: the winner's reservation
    /// for the price is released; if the winner can then pay and the
    /// seller can hold it, the price moves to the seller, and where a
    /// royalty applies its cut moves on into the fee sink's reservation.
    pub open spec fn spec_sweep_funds(
        l0: Ledger,
        l1: Ledger,
        winner: AccountId,
        seller: AccountId,
        price: Balance,
        royalty: Option<(Balance, AccountId)>,
    ) -> bool {
        let native = FungibleTokenId::NativeToken(0);
        let sale_ok = Pallet::spec_sweep_sale_ok(l0, winner, seller, price);
        let applied = Pallet::spec_sweep_royalty_applies(l0, winner, seller, price, royalty);
        forall|c: FungibleTokenId, x: AccountId| #[trigger]
            l1.entry_of(c, x) == if c != native {
                l0.entry_of(c, x)
            } else {
                let fee: int = if applied {
                    royalty.unwrap().0 as int
                } else {
                    0
                };
                let free_fin = Pallet::spec_sweep_free_sale(l0, winner, seller, price, x) - (
                if x == seller {
                    fee
                } else {
                    0
                });
                let res_fin = Pallet::spec_sweep_res_sale(l0, winner, seller, price, x) + (
                if applied && x == royalty.unwrap().1 {
                    fee
                } else {
                    0
                });
                (free_fin as Balance, res_fin as Balance)
            }
    }

    /// The winner's released reservation for the price.
    pub open spec fn spec_sweep_moved(l0: Ledger, winner: AccountId, price: Balance) -> Balance {
        min_bal(price, l0.reserved_of(FungibleTokenId::NativeToken(0), winner))
    }

    /// Whether the winner-to-seller transfer goes through once the
    /// reservation is back.
    pub open spec fn spec_sweep_sale_ok(
        l0: Ledger,
        winner: AccountId,
        seller: AccountId,
        price: Balance,
    ) -> bool {
        let native = FungibleTokenId::NativeToken(0);
        let moved = Pallet::spec_sweep_moved(l0, winner, price);
        &&& l0.free_of(native, winner) + moved >= price
        &&& (winner == seller || l0.free_of(native, seller) + l0.reserved_of(native, seller)
            + price <= u128::MAX)
    }

    /// An account's spendable balance after the release and the sale leg.
    pub open spec fn spec_sweep_free_sale(
        l0: Ledger,
        winner: AccountId,
        seller: AccountId,
        price: Balance,
        x: AccountId,
    ) -> int {
        let native = FungibleTokenId::NativeToken(0);
        let moved = Pallet::spec_sweep_moved(l0, winner, price);
        let sale_ok = Pallet::spec_sweep_sale_ok(l0, winner, seller, price);
        l0.free_of(native, x) + (if x == winner {
            moved as int
        } else {
            0
        }) + (if sale_ok && winner != seller {
            (if x == seller {
                price as int
            } else {
                0
            }) - (if x == winner {
                price as int
            } else {
                0
            })
        } else {
            0
        })
    }

    /// An account's reserved balance after the release and the sale leg.
    pub open spec fn spec_sweep_res_sale(
        l0: Ledger,
        winner: AccountId,
        seller: AccountId,
        price: Balance,
        x: AccountId,
    ) -> int {
        let native = FungibleTokenId::NativeToken(0);
        let moved = Pallet::spec_sweep_moved(l0, winner, price);
        l0.reserved_of(native, x) - (if x == winner {
            moved as int
        } else {
            0
        })
    }

    /// Whether the royalty leg of a winner settlement goes through.
    pub open spec fn spec_sweep_royalty_applies(
        l0: Ledger,
        winner: AccountId,
        seller: AccountId,
        price: Balance,
        royalty: Option<(Balance, AccountId)>,
    ) -> bool {
        let native = FungibleTokenId::NativeToken(0);
        let sale_ok = Pallet::spec_sweep_sale_ok(l0, winner, seller, price);
        match royalty {
            None => false,
            Some((fee, fund)) => {
                &&& sale_ok
                &&& Pallet::spec_sweep_free_sale(l0, winner, seller, price, seller) >= fee
                &&& (seller == fund || Pallet::spec_sweep_free_sale(l0, winner, seller, price, fund)
                    + Pallet::spec_sweep_res_sale(l0, winner, seller, price, fund) + fee
                    <= u128::MAX)
            },
        }
    }

    /// Settles one listing whose deadline is `now`: the listing is
    /// removed first; with no bid that is all (besides the notification),
    /// with a bid the winner settlement of [`Pallet::spec_sweep_funds`]
    /// runs, the asset is dispatched, and the completed settlement is
    /// reported.  A leg that fails leaves the later legs undone.
    fn finalize_one(&mut self, now: BlockNumber, id: AuctionId)
        requires
            old(self).wf(),
            old(self).auction_of(id) matches Some(a) && a.end == Some(now),
            old(self).item_rec_of(id) is Some,
        ensures
            final(self).wf(),
            ({
                let pre = *old(self);
                let post = *final(self);
                let a = pre.auction_of(id).unwrap();
                let it = pre.item_rec_of(id).unwrap();
                let seller = it.recipient;
                &&& !post.live(id)
                &&& forall|x: AuctionId|
                    x != id ==> #[trigger] post.auction_of(x) == pre.auction_of(x)
                &&& !post.in_auction(it.item_id)
                &&& forall|x: ItemId|
                    x != it.item_id ==> #[trigger] post.in_auction(x) == pre.in_auction(x)
                &&& forall|t: BlockNumber, x: AuctionId| #[trigger]
                    post.sched_has(t, x) == (pre.sched_has(t, x) && x != id)
                &&& Pallet::same_item_records(pre, post)
                &&& Pallet::same_authorized(pre, post)
                &&& Pallet::same_meta(pre, post)
                &&& post.settlement_model() == pre.settlement_model().settle_entry(
                    pre.config_of(),
                    id,
                    a,
                    it,
                )
                &&& (a.bid is None ==> {
                    &&& Pallet::same_balances(pre, post)
                    &&& Pallet::same_assets(pre, post)
                    &&& post.events_log() == pre.events_log().push(
                        EventView::AuctionFinalizedNoBid(id),
                    )
                })
                &&& (a.bid matches Some((winner, price)) ==> {
                    let royalty = match it.item_id {
                        ItemId::NFT(class_id, _token_id) => Some(
                            (
                                Pallet::spec_royalty_fee(price, pre.config_of().royalty_fee),
                                crate::types::spec_class_fund_account(class_id),
                            ),
                        ),
                        _ => None,
                    };
                    let sale_ok = Pallet::spec_sweep_sale_ok(
                        pre.ledger_of(),
                        winner,
                        seller,
                        price,
                    );
                    let asset_moves = sale_ok && match it.item_id {
                        ItemId::Country(_) => false,
                        ItemId::Block(_) => false,
                        _ => (pre.assets_of().entry_of(it.item_id) matches Some(e) && e.owner
                            == seller && e.transferable),
                    };
                    &&& Pallet::spec_sweep_funds(
                        pre.ledger_of(),
                        post.ledger_of(),
                        winner,
                        seller,
                        price,
                        royalty,
                    )
                    &&& (asset_moves ==> post.assets_of().entry_of(it.item_id) == Some(
                        AssetEntry { owner: winner, transferable: true },
                    ) && (forall|x: ItemId|
                        x != it.item_id ==> #[trigger] post.assets_of().entry_of(x)
                            == pre.assets_of().entry_of(x)))
                    &&& (!asset_moves ==> forall|x: ItemId|
                        #[trigger] post.assets_of().entry_of(x) == pre.assets_of().entry_of(x))
                    &&& forall|m: MetaverseId|
                        #[trigger] post.assets_of().metaverse_owner(m)
                            == pre.assets_of().metaverse_owner(m)
                    &&& (asset_moves ==> post.events_log() == pre.events_log().push(
                        EventView::AuctionFinalized(id, winner, price),
                    ))
                    &&& (!asset_moves ==> Pallet::same_events(pre, post))
                })
            }),
    {
        let auction = match self.auction_info(id) {
            Some(auction) => auction,
            None => {
                proof {
                    assert(false);
                }
                return ;
            },
        };
        let item = match self.get_auction_item(id) {
            Some(item) => item,
            None => {
                proof {
                    assert(false);
                }
                return ;
            },
        };
        let seller = item.recipient;
        self.remove_auction(id, item.item_id);
        let ghost m1 = *self;
        match auction.bid {
            None => {
                self.events_push(Event::AuctionFinalizedNoBid(id));
                proof {
                    Pallet::lemma_wf_same_registry(m1, *self);
                    let pre = *old(self);
                    let post = *self;
                    assert forall|x: AuctionId| true implies #[trigger] post.auction_of(x)
                        == m1.auction_of(x) by {}
                    assert forall|x: AuctionId| true implies #[trigger] post.item_rec_of(x)
                        == m1.item_rec_of(x) by {}
                    assert forall|x: ItemId| true implies #[trigger] post.in_auction(x)
                        == m1.in_auction(x) by {}
                    assert forall|t: BlockNumber, x: AuctionId| true implies #[trigger]
                        post.sched_has(t, x) == m1.sched_has(t, x) by {}
                    assert forall|m: MetaverseId, c: ClassId| true implies #[trigger]
                        post.collection_authorized(m, c) == m1.collection_authorized(m, c) by {}
                    assert forall|c: FungibleTokenId, x: AccountId| true implies #[trigger]
                        post.ledger_of().entry_of(c, x) == pre.ledger_of().entry_of(c, x) by {
                        assert(m1.ledger_of().entry_of(c, x) == pre.ledger_of().entry_of(c, x));
                    }
                    assert forall|x: ItemId| true implies #[trigger] post.assets_of().entry_of(x)
                        == pre.assets_of().entry_of(x) by {
                        assert(m1.assets_of().entry_of(x) == pre.assets_of().entry_of(x));
                    }
                    assert forall|m: MetaverseId| true implies #[trigger]
                        post.assets_of().metaverse_owner(m) == pre.assets_of().metaverse_owner(
                        m,
                    ) by {
                        assert(m1.assets_of().metaverse_owner(m) == pre.assets_of(
                        ).metaverse_owner(m));
                    }
                    assert(m1.events_log() == pre.events_log());
                    let a = pre.auction_of(id).unwrap();
                    let it = pre.item_rec_of(id).unwrap();
                    let m0 = pre.settlement_model();
                    let expected = m0.settle_entry(pre.config_of(), id, a, it);
                    assert forall|k: (FungibleTokenId, AccountId)| true implies #[trigger]
                        post.settlement_model().funds[k] == m0.funds[k] by {
                        assert(post.ledger_of().entry_of(k.0, k.1) == pre.ledger_of().entry_of(
                            k.0,
                            k.1,
                        ));
                    }
                    assert(post.settlement_model().funds =~= expected.funds);
                    assert forall|x: ItemId| true implies #[trigger]
                        post.settlement_model().assets[x] == m0.assets[x] by {
                        assert(post.assets_of().entry_of(x) == pre.assets_of().entry_of(x));
                    }
                    assert(post.settlement_model().assets =~= expected.assets);
                    assert(post.settlement_model().events =~= expected.events);
                    assert(post.settlement_model() == expected);
                }
            },
            Some((winner, price)) => {
                self.ledger.unreserve(crate::types::native_currency(), winner, price);
                let ghost m2 = *self;
                proof {
                    Pallet::lemma_wf_same_registry(m1, *self);
                }
                let transfer_ok = self.ledger.transfer(
                    crate::types::native_currency(),
                    winner,
                    seller,
                    price,
                );
                let ghost m3 = *self;
                proof {
                    Pallet::lemma_wf_same_registry(m2, *self);
                }
                let mut royalty_ok = false;
                if transfer_ok {
                    match item.item_id {
                        ItemId::NFT(class_id, token_id) => {
                            match self.collect_royalty_fee(
                                &price,
                                &seller,
                                &(class_id, token_id),
                                crate::types::native_currency(),
                            ) {
                                Ok(()) => {
                                    royalty_ok = true;
                                },
                                Err(_) => {},
                            }
                        },
                        _ => {},
                    }
                }
                let ghost m4 = *self;
                let asset_ok = if transfer_ok {
                    match item.item_id {
                        ItemId::Country(_) => false,
                        ItemId::Block(_) => false,
                        _ => self.assets.transfer_item(item.item_id, seller, winner),
                    }
                } else {
                    false
                };
                proof {
                    Pallet::lemma_wf_same_registry(m4, *self);
                }
                let ghost m5 = *self;
                if asset_ok {
                    self.events_push(Event::AuctionFinalized(id, winner, price));
                }
                proof {
                    Pallet::lemma_wf_same_registry(m5, *self);
                    let pre = *old(self);
                    let post = *self;
                    let native = FungibleTokenId::NativeToken(0);
                    let it = pre.item_rec_of(id).unwrap();
                    assert forall|x: AuctionId| true implies #[trigger] post.auction_of(x)
                        == m1.auction_of(x) by {
                        assert(m4.auction_of(x) == m3.auction_of(x));
                        assert(m5.auction_of(x) == m4.auction_of(x));
                    }
                    assert forall|x: AuctionId| true implies #[trigger] post.item_rec_of(x)
                        == m1.item_rec_of(x) by {
                        assert(m4.item_rec_of(x) == m3.item_rec_of(x));
                        assert(m5.item_rec_of(x) == m4.item_rec_of(x));
                    }
                    assert forall|x: ItemId| true implies #[trigger] post.in_auction(x)
                        == m1.in_auction(x) by {
                        assert(m4.in_auction(x) == m3.in_auction(x));
                        assert(m5.in_auction(x) == m4.in_auction(x));
                    }
                    assert forall|t: BlockNumber, x: AuctionId| true implies #[trigger]
                        post.sched_has(t, x) == m1.sched_has(t, x) by {
                        assert(m4.sched_has(t, x) == m3.sched_has(t, x));
                        assert(m5.sched_has(t, x) == m4.sched_has(t, x));
                    }
                    assert forall|m: MetaverseId, c: ClassId| true implies #[trigger]
                        post.collection_authorized(m, c) == m1.collection_authorized(m, c) by {
                        assert(m4.collection_authorized(m, c) == m3.collection_authorized(m, c));
                        assert(m5.collection_authorized(m, c) == m4.collection_authorized(m, c));
                    }
                    assert(post.config_of() == m4.config_of());
                    assert(post.time_of() == m4.time_of());
                    assert(post.next_id_of() == m4.next_id_of());
                    let royalty = match it.item_id {
                        ItemId::NFT(class_id, _token_id) => Some(
                            (
                                Pallet::spec_royalty_fee(price, pre.config_of().royalty_fee),
                                crate::types::spec_class_fund_account(class_id),
                            ),
                        ),
                        _ => None,
                    };
                    assert(m1.ledger_of().entry_of(native, winner) == pre.ledger_of().entry_of(
                        native,
                        winner,
                    ));
                    assert(m1.ledger_of().entry_of(native, seller) == pre.ledger_of().entry_of(
                        native,
                        seller,
                    ));
                    assert(transfer_ok == Pallet::spec_sweep_sale_ok(
                        pre.ledger_of(),
                        winner,
                        seller,
                        price,
                    ));
                    assert(royalty_ok == Pallet::spec_sweep_royalty_applies(
                        pre.ledger_of(),
                        winner,
                        seller,
                        price,
                        royalty,
                    )) by {
                        assert(m3.ledger_of().entry_of(native, seller) == m3.ledger_of().entry_of(
                            native,
                            seller,
                        ));
                        match royalty {
                            Some((fee, fund)) => {
                                assert(m1.ledger_of().entry_of(native, fund) == pre.ledger_of(
                                ).entry_of(native, fund));
                                assert(m2.ledger_of().entry_of(native, fund) == m2.ledger_of(
                                ).entry_of(native, fund));
                                assert(m3.ledger_of().entry_of(native, fund) == m3.ledger_of(
                                ).entry_of(native, fund));
                            },
                            None => {},
                        }
                    }
                    assert(Pallet::spec_sweep_funds(
                        pre.ledger_of(),
                        post.ledger_of(),
                        winner,
                        seller,
                        price,
                        royalty,
                    )) by {
                        assert forall|c: FungibleTokenId, x: AccountId| true implies #[trigger]
                            post.ledger_of().entry_of(c, x) == m4.ledger_of().entry_of(c, x) by {
                            assert(m5.ledger_of().entry_of(c, x) == m4.ledger_of().entry_of(
                                c,
                                x,
                            ));
                        }
                        assert forall|c: FungibleTokenId, x: AccountId| true implies #[trigger]
                            m4.ledger_of().entry_of(c, x) == (if c != native {
                                pre.ledger_of().entry_of(c, x)
                            } else {
                                let applied = Pallet::spec_sweep_royalty_applies(
                                    pre.ledger_of(),
                                    winner,
                                    seller,
                                    price,
                                    royalty,
                                );
                                let fee: int = if applied {
                                    royalty.unwrap().0 as int
                                } else {
                                    0
                                };
                                let free_fin = Pallet::spec_sweep_free_sale(
                                    pre.ledger_of(),
                                    winner,
                                    seller,
                                    price,
                                    x,
                                ) - (if x == seller {
                                    fee
                                } else {
                                    0
                                });
                                let res_fin = Pallet::spec_sweep_res_sale(
                                    pre.ledger_of(),
                                    winner,
                                    seller,
                                    price,
                                    x,
                                ) + (if applied && x == royalty.unwrap().1 {
                                    fee
                                } else {
                                    0
                                });
                                (free_fin as Balance, res_fin as Balance)
                            }) by {
                            // name each intermediate balance so the chained
                            // contracts of the settlement legs apply to it
                            assert(m1.ledger_of().entry_of(c, x) == pre.ledger_of().entry_of(
                                c,
                                x,
                            ));
                            assert(m2.ledger_of().entry_of(c, x) == m2.ledger_of().entry_of(
                                c,
                                x,
                            ));
                            assert(m3.ledger_of().entry_of(c, x) == m3.ledger_of().entry_of(
                                c,
                                x,
                            ));
                            match royalty {
                                Some((fee, fund)) => {
                                    assert(m3.ledger_of().entry_of(native, seller)
                                        == m3.ledger_of().entry_of(native, seller));
                                    assert(m4.ledger_of().entry_of(native, fund) == m4.ledger_of(
                                    ).entry_of(native, fund));
                                    assert(m4.ledger_of().entry_of(native, seller)
                                        == m4.ledger_of().entry_of(native, seller));
                                },
                                None => {},
                            }
                        }
                    }
                    assert forall|x: ItemId| true implies #[trigger] m4.assets_of().entry_of(x)
                        == pre.assets_of().entry_of(x) by {
                        assert(m1.assets_of().entry_of(x) == pre.assets_of().entry_of(x));
                        assert(m3.assets_of().entry_of(x) == m2.assets_of().entry_of(x));
                        assert(m4.assets_of().entry_of(x) == m3.assets_of().entry_of(x));
                    }
                    assert forall|x: ItemId| true implies #[trigger] post.assets_of().entry_of(x)
                        == m5.assets_of().entry_of(x) by {}
                    assert forall|m: MetaverseId| true implies #[trigger]
                        post.assets_of().metaverse_owner(m) == pre.assets_of().metaverse_owner(
                        m,
                    ) by {
                        assert(m1.assets_of().metaverse_owner(m) == pre.assets_of(
                        ).metaverse_owner(m));
                        assert(m3.assets_of().metaverse_owner(m) == m2.assets_of(
                        ).metaverse_owner(m));
                        assert(m4.assets_of().metaverse_owner(m) == m3.assets_of(
                        ).metaverse_owner(m));
                        assert(m5.assets_of().metaverse_owner(m) == m4.assets_of(
                        ).metaverse_owner(m));
                    }
                    assert(m5.events_log() == pre.events_log()) by {
                        assert(m1.events_log() == pre.events_log());
                        assert(m3.events_log() == m2.events_log());
                        assert(m4.events_log() == m3.events_log());
                        assert(m5.events_log() == m4.events_log());
                    }
                    // the whole settlement, as one model transition
                    let a = pre.auction_of(id).unwrap();
                    let m0 = pre.settlement_model();
                    let expected = m0.settle_entry(pre.config_of(), id, a, it);
                    assert(m0.sweep_moved(winner, price) == Pallet::spec_sweep_moved(
                        pre.ledger_of(),
                        winner,
                        price,
                    ));
                    assert(m0.sweep_sale_ok(winner, seller, price) == Pallet::spec_sweep_sale_ok(
                        pre.ledger_of(),
                        winner,
                        seller,
                        price,
                    ));
                    assert forall|x: AccountId| true implies #[trigger]
                        m0.sweep_free_sale(winner, seller, price, x)
                        == Pallet::spec_sweep_free_sale(
                        pre.ledger_of(),
                        winner,
                        seller,
                        price,
                        x,
                    ) && m0.sweep_res_sale(winner, seller, price, x)
                        == Pallet::spec_sweep_res_sale(
                        pre.ledger_of(),
                        winner,
                        seller,
                        price,
                        x,
                    ) by {}
                    assert forall|k: (FungibleTokenId, AccountId)| true implies #[trigger]
                        post.settlement_model().funds[k] == expected.funds[k] by {
                        assert(post.ledger_of().entry_of(k.0, k.1) == post.ledger_of().entry_of(
                            k.0,
                            k.1,
                        ));
                    }
                    assert(post.settlement_model().funds =~= expected.funds);
                    assert forall|x: ItemId| true implies #[trigger]
                        post.settlement_model().assets[x] == expected.assets[x] by {
                        assert(m0.assets[x] == pre.assets_of().entry_of(x));
                    }
                    assert(post.settlement_model().assets =~= expected.assets);
                    assert(post.settlement_model().events =~= expected.events);
                    assert(post.settlement_model() == expected);
                }
            },
        }
    }

    /// The sweep-mutable collaborator state as one mathematical value:
    /// every balance, every asset record, and the notification log.
    pub open spec fn settlement_model(self) -> SettlementModel {
        SettlementModel {
            funds: Map::total(
                |k: (FungibleTokenId, AccountId)| self.ledger_of().entry_of(k.0, k.1),
            ),
            assets: Map::total(|item: ItemId| self.assets_of().entry_of(item)),
            events: self.events_log(),
        }
    }

    /// The settlements of a sweep, folded in processing order: each due
    /// listing's bid and record are read from the pre-state (the sweep
    /// never rewrites them), while funds, assets and notifications thread
    /// through from one settlement to the next.
    pub open spec fn spec_sweep_fold(
        pre: Pallet,
        ids: Seq<AuctionId>,
        m: SettlementModel,
    ) -> SettlementModel
        decreases ids.len(),
    {
        if ids.len() == 0 {
            m
        } else {
            Pallet::spec_sweep_fold(pre, ids.drop_last(), m).settle_entry(
                pre.config_of(),
                ids.last(),
                pre.auction_of(ids.last()).unwrap(),
                pre.item_rec_of(ids.last()).unwrap(),
            )
        }
    }

    /// Whether one of the settled listings was the auction of `item`.
    pub open spec fn spec_settled_item(pre: Pallet, settled: Seq<AuctionId>, item: ItemId)
        -> bool {
        exists|j: int|
            0 <= j < settled.len() && (pre.item_rec_of(#[trigger] settled[j]) matches Some(it)
                && it.item_id == item)
    }

    /// The whole outcome of one sweep, pinned by the sequence of listings
    /// it settled: which listings those may be, the cap, completeness
    /// within the cap, the exact registry after the removals, and the
    /// funds, assets and notifications as the fold of the per-listing
    /// settlement.
    pub open spec fn spec_sweep_outcome(
        pre: Pallet,
        post: Pallet,
        now: BlockNumber,
        settled: Seq<AuctionId>,
    ) -> bool {
        &&& forall|j: int, jj: int|
            0 <= j < jj < settled.len() ==> #[trigger] settled[j] != #[trigger] settled[jj]
        &&& forall|j: int|
            0 <= j < settled.len() ==> pre.sched_has(now, #[trigger] settled[j])
                && pre.item_rec_of(settled[j]) is Some
        &&& settled.len() <= pre.config_of().max_finality
        &&& (pre.spec_due_count(now) <= pre.config_of().max_finality ==> forall|id: AuctionId|
            #[trigger] pre.sched_has(now, id) && pre.item_rec_of(id) is Some
                ==> settled.contains(id))
        &&& (settled.len() < pre.config_of().max_finality ==> forall|id: AuctionId|
            #[trigger] pre.sched_has(now, id) && pre.item_rec_of(id) is Some
                ==> settled.contains(id))
        &&& forall|x: AuctionId| #[trigger]
            post.auction_of(x) == (if settled.contains(x) {
                None::<AuctionInfo>
            } else {
                pre.auction_of(x)
            })
        &&& forall|t: BlockNumber, x: AuctionId| #[trigger]
            post.sched_has(t, x) == (pre.sched_has(t, x) && !settled.contains(x))
        &&& forall|item: ItemId| #[trigger]
            post.in_auction(item) == (pre.in_auction(item) && !Pallet::spec_settled_item(
                pre,
                settled,
                item,
            ))
        &&& post.settlement_model() == Pallet::spec_sweep_fold(
            pre,
            settled,
            pre.settlement_model(),
        )
    }

    /// What one sweep at time `now` guarantees: it only removes listings
    /// whose deadline is `now` (together with their membership and index
    /// entries), touches nothing else in the registry, only appends
    /// notifications, and — when the bucket fits the per-cycle cap —
    /// settles every due listing that has a record.  The last conjunct
    /// pins the whole outcome: some sequence of settled listings explains
    /// the final state exactly, funds, assets and notifications included,
    /// as [`Pallet::spec_sweep_outcome`] demands.
    pub open spec fn spec_swept(pre: Pallet, post: Pallet, now: BlockNumber) -> bool {
        &&& forall|x: AuctionId| #[trigger]
            post.auction_of(x) is Some ==> post.auction_of(x) == pre.auction_of(x)
        &&& forall|x: AuctionId|
            (#[trigger] pre.auction_of(x)) matches Some(a) && a.end != Some(now)
                ==> post.auction_of(x) == pre.auction_of(x)
        &&& Pallet::same_item_records(pre, post)
        &&& Pallet::same_authorized(pre, post)
        &&& forall|t: BlockNumber, x: AuctionId| #[trigger]
            post.sched_has(t, x) ==> pre.sched_has(t, x)
        &&& forall|t: BlockNumber, x: AuctionId|
            t != now ==> #[trigger] post.sched_has(t, x) == pre.sched_has(t, x)
        &&& forall|item: ItemId| #[trigger] post.in_auction(item) ==> pre.in_auction(item)
        &&& forall|id: AuctionId, item: ItemId|
            #[trigger] pre.references(id, item) && pre.auction_of(id).unwrap().end != Some(now)
                ==> post.in_auction(item)
        &&& post.events_log().len() >= pre.events_log().len()
        &&& post.events_log().subrange(0, pre.events_log().len() as int) == pre.events_log()
        &&& (pre.spec_due_count(now) <= pre.config_of().max_finality ==> forall|id: AuctionId|
            #[trigger] pre.sched_has(now, id) && pre.item_rec_of(id) is Some ==> !post.live(id))
        &&& post.config_of() == pre.config_of()
        &&& post.next_id_of() == pre.next_id_of()
        &&& exists|settled: Seq<AuctionId>|
            Pallet::spec_sweep_outcome(pre, post, now, settled)
    }

    /// The expiry sweep: settles the listings whose deadline is exactly
    /// `now`, at most the configured number of them per call.  Entries
    /// beyond the cap, and entries whose listing record is missing, stay
    /// in the index untouched.
    #[verifier::rlimit(60)]
    pub fn on_finalize(&mut self, now: BlockNumber)
        requires
            old(self).wf(),
        ensures
            final(self).wf(),
            Pallet::spec_swept(*old(self), *final(self), now),
            final(self).time_of() == old(self).time_of(),
    {
        let ghost pre = *old(self);
        let ghost s0 = self.auction_end_time@;
        // gather the bucket for `now`
        let mut due: Vec<AuctionId> = Vec::new();
        let mut i: usize = 0;
        while i < self.auction_end_time.len()
            invariant
                *self == *old(self),
                self.auction_end_time@ == s0,
                keys_unique(s0),
                i <= s0.len(),
                due@.len() == count_at(s0.subrange(0, i as int), now),
                forall|j: int|
                    0 <= j < i && (#[trigger] s0[j]).0.0 == now ==> due@.contains(s0[j].0.1),
                forall|k: int|
                    0 <= k < due@.len() ==> has_entry_upto(s0, i as int, now, #[trigger] due@[k]),
                forall|k1: int, k2: int|
                    0 <= k1 < k2 < due@.len() ==> due@[k1] != due@[k2],
            decreases s0.len() - i,
        {
            let key = self.auction_end_time[i].0;
            let ghost due_old = due@;
            if key.0 == now {
                due.push(key.1);
                proof {
                    assert forall|kk: int| 0 <= kk < due_old.len() implies due_old[kk]
                        != key.1 by {
                        assert(has_entry_upto(s0, i as int, now, due_old[kk]));
                        let j = choose|j: int|
                            0 <= j < i && (#[trigger] s0[j]).0 == (now, due_old[kk]);
                        if due_old[kk] == key.1 {
                            assert(s0[j].0 == s0[i as int].0);
                        }
                    }
                    assert(s0[i as int].0 == (now, key.1));
                    assert forall|j: int|
                        0 <= j < i + 1 && (#[trigger] s0[j]).0.0 == now implies due@.contains(
                        s0[j].0.1,
                    ) by {
                        if j < i {
                            assert(due_old.contains(s0[j].0.1));
                            let kk = choose|kk: int|
                                0 <= kk < due_old.len() && due_old[kk] == s0[j].0.1;
                            assert(due@[kk] == s0[j].0.1);
                        } else {
                            assert(due@[due_old.len() as int] == key.1);
                        }
                    }
                    assert forall|kk: int| 0 <= kk < due@.len() implies has_entry_upto(
                        s0,
                        (i + 1) as int,
                        now,
                        #[trigger] due@[kk],
                    ) by {
                        if kk < due_old.len() {
                            assert(has_entry_upto(s0, i as int, now, due@[kk]));
                            let j = choose|j: int|
                                0 <= j < i && (#[trigger] s0[j]).0 == (now, due@[kk]);
                            assert(0 <= j < i + 1 && s0[j].0 == (now, due@[kk]));
                        } else {
                            assert(s0[i as int].0 == (now, due@[kk]));
                        }
                    }
                }
            }
            proof {
                assert(s0.subrange(0, (i + 1) as int).drop_last() =~= s0.subrange(0, i as int));
                assert(s0.subrange(0, (i + 1) as int).last() == s0[i as int]);
                assert forall|kk: int| 0 <= kk < due@.len() implies has_entry_upto(
                    s0,
                    (i + 1) as int,
                    now,
                    #[trigger] due@[kk],
                ) by {
                    if has_entry_upto(s0, i as int, now, due@[kk]) {
                        let j = choose|j: int|
                            0 <= j < i && (#[trigger] s0[j]).0 == (now, due@[kk]);
                        assert(0 <= j < i + 1 && s0[j].0 == (now, due@[kk]));
                    }
                }
            }
            i += 1;
        }
        proof {
            assert(s0.subrange(0, s0.len() as int) =~= s0);
            assert(due@.len() == pre.spec_due_count(now));
            assert forall|k: int| 0 <= k < due@.len() implies #[trigger] pre.sched_has(
                now,
                due@[k],
            ) by {
                assert(has_entry_upto(s0, s0.len() as int, now, due@[k]));
                let j = choose|j: int| 0 <= j < s0.len() && (#[trigger] s0[j]).0 == (now, due@[k]);
                lemma_get_at_index(s0, j);
            }
        }
        let max_finality = self.config.max_finality;
        let mut proceeded: u32 = 0;
        let mut k: usize = 0;
        let ghost mut settled: Seq<AuctionId> = Seq::empty();
        while k < due.len() && proceeded < max_finality
            invariant
                self.wf(),
                k <= due@.len(),
                proceeded <= k,
                max_finality == pre.config_of().max_finality,
                pre.wf(),
                forall|k1: int, k2: int|
                    0 <= k1 < k2 < due@.len() ==> due@[k1] != due@[k2],
                forall|kk: int| 0 <= kk < due@.len() ==> #[trigger] pre.sched_has(now, due@[kk]),
                forall|j: int| 0 <= j < s0.len() && (#[trigger] s0[j]).0.0 == now
                    ==> due@.contains(s0[j].0.1),
                s0 == pre.auction_end_time@,
                keys_unique(s0),
                forall|x: AuctionId| #[trigger]
                    self.auction_of(x) is Some ==> self.auction_of(x) == pre.auction_of(x),
                forall|x: AuctionId|
                    (#[trigger] pre.auction_of(x)) matches Some(a) && a.end != Some(now)
                        ==> self.auction_of(x) == pre.auction_of(x),
                forall|j: int|
                    k <= j < due@.len() ==> #[trigger] self.auction_of(due@[j])
                        == pre.auction_of(due@[j]),
                Pallet::same_item_records(pre, *self),
                Pallet::same_authorized(pre, *self),
                self.config_of() == pre.config_of(),
                self.time_of() == pre.time_of(),
                self.next_id_of() == pre.next_id_of(),
                forall|t: BlockNumber, x: AuctionId| #[trigger]
                    self.sched_has(t, x) ==> pre.sched_has(t, x),
                forall|t: BlockNumber, x: AuctionId|
                    t != now ==> #[trigger] self.sched_has(t, x) == pre.sched_has(t, x),
                forall|item: ItemId| #[trigger] self.in_auction(item) ==> pre.in_auction(item),
                forall|id: AuctionId, item: ItemId|
                    #[trigger] pre.references(id, item) && pre.auction_of(id).unwrap().end
                        != Some(now) ==> self.in_auction(item),
                self.events_log().len() >= pre.events_log().len(),
                self.events_log().subrange(0, pre.events_log().len() as int)
                    == pre.events_log(),
                settled.len() as int == proceeded as int,
                proceeded <= max_finality,
                forall|j: int|
                    0 <= j < settled.len() ==> pre.sched_has(now, #[trigger] settled[j])
                        && pre.item_rec_of(settled[j]) is Some,
                forall|j: int| 0 <= j < settled.len() ==> !self.live(#[trigger] settled[j]),
                forall|j: int, jj: int|
                    0 <= j < jj < settled.len() ==> #[trigger] settled[j] != #[trigger] settled[jj],
                forall|x: AuctionId| #[trigger]
                    self.auction_of(x) == (if settled.contains(x) {
                        None::<AuctionInfo>
                    } else {
                        pre.auction_of(x)
                    }),
                forall|t: BlockNumber, x: AuctionId| #[trigger]
                    self.sched_has(t, x) == (pre.sched_has(t, x) && !settled.contains(x)),
                forall|item: ItemId| #[trigger]
                    self.in_auction(item) == (pre.in_auction(item) && !Pallet::spec_settled_item(
                        pre,
                        settled,
                        item,
                    )),
                self.settlement_model() == Pallet::spec_sweep_fold(
                    pre,
                    settled,
                    pre.settlement_model(),
                ),
                forall|j: int|
                    0 <= j < k && pre.item_rec_of(#[trigger] due@[j]) is Some
                        ==> settled.contains(due@[j]),
            decreases due@.len() - k,
        {
            let id = due[k];
            let ghost mid = *self;
            if self.get_auction_item(id).is_some() {
                proof {
                    assert(pre.sched_has(now, due@[k as int]));
                    assert(pre.auction_of(id) matches Some(a) && a.end == Some(now));
                    assert(self.auction_of(id) == pre.auction_of(id));
                    assert(self.item_rec_of(id) == pre.item_rec_of(id));
                }
                self.finalize_one(now, id);
                proceeded += 1;
                proof {
                    let post = *self;
                    let it = mid.item_rec_of(id).unwrap();
                    assert forall|x: AuctionId| #[trigger]
                        post.auction_of(x) is Some implies post.auction_of(x) == pre.auction_of(
                        x,
                    ) by {
                        assert(x != id);
                        assert(post.auction_of(x) == mid.auction_of(x));
                    }
                    assert forall|x: AuctionId|
                        (#[trigger] pre.auction_of(x)) matches Some(a) && a.end != Some(
                        now,
                    ) implies post.auction_of(x) == pre.auction_of(x) by {
                        assert(x != id);
                        assert(post.auction_of(x) == mid.auction_of(x));
                    }
                    assert forall|j: int|
                        k + 1 <= j < due@.len() implies #[trigger] post.auction_of(due@[j])
                        == pre.auction_of(due@[j]) by {
                        assert(due@[j] != id);
                        assert(post.auction_of(due@[j]) == mid.auction_of(due@[j]));
                    }
                    assert forall|x: AuctionId| true implies #[trigger] post.item_rec_of(x)
                        == pre.item_rec_of(x) by {
                        assert(post.item_rec_of(x) == mid.item_rec_of(x));
                    }
                    assert forall|m: MetaverseId, c: ClassId| true implies #[trigger]
                        post.collection_authorized(m, c) == pre.collection_authorized(m, c) by {
                        assert(post.collection_authorized(m, c) == mid.collection_authorized(
                            m,
                            c,
                        ));
                    }
                    assert forall|t: BlockNumber, x: AuctionId| #[trigger]
                        post.sched_has(t, x) implies pre.sched_has(t, x) by {
                        assert(post.sched_has(t, x) == (mid.sched_has(t, x) && x != id));
                    }
                    assert forall|t: BlockNumber, x: AuctionId|
                        t != now implies #[trigger] post.sched_has(t, x) == pre.sched_has(
                        t,
                        x,
                    ) by {
                        assert(post.sched_has(t, x) == (mid.sched_has(t, x) && x != id));
                        if x == id {
                            if pre.sched_has(t, id) {
                                assert(pre.auction_of(id).unwrap().end == Some(t));
                            }
                        }
                    }
                    assert forall|item: ItemId| #[trigger]
                        post.in_auction(item) implies pre.in_auction(item) by {
                        if item != it.item_id {
                            assert(post.in_auction(item) == mid.in_auction(item));
                        }
                    }
                    assert forall|id2: AuctionId, item: ItemId|
                        #[trigger] pre.references(id2, item) && pre.auction_of(id2).unwrap().end
                            != Some(now) implies post.in_auction(item) by {
                        assert(mid.in_auction(item));
                        if item == it.item_id {
                            assert(mid.references(id, it.item_id));
                            assert(mid.references(id2, item)) by {
                                assert(mid.auction_of(id2) == pre.auction_of(id2));
                                assert(mid.item_rec_of(id2) == pre.item_rec_of(id2));
                            }
                            assert(id2 == id);
                            assert(pre.auction_of(id).unwrap().end == Some(now));
                            assert(false);
                        } else {
                            assert(post.in_auction(item) == mid.in_auction(item));
                        }
                    }
                    assert(post.events_log().len() >= mid.events_log().len());
                    assert(post.events_log().subrange(0, pre.events_log().len() as int)
                        =~= pre.events_log()) by {
                        assert(mid.events_log().subrange(0, pre.events_log().len() as int)
                            == pre.events_log());
                    }
                    // bookkeeping of the settled sequence
                    let settled_old = settled;
                    settled = settled.push(id);
                    assert(settled.drop_last() =~= settled_old);
                    assert(settled.last() == id);
                    assert forall|x: AuctionId| true implies #[trigger] settled.contains(x) == (
                    settled_old.contains(x) || x == id) by {
                        lemma_contains_push(settled_old, id, x);
                    }
                    assert(mid.live(id));
                    assert(!settled_old.contains(id)) by {
                        if settled_old.contains(id) {
                            let j = choose|j: int|
                                0 <= j < settled_old.len() && settled_old[j] == id;
                            assert(!mid.live(settled_old[j]));
                        }
                    }
                    assert forall|j: int, jj: int|
                        0 <= j < jj < settled.len() implies #[trigger] settled[j] != (
                    #[trigger] settled[jj]) by {
                        if jj == settled.len() - 1 {
                            assert(settled[j] == settled_old[j]);
                            if settled_old[j] == id {
                                assert(settled_old.contains(id));
                            }
                        } else {
                            assert(settled[j] == settled_old[j]);
                            assert(settled[jj] == settled_old[jj]);
                        }
                    }
                    assert forall|j: int|
                        0 <= j < settled.len() implies pre.sched_has(now, #[trigger] settled[j])
                        && pre.item_rec_of(settled[j]) is Some by {
                        if j < settled_old.len() {
                            assert(settled[j] == settled_old[j]);
                        } else {
                            assert(settled[j] == id);
                            assert(pre.sched_has(now, due@[k as int]));
                        }
                    }
                    assert forall|j: int| 0 <= j < settled.len() implies !post.live(
                        #[trigger] settled[j],
                    ) by {
                        if j < settled_old.len() {
                            assert(!mid.live(settled_old[j]));
                            if settled[j] != id {
                                assert(post.auction_of(settled[j]) == mid.auction_of(settled[j]));
                            }
                        }
                        assert(!post.live(id));
                    }
                    assert forall|x: AuctionId| true implies #[trigger] post.auction_of(x) == (
                    if settled.contains(x) {
                        None::<AuctionInfo>
                    } else {
                        pre.auction_of(x)
                    }) by {
                        if x != id {
                            assert(post.auction_of(x) == mid.auction_of(x));
                            assert(mid.auction_of(x) == (if settled_old.contains(x) {
                                None::<AuctionInfo>
                            } else {
                                pre.auction_of(x)
                            }));
                        } else {
                            assert(!post.live(id));
                            assert(settled.contains(id));
                        }
                    }
                    assert forall|t: BlockNumber, x: AuctionId| true implies #[trigger]
                        post.sched_has(t, x) == (pre.sched_has(t, x) && !settled.contains(x)) by {
                        assert(post.sched_has(t, x) == (mid.sched_has(t, x) && x != id));
                        assert(mid.sched_has(t, x) == (pre.sched_has(t, x)
                            && !settled_old.contains(x)));
                    }
                    assert forall|item: ItemId| true implies #[trigger] post.in_auction(item) == (
                    pre.in_auction(item) && !Pallet::spec_settled_item(pre, settled, item)) by {
                        assert(mid.in_auction(item) == (pre.in_auction(item)
                            && !Pallet::spec_settled_item(pre, settled_old, item)));
                        assert(mid.item_rec_of(id) == pre.item_rec_of(id));
                        assert(Pallet::spec_settled_item(pre, settled, item) == (
                        Pallet::spec_settled_item(pre, settled_old, item) || it.item_id
                            == item)) by {
                            if Pallet::spec_settled_item(pre, settled_old, item) {
                                let j = choose|j: int|
                                    0 <= j < settled_old.len() && (pre.item_rec_of(
                                        #[trigger] settled_old[j],
                                    ) matches Some(it2) && it2.item_id == item);
                                assert(settled[j] == settled_old[j]);
                            }
                            if it.item_id == item {
                                assert(settled[settled_old.len() as int] == id);
                            }
                            if Pallet::spec_settled_item(pre, settled, item) {
                                let j = choose|j: int|
                                    0 <= j < settled.len() && (pre.item_rec_of(
                                        #[trigger] settled[j],
                                    ) matches Some(it2) && it2.item_id == item);
                                if j < settled_old.len() {
                                    assert(settled_old[j] == settled[j]);
                                } else {
                                    assert(settled[j] == id);
                                }
                            }
                        }
                        if item == it.item_id {
                            assert(!post.in_auction(item));
                        } else {
                            assert(post.in_auction(item) == mid.in_auction(item));
                        }
                    }
                    assert(mid.auction_of(id) == pre.auction_of(id));
                    assert(mid.config_of() == pre.config_of());
                    assert(Pallet::spec_sweep_fold(pre, settled, pre.settlement_model())
                        == Pallet::spec_sweep_fold(pre, settled_old, pre.settlement_model(
                    )).settle_entry(
                        pre.config_of(),
                        id,
                        pre.auction_of(id).unwrap(),
                        pre.item_rec_of(id).unwrap(),
                    ));
                    assert(post.settlement_model() == Pallet::spec_sweep_fold(
                        pre,
                        settled,
                        pre.settlement_model(),
                    ));
                    assert forall|j: int|
                        0 <= j < k + 1 && pre.item_rec_of(#[trigger] due@[j]) is Some implies
                        settled.contains(due@[j]) by {
                        if j < k {
                            assert(settled_old.contains(due@[j]));
                        } else {
                            assert(settled[settled_old.len() as int] == id);
                        }
                    }
                }
            } else {
                proof {
                    assert(pre.item_rec_of(due@[k as int]) is None);
                }
            }
            k += 1;
        }
        proof {
            let post = *self;
            if pre.spec_due_count(now) <= pre.config_of().max_finality {
                assert(k == due@.len());
                assert forall|id: AuctionId|
                    #[trigger] pre.sched_has(now, id) && pre.item_rec_of(id) is Some implies
                    settled.contains(id) by {
                    crate::table::lemma_get_some_index(s0, (now, id));
                    let j = choose|j: int| 0 <= j < s0.len() && (#[trigger] s0[j]).0 == (now, id);
                    assert(s0[j].0.0 == now);
                    assert(due@.contains(id));
                    let kk = choose|kk: int| 0 <= kk < due@.len() && due@[kk] == id;
                    assert(settled.contains(due@[kk]));
                }
                assert forall|id: AuctionId|
                    #[trigger] pre.sched_has(now, id) && pre.item_rec_of(id) is Some implies
                    !post.live(id) by {
                    assert(settled.contains(id));
                    assert(post.auction_of(id) == None::<AuctionInfo>);
                }
            }
            if settled.len() < pre.config_of().max_finality {
                assert(k == due@.len());
                assert forall|id: AuctionId|
                    #[trigger] pre.sched_has(now, id) && pre.item_rec_of(id) is Some implies
                    settled.contains(id) by {
                    crate::table::lemma_get_some_index(s0, (now, id));
                    let j = choose|j: int| 0 <= j < s0.len() && (#[trigger] s0[j]).0 == (now, id);
                    assert(s0[j].0.0 == now);
                    assert(due@.contains(id));
                    let kk = choose|kk: int| 0 <= kk < due@.len() && due@[kk] == id;
                    assert(settled.contains(due@[kk]));
                }
            }
            assert(Pallet::spec_sweep_outcome(pre, post, now, settled));
        }
    }

    /// Advances the engine's clock to `now` and runs the expiry sweep for
    /// that time step.
    pub fn on_time_advance(&mut self, now: BlockNumber)
        requires
            old(self).wf(),
        ensures
            final(self).wf(),
            final(self).time_of() == now,
            Pallet::spec_swept(*old(self), *final(self), now),
    {
        self.now = now;
        let ghost mid = *self;
        proof {
            Pallet::lemma_wf_same_registry(*old(self), *self);
        }
        self.on_finalize(now);
        proof {
            let pre = *old(self);
            let post = *self;
            assert forall|x: AuctionId| true implies #[trigger] mid.auction_of(x)
                == pre.auction_of(x) by {}
            assert forall|x: AuctionId| true implies #[trigger] mid.item_rec_of(x)
                == pre.item_rec_of(x) by {}
            assert forall|x: ItemId| true implies #[trigger] mid.in_auction(x) == pre.in_auction(
                x,
            ) by {}
            assert forall|t: BlockNumber, x: AuctionId| true implies #[trigger] mid.sched_has(
                t,
                x,
            ) == pre.sched_has(t, x) by {}
            assert forall|m: MetaverseId, c: ClassId| true implies #[trigger]
                mid.collection_authorized(m, c) == pre.collection_authorized(m, c) by {}
            assert(mid.events_log() == pre.events_log());
            assert(mid.spec_due_count(now) == pre.spec_due_count(now));
            assert forall|x: AuctionId, item: ItemId| true implies #[trigger] mid.references(
                x,
                item,
            ) == pre.references(x, item) by {}
            assert forall|x: AuctionId| #[trigger]
                post.auction_of(x) is Some implies post.auction_of(x) == pre.auction_of(x) by {
                assert(post.auction_of(x) == mid.auction_of(x));
            }
            assert forall|x: AuctionId|
                (#[trigger] pre.auction_of(x)) matches Some(a) && a.end != Some(now) implies
                post.auction_of(x) == pre.auction_of(x) by {
                assert(mid.auction_of(x) == pre.auction_of(x));
            }
            assert forall|id: AuctionId, item: ItemId|
                #[trigger] pre.references(id, item) && pre.auction_of(id).unwrap().end != Some(
                now,
            ) implies post.in_auction(item) by {
                assert(mid.references(id, item));
            }
            assert forall|id: AuctionId|
                pre.spec_due_count(now) <= pre.config_of().max_finality && #[trigger]
                pre.sched_has(now, id) && pre.item_rec_of(id) is Some implies !post.live(id) by {
                assert(mid.sched_has(now, id));
                assert(mid.item_rec_of(id) is Some);
            }
            // the sweep outcome carries over to the state before the
            // clock moved, which differs from it only in the time
            assert(mid.settlement_model() == pre.settlement_model()) by {
                assert forall|k2: (FungibleTokenId, AccountId)| true implies #[trigger]
                    mid.settlement_model().funds[k2] == pre.settlement_model().funds[k2] by {}
                assert(mid.settlement_model().funds =~= pre.settlement_model().funds);
                assert forall|x: ItemId| true implies #[trigger] mid.settlement_model().assets[x]
                    == pre.settlement_model().assets[x] by {}
                assert(mid.settlement_model().assets =~= pre.settlement_model().assets);
                assert(mid.settlement_model().events =~= pre.settlement_model().events);
            }
            let settled = choose|sq: Seq<AuctionId>|
                Pallet::spec_sweep_outcome(mid, post, now, sq);
            lemma_fold_same_reads(pre, mid, settled, pre.settlement_model());
            assert(mid.spec_due_count(now) == pre.spec_due_count(now));
            assert(mid.config_of() == pre.config_of());
            assert forall|j: int|
                0 <= j < settled.len() implies pre.sched_has(now, #[trigger] settled[j])
                && pre.item_rec_of(settled[j]) is Some by {
                assert(mid.sched_has(now, settled[j]) == pre.sched_has(now, settled[j]));
                assert(mid.item_rec_of(settled[j]) == pre.item_rec_of(settled[j]));
            }
            assert forall|x: AuctionId| true implies #[trigger] post.auction_of(x) == (
            if settled.contains(x) {
                None::<AuctionInfo>
            } else {
                pre.auction_of(x)
            }) by {
                assert(mid.auction_of(x) == pre.auction_of(x));
            }
            assert forall|t: BlockNumber, x: AuctionId| true implies #[trigger] post.sched_has(
                t,
                x,
            ) == (pre.sched_has(t, x) && !settled.contains(x)) by {
                assert(mid.sched_has(t, x) == pre.sched_has(t, x));
            }
            assert forall|item: ItemId| true implies #[trigger] post.in_auction(item) == (
            pre.in_auction(item) && !Pallet::spec_settled_item(pre, settled, item)) by {
                assert(mid.in_auction(item) == pre.in_auction(item));
                assert(Pallet::spec_settled_item(pre, settled, item)
                    == Pallet::spec_settled_item(mid, settled, item)) by {
                    if Pallet::spec_settled_item(pre, settled, item) {
                        let j = choose|j: int|
                            0 <= j < settled.len() && (pre.item_rec_of(
                                #[trigger] settled[j],
                            ) matches Some(it2) && it2.item_id == item);
                        assert(mid.item_rec_of(settled[j]) == pre.item_rec_of(settled[j]));
                    }
                    if Pallet::spec_settled_item(mid, settled, item) {
                        let j = choose|j: int|
                            0 <= j < settled.len() && (mid.item_rec_of(
                                #[trigger] settled[j],
                            ) matches Some(it2) && it2.item_id == item);
                        assert(mid.item_rec_of(settled[j]) == pre.item_rec_of(settled[j]));
                    }
                }
            }
            assert(pre.spec_due_count(now) <= pre.config_of().max_finality ==> (forall|
                id2: AuctionId,
            |
                #[trigger] pre.sched_has(now, id2) && pre.item_rec_of(id2) is Some
                    ==> settled.contains(id2))) by {
                if pre.spec_due_count(now) <= pre.config_of().max_finality {
                    assert forall|id2: AuctionId|
                        #[trigger] pre.sched_has(now, id2) && pre.item_rec_of(id2) is Some implies
                        settled.contains(id2) by {
                        assert(mid.sched_has(now, id2));
                        assert(mid.item_rec_of(id2) is Some);
                    }
                }
            }
            assert(settled.len() < pre.config_of().max_finality ==> (forall|id2: AuctionId|
                #[trigger] pre.sched_has(now, id2) && pre.item_rec_of(id2) is Some
                    ==> settled.contains(id2))) by {
                if settled.len() < pre.config_of().max_finality {
                    assert forall|id2: AuctionId|
                        #[trigger] pre.sched_has(now, id2) && pre.item_rec_of(id2) is Some implies
                        settled.contains(id2) by {
                        assert(mid.sched_has(now, id2));
                        assert(mid.item_rec_of(id2) is Some);
                    }
                }
            }
            assert(Pallet::spec_sweep_outcome(pre, post, now, settled));
        }
    }

    // ------------------------------------------------------------------
    // Host access to the modelled collaborators.
    // ------------------------------------------------------------------

    /// Sets both parts of one account's balance outright.
    pub fn set_balance(
        &mut self,
        currency: FungibleTokenId,
        who: AccountId,
        free: Balance,
        reserved: Balance,
    )
        requires
            old(self).wf(),
            free + reserved <= u128::MAX,
        ensures
            final(self).wf(),
            final(self).ledger_of().free_of(currency, who) == free,
            final(self).ledger_of().reserved_of(currency, who) == reserved,
            forall|c: FungibleTokenId, a: AccountId|
                (c != currency || a != who) ==> #[trigger] final(self).ledger_of().entry_of(c, a)
                    == old(self).ledger_of().entry_of(c, a),
            Pallet::same_auctions(*old(self), *final(self)),
            Pallet::same_item_records(*old(self), *final(self)),
            Pallet::same_membership(*old(self), *final(self)),
            Pallet::same_schedule(*old(self), *final(self)),
            Pallet::same_authorized(*old(self), *final(self)),
            Pallet::same_assets(*old(self), *final(self)),
            Pallet::same_events(*old(self), *final(self)),
            Pallet::same_meta(*old(self), *final(self)),
    {
        self.ledger.set_balance(currency, who, free, reserved);
        proof {
            Pallet::lemma_wf_same_registry(*old(self), *self);
        }
    }

    /// Records an asset with its owner and transferability.
    pub fn register_item(&mut self, item: ItemId, owner: AccountId, transferable: bool)
        requires
            old(self).wf(),
        ensures
            final(self).wf(),
            final(self).assets_of().entry_of(item) == Some(AssetEntry { owner, transferable }),
            forall|x: ItemId|
                x != item ==> #[trigger] final(self).assets_of().entry_of(x) == old(
                    self,
                ).assets_of().entry_of(x),
            forall|m: MetaverseId|
                #[trigger] final(self).assets_of().metaverse_owner(m) == old(
                    self,
                ).assets_of().metaverse_owner(m),
            Pallet::same_auctions(*old(self), *final(self)),
            Pallet::same_item_records(*old(self), *final(self)),
            Pallet::same_membership(*old(self), *final(self)),
            Pallet::same_schedule(*old(self), *final(self)),
            Pallet::same_authorized(*old(self), *final(self)),
            Pallet::same_balances(*old(self), *final(self)),
            Pallet::same_events(*old(self), *final(self)),
            Pallet::same_meta(*old(self), *final(self)),
    {
        self.assets.register_item(item, owner, transferable);
        proof {
            Pallet::lemma_wf_same_registry(*old(self), *self);
        }
    }

    /// Records the owner of a metaverse.
    pub fn set_metaverse_owner(&mut self, metaverse_id: MetaverseId, owner: AccountId)
        requires
            old(self).wf(),
        ensures
            final(self).wf(),
            final(self).assets_of().metaverse_owner(metaverse_id) == Some(owner),
            forall|m: MetaverseId|
                m != metaverse_id ==> #[trigger] final(self).assets_of().metaverse_owner(m)
                    == old(self).assets_of().metaverse_owner(m),
            forall|x: ItemId|
                #[trigger] final(self).assets_of().entry_of(x) == old(self).assets_of().entry_of(
                    x,
                ),
            Pallet::same_auctions(*old(self), *final(self)),
            Pallet::same_item_records(*old(self), *final(self)),
            Pallet::same_membership(*old(self), *final(self)),
            Pallet::same_schedule(*old(self), *final(self)),
            Pallet::same_authorized(*old(self), *final(self)),
            Pallet::same_balances(*old(self), *final(self)),
            Pallet::same_events(*old(self), *final(self)),
            Pallet::same_meta(*old(self), *final(self)),
    {
        self.assets.set_metaverse_owner(metaverse_id, owner);
        proof {
            Pallet::lemma_wf_same_registry(*old(self), *self);
        }
    }

    /// The spendable balance of `who` in `currency`.
    pub fn free_balance(&self, currency: FungibleTokenId, who: AccountId) -> (r: Balance)
        requires
            self.wf(),
        ensures
            r == self.ledger_of().free_of(currency, who),
    {
        self.ledger.free_balance(currency, who)
    }

    /// The reserved balance of `who` in `currency`.
    pub fn reserved_balance(&self, currency: FungibleTokenId, who: AccountId) -> (r: Balance)
        requires
            self.wf(),
        ensures
            r == self.ledger_of().reserved_of(currency, who),
    {
        self.ledger.reserved_balance(currency, who)
    }

    /// The asset record of `item`, if the asset exists.
    pub fn asset_entry(&self, item: ItemId) -> (r: Option<AssetEntry>)
        requires
            self.wf(),
        ensures
            r == self.assets_of().entry_of(item),
    {
        self.assets.lookup_item(item)
    }

    /// The notifications emitted so far, oldest first.
    pub fn events(&self) -> (r: &Vec<Event>)
        ensures
            r@.map_values(|e: Event| e@) == self.events_log(),
    {
        &self.events
    }

    /// The engine's clock.
    pub fn current_time(&self) -> (r: BlockNumber)
        ensures
            r == self.time_of(),
    {
        self.now
    }

    // ------------------------------------------------------------------
    // Laws.
    // ------------------------------------------------------------------

    /// At most one live auction per asset: an item is listed exactly when
    /// some live auction references it, and never by two at once.
    pub proof fn lemma_one_live_auction_per_item(p: Pallet, item: ItemId)
        requires
            p.wf(),
        ensures
            p.in_auction(item) <==> exists|id: AuctionId| p.references(id, item),
            forall|id1: AuctionId, id2: AuctionId|
                p.references(id1, item) && p.references(id2, item) ==> id1 == id2,
    {
        if exists|id: AuctionId| p.references(id, item) {
            let id = choose|id: AuctionId| p.references(id, item);
            assert(p.in_auction(item));
        }
    }

    /// Accepted bids on one auction rise strictly: a successful bid
    /// replaces the recorded high bid with a strictly larger one (and a
    /// first bid is nonzero).
    pub proof fn lemma_bids_strictly_increase(
        pre: Pallet,
        post: Pallet,
        r: Result<(), Error>,
        from: AccountId,
        id: AuctionId,
        value: Balance,
    )
        requires
            Pallet::spec_bid(pre, post, r, from, id, value),
            r is Ok,
        ensures
            post.auction_of(id) matches Some(a2) && a2.bid == Some((from, value)),
            pre.auction_of(id) is Some,
            match pre.auction_of(id).unwrap().bid {
                Some(prev) => value > prev.1,
                None => value > 0,
            },
    {
    }

    /// The high bid is backed by escrow: when the listing's previous high
    /// bid was backed by its bidder's reservation, a successful bid
    /// leaves the new high bidder with at least the new amount reserved,
    /// and a distinct outbid bidder's reservation for the old amount
    /// fully released.
    pub proof fn lemma_high_bid_backed(
        pre: Pallet,
        post: Pallet,
        r: Result<(), Error>,
        from: AccountId,
        id: AuctionId,
        value: Balance,
    )
        requires
            Pallet::spec_bid(pre, post, r, from, id, value),
            r is Ok,
            match pre.auction_of(id) {
                Some(a) => match a.bid {
                    Some(prev) => pre.ledger_of().reserved_of(
                        FungibleTokenId::NativeToken(0),
                        prev.0,
                    ) >= prev.1,
                    None => true,
                },
                None => true,
            },
        ensures
            post.ledger_of().reserved_of(FungibleTokenId::NativeToken(0), from) >= value,
            match pre.auction_of(id).unwrap().bid {
                Some(prev) => (prev.0 != from && prev.1 > 0) ==> post.ledger_of().reserved_of(
                    FungibleTokenId::NativeToken(0),
                    prev.0,
                ) == pre.ledger_of().reserved_of(FungibleTokenId::NativeToken(0), prev.0)
                    - prev.1,
                None => true,
            },
    {
    }

    /// The royalty cut rounds down, never up: as long as the scaled
    /// amount does not saturate, the fee times the denominator never
    /// exceeds the scaled amount, and one more unit of fee always would.
    pub proof fn lemma_royalty_fee_floor(amount: Balance, fee_bps: u16)
        requires
            amount * fee_bps <= u128::MAX,
        ensures
            Pallet::spec_royalty_fee(amount, fee_bps) * ROYALTY_FEE_DENOMINATOR <= amount
                * fee_bps,
            amount * fee_bps < (Pallet::spec_royalty_fee(amount, fee_bps) + 1)
                * ROYALTY_FEE_DENOMINATOR,
    {
        let product = amount * fee_bps;
        let d = ROYALTY_FEE_DENOMINATOR as int;
        vstd::arithmetic::div_mod::lemma_fundamental_div_mod(product, d);
        vstd::arithmetic::div_mod::lemma_mod_bound(product, d);
        vstd::arithmetic::mul::lemma_mul_is_commutative(product / d, d);
        vstd::arithmetic::mul::lemma_mul_is_distributive_add_other_way(d, product / d, 1);
        vstd::arithmetic::mul::lemma_mul_basics(d);
    }

    // ------------------------------------------------------------------
    // Read-only queries.
    // ------------------------------------------------------------------

    /// Whether `item_id` is currently listed.
    pub fn check_item_in_auction(&self, item_id: ItemId) -> (r: bool)
        requires
            self.wf(),
        ensures
            r == self.in_auction(item_id),
    {
        let mut i: usize = 0;
        while i < self.items_in_auction.len()
            invariant
                i <= self.items_in_auction@.len(),
                keys_unique(self.items_in_auction@),
                forall|j: int| 0 <= j < i ==> (#[trigger] self.items_in_auction@[j]).0 != item_id,
            decreases self.items_in_auction@.len() - i,
        {
            if self.items_in_auction[i].0 == item_id {
                proof {
                    lemma_get_at_index(self.items_in_auction@, i as int);
                }
                return true;
            }
            i += 1;
        }
        proof {
            lemma_get_absent(self.items_in_auction@, item_id);
        }
        false
    }

    /// The bidding state of auction `id`, if it is live.
    pub fn auction_info(&self, id: AuctionId) -> (r: Option<AuctionInfo>)
        requires
            self.wf(),
        ensures
            r == self.auction_of(id),
    {
        match self.auctions_find(id) {
            Some(i) => Some(self.auction_infos[i].1),
            None => None,
        }
    }

    /// The listing record of auction `id`, if one was ever written.
    pub fn get_auction_item(&self, id: AuctionId) -> (r: Option<AuctionItem>)
        requires
            self.wf(),
        ensures
            match r {
                Some(item) => self.item_rec_of(id) == Some(item@),
                None => self.item_rec_of(id) is None,
            },
    {
        match self.items_find(id) {
            Some(i) => Some(self.auction_items[i].1.duplicate()),
            None => None,
        }
    }
}

/// The sweep-mutable part of the store as mathematical maps: balances
/// per currency and account, asset records per item, and the
/// notification log.
pub struct SettlementModel {
    pub funds: Map<(FungibleTokenId, AccountId), (Balance, Balance)>,
    pub assets: Map<ItemId, Option<AssetEntry>>,
    pub events: Seq<EventView>,
}

impl SettlementModel {
    /// The spendable balance of `who` in `currency`.
    pub open spec fn free_of(self, currency: FungibleTokenId, who: AccountId) -> Balance {
        self.funds[(currency, who)].0
    }

    /// The reserved balance of `who` in `currency`.
    pub open spec fn reserved_of(self, currency: FungibleTokenId, who: AccountId) -> Balance {
        self.funds[(currency, who)].1
    }

    /// The winner's released reservation for the price.
    pub open spec fn sweep_moved(self, winner: AccountId, price: Balance) -> Balance {
        min_bal(price, self.reserved_of(FungibleTokenId::NativeToken(0), winner))
    }

    /// Whether the winner-to-seller transfer goes through once the
    /// reservation is back.
    pub open spec fn sweep_sale_ok(self, winner: AccountId, seller: AccountId, price: Balance)
        -> bool {
        let native = FungibleTokenId::NativeToken(0);
        let moved = self.sweep_moved(winner, price);
        &&& self.free_of(native, winner) + moved >= price
        &&& (winner == seller || self.free_of(native, seller) + self.reserved_of(native, seller)
            + price <= u128::MAX)
    }

    /// An account's spendable balance after the release and the sale leg.
    pub open spec fn sweep_free_sale(
        self,
        winner: AccountId,
        seller: AccountId,
        price: Balance,
        x: AccountId,
    ) -> int {
        let native = FungibleTokenId::NativeToken(0);
        let moved = self.sweep_moved(winner, price);
        let sale_ok = self.sweep_sale_ok(winner, seller, price);
        self.free_of(native, x) + (if x == winner {
            moved as int
        } else {
            0
        }) + (if sale_ok && winner != seller {
            (if x == seller {
                price as int
            } else {
                0
            }) - (if x == winner {
                price as int
            } else {
                0
            })
        } else {
            0
        })
    }

    /// An account's reserved balance after the release and the sale leg.
    pub open spec fn sweep_res_sale(
        self,
        winner: AccountId,
        seller: AccountId,
        price: Balance,
        x: AccountId,
    ) -> int {
        let native = FungibleTokenId::NativeToken(0);
        let moved = self.sweep_moved(winner, price);
        self.reserved_of(native, x) - (if x == winner {
            moved as int
        } else {
            0
        })
    }

    /// Whether the royalty leg of the settlement goes through.
    pub open spec fn sweep_royalty_applies(
        self,
        winner: AccountId,
        seller: AccountId,
        price: Balance,
        royalty: Option<(Balance, AccountId)>,
    ) -> bool {
        match royalty {
            None => false,
            Some((fee, fund)) => {
                &&& self.sweep_sale_ok(winner, seller, price)
                &&& self.sweep_free_sale(winner, seller, price, seller) >= fee
                &&& (seller == fund || self.sweep_free_sale(winner, seller, price, fund)
                    + self.sweep_res_sale(winner, seller, price, fund) + fee <= u128::MAX)
            },
        }
    }

    /// One winner settlement: release, sale, royalty, asset handover and
    /// the notification, each leg only where the one before it went
    /// through.
    pub open spec fn settle_winner(
        self,
        id: AuctionId,
        it: AuctionItemView,
        winner: AccountId,
        price: Balance,
        royalty: Option<(Balance, AccountId)>,
    ) -> SettlementModel {
        let native = FungibleTokenId::NativeToken(0);
        let seller = it.recipient;
        let sale_ok = self.sweep_sale_ok(winner, seller, price);
        let applied = self.sweep_royalty_applies(winner, seller, price, royalty);
        let funds = Map::total(
            |k: (FungibleTokenId, AccountId)|
                if k.0 != native {
                    self.funds[k]
                } else {
                    let fee: int = if applied {
                        royalty.unwrap().0 as int
                    } else {
                        0
                    };
                    let free_fin = self.sweep_free_sale(winner, seller, price, k.1) - (if k.1
                        == seller {
                        fee
                    } else {
                        0
                    });
                    let res_fin = self.sweep_res_sale(winner, seller, price, k.1) + (if applied
                        && k.1 == royalty.unwrap().1 {
                        fee
                    } else {
                        0
                    });
                    (free_fin as Balance, res_fin as Balance)
                },
        );
        let asset_moves = sale_ok && match it.item_id {
            ItemId::Country(_) => false,
            ItemId::Block(_) => false,
            _ => (self.assets[it.item_id] matches Some(e) && e.owner == seller && e.transferable),
        };
        let assets = if asset_moves {
            self.assets.insert(it.item_id, Some(AssetEntry { owner: winner, transferable: true }))
        } else {
            self.assets
        };
        let events = if asset_moves {
            self.events.push(EventView::AuctionFinalized(id, winner, price))
        } else {
            self.events
        };
        SettlementModel { funds, assets, events }
    }

    /// One due listing's settlement: a no-bid close only reports itself;
    /// a listing with a bid runs the winner settlement.
    pub open spec fn settle_entry(
        self,
        cfg: Config,
        id: AuctionId,
        a: AuctionInfo,
        it: AuctionItemView,
    ) -> SettlementModel {
        match a.bid {
            None => SettlementModel {
                funds: self.funds,
                assets: self.assets,
                events: self.events.push(EventView::AuctionFinalizedNoBid(id)),
            },
            Some((winner, price)) => {
                let royalty = match it.item_id {
                    ItemId::NFT(class_id, _token_id) => Some(
                        (
                            Pallet::spec_royalty_fee(price, cfg.royalty_fee),
                            crate::types::spec_class_fund_account(class_id),
                        ),
                    ),
                    _ => None,
                };
                self.settle_winner(id, it, winner, price, royalty)
            },
        }
    }
}

/// The fold reads only bidding records, listing records and
/// configuration; two states that agree on those fold identically.
proof fn lemma_fold_same_reads(p1: Pallet, p2: Pallet, ids: Seq<AuctionId>, m: SettlementModel)
    requires
        forall|x: AuctionId| #[trigger] p2.auction_of(x) == p1.auction_of(x),
        forall|x: AuctionId| #[trigger] p2.item_rec_of(x) == p1.item_rec_of(x),
        p2.config_of() == p1.config_of(),
    ensures
        Pallet::spec_sweep_fold(p2, ids, m) == Pallet::spec_sweep_fold(p1, ids, m),
    decreases ids.len(),
{
    if ids.len() > 0 {
        lemma_fold_same_reads(p1, p2, ids.drop_last(), m);
    }
}

/// Appending to a sequence adds exactly one member.
proof fn lemma_contains_push(s: Seq<AuctionId>, v: AuctionId, x: AuctionId)
    ensures
        s.push(v).contains(x) == (s.contains(x) || x == v),
{
    if s.contains(x) {
        let j = choose|j: int| 0 <= j < s.len() && s[j] == x;
        assert(s.push(v)[j] == x);
    }
    if x == v {
        assert(s.push(v)[s.len() as int] == x);
    }
    if s.push(v).contains(x) {
        let j = choose|j: int| 0 <= j < s.push(v).len() && s.push(v)[j] == x;
        if j < s.len() {
            assert(s[j] == x);
        }
    }
}

/// Whether some pair among the first `upto` of `s` is keyed `(t, id)`.
pub open spec fn has_entry_upto(
    s: Seq<((BlockNumber, AuctionId), ())>,
    upto: int,
    t: BlockNumber,
    id: AuctionId,
) -> bool {
    exists|j: int| 0 <= j < upto && (#[trigger] s[j]).0 == (t, id)
}

/// How many pairs of `s` carry `t` as the first half of their key.
pub open spec fn count_at(s: Seq<((BlockNumber, AuctionId), ())>, t: BlockNumber) -> nat
    decreases s.len(),
{
    if s.len() == 0 {
        0
    } else {
        count_at(s.drop_last(), t) + (if s.last().0.0 == t {
            1nat
        } else {
            0nat
        })
    }
}

} // verus!
