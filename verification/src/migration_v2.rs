//! A one-shot, offline transform of legacy listing records.
//!
//! Early deployments addressed an NFT by a single asset number; the
//! current records address it by collection and token.  The transform
//! maps each legacy record through a resolution table from asset number
//! to `(collection, token)`; records for any other asset kind are
//! dropped, as the live store never held them.

use vstd::prelude::*;

use crate::pallet::Pallet;
use crate::table::table_get;
use crate::types::{AccountId, AuctionId, AuctionItemView, AuctionType, Balance, BlockNumber,
    ClassId, FungibleTokenId, ItemId, ListingLevel, ListingLevelView, MetaverseId, TokenId};

verus! {

/// The legacy shape of an asset identifier: an NFT was a bare asset
/// number.
#[derive(Clone, Copy, PartialEq, Eq, Structural, Debug)]
pub enum V1ItemId {
    NFT(u64),
    Spot(u64, MetaverseId),
    Country(MetaverseId),
    Block(u64),
    Estate(u64),
    LandUnit(i32, i32, MetaverseId),
}

/// The legacy listing record.
#[derive(Clone, PartialEq, Eq, Debug)]
pub struct AuctionItem {
    pub item_id: V1ItemId,
    pub recipient: AccountId,
    pub initial_amount: Balance,
    /// Current amount for sale
    pub amount: Balance,
    /// Auction start time
    pub start_time: BlockNumber,
    pub end_time: BlockNumber,
    pub auction_type: AuctionType,
    pub listing_level: ListingLevel,
    pub currency_id: FungibleTokenId,
}

/// Mathematical shape of a legacy record.
pub struct LegacyItemView {
    pub item_id: V1ItemId,
    pub recipient: AccountId,
    pub initial_amount: Balance,
    pub amount: Balance,
    pub start_time: BlockNumber,
    pub end_time: BlockNumber,
    pub auction_type: AuctionType,
    pub listing_level: ListingLevelView,
    pub currency_id: FungibleTokenId,
}

impl View for AuctionItem {
    type V = LegacyItemView;

    open spec fn view(&self) -> LegacyItemView {
        LegacyItemView {
            item_id: self.item_id,
            recipient: self.recipient,
            initial_amount: self.initial_amount,
            amount: self.amount,
            start_time: self.start_time,
            end_time: self.end_time,
            auction_type: self.auction_type,
            listing_level: self.listing_level@,
            currency_id: self.currency_id,
        }
    }
}

/// A legacy NFT record carried over under the resolved collection and
/// token, all other fields kept.
pub open spec fn migrate_one(v1: LegacyItemView, class_id: ClassId, token_id: TokenId)
    -> AuctionItemView {
    AuctionItemView {
        item_id: ItemId::NFT(class_id, token_id),
        recipient: v1.recipient,
        initial_amount: v1.initial_amount,
        amount: v1.amount,
        start_time: v1.start_time,
        end_time: v1.end_time,
        auction_type: v1.auction_type,
        listing_level: v1.listing_level,
        currency_id: v1.currency_id,
    }
}

/// The transform over a whole store: legacy NFT records are carried over
/// under their key, records of every other kind are dropped.
pub open spec fn migrate_records(
    records: Seq<(AuctionId, LegacyItemView)>,
    tokens: Seq<(u64, (ClassId, TokenId))>,
) -> Seq<(AuctionId, AuctionItemView)>
    decreases records.len(),
{
    if records.len() == 0 {
        Seq::empty()
    } else {
        let rest = migrate_records(records.drop_last(), tokens);
        let last = records.last();
        match last.1.item_id {
            V1ItemId::NFT(asset_id) => rest.push(
                (last.0, migrate_one(last.1, table_get(tokens, asset_id).unwrap().0, table_get(
                    tokens,
                    asset_id,
                ).unwrap().1)),
            ),
            _ => rest,
        }
    }
}

impl AuctionItem {
    /// A value-preserving copy.
    pub fn duplicate(&self) -> (r: AuctionItem)
        ensures
            r@ == self@,
    {
        AuctionItem {
            item_id: self.item_id,
            recipient: self.recipient,
            initial_amount: self.initial_amount,
            amount: self.amount,
            start_time: self.start_time,
            end_time: self.end_time,
            auction_type: self.auction_type,
            listing_level: self.listing_level.duplicate(),
            currency_id: self.currency_id,
        }
    }
}

impl Pallet {
    /// Upgrades a persisted store of legacy listing records.  Every
    /// legacy NFT record must resolve through `tokens`; the result keeps
    /// those records, upgraded, in their original order, and drops the
    /// rest.
    pub fn upgrade_asset_auction_data_v2(
        records: &Vec<(AuctionId, AuctionItem)>,
        tokens: &Vec<(u64, (ClassId, TokenId))>,
    ) -> (r: Vec<(AuctionId, crate::types::AuctionItem)>)
        requires
            forall|i: int|
                0 <= i < records@.len() ==> match (#[trigger] records@[i]).1.item_id {
                    V1ItemId::NFT(asset_id) => table_get(tokens@, asset_id) is Some,
                    _ => true,
                },
            crate::table::keys_unique(tokens@),
        ensures
            r@.map_values(|p: (AuctionId, crate::types::AuctionItem)| (p.0, p.1@))
                == migrate_records(
                records@.map_values(|p: (AuctionId, AuctionItem)| (p.0, p.1@)),
                tokens@,
            ),
    {
        let ghost rv = records@.map_values(|p: (AuctionId, AuctionItem)| (p.0, p.1@));
        let mut out: Vec<(AuctionId, crate::types::AuctionItem)> = Vec::new();
        let mut i: usize = 0;
        while i < records.len()
            invariant
                i <= records@.len(),
                rv == records@.map_values(|p: (AuctionId, AuctionItem)| (p.0, p.1@)),
                rv.len() == records@.len(),
                forall|j: int|
                    0 <= j < records@.len() ==> match (#[trigger] records@[j]).1.item_id {
                        V1ItemId::NFT(asset_id) => table_get(tokens@, asset_id) is Some,
                        _ => true,
                    },
                crate::table::keys_unique(tokens@),
                out@.map_values(|p: (AuctionId, crate::types::AuctionItem)| (p.0, p.1@))
                    == migrate_records(rv.subrange(0, i as int), tokens@),
            decreases records@.len() - i,
        {
            let ghost out_v0 = out@.map_values(
                |p: (AuctionId, crate::types::AuctionItem)| (p.0, p.1@),
            );
            let (key, v1) = &records[i];
            match v1.item_id {
                V1ItemId::NFT(asset_id) => {
                    let token = lookup_token(tokens, asset_id);
                    let (class_id, token_id) = match token {
                        Some(pair) => pair,
                        None => {
                            proof {
                                assert(rv[i as int].1.item_id == V1ItemId::NFT(asset_id));
                                assert(false);
                            }
                            return out;
                        },
                    };
                    let upgraded = crate::types::AuctionItem {
                        item_id: ItemId::NFT(class_id, token_id),
                        recipient: v1.recipient,
                        initial_amount: v1.initial_amount,
                        amount: v1.amount,
                        start_time: v1.start_time,
                        end_time: v1.end_time,
                        auction_type: v1.auction_type,
                        listing_level: v1.listing_level.duplicate(),
                        currency_id: v1.currency_id,
                    };
                    out.push((*key, upgraded));
                    proof {
                        assert(out@.map_values(
                            |p: (AuctionId, crate::types::AuctionItem)| (p.0, p.1@),
                        ) =~= out_v0.push((rv[i as int].0, migrate_one(
                            rv[i as int].1,
                            class_id,
                            token_id,
                        ))));
                    }
                },
                _ => {},
            }
            proof {
                assert(rv.subrange(0, (i + 1) as int).drop_last() =~= rv.subrange(0, i as int));
                assert(rv.subrange(0, (i + 1) as int).last() == rv[i as int]);
                assert(rv[i as int] == (records@[i as int].0, records@[i as int].1@));
            }
            i += 1;
        }
        proof {
            assert(rv.subrange(0, rv.len() as int) =~= rv);
        }
        out
    }
}

/// Looks a legacy asset number up in the resolution table.
fn lookup_token(tokens: &Vec<(u64, (ClassId, TokenId))>, asset_id: u64) -> (r: Option<
    (ClassId, TokenId),
>)
    requires
        crate::table::keys_unique(tokens@),
    ensures
        r == table_get(tokens@, asset_id),
{
    let mut i: usize = 0;
    while i < tokens.len()
        invariant
            i <= tokens@.len(),
            crate::table::keys_unique(tokens@),
            forall|j: int| 0 <= j < i ==> (#[trigger] tokens@[j]).0 != asset_id,
        decreases tokens@.len() - i,
    {
        if tokens[i].0 == asset_id {
            proof {
                crate::table::lemma_get_at_index(tokens@, i as int);
            }
            return Some(tokens[i].1);
        }
        i += 1;
    }
    proof {
        crate::table::lemma_get_absent(tokens@, asset_id);
    }
    None
}

} // verus!
