use pallet_auction::migration_v2::{AuctionItem as LegacyAuctionItem, V1ItemId};
use pallet_auction::pallet::Pallet;
use pallet_auction::types::{AuctionType, FungibleTokenId, ItemId, ListingLevel};

fn legacy(item_id: V1ItemId) -> LegacyAuctionItem {
    LegacyAuctionItem {
        item_id,
        recipient: 1,
        initial_amount: 40,
        amount: 55,
        start_time: 2,
        end_time: 9,
        auction_type: AuctionType::Auction,
        listing_level: ListingLevel::Global,
        currency_id: FungibleTokenId::NativeToken(0),
    }
}

#[test]
fn legacy_nft_records_are_carried_over() {
    let records = vec![
        (10u64, legacy(V1ItemId::NFT(5))),
        (11u64, legacy(V1ItemId::Spot(4, 7))),
        (12u64, legacy(V1ItemId::NFT(6))),
    ];
    let tokens = vec![(5u64, (2u64, 7u64)), (6u64, (3u64, 1u64))];
    let out = Pallet::upgrade_asset_auction_data_v2(&records, &tokens);
    assert_eq!(out.len(), 2);
    assert_eq!(out[0].0, 10);
    assert_eq!(out[0].1.item_id, ItemId::NFT(2, 7));
    assert_eq!(out[0].1.recipient, 1);
    assert_eq!(out[0].1.initial_amount, 40);
    assert_eq!(out[0].1.amount, 55);
    assert_eq!(out[0].1.start_time, 2);
    assert_eq!(out[0].1.end_time, 9);
    assert_eq!(out[1].0, 12);
    assert_eq!(out[1].1.item_id, ItemId::NFT(3, 1));
}

#[test]
fn non_nft_legacy_records_are_dropped() {
    let records = vec![
        (1u64, legacy(V1ItemId::Country(9))),
        (2u64, legacy(V1ItemId::Block(3))),
        (3u64, legacy(V1ItemId::Estate(8))),
        (4u64, legacy(V1ItemId::LandUnit(1, -1, 9))),
    ];
    let tokens: Vec<(u64, (u64, u64))> = Vec::new();
    let out = Pallet::upgrade_asset_auction_data_v2(&records, &tokens);
    assert!(out.is_empty());
}
