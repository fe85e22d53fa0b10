use pallet_auction::pallet::Pallet;
use pallet_auction::types::{class_fund_account, AuctionType, Config, Error, Event,
    FungibleTokenId, ItemId, ListingLevel};

const ALICE: u64 = 1;
const BOB: u64 = 2;
const CHARLIE: u64 = 3;

const NATIVE: FungibleTokenId = FungibleTokenId::NativeToken(0);

fn setup() -> Pallet {
    let mut p = Pallet::new(Config {
        auction_time_to_close: 100,
        minimum_auction_duration: 2,
        royalty_fee: 250,
        max_finality: 10,
    });
    p.set_balance(NATIVE, ALICE, 1_000, 0);
    p.set_balance(NATIVE, BOB, 1_000, 0);
    p.set_balance(NATIVE, CHARLIE, 1_000, 0);
    p.register_item(ItemId::NFT(0, 1), ALICE, true);
    p
}

#[test]
fn scenario_auction_lifecycle() {
    let mut p = setup();
    let item = ItemId::NFT(0, 1);
    assert_eq!(
        p.create_new_auction(ALICE, item, 50, 10, ListingLevel::Global),
        Ok(())
    );
    assert!(p.check_item_in_auction(item));

    p.on_time_advance(1);
    assert_eq!(p.bid(BOB, 0, 100), Ok(()));
    assert_eq!(p.reserved_balance(NATIVE, BOB), 100);
    assert_eq!(p.free_balance(NATIVE, BOB), 900);

    p.on_time_advance(2);
    assert_eq!(p.bid(CHARLIE, 0, 100), Err(Error::InvalidBidPrice));
    assert_eq!(p.bid(CHARLIE, 0, 150), Ok(()));
    // the outbid bidder's escrow is fully released
    assert_eq!(p.reserved_balance(NATIVE, BOB), 0);
    assert_eq!(p.free_balance(NATIVE, BOB), 1_000);
    assert_eq!(p.reserved_balance(NATIVE, CHARLIE), 150);

    // the deadline arrives: the winner pays, the seller nets the price
    // minus the royalty cut, the asset moves, the item is unlisted
    p.on_time_advance(10);
    assert_eq!(p.free_balance(NATIVE, CHARLIE), 850);
    assert_eq!(p.reserved_balance(NATIVE, CHARLIE), 0);
    // royalty: floor(150 * 250 / 10000) == 3
    assert_eq!(p.free_balance(NATIVE, ALICE), 1_000 + 150 - 3);
    assert_eq!(p.reserved_balance(NATIVE, class_fund_account(0)), 3);
    assert_eq!(p.asset_entry(item).unwrap().owner, CHARLIE);
    assert!(!p.check_item_in_auction(item));
    assert!(p.auction_info(0).is_none());
    let events = p.events();
    assert_eq!(events[events.len() - 1], Event::AuctionFinalized(0, CHARLIE, 150));
}

#[test]
fn scenario_buy_now() {
    let mut p = setup();
    let item = ItemId::NFT(0, 1);
    assert_eq!(
        p.create_new_buy_now(ALICE, item, 500, 10, ListingLevel::Global),
        Ok(())
    );
    assert_eq!(p.buy_now(BOB, 0, 499), Err(Error::InvalidBuyItNowPrice));
    assert_eq!(p.buy_now(BOB, 0, 500), Ok(()));
    assert!(!p.check_item_in_auction(item));
    assert!(p.auction_info(0).is_none());
    assert_eq!(p.free_balance(NATIVE, BOB), 500);
    // royalty: floor(500 * 250 / 10000) == 12
    assert_eq!(p.free_balance(NATIVE, ALICE), 1_000 + 500 - 12);
    assert_eq!(p.reserved_balance(NATIVE, class_fund_account(0)), 12);
    assert_eq!(p.asset_entry(item).unwrap().owner, BOB);
    let events = p.events();
    assert_eq!(events[events.len() - 1], Event::BuyNowFinalised(0, BOB, 500));
}

#[test]
fn scenario_network_spot_allow_list() {
    let mut p = setup();
    let item = ItemId::NFT(0, 1);
    assert_eq!(
        p.create_new_auction(ALICE, item, 50, 10, ListingLevel::NetworkSpot(vec![CHARLIE])),
        Ok(())
    );
    p.on_time_advance(1);
    assert_eq!(p.bid(BOB, 0, 100), Err(Error::BidNotAccepted));
    assert_eq!(p.reserved_balance(NATIVE, BOB), 0);
    assert_eq!(p.bid(CHARLIE, 0, 100), Ok(()));
    assert_eq!(p.reserved_balance(NATIVE, CHARLIE), 100);
}

#[test]
fn scenario_no_bid_expiry() {
    let mut p = setup();
    let item = ItemId::NFT(0, 1);
    assert_eq!(
        p.create_new_auction(ALICE, item, 50, 10, ListingLevel::Global),
        Ok(())
    );
    p.on_time_advance(10);
    assert!(!p.check_item_in_auction(item));
    assert!(p.auction_info(0).is_none());
    assert_eq!(p.asset_entry(item).unwrap().owner, ALICE);
    assert_eq!(p.free_balance(NATIVE, ALICE), 1_000);
    let events = p.events();
    assert_eq!(events[events.len() - 1], Event::AuctionFinalizedNoBid(0));
}

#[test]
fn remove_auction_is_idempotent() {
    let mut p = setup();
    let item = ItemId::NFT(0, 1);
    assert_eq!(
        p.create_new_auction(ALICE, item, 50, 10, ListingLevel::Global),
        Ok(())
    );
    p.remove_auction(0, item);
    assert!(p.auction_info(0).is_none());
    assert!(!p.check_item_in_auction(item));
    let events_before = p.events().len();
    // removing again is a no-op: no panic, no state change
    p.remove_auction(0, item);
    assert!(p.auction_info(0).is_none());
    assert!(!p.check_item_in_auction(item));
    assert_eq!(p.events().len(), events_before);
}

#[test]
fn royalty_moves_exactly_the_floored_cut() {
    let mut p = setup();
    p.set_balance(NATIVE, BOB, 20_000, 0);
    assert_eq!(
        p.collect_royalty_fee(&10_000, &BOB, &(0, 1), NATIVE),
        Ok(())
    );
    // floor(10_000 * 250 / 10_000) == 250
    assert_eq!(p.free_balance(NATIVE, BOB), 19_750);
    assert_eq!(p.reserved_balance(NATIVE, class_fund_account(0)), 250);
    assert_eq!(p.free_balance(NATIVE, class_fund_account(0)), 0);
    // the fee rounds down, never up
    let mut q = setup();
    q.set_balance(NATIVE, BOB, 20_000, 0);
    assert_eq!(q.collect_royalty_fee(&10_039, &BOB, &(0, 1), NATIVE), Ok(()));
    assert_eq!(q.reserved_balance(NATIVE, class_fund_account(0)), 250);
}

#[test]
fn create_rejects_listed_item() {
    let mut p = setup();
    let item = ItemId::NFT(0, 1);
    assert_eq!(
        p.create_new_auction(ALICE, item, 50, 10, ListingLevel::Global),
        Ok(())
    );
    let events_before = p.events().len();
    assert_eq!(
        p.create_new_auction(ALICE, item, 70, 12, ListingLevel::Global),
        Err(Error::ItemAlreadyInAuction)
    );
    assert_eq!(
        p.create_new_buy_now(ALICE, item, 70, 12, ListingLevel::Global),
        Err(Error::ItemAlreadyInAuction)
    );
    assert_eq!(p.events().len(), events_before);
    assert!(p.auction_info(1).is_none());
}

#[test]
fn settlement_path_matches_listing_kind() {
    let mut p = setup();
    let item = ItemId::NFT(0, 1);
    assert_eq!(
        p.create_new_auction(ALICE, item, 50, 10, ListingLevel::Global),
        Ok(())
    );
    p.on_time_advance(1);
    assert_eq!(p.buy_now(BOB, 0, 50), Err(Error::InvalidAuctionType));

    let mut q = setup();
    assert_eq!(
        q.create_new_buy_now(ALICE, item, 500, 10, ListingLevel::Global),
        Ok(())
    );
    q.on_time_advance(1);
    assert_eq!(q.bid(BOB, 0, 600), Err(Error::InvalidAuctionType));
}

#[test]
fn bid_error_cases() {
    let mut p = setup();
    let item = ItemId::NFT(0, 1);
    assert_eq!(p.bid(BOB, 7, 10), Err(Error::AuctionNotExist));
    assert_eq!(
        p.create_new_auction(ALICE, item, 50, 10, ListingLevel::Global),
        Ok(())
    );
    assert_eq!(p.bid(ALICE, 0, 100), Err(Error::SelfBidNotAccepted));
    assert_eq!(p.bid(BOB, 0, 0), Err(Error::InvalidBidPrice));
    assert_eq!(p.bid(BOB, 0, 2_000), Err(Error::InsufficientFreeBalance));
    p.on_time_advance(10);
    // the listing settled with no bid; its record remains but it is gone
    assert_eq!(p.bid(BOB, 0, 100), Err(Error::AuctionNotExist));
}

#[test]
fn bid_time_window() {
    let mut p = setup();
    let item = ItemId::NFT(0, 1);
    p.on_time_advance(5);
    assert_eq!(
        p.create_new_auction(ALICE, item, 50, 15, ListingLevel::Global),
        Ok(())
    );
    // the clock is step-driven; a step can also replay an earlier time
    p.on_time_advance(1);
    assert_eq!(p.bid(BOB, 0, 100), Err(Error::AuctionNotStarted));
    // skipping past the deadline leaves the bucket unswept: the listing
    // is still live but expired for bidding
    p.on_time_advance(16);
    assert_eq!(p.bid(BOB, 0, 100), Err(Error::AuctionIsExpired));
}

#[test]
fn buy_now_error_cases() {
    let mut p = setup();
    let item = ItemId::NFT(0, 1);
    assert_eq!(p.buy_now(BOB, 3, 500), Err(Error::AuctionNotExist));
    assert_eq!(
        p.create_new_buy_now(ALICE, item, 500, 10, ListingLevel::Global),
        Ok(())
    );
    assert_eq!(p.buy_now(ALICE, 0, 500), Err(Error::CannotBidOnOwnAuction));
    p.set_balance(NATIVE, BOB, 400, 0);
    assert_eq!(p.buy_now(BOB, 0, 500), Err(Error::InsufficientFunds));
    p.on_time_advance(11);
    p.set_balance(NATIVE, BOB, 1_000, 0);
    assert_eq!(p.buy_now(BOB, 0, 500), Err(Error::AuctionIsExpired));
}

#[test]
fn creation_gates() {
    let mut p = setup();
    // only NFTs come through the public entry points
    assert_eq!(
        p.create_new_auction(ALICE, ItemId::Estate(4), 50, 10, ListingLevel::Global),
        Err(Error::NoPermissionToCreateAuction)
    );
    // a deadline before the clock
    p.on_time_advance(20);
    assert_eq!(
        p.create_new_auction(ALICE, ItemId::NFT(0, 1), 50, 10, ListingLevel::Global),
        Err(Error::Overflow)
    );
    // a deadline closer than the minimum duration
    assert_eq!(
        p.create_new_auction(ALICE, ItemId::NFT(0, 1), 50, 21, ListingLevel::Global),
        Err(Error::AuctionEndIsLessThanMinimumDuration)
    );
    // an unknown asset, then one owned by someone else, then one that
    // cannot change hands
    assert_eq!(
        p.create_new_auction(ALICE, ItemId::NFT(9, 9), 50, 40, ListingLevel::Global),
        Err(Error::AssetIsNotExist)
    );
    assert_eq!(
        p.create_new_auction(BOB, ItemId::NFT(0, 1), 50, 40, ListingLevel::Global),
        Err(Error::NoPermissionToCreateAuction)
    );
    p.register_item(ItemId::NFT(0, 2), ALICE, false);
    assert_eq!(
        p.create_new_auction(ALICE, ItemId::NFT(0, 2), 50, 40, ListingLevel::Global),
        Err(Error::NoPermissionToCreateAuction)
    );
}

#[test]
fn local_listing_needs_ownership_or_authorisation() {
    let mut p = setup();
    p.set_metaverse_owner(7, BOB);
    assert_eq!(
        p.create_new_auction(ALICE, ItemId::NFT(0, 1), 50, 10, ListingLevel::Local(7)),
        Err(Error::NoPermissionToCreateAuction)
    );
    // the metaverse owner authorises the collection; now the seller may
    // list locally without owning the metaverse
    assert_eq!(p.authorise_metaverse_collection(BOB, 0, 7), Ok(()));
    assert_eq!(
        p.create_new_auction(ALICE, ItemId::NFT(0, 1), 50, 10, ListingLevel::Local(7)),
        Ok(())
    );
}

#[test]
fn collection_authorisation_registry() {
    let mut p = setup();
    p.set_metaverse_owner(7, BOB);
    assert_eq!(
        p.authorise_metaverse_collection(ALICE, 0, 7),
        Err(Error::NoPermissionToAuthoriseCollection)
    );
    assert_eq!(p.authorise_metaverse_collection(BOB, 0, 7), Ok(()));
    assert!(p.is_collection_authorized(7, 0));
    assert_eq!(
        p.authorise_metaverse_collection(BOB, 0, 7),
        Err(Error::CollectionAlreadyAuthorised)
    );
    assert_eq!(
        p.remove_authorise_metaverse_collection(ALICE, 0, 7),
        Err(Error::NoPermissionToAuthoriseCollection)
    );
    assert_eq!(p.remove_authorise_metaverse_collection(BOB, 0, 7), Ok(()));
    assert!(!p.is_collection_authorized(7, 0));
    assert_eq!(
        p.remove_authorise_metaverse_collection(BOB, 0, 7),
        Err(Error::CollectionIsNotAuthorised)
    );
    let events = p.events();
    assert_eq!(events[0], Event::CollectionAuthorizedInMetaverse(0, 7));
    assert_eq!(events[1], Event::CollectionAuthorizationRemoveInMetaverse(0, 7));
}

#[test]
fn update_auction_relocates_the_deadline() {
    let mut p = setup();
    let item = ItemId::NFT(0, 1);
    assert_eq!(
        p.create_new_auction(ALICE, item, 50, 10, ListingLevel::Global),
        Ok(())
    );
    let mut info = p.auction_info(0).unwrap();
    assert_eq!(
        p.update_auction(3, info),
        Err(Error::AuctionNotExist)
    );
    info.end = Some(20);
    assert_eq!(p.update_auction(0, info), Ok(()));
    p.on_time_advance(10);
    // the old bucket no longer holds the listing
    assert!(p.auction_info(0).is_some());
    assert!(p.check_item_in_auction(item));
    p.on_time_advance(20);
    assert!(p.auction_info(0).is_none());
    assert!(!p.check_item_in_auction(item));
}

#[test]
fn internal_creation_covers_other_asset_kinds() {
    let mut p = setup();
    assert_eq!(
        p.create_auction(
            AuctionType::Auction,
            ItemId::Estate(4),
            Some(10),
            ALICE,
            50,
            0,
            ListingLevel::Global,
        ),
        Err(Error::EstateDoesNotExist)
    );
    p.register_item(ItemId::Estate(4), ALICE, true);
    assert_eq!(
        p.create_auction(
            AuctionType::Auction,
            ItemId::Estate(4),
            Some(10),
            ALICE,
            50,
            0,
            ListingLevel::Global,
        ),
        Ok(0)
    );
    assert_eq!(
        p.create_auction(
            AuctionType::Auction,
            ItemId::LandUnit(3, -2, 7),
            Some(10),
            ALICE,
            50,
            0,
            ListingLevel::Global,
        ),
        Err(Error::LandUnitDoesNotExist)
    );
    p.register_item(ItemId::LandUnit(3, -2, 7), ALICE, true);
    assert_eq!(
        p.create_auction(
            AuctionType::Auction,
            ItemId::LandUnit(3, -2, 7),
            Some(10),
            ALICE,
            50,
            0,
            ListingLevel::Global,
        ),
        Ok(1)
    );
    // spots are taken as offered; country and block kinds are rejected
    assert_eq!(
        p.create_auction(
            AuctionType::Auction,
            ItemId::Spot(9, 7),
            Some(10),
            ALICE,
            50,
            0,
            ListingLevel::Global,
        ),
        Ok(2)
    );
    assert_eq!(
        p.create_auction(
            AuctionType::Auction,
            ItemId::Country(7),
            Some(10),
            ALICE,
            50,
            0,
            ListingLevel::Global,
        ),
        Err(Error::AuctionTypeIsNotSupported)
    );
    assert_eq!(
        p.create_auction(
            AuctionType::Auction,
            ItemId::Block(7),
            Some(10),
            ALICE,
            50,
            0,
            ListingLevel::Global,
        ),
        Err(Error::AuctionTypeIsNotSupported)
    );
}

#[test]
fn sweep_honours_the_per_cycle_cap() {
    let mut p = Pallet::new(Config {
        auction_time_to_close: 100,
        minimum_auction_duration: 2,
        royalty_fee: 250,
        max_finality: 1,
    });
    p.register_item(ItemId::NFT(0, 1), ALICE, true);
    p.register_item(ItemId::NFT(0, 2), ALICE, true);
    assert_eq!(
        p.create_new_auction(ALICE, ItemId::NFT(0, 1), 50, 10, ListingLevel::Global),
        Ok(())
    );
    assert_eq!(
        p.create_new_auction(ALICE, ItemId::NFT(0, 2), 50, 10, ListingLevel::Global),
        Ok(())
    );
    p.on_time_advance(10);
    let open_listings = [0u64, 1u64]
        .iter()
        .filter(|id| p.auction_info(**id).is_some())
        .count();
    assert_eq!(open_listings, 1);
}

#[test]
fn bid_handlers_update_escrow_and_amount() {
    let mut p = setup();
    let item = ItemId::NFT(0, 1);
    assert_eq!(
        p.create_new_auction(ALICE, item, 50, 10, ListingLevel::Global),
        Ok(())
    );
    assert_eq!(
        p.auction_bid_handler(1, 0, (BOB, 0), None),
        Err(Error::InvalidBidPrice)
    );
    assert_eq!(
        p.auction_bid_handler(1, 0, (BOB, 80), None),
        Ok(())
    );
    assert_eq!(p.reserved_balance(NATIVE, BOB), 80);
    assert_eq!(p.get_auction_item(0).unwrap().amount, 80);

    let social = FungibleTokenId::FungibleToken(5);
    p.set_balance(social, CHARLIE, 300, 0);
    assert_eq!(
        p.local_auction_bid_handler(1, 0, (CHARLIE, 120), None, social),
        Ok(())
    );
    assert_eq!(p.reserved_balance(social, CHARLIE), 120);
    assert_eq!(p.get_auction_item(0).unwrap().amount, 120);
    assert_eq!(
        p.local_auction_bid_handler(1, 0, (CHARLIE, 900), Some((CHARLIE, 120)), social),
        Err(Error::InsufficientFreeBalance)
    );
    assert_eq!(
        p.local_auction_bid_handler(1, 9, (CHARLIE, 10), None, social),
        Err(Error::AuctionNotExist)
    );
}

#[test]
fn default_hook_accepts_every_bid() {
    let r = Pallet::on_new_bid(1, 0, (BOB, 100), None);
    assert!(r.accept_bid);
    assert!(matches!(
        r.auction_end_change,
        pallet_auction::types::Change::NoChange
    ));
    Pallet::on_auction_ended(0, Some((BOB, 100)));
}

#[test]
fn fee_sink_accounts_are_derived_from_the_collection() {
    assert_eq!(class_fund_account(0), 0x8000_0000_0000_0000);
    assert_eq!(class_fund_account(3), 0x8000_0000_0000_0003);
    assert_ne!(class_fund_account(1), class_fund_account(2));
}

#[test]
fn same_bidder_can_raise_their_own_bid() {
    let mut p = setup();
    let item = ItemId::NFT(0, 1);
    assert_eq!(
        p.create_new_auction(ALICE, item, 50, 10, ListingLevel::Global),
        Ok(())
    );
    p.on_time_advance(1);
    assert_eq!(p.bid(BOB, 0, 100), Ok(()));
    assert_eq!(p.bid(BOB, 0, 150), Ok(()));
    // the old reservation came back before the new one was taken
    assert_eq!(p.reserved_balance(NATIVE, BOB), 150);
    assert_eq!(p.free_balance(NATIVE, BOB), 850);
    assert_eq!(p.get_auction_item(0).unwrap().amount, 150);
}

#[test]
fn estate_buy_now_settles_without_royalty() {
    let mut p = setup();
    p.register_item(ItemId::Estate(4), ALICE, true);
    assert_eq!(
        p.create_auction(
            AuctionType::BuyNow,
            ItemId::Estate(4),
            Some(10),
            ALICE,
            500,
            0,
            ListingLevel::Global,
        ),
        Ok(0)
    );
    assert_eq!(p.buy_now(BOB, 0, 500), Ok(()));
    // the full price reaches the seller: royalty applies to NFT sales only
    assert_eq!(p.free_balance(NATIVE, ALICE), 1_500);
    assert_eq!(p.free_balance(NATIVE, BOB), 500);
    assert_eq!(p.asset_entry(ItemId::Estate(4)).unwrap().owner, BOB);
    assert!(!p.check_item_in_auction(ItemId::Estate(4)));
}

#[test]
fn metaverse_owner_lists_locally() {
    let mut p = setup();
    p.set_metaverse_owner(7, ALICE);
    assert_eq!(
        p.create_new_auction(ALICE, ItemId::NFT(0, 1), 50, 10, ListingLevel::Local(7)),
        Ok(())
    );
    assert!(p.check_item_in_auction(ItemId::NFT(0, 1)));
}

#[test]
fn local_handler_honours_the_allow_list() {
    let mut p = setup();
    let item = ItemId::NFT(0, 1);
    assert_eq!(
        p.create_new_auction(ALICE, item, 50, 10, ListingLevel::NetworkSpot(vec![CHARLIE])),
        Ok(())
    );
    let social = FungibleTokenId::FungibleToken(5);
    p.set_balance(social, BOB, 300, 0);
    p.set_balance(social, CHARLIE, 300, 0);
    // the allow-list rule applies to both escrow variants, before any
    // balance movement
    assert_eq!(
        p.local_auction_bid_handler(1, 0, (BOB, 100), None, social),
        Err(Error::BidNotAccepted)
    );
    assert_eq!(p.free_balance(social, BOB), 300);
    assert_eq!(p.reserved_balance(social, BOB), 0);
    assert_eq!(
        p.local_auction_bid_handler(1, 0, (CHARLIE, 100), None, social),
        Ok(())
    );
    assert_eq!(p.reserved_balance(social, CHARLIE), 100);
}

#[test]
fn listing_without_deadline_never_expires() {
    let mut p = setup();
    let item = ItemId::NFT(0, 1);
    assert_eq!(
        p.create_new_auction(ALICE, item, 50, 10, ListingLevel::Global),
        Ok(())
    );
    let mut info = p.auction_info(0).unwrap();
    info.end = None;
    assert_eq!(p.update_auction(0, info), Ok(()));
    // with no deadline there is no expiry: a bid far past the old
    // deadline is still accepted
    p.on_time_advance(50);
    assert!(p.auction_info(0).is_some());
    assert_eq!(p.bid(BOB, 0, 100), Ok(()));
    assert_eq!(p.reserved_balance(NATIVE, BOB), 100);
}
