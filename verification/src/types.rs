//! The data model of the marketplace: identifiers, listing records, events
//! and errors.

use vstd::prelude::*;

verus! {

/// An account, identified by a number.
pub type AccountId = u64;

/// An amount of currency.
pub type Balance = u128;

/// A discrete time step.
pub type BlockNumber = u64;

/// Identifier of a listing; allocated once, never reused.
pub type AuctionId = u64;

/// Identifier of an NFT collection.
pub type ClassId = u64;

/// Identifier of a token inside a collection.
pub type TokenId = u64;

/// Identifier of a metaverse (a local marketplace scope).
pub type MetaverseId = u64;

/// Identifier of a land estate.
pub type EstateId = u64;

/// Identifier of a coordinate-addressed map spot.
pub type SpotId = u64;

/// The currency a balance is denominated in: the native token or a
/// secondary fungible token.
#[derive(Clone, Copy, PartialEq, Eq, Structural, Debug)]
pub enum FungibleTokenId {
    NativeToken(u64),
    FungibleToken(u64),
}

/// The asset under sale.  `Country` and `Block` are declared but not
/// supported by auction creation.
#[derive(Clone, Copy, PartialEq, Eq, Structural, Debug)]
pub enum ItemId {
    NFT(ClassId, TokenId),
    Spot(SpotId, MetaverseId),
    Country(MetaverseId),
    Block(u64),
    Estate(EstateId),
    LandUnit(i32, i32, MetaverseId),
}

/// How a listing is settled: by ascending bids or at a fixed price.
#[derive(Clone, Copy, PartialEq, Eq, Structural, Debug)]
pub enum AuctionType {
    Auction,
    BuyNow,
}

/// Who may take part in a listing.
#[derive(Clone, PartialEq, Eq, Debug)]
pub enum ListingLevel {
    /// Anyone may bid.
    Global,
    /// Only the accounts on the explicit allow-list may bid.
    NetworkSpot(Vec<AccountId>),
    /// A metaverse-local listing; the seller must own the metaverse or the
    /// collection must be authorised there.
    Local(MetaverseId),
}

/// Mathematical shape of a [`ListingLevel`].
pub enum ListingLevelView {
    Global,
    NetworkSpot(Seq<AccountId>),
    Local(MetaverseId),
}

impl View for ListingLevel {
    type V = ListingLevelView;

    open spec fn view(&self) -> ListingLevelView {
        match self {
            ListingLevel::Global => ListingLevelView::Global,
            ListingLevel::NetworkSpot(accounts) => ListingLevelView::NetworkSpot(accounts@),
            ListingLevel::Local(metaverse_id) => ListingLevelView::Local(*metaverse_id),
        }
    }
}

impl ListingLevel {
    /// A value-preserving copy.
    pub fn duplicate(&self) -> (r: ListingLevel)
        ensures
            r@ == self@,
    {
        match self {
            ListingLevel::Global => ListingLevel::Global,
            ListingLevel::NetworkSpot(accounts) => {
                ListingLevel::NetworkSpot(copy_accounts(accounts))
            },
            ListingLevel::Local(metaverse_id) => ListingLevel::Local(*metaverse_id),
        }
    }
}

/// Copies a list of accounts element by element.
pub fn copy_accounts(accounts: &Vec<AccountId>) -> (r: Vec<AccountId>)
    ensures
        r@ == accounts@,
{
    let mut out: Vec<AccountId> = Vec::new();
    let mut i: usize = 0;
    while i < accounts.len()
        invariant
            i <= accounts.len(),
            out@ == accounts@.subrange(0, i as int),
        decreases accounts.len() - i,
    {
        out.push(accounts[i]);
        proof {
            assert(out@ =~= accounts@.subrange(0, i + 1 as int));
        }
        i += 1;
    }
    proof {
        assert(out@ =~= accounts@);
    }
    out
}

/// Whether `accounts` holds `who`.
pub fn accounts_contain(accounts: &Vec<AccountId>, who: AccountId) -> (r: bool)
    ensures
        r == accounts@.contains(who),
{
    let mut i: usize = 0;
    while i < accounts.len()
        invariant
            i <= accounts.len(),
            forall|j: int| 0 <= j < i ==> accounts@[j] != who,
        decreases accounts.len() - i,
    {
        if accounts[i] == who {
            return true;
        }
        i += 1;
    }
    false
}

/// The bidding state of a live listing: the current high bid (`None` until
/// the first accepted bid) and the time window.
#[derive(Clone, Copy, PartialEq, Eq, Debug)]
pub struct AuctionInfo {
    pub bid: Option<(AccountId, Balance)>,
    pub start: BlockNumber,
    pub end: Option<BlockNumber>,
}

/// The listing record: one per auction identifier, created and destroyed
/// together with its [`AuctionInfo`].
#[derive(Clone, PartialEq, Eq, Debug)]
pub struct AuctionItem {
    pub item_id: ItemId,
    pub recipient: AccountId,
    pub initial_amount: Balance,
    /// Current amount for sale: the asking price, or the high bid.
    pub amount: Balance,
    pub start_time: BlockNumber,
    pub end_time: BlockNumber,
    pub auction_type: AuctionType,
    pub listing_level: ListingLevel,
    pub currency_id: FungibleTokenId,
}

/// Mathematical shape of an [`AuctionItem`].
pub struct AuctionItemView {
    pub item_id: ItemId,
    pub recipient: AccountId,
    pub initial_amount: Balance,
    pub amount: Balance,
    pub start_time: BlockNumber,
    pub end_time: BlockNumber,
    pub auction_type: AuctionType,
    pub listing_level: ListingLevelView,
    pub currency_id: FungibleTokenId,
}

impl View for AuctionItem {
    type V = AuctionItemView;

    open spec fn view(&self) -> AuctionItemView {
        AuctionItemView {
            item_id: self.item_id,
            recipient: self.recipient,
            initial_amount: self.initial_amount,
            amount: self.amount,
            start_time: self.start_time,
            end_time: self.end_time,
            auction_type: self.auction_type,
            listing_level: self.listing_level@,
            currency_id: self.currency_id,
        }
    }
}

impl AuctionItem {
    /// A value-preserving copy.
    pub fn duplicate(&self) -> (r: AuctionItem)
        ensures
            r@ == self@,
    {
        AuctionItem {
            item_id: self.item_id,
            recipient: self.recipient,
            initial_amount: self.initial_amount,
            amount: self.amount,
            start_time: self.start_time,
            end_time: self.end_time,
            auction_type: self.auction_type,
            listing_level: self.listing_level.duplicate(),
            currency_id: self.currency_id,
        }
    }
}

/// A requested change of an auction deadline, returned by the bid hook.
#[derive(Clone, Copy, PartialEq, Eq, Structural, Debug)]
pub enum Change {
    NoChange,
    NewValue(Option<BlockNumber>),
}

/// The answer of the bid-acceptance hook.
#[derive(Clone, Copy, Debug)]
pub struct OnNewBidResult {
    pub accept_bid: bool,
    pub auction_end_change: Change,
}

/// Tuning constants of the engine.
#[derive(Clone, Copy, Debug)]
pub struct Config {
    /// Default auction length, added to the creation time when no deadline
    /// is given.
    pub auction_time_to_close: BlockNumber,
    /// The least distance the deadline must keep from the creation time.
    pub minimum_auction_duration: BlockNumber,
    /// Royalty fee in basis points of the traded amount.
    pub royalty_fee: u16,
    /// How many listings one expiry sweep may settle.
    pub max_finality: u32,
}

/// Everything that can go wrong with a caller-invoked operation.
#[derive(Clone, Copy, PartialEq, Eq, Structural, Debug)]
pub enum Error {
    AuctionNotExist,
    AssetIsNotExist,
    AuctionNotStarted,
    AuctionIsExpired,
    AuctionTypeIsNotSupported,
    BidNotAccepted,
    InsufficientFreeBalance,
    InvalidBidPrice,
    NoAvailableAuctionId,
    NoPermissionToCreateAuction,
    SelfBidNotAccepted,
    CannotBidOnOwnAuction,
    InvalidBuyItNowPrice,
    InsufficientFunds,
    InvalidAuctionType,
    ItemAlreadyInAuction,
    WrongListingLevel,
    FungibleTokenCurrencyNotFound,
    AuctionEndIsLessThanMinimumDuration,
    Overflow,
    EstateDoesNotExist,
    LandUnitDoesNotExist,
    NoPermissionToAuthoriseCollection,
    CollectionAlreadyAuthorised,
    CollectionIsNotAuthorised,
}

/// A notification emitted by the engine, in order of emission.
#[derive(Clone, PartialEq, Eq, Debug)]
pub enum Event {
    /// A bid was accepted: auction, bidder, amount.
    Bid(AuctionId, AccountId, Balance),
    /// A listing was created: auction, seller, level, initial amount,
    /// current amount, deadline.
    NewAuctionItem(AuctionId, AccountId, ListingLevel, Balance, Balance, BlockNumber),
    /// A listing was settled for its winner: auction, winner, amount.
    AuctionFinalized(AuctionId, AccountId, Balance),
    /// A fixed-price listing was bought: auction, buyer, amount.
    BuyNowFinalised(AuctionId, AccountId, Balance),
    /// A listing expired without a bid.
    AuctionFinalizedNoBid(AuctionId),
    /// A collection was authorised in a metaverse.
    CollectionAuthorizedInMetaverse(ClassId, MetaverseId),
    /// A collection's authorisation in a metaverse was removed.
    CollectionAuthorizationRemoveInMetaverse(ClassId, MetaverseId),
}

/// Mathematical shape of an [`Event`].
pub enum EventView {
    Bid(AuctionId, AccountId, Balance),
    NewAuctionItem(AuctionId, AccountId, ListingLevelView, Balance, Balance, BlockNumber),
    AuctionFinalized(AuctionId, AccountId, Balance),
    BuyNowFinalised(AuctionId, AccountId, Balance),
    AuctionFinalizedNoBid(AuctionId),
    CollectionAuthorizedInMetaverse(ClassId, MetaverseId),
    CollectionAuthorizationRemoveInMetaverse(ClassId, MetaverseId),
}

impl View for Event {
    type V = EventView;

    open spec fn view(&self) -> EventView {
        match self {
            Event::Bid(id, who, amount) => EventView::Bid(*id, *who, *amount),
            Event::NewAuctionItem(id, who, level, initial, amount, end) => {
                EventView::NewAuctionItem(*id, *who, level@, *initial, *amount, *end)
            },
            Event::AuctionFinalized(id, who, amount) => {
                EventView::AuctionFinalized(*id, *who, *amount)
            },
            Event::BuyNowFinalised(id, who, amount) => {
                EventView::BuyNowFinalised(*id, *who, *amount)
            },
            Event::AuctionFinalizedNoBid(id) => EventView::AuctionFinalizedNoBid(*id),
            Event::CollectionAuthorizedInMetaverse(class_id, metaverse_id) => {
                EventView::CollectionAuthorizedInMetaverse(*class_id, *metaverse_id)
            },
            Event::CollectionAuthorizationRemoveInMetaverse(class_id, metaverse_id) => {
                EventView::CollectionAuthorizationRemoveInMetaverse(*class_id, *metaverse_id)
            },
        }
    }
}

/// The divisor that turns basis points into a fraction of the amount.
pub const ROYALTY_FEE_DENOMINATOR: u128 = 10000;

/// The region of account identifiers reserved for collection fee sinks.
pub const CLASS_FUND_ACCOUNT_BASE: u64 = 0x8000_0000_0000_0000;

/// The designated fee-sink account of a collection, derived from its
/// identifier alone.
pub open spec fn spec_class_fund_account(class_id: ClassId) -> AccountId {
    CLASS_FUND_ACCOUNT_BASE | class_id
}

/// Computes the fee-sink account of a collection.
#[verifier::when_used_as_spec(spec_class_fund_account)]
pub fn class_fund_account(class_id: ClassId) -> (r: AccountId)
    ensures
        r == spec_class_fund_account(class_id),
{
    CLASS_FUND_ACCOUNT_BASE | class_id
}

/// The currency every listing of the engine settles in.
pub open spec fn spec_native_currency() -> FungibleTokenId {
    FungibleTokenId::NativeToken(0)
}

/// The native currency, `NativeToken(0)`.
#[verifier::when_used_as_spec(spec_native_currency)]
pub fn native_currency() -> (r: FungibleTokenId)
    ensures
        r == spec_native_currency(),
{
    FungibleTokenId::NativeToken(0)
}

} // verus!
