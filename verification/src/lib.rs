//! An auction and marketplace settlement engine.
//!
//! A party lists a digital asset (an NFT, a land estate, a land unit or a
//! coordinate-addressed spot) either as a timed ascending-bid auction or as a
//! fixed-price listing.  Competing bids are accepted under an escrow
//! discipline: the current high bid is always backed by a reservation on the
//! bidder's account, and an outbid bidder's reservation is released.  Once per
//! discrete time step an expiry sweep settles every listing whose deadline has
//! arrived: the winner pays the seller, a royalty cut is routed to the
//! collection's fee sink, and the asset changes hands.
//!
//! All state lives in one owned store, [`pallet::Pallet`].  The fund ledger and
//! the asset registries that a deployment would provide are modelled as plain
//! data ([`ledger::Ledger`], [`assets::Assets`]) so that every operation of the
//! engine is specified and verified end to end.

pub mod assets;
pub mod ledger;
pub mod migration_v2;
pub mod pallet;
pub mod table;
pub mod types;
