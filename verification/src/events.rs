//! The events that the protocol publishes for off-chain consumers.

use vstd::prelude::*;

use crate::types::Address;

verus! {

/// Emitted once when the protocol is initialised.
#[derive(Clone, Copy, Debug, PartialEq, Eq)]
pub struct Initialized {
    pub admin: Address,
    pub token: Address,
}

/// Emitted when a new market is created.
#[derive(Debug, PartialEq, Eq)]
pub struct MarketCreated {
    pub market_id: u32,
    pub creator: Address,
    pub title: String,
    pub end_time: u64,
    pub market_type: u32,
}

/// Emitted when a user stakes on a market choice.
#[derive(Clone, Copy, Debug, PartialEq, Eq)]
pub struct BetPlaced {
    pub market_id: u32,
    pub user: Address,
    pub choice: u32,
    pub amount: i128,
}

/// Emitted when a market is resolved by a moderator or the admin.
#[derive(Clone, Copy, Debug, PartialEq, Eq)]
pub struct MarketResolved {
    pub market_id: u32,
    pub resolver: Address,
    pub winning_choice: u32,
    pub payout_pool: i128,
}

/// Emitted when a user claims winnings, or a refund.
#[derive(Clone, Copy, Debug, PartialEq, Eq)]
pub struct WinningsClaimed {
    pub market_id: u32,
    pub user: Address,
    pub amount: i128,
}

/// Emitted when a moderator is added or removed.
#[derive(Clone, Copy, Debug, PartialEq, Eq)]
pub struct ModeratorUpdated {
    pub moderator: Address,
    pub enabled: bool,
}

/// Emitted when a market is opened or closed by a moderator.
#[derive(Clone, Copy, Debug, PartialEq, Eq)]
pub struct MarketToggled {
    pub market_id: u32,
    pub is_open: bool,
}

/// Emitted when the protocol is frozen or resumed.
#[derive(Clone, Copy, Debug, PartialEq, Eq)]
pub struct EmergencyPaused {
    pub paused: bool,
}

/// Emitted when the fee recipient changes.
#[derive(Clone, Copy, Debug, PartialEq, Eq)]
pub struct FeeRecipientUpdated {
    pub recipient: Address,
}

/// Emitted when the platform fee changes.
#[derive(Clone, Copy, Debug, PartialEq, Eq)]
pub struct PlatformFeeUpdated {
    pub platform_fee: i128,
}

/// An event, under its own name.
#[derive(Debug, PartialEq, Eq)]
pub enum Event {
    Initialized(Initialized),
    MarketCreated(MarketCreated),
    BetPlaced(BetPlaced),
    MarketResolved(MarketResolved),
    WinningsClaimed(WinningsClaimed),
    ModeratorUpdated(ModeratorUpdated),
    MarketToggled(MarketToggled),
    EmergencyPaused(EmergencyPaused),
    FeeRecipientUpdated(FeeRecipientUpdated),
    PlatformFeeUpdated(PlatformFeeUpdated),
}

} // verus!
