//! Decentralised prediction markets on a token. Flows:
//!
//!   1. `initialize` wires up the admin, fee recipient, protocol token and
//!      protocol limits.
//!   2. Moderators / the admin create markets with `create_predictions`.
//!   3. Users `buy_shares` (alias `place_bet`) with the protocol token. The
//!      stake is pulled with `transfer_from`, so the caller must have approved
//!      the contract on the token first.
//!   4. A moderator / the admin resolves a market with `resolve_prediction`.
//!   5. Winners `claim` (alias `collect_winnings`) their share of the payout
//!      pool, proportional to their stake on the winning choice.
//!
//! A call works on an [`Env`]: it reads and writes the contract's entries there,
//! and lists what it asks of the host. What holds of all calls together is
//! proved in [`laws`].

pub mod access;
pub mod admin;
pub mod betting;
pub mod env;
pub mod error;
pub mod events;
pub mod hub;
pub mod laws;
pub mod markets;
pub mod money;
pub mod queries;
pub mod settlement;
pub mod setup;
pub mod table;
pub mod types;

pub use env::{Effect, Env, Instance, Persistent};
pub use error::HubError;
pub use events::{
    BetPlaced, EmergencyPaused, Event, FeeRecipientUpdated, Initialized, MarketCreated,
    MarketResolved, MarketToggled, ModeratorUpdated, PlatformFeeUpdated, WinningsClaimed,
};
pub use hub::PredictionHub;
pub use table::Table;
pub use types::{Activity, Address, Choice, DataKey, Market, UserBet, UserMarketKey};
