//! Why a call is refused.

use vstd::prelude::*;

verus! {

/// The reason for which a call is refused. A refused call leaves the storage
/// of the contract as it was.
#[derive(Clone, Copy, Debug, PartialEq, Eq, Structural)]
pub enum HubError {
    NotInitialized,
    AlreadyInitialized,
    InvalidFee,
    InvalidMinBet,
    InvalidMaxBet,
    OnlyAdmin,
    OnlyModeratorOrAdmin,
    ContractPaused,
    MarketCreationPaused,
    BettingPaused,
    ResolutionPaused,
    TitleRequired,
    InvalidChoiceCount,
    EndTimeNotInFuture,
    DurationTooShort,
    DurationTooLong,
    AmountNotPositive,
    AmountBelowMinimum,
    AmountAboveMaximum,
    MarketNotFound,
    MarketClosed,
    MarketResolved,
    MarketEnded,
    InvalidChoice,
    MarketAlreadyResolved,
    MarketNotResolved,
    NoWinningChoice,
    NoBets,
    BetNotFound,
    /// A resolved market records a winning choice that it does not have.
    ChoiceOutOfRange,
    /// A sum, a product or a counter leaves its integer type.
    Overflow,
}

impl HubError {
    /// The text that goes with the reason.
    pub open spec fn text(self) -> Seq<char> {
        match self {
            HubError::NotInitialized => "not initialized"@,
            HubError::AlreadyInitialized => "already initialized"@,
            HubError::InvalidFee => "invalid fee"@,
            HubError::InvalidMinBet => "invalid min bet"@,
            HubError::InvalidMaxBet => "invalid max bet"@,
            HubError::OnlyAdmin => "only admin"@,
            HubError::OnlyModeratorOrAdmin => "only moderator or admin"@,
            HubError::ContractPaused => "contract paused"@,
            HubError::MarketCreationPaused => "market creation paused"@,
            HubError::BettingPaused => "betting paused"@,
            HubError::ResolutionPaused => "resolution paused"@,
            HubError::TitleRequired => "title required"@,
            HubError::InvalidChoiceCount => "invalid choice count"@,
            HubError::EndTimeNotInFuture => "end time must be in the future"@,
            HubError::DurationTooShort => "market duration too short"@,
            HubError::DurationTooLong => "market duration too long"@,
            HubError::AmountNotPositive => "amount must be positive"@,
            HubError::AmountBelowMinimum => "amount below minimum"@,
            HubError::AmountAboveMaximum => "amount above maximum"@,
            HubError::MarketNotFound => "market not found"@,
            HubError::MarketClosed => "market closed"@,
            HubError::MarketResolved => "market resolved"@,
            HubError::MarketEnded => "market ended"@,
            HubError::InvalidChoice => "invalid choice"@,
            HubError::MarketAlreadyResolved => "market already resolved"@,
            HubError::MarketNotResolved => "market not resolved"@,
            HubError::NoWinningChoice => "no winning choice"@,
            HubError::NoBets => "no bets"@,
            HubError::BetNotFound => "bet not found"@,
            HubError::ChoiceOutOfRange => "choice out of range"@,
            HubError::Overflow => "arithmetic overflow"@,
        }
    }

    /// The text that goes with the reason.
    pub fn message(&self) -> (message: &'static str)
        ensures
            message@ == self.text(),
    {
        match self {
            HubError::NotInitialized => "not initialized",
            HubError::AlreadyInitialized => "already initialized",
            HubError::InvalidFee => "invalid fee",
            HubError::InvalidMinBet => "invalid min bet",
            HubError::InvalidMaxBet => "invalid max bet",
            HubError::OnlyAdmin => "only admin",
            HubError::OnlyModeratorOrAdmin => "only moderator or admin",
            HubError::ContractPaused => "contract paused",
            HubError::MarketCreationPaused => "market creation paused",
            HubError::BettingPaused => "betting paused",
            HubError::ResolutionPaused => "resolution paused",
            HubError::TitleRequired => "title required",
            HubError::InvalidChoiceCount => "invalid choice count",
            HubError::EndTimeNotInFuture => "end time must be in the future",
            HubError::DurationTooShort => "market duration too short",
            HubError::DurationTooLong => "market duration too long",
            HubError::AmountNotPositive => "amount must be positive",
            HubError::AmountBelowMinimum => "amount below minimum",
            HubError::AmountAboveMaximum => "amount above maximum",
            HubError::MarketNotFound => "market not found",
            HubError::MarketClosed => "market closed",
            HubError::MarketResolved => "market resolved",
            HubError::MarketEnded => "market ended",
            HubError::InvalidChoice => "invalid choice",
            HubError::MarketAlreadyResolved => "market already resolved",
            HubError::MarketNotResolved => "market not resolved",
            HubError::NoWinningChoice => "no winning choice",
            HubError::NoBets => "no bets",
            HubError::BetNotFound => "bet not found",
            HubError::ChoiceOutOfRange => "choice out of range",
            HubError::Overflow => "arithmetic overflow",
        }
    }
}

} // verus!
