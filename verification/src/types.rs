//! The data of the protocol: addresses, storage keys, markets, bets.

use vstd::prelude::*;

verus! {

/// A Stellar address: the 32 identifying bytes of an account or of a contract,
/// held as two big-endian halves.
#[derive(Clone, Copy, Debug, PartialEq, Eq, Structural, Hash)]
pub enum Address {
    Account { high: u128, low: u128 },
    Contract { high: u128, low: u128 },
}

/// Composite key identifying a user's bets within a single market.
#[derive(Clone, Copy, Debug, PartialEq, Eq, Structural, Hash)]
pub struct UserMarketKey {
    pub user: Address,
    pub market_id: u32,
}

/// The name of one ledger entry of the contract.
#[derive(Clone, Copy, Debug, PartialEq, Eq, Structural, Hash)]
pub enum DataKey {
    // Access control
    Admin,
    Moderator(Address),
    ModeratorCount,
    // Market data
    PredictionCount,
    Prediction(u32),
    UserBets(UserMarketKey),
    UserMarketIds(Address),
    MarketAnalytics(u32),
    // Pool / fee accounting
    MarketLiquidity(u32),
    PayoutPool(u32),
    TotalValueLocked,
    // Token & fees
    FeeRecipient,
    PlatformFee,
    ProtocolToken,
    // Safety switches
    IsPaused,
    MarketCreationPaused,
    BettingPaused,
    ResolutionPaused,
    // Limits
    MinMarketDuration,
    MaxMarketDuration,
    ResolutionWindow,
    MinBetAmount,
    MaxBetAmount,
}

/// One outcome of a market and what is staked on it.
#[derive(Debug, PartialEq, Eq)]
pub struct Choice {
    pub label: String,
    pub staked_amount: i128,
}

impl Clone for Choice {
    fn clone(&self) -> (copy: Self)
        ensures
            copy == *self,
    {
        Choice { label: self.label.clone(), staked_amount: self.staked_amount }
    }
}

/// A prediction market.
#[derive(Debug, PartialEq, Eq)]
pub struct Market {
    pub market_id: u32,
    pub creator: Address,
    pub title: String,
    pub description: String,
    pub category: String,
    pub choices: Vec<Choice>,
    pub end_time: u64,
    pub is_open: bool,
    pub is_resolved: bool,
    pub winning_choice: Option<u32>,
    pub total_pool: i128,
    /// 0 = general, 1 = crypto, 2 = sports
    pub market_type: u32,
    pub image_url: String,
}

/// The value of a [`Market`], with its choices as a sequence.
#[verifier::ext_equal]
pub struct MarketView {
    pub market_id: u32,
    pub creator: Address,
    pub title: String,
    pub description: String,
    pub category: String,
    pub choices: Seq<Choice>,
    pub end_time: u64,
    pub is_open: bool,
    pub is_resolved: bool,
    pub winning_choice: Option<u32>,
    pub total_pool: i128,
    pub market_type: u32,
    pub image_url: String,
}

impl View for Market {
    type V = MarketView;

    open spec fn view(&self) -> MarketView {
        MarketView {
            market_id: self.market_id,
            creator: self.creator,
            title: self.title,
            description: self.description,
            category: self.category,
            choices: self.choices@,
            end_time: self.end_time,
            is_open: self.is_open,
            is_resolved: self.is_resolved,
            winning_choice: self.winning_choice,
            total_pool: self.total_pool,
            market_type: self.market_type,
            image_url: self.image_url,
        }
    }
}

impl Clone for Market {
    fn clone(&self) -> (copy: Self)
        ensures
            copy@ == self@,
    {
        Market {
            market_id: self.market_id,
            creator: self.creator,
            title: self.title.clone(),
            description: self.description.clone(),
            category: self.category.clone(),
            choices: self.choices.clone(),
            end_time: self.end_time,
            is_open: self.is_open,
            is_resolved: self.is_resolved,
            winning_choice: self.winning_choice,
            total_pool: self.total_pool,
            market_type: self.market_type,
            image_url: self.image_url.clone(),
        }
    }
}

/// One stake of a user on one choice of a market.
#[derive(Debug, PartialEq, Eq)]
pub struct UserBet {
    pub market_id: u32,
    pub choice: u32,
    pub choice_label: String,
    pub amount: i128,
    pub claimed: bool,
}

impl Clone for UserBet {
    fn clone(&self) -> (copy: Self)
        ensures
            copy == *self,
    {
        UserBet {
            market_id: self.market_id,
            choice: self.choice,
            choice_label: self.choice_label.clone(),
            amount: self.amount,
            claimed: self.claimed,
        }
    }
}

/// One entry of a market's analytics trail.
#[derive(Clone, Copy, Debug, PartialEq, Eq, Structural)]
pub struct Activity {
    pub user: Address,
    pub choice: u32,
    pub amount: i128,
    pub timestamp: u64,
}

} // verus!
