//! Staking on a choice of a market.

use vstd::prelude::*;

use crate::access::{
    assert_not_paused, entry_or, pause_check, protocol_token, token_check, value_or,
};
use crate::env::{instance_write, persistent_write, Effect, Env, EnvView, PersistentView, Instance};
use crate::error::HubError;
use crate::events::{BetPlaced, Event};
use crate::hub::PredictionHub;
use crate::money::{checked_sum, fits};
use crate::types::{Activity, Address, Choice, DataKey, Market, MarketView, UserBet, UserMarketKey};

verus! {

/// What must hold of the stake itself: betting is on and the amount is within
/// the limits. A limit of zero is no limit.
pub open spec fn stake_check(env: EnvView, amount: i128) -> Result<(), HubError> {
    let min_bet = value_or(env.instance.min_bet_amount, 0);
    let max_bet = value_or(env.instance.max_bet_amount, i128::MAX);
    if pause_check(env) is Err {
        pause_check(env)
    } else if value_or(env.instance.betting_paused, false) {
        Err(HubError::BettingPaused)
    } else if amount <= 0 {
        Err(HubError::AmountNotPositive)
    } else if min_bet > 0 && amount < min_bet {
        Err(HubError::AmountBelowMinimum)
    } else if max_bet > 0 && amount > max_bet {
        Err(HubError::AmountAboveMaximum)
    } else {
        Ok(())
    }
}

/// What must hold of the market that the stake goes to.
pub open spec fn target_check(env: EnvView, market_id: u32, choice: u32) -> Result<(), HubError> {
    if !env.persistent.predictions.contains_key(market_id) {
        Err(HubError::MarketNotFound)
    } else {
        let market = env.persistent.predictions[market_id];
        if !market.is_open {
            Err(HubError::MarketClosed)
        } else if market.is_resolved {
            Err(HubError::MarketResolved)
        } else if env.timestamp >= market.end_time {
            Err(HubError::MarketEnded)
        } else if choice >= market.choices.len() {
            Err(HubError::InvalidChoice)
        } else {
            Ok(())
        }
    }
}

/// Every condition that is settled before the user is asked to authorise.
pub open spec fn bet_check(env: EnvView, market_id: u32, choice: u32, amount: i128) -> Result<
    (),
    HubError,
> {
    if stake_check(env, amount) is Err {
        stake_check(env, amount)
    } else {
        target_check(env, market_id, choice)
    }
}

/// Whether the accounts can take the stake.
pub open spec fn bet_sums_fit(env: EnvView, market_id: u32, choice: u32, amount: i128) -> bool {
    let market = env.persistent.predictions[market_id];
    &&& fits(market.choices[choice as int].staked_amount + amount)
    &&& fits(market.total_pool + amount)
    &&& fits(entry_or(env.persistent.market_liquidity, market_id, 0) + amount)
    &&& fits(value_or(env.instance.total_value_locked, 0) + amount)
}

/// What [`PredictionHub::buy_shares`] answers.
pub open spec fn buy_shares_result(env: EnvView, market_id: u32, choice: u32, amount: i128) -> Result<
    (),
    HubError,
> {
    if bet_check(env, market_id, choice, amount) is Err {
        bet_check(env, market_id, choice, amount)
    } else if token_check(env) is Err {
        Err(HubError::NotInitialized)
    } else if !bet_sums_fit(env, market_id, choice, amount) {
        Err(HubError::Overflow)
    } else {
        Ok(())
    }
}

/// The request for the stake: the contract pulls it on the user's allowance.
pub open spec fn stake_pull(env: EnvView, user: Address, amount: i128) -> Effect {
    Effect::TransferFrom {
        token: token_check(env)->Ok_0,
        spender: env.contract,
        from: user,
        to: env.contract,
        amount,
    }
}

/// The market once `amount` more is staked on `choice`.
pub open spec fn market_with_stake(market: MarketView, choice: u32, amount: i128) -> MarketView {
    let chosen = market.choices[choice as int];
    MarketView {
        choices: market.choices.update(
            choice as int,
            Choice { staked_amount: (chosen.staked_amount + amount) as i128, ..chosen },
        ),
        total_pool: (market.total_pool + amount) as i128,
        ..market
    }
}

/// The bet that records a stake.
pub open spec fn new_bet(market: MarketView, market_id: u32, choice: u32, amount: i128) -> UserBet {
    UserBet {
        market_id,
        choice,
        choice_label: market.choices[choice as int].label,
        amount,
        claimed: false,
    }
}

/// The bets of a user on a market, oldest first.
pub open spec fn bets_of(env: EnvView, user: Address, market_id: u32) -> Seq<UserBet> {
    entry_or(env.persistent.user_bets, UserMarketKey { user, market_id }, Seq::empty())
}

/// The markets a user has bet on, in the order of the first bet.
pub open spec fn market_ids_of(env: EnvView, user: Address) -> Seq<u32> {
    entry_or(env.persistent.user_market_ids, user, Seq::empty())
}

/// The analytics trail of a market, oldest entry first.
pub open spec fn activity_of(env: EnvView, market_id: u32) -> Seq<Activity> {
    entry_or(env.persistent.market_analytics, market_id, Seq::empty())
}

/// The storage after an accepted stake.
pub open spec fn bet_recorded(
    env: EnvView,
    user: Address,
    market_id: u32,
    choice: u32,
    amount: i128,
) -> EnvView {
    let market = env.persistent.predictions[market_id];
    let bets = bets_of(env, user, market_id);
    EnvView {
        instance: Instance {
            total_value_locked: Some(
                (value_or(env.instance.total_value_locked, 0) + amount) as i128,
            ),
            ..env.instance
        },
        persistent: PersistentView {
            predictions: env.persistent.predictions.insert(
                market_id,
                market_with_stake(market, choice, amount),
            ),
            user_bets: env.persistent.user_bets.insert(
                UserMarketKey { user, market_id },
                bets.push(new_bet(market, market_id, choice, amount)),
            ),
            user_market_ids: if bets.len() == 0 {
                env.persistent.user_market_ids.insert(
                    user,
                    market_ids_of(env, user).push(market_id),
                )
            } else {
                env.persistent.user_market_ids
            },
            market_analytics: env.persistent.market_analytics.insert(
                market_id,
                activity_of(env, market_id).push(
                    Activity { user, choice, amount, timestamp: env.timestamp },
                ),
            ),
            market_liquidity: env.persistent.market_liquidity.insert(
                market_id,
                (entry_or(env.persistent.market_liquidity, market_id, 0) + amount) as i128,
            ),
            ..env.persistent
        },
        ..env
    }
}

/// What is asked of the host for an accepted stake, in order.
pub open spec fn bet_requests(
    env: EnvView,
    user: Address,
    market_id: u32,
    choice: u32,
    amount: i128,
) -> Seq<Effect> {
    seq![
        Effect::RequireAuth(user),
        stake_pull(env, user, amount),
        persistent_write(DataKey::UserBets(UserMarketKey { user, market_id })),
    ] + (if bets_of(env, user, market_id).len() == 0 {
        seq![persistent_write(DataKey::UserMarketIds(user))]
    } else {
        Seq::empty()
    }) + seq![
        persistent_write(DataKey::MarketAnalytics(market_id)),
        persistent_write(DataKey::MarketLiquidity(market_id)),
        instance_write(DataKey::TotalValueLocked),
        persistent_write(DataKey::Prediction(market_id)),
        Effect::Publish(Event::BetPlaced(BetPlaced { market_id, user, choice, amount })),
    ]
}

/// The world after [`PredictionHub::buy_shares`].
pub open spec fn buy_shares_env(
    env: EnvView,
    user: Address,
    market_id: u32,
    choice: u32,
    amount: i128,
) -> EnvView {
    if bet_check(env, market_id, choice, amount) is Err {
        env
    } else if token_check(env) is Err {
        env.asking(seq![Effect::RequireAuth(user)])
    } else if !bet_sums_fit(env, market_id, choice, amount) {
        env.asking(seq![Effect::RequireAuth(user), stake_pull(env, user, amount)])
    } else {
        bet_recorded(env, user, market_id, choice, amount).asking(
            bet_requests(env, user, market_id, choice, amount),
        )
    }
}

/// Refuses a stake that is not within the limits.
fn assert_stake_allowed(env: &Env, amount: i128) -> (result: Result<(), HubError>)
    ensures
        result == stake_check(env@, amount),
{
    assert_not_paused(env)?;
    if env.instance.betting_paused.unwrap_or(false) {
        return Err(HubError::BettingPaused);
    }
    if amount <= 0 {
        return Err(HubError::AmountNotPositive);
    }
    let min_bet: i128 = env.instance.min_bet_amount.unwrap_or(0);
    let max_bet: i128 = env.instance.max_bet_amount.unwrap_or(i128::MAX);
    if min_bet > 0 && amount < min_bet {
        return Err(HubError::AmountBelowMinimum);
    }
    if max_bet > 0 && amount > max_bet {
        return Err(HubError::AmountAboveMaximum);
    }
    Ok(())
}

/// The market that takes a stake on `choice` now.
fn betting_market(env: &Env, market_id: u32, choice: u32) -> (result: Result<Market, HubError>)
    ensures
        match result {
            Ok(market) => target_check(env@, market_id, choice) is Ok && market@
                == env@.persistent.predictions[market_id],
            Err(error) => target_check(env@, market_id, choice) == Err::<(), HubError>(error),
        },
{
    let market = match env.persistent.predictions.get(market_id) {
        Some(market) => market,
        None => {
            return Err(HubError::MarketNotFound);
        },
    };
    if !market.is_open {
        return Err(HubError::MarketClosed);
    }
    if market.is_resolved {
        return Err(HubError::MarketResolved);
    }
    if env.timestamp >= market.end_time {
        return Err(HubError::MarketEnded);
    }
    if choice as usize >= market.choices.len() {
        return Err(HubError::InvalidChoice);
    }
    Ok(market.clone())
}

impl PredictionHub {
    /// Buys shares (places a bet) on `choice` of `market_id` for `amount`.
    ///
    /// The caller must have approved this contract on the protocol token for at
    /// least `amount` before calling, because the stake is pulled with
    /// a transfer on that allowance.
    pub fn buy_shares(
        env: &mut Env,
        user: Address,
        market_id: u32,
        choice: u32,
        amount: i128,
    ) -> (result: Result<(), HubError>)
        ensures
            result == buy_shares_result(old(env)@, market_id, choice, amount),
            final(env)@ == buy_shares_env(old(env)@, user, market_id, choice, amount),
    {
        assert_stake_allowed(env, amount)?;
        let mut market = betting_market(env, market_id, choice)?;

        env.ask(Effect::RequireAuth(user));
        let contract = env.contract;
        let token = protocol_token(env)?;
        env.ask(Effect::TransferFrom { token, spender: contract, from: user, to: contract, amount });
        let ghost asked = env@.effects;
        assert(asked == old(env)@.effects + seq![
            Effect::RequireAuth(user),
            stake_pull(old(env)@, user, amount),
        ]);

        // Move the stake into the chosen choice and the overall pool.
        let chosen = market.choices[choice as usize].clone();
        let label = chosen.label.clone();
        let staked_amount: i128 = checked_sum(chosen.staked_amount, amount)?;
        market.total_pool = checked_sum(market.total_pool, amount)?;
        market.choices.set(choice as usize, Choice { label: chosen.label, staked_amount });
        let liquidity: i128 = match env.persistent.market_liquidity.get(market_id) {
            Some(liquidity) => *liquidity,
            None => 0,
        };
        let new_liquidity: i128 = checked_sum(liquidity, amount)?;
        let tvl: i128 = env.instance.total_value_locked.unwrap_or(0);
        let new_tvl: i128 = checked_sum(tvl, amount)?;

        // Record the bet for the user.
        let bets_key = UserMarketKey { user, market_id };
        let mut bets: Vec<UserBet> = match env.persistent.user_bets.get(bets_key) {
            Some(bets) => bets.clone(),
            None => Vec::new(),
        };
        let first_bet = bets.is_empty();
        bets.push(UserBet { market_id, choice, choice_label: label, amount, claimed: false });
        env.persistent.user_bets.set(bets_key, bets);
        env.persistent_set(DataKey::UserBets(bets_key));

        if first_bet {
            let mut ids: Vec<u32> = match env.persistent.user_market_ids.get(user) {
                Some(ids) => ids.clone(),
                None => Vec::new(),
            };
            ids.push(market_id);
            env.persistent.user_market_ids.set(user, ids);
            env.persistent_set(DataKey::UserMarketIds(user));
        }

        // Analytics trail for the market.
        let mut activity: Vec<Activity> = match env.persistent.market_analytics.get(market_id) {
            Some(activity) => activity.clone(),
            None => Vec::new(),
        };
        activity.push(Activity { user, choice, amount, timestamp: env.timestamp });
        env.persistent.market_analytics.set(market_id, activity);
        env.persistent_set(DataKey::MarketAnalytics(market_id));

        // Accounting.
        env.persistent.market_liquidity.set(market_id, new_liquidity);
        env.persistent_set(DataKey::MarketLiquidity(market_id));
        env.instance.total_value_locked = Some(new_tvl);
        env.instance_set(DataKey::TotalValueLocked);

        env.persistent.predictions.set(market_id, market);
        env.persistent_set(DataKey::Prediction(market_id));

        env.ask(Effect::Publish(Event::BetPlaced(BetPlaced { market_id, user, choice, amount })));
        Ok(())
    }

    /// Alias for [`Self::buy_shares`].
    pub fn place_bet(
        env: &mut Env,
        user: Address,
        market_id: u32,
        choice: u32,
        amount: i128,
    ) -> (result: Result<(), HubError>)
        ensures
            result == buy_shares_result(old(env)@, market_id, choice, amount),
            final(env)@ == buy_shares_env(old(env)@, user, market_id, choice, amount),
    {
        Self::buy_shares(env, user, market_id, choice, amount)
    }
}

} // verus!
