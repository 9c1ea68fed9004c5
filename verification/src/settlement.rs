//! Resolving a market and paying out its pool.

use vstd::prelude::*;

use crate::access::{
    assert_moderator_or_admin, assert_not_paused, entry_or, pause_check, protocol_token,
    staff_check, token_check, value_or,
};
use crate::env::{instance_write, persistent_write, Effect, Env, EnvView, Instance, PersistentView};
use crate::error::HubError;
use crate::events::{Event, MarketResolved, WinningsClaimed};
use crate::hub::PredictionHub;
use crate::money::{
    checked_sum, compute_fee, compute_share, fits, pool_fee, pool_fee_fits, saturated_difference,
    saturating_difference, share, share_fits,
};
use crate::types::{Address, DataKey, Market, MarketView, UserBet, UserMarketKey};

verus! {

// ------------------------------------------------------------
//  Resolution
// ------------------------------------------------------------
/// Who may resolve, and when: settled before the resolver is asked to authorise.
pub open spec fn resolver_check(env: EnvView, resolver: Address) -> Result<(), HubError> {
    if pause_check(env) is Err {
        pause_check(env)
    } else if value_or(env.instance.resolution_paused, false) {
        Err(HubError::ResolutionPaused)
    } else {
        staff_check(env, resolver)
    }
}

/// What must hold of the market that is resolved.
pub open spec fn verdict_check(env: EnvView, market_id: u32, winning_choice: u32) -> Result<
    (),
    HubError,
> {
    if !env.persistent.predictions.contains_key(market_id) {
        Err(HubError::MarketNotFound)
    } else {
        let market = env.persistent.predictions[market_id];
        if market.is_resolved {
            Err(HubError::MarketAlreadyResolved)
        } else if winning_choice >= market.choices.len() {
            Err(HubError::InvalidChoice)
        } else {
            Ok(())
        }
    }
}

/// The fee that resolving a market for `winning_choice` costs its pool.
pub open spec fn resolution_fee(env: EnvView, market_id: u32, winning_choice: u32) -> int {
    let market = env.persistent.predictions[market_id];
    pool_fee(
        market.total_pool as int,
        market.choices[winning_choice as int].staked_amount as int,
        value_or(env.instance.platform_fee, 0) as int,
    )
}

/// Whether that fee can be computed.
pub open spec fn resolution_fee_fits(env: EnvView, market_id: u32, winning_choice: u32) -> bool {
    let market = env.persistent.predictions[market_id];
    pool_fee_fits(
        market.total_pool as int,
        market.choices[winning_choice as int].staked_amount as int,
        value_or(env.instance.platform_fee, 0) as int,
    )
}

/// Whether there is somebody to pay the fee to, and a token to pay it in.
pub open spec fn fee_payable(env: EnvView) -> bool {
    env.instance.fee_recipient is Some && env.instance.protocol_token is Some
}

/// What [`PredictionHub::resolve_prediction`] answers.
pub open spec fn resolve_result(
    env: EnvView,
    resolver: Address,
    market_id: u32,
    winning_choice: u32,
) -> Result<(), HubError> {
    if resolver_check(env, resolver) is Err {
        resolver_check(env, resolver)
    } else if verdict_check(env, market_id, winning_choice) is Err {
        verdict_check(env, market_id, winning_choice)
    } else if !resolution_fee_fits(env, market_id, winning_choice) {
        Err(HubError::Overflow)
    } else if resolution_fee(env, market_id, winning_choice) > 0 && !fee_payable(env) {
        Err(HubError::NotInitialized)
    } else {
        Ok(())
    }
}

/// The storage after a market is resolved.
pub open spec fn market_settled(env: EnvView, market_id: u32, winning_choice: u32) -> EnvView {
    let market = env.persistent.predictions[market_id];
    EnvView {
        instance: Instance {
            total_value_locked: Some(
                saturated_difference(
                    value_or(env.instance.total_value_locked, 0) as int,
                    market.total_pool as int,
                ) as i128,
            ),
            ..env.instance
        },
        persistent: PersistentView {
            predictions: env.persistent.predictions.insert(
                market_id,
                MarketView {
                    is_resolved: true,
                    is_open: false,
                    winning_choice: Some(winning_choice),
                    ..market
                },
            ),
            payout_pool: env.persistent.payout_pool.insert(
                market_id,
                (market.total_pool - resolution_fee(env, market_id, winning_choice)) as i128,
            ),
            market_liquidity: env.persistent.market_liquidity.insert(market_id, 0),
            ..env.persistent
        },
        ..env
    }
}

/// What is asked of the host when a market is resolved, in order.
pub open spec fn resolution_requests(
    env: EnvView,
    resolver: Address,
    market_id: u32,
    winning_choice: u32,
) -> Seq<Effect> {
    let fee = resolution_fee(env, market_id, winning_choice);
    let total_pool = env.persistent.predictions[market_id].total_pool;
    seq![
        Effect::RequireAuth(resolver),
        persistent_write(DataKey::Prediction(market_id)),
        persistent_write(DataKey::PayoutPool(market_id)),
        persistent_write(DataKey::MarketLiquidity(market_id)),
        instance_write(DataKey::TotalValueLocked),
    ] + (if fee > 0 {
        seq![
            Effect::Transfer {
                token: env.instance.protocol_token->Some_0,
                from: env.contract,
                to: env.instance.fee_recipient->Some_0,
                amount: fee as i128,
            },
        ]
    } else {
        Seq::empty()
    }) + seq![
        Effect::Publish(
            Event::MarketResolved(
                MarketResolved {
                    market_id,
                    resolver,
                    winning_choice,
                    payout_pool: (total_pool - fee) as i128,
                },
            ),
        ),
    ]
}

/// The world after [`PredictionHub::resolve_prediction`].
pub open spec fn resolve_env(
    env: EnvView,
    resolver: Address,
    market_id: u32,
    winning_choice: u32,
) -> EnvView {
    if resolver_check(env, resolver) is Err {
        env
    } else if resolve_result(env, resolver, market_id, winning_choice) is Err {
        env.asking(seq![Effect::RequireAuth(resolver)])
    } else {
        market_settled(env, market_id, winning_choice).asking(
            resolution_requests(env, resolver, market_id, winning_choice),
        )
    }
}

// ------------------------------------------------------------
//  Claims
// ------------------------------------------------------------
/// How the pool of a resolved market is shared out.
#[derive(Clone, Copy, Debug, PartialEq, Eq, Structural)]
pub struct Verdict {
    pub winning_choice: u32,
    /// What is staked on the winning choice.
    pub winners_total: i128,
    /// What there is to share out.
    pub payout_pool: i128,
}

/// What a stake is worth: itself where nobody won, its share of the pool where
/// it won, nothing where it lost.
pub open spec fn stake_worth(choice: u32, amount: i128, verdict: Verdict) -> int {
    if verdict.winners_total == 0 {
        amount as int
    } else if choice == verdict.winning_choice {
        share(amount as int, verdict.payout_pool as int, verdict.winners_total as int)
    } else {
        0
    }
}

/// What a bet is worth.
pub open spec fn bet_worth(bet: UserBet, verdict: Verdict) -> int {
    stake_worth(bet.choice, bet.amount, verdict)
}

/// Whether that worth can be computed.
pub open spec fn bet_worth_fits(bet: UserBet, verdict: Verdict) -> bool {
    verdict.winners_total != 0 && bet.choice == verdict.winning_choice ==> share_fits(
        bet.amount as int,
        verdict.payout_pool as int,
        verdict.winners_total as int,
    )
}

/// What a claim pays for a bet: its worth, unless it has been paid already.
pub open spec fn bet_due(bet: UserBet, verdict: Verdict) -> int {
    if !bet.claimed && bet_worth(bet, verdict) > 0 {
        bet_worth(bet, verdict)
    } else {
        0
    }
}

/// What a claim pays for a list of bets.
pub open spec fn bets_due(bets: Seq<UserBet>, verdict: Verdict) -> int
    decreases bets.len(),
{
    if bets.len() == 0 {
        0
    } else {
        bets_due(bets.drop_last(), verdict) + bet_due(bets.last(), verdict)
    }
}

/// Whether a claim on a list of bets can be computed.
pub open spec fn bets_due_fit(bets: Seq<UserBet>, verdict: Verdict) -> bool {
    &&& forall|i: int| 0 <= i < bets.len() && !bets[i].claimed ==> bet_worth_fits(bets[i], verdict)
    &&& fits(bets_due(bets, verdict))
}

/// The bet after a claim: marked as claimed if it was paid.
pub open spec fn bet_settled(bet: UserBet, verdict: Verdict) -> UserBet {
    if bet_due(bet, verdict) > 0 {
        UserBet { claimed: true, ..bet }
    } else {
        bet
    }
}

/// The bets after a claim.
pub open spec fn bets_settled(bets: Seq<UserBet>, verdict: Verdict) -> Seq<UserBet> {
    bets.map_values(|bet: UserBet| bet_settled(bet, verdict))
}

/// What must hold of the market that is claimed on: settled before the user is
/// asked to authorise.
pub open spec fn resolved_check(env: EnvView, market_id: u32) -> Result<(), HubError> {
    if !env.persistent.predictions.contains_key(market_id) {
        Err(HubError::MarketNotFound)
    } else {
        let market = env.persistent.predictions[market_id];
        if !market.is_resolved {
            Err(HubError::MarketNotResolved)
        } else if market.winning_choice is None {
            Err(HubError::NoWinningChoice)
        } else {
            Ok(())
        }
    }
}

/// How the pool of `market_id` is shared out, once it is resolved.
pub open spec fn verdict_of(env: EnvView, market_id: u32) -> Verdict {
    let market = env.persistent.predictions[market_id];
    let winning_choice = market.winning_choice->Some_0;
    Verdict {
        winning_choice,
        winners_total: market.choices[winning_choice as int].staked_amount,
        payout_pool: entry_or(env.persistent.payout_pool, market_id, 0),
    }
}

/// Whether a resolved market has the choice it was resolved for.
pub open spec fn verdict_in_range(env: EnvView, market_id: u32) -> bool {
    let market = env.persistent.predictions[market_id];
    market.winning_choice->Some_0 < market.choices.len()
}

/// What [`PredictionHub::claim`] answers.
pub open spec fn claim_result(env: EnvView, user: Address, market_id: u32) -> Result<
    i128,
    HubError,
> {
    let key = UserMarketKey { user, market_id };
    let bets = entry_or(env.persistent.user_bets, key, Seq::empty());
    if pause_check(env) is Err {
        Err(pause_check(env)->Err_0)
    } else if resolved_check(env, market_id) is Err {
        Err(resolved_check(env, market_id)->Err_0)
    } else if bets.len() == 0 {
        Err(HubError::NoBets)
    } else if !verdict_in_range(env, market_id) {
        Err(HubError::ChoiceOutOfRange)
    } else if !bets_due_fit(bets, verdict_of(env, market_id)) {
        Err(HubError::Overflow)
    } else if bets_due(bets, verdict_of(env, market_id)) > 0 && token_check(env) is Err {
        Err(HubError::NotInitialized)
    } else {
        Ok(bets_due(bets, verdict_of(env, market_id)) as i128)
    }
}

/// The storage after a claim.
pub open spec fn bets_paid(env: EnvView, user: Address, market_id: u32) -> EnvView {
    let key = UserMarketKey { user, market_id };
    let bets = env.persistent.user_bets[key];
    EnvView {
        persistent: PersistentView {
            user_bets: env.persistent.user_bets.insert(
                key,
                bets_settled(bets, verdict_of(env, market_id)),
            ),
            ..env.persistent
        },
        ..env
    }
}

/// What is asked of the host for a claim, in order.
pub open spec fn claim_requests(env: EnvView, user: Address, market_id: u32) -> Seq<Effect> {
    let key = UserMarketKey { user, market_id };
    let amount = bets_due(env.persistent.user_bets[key], verdict_of(env, market_id)) as i128;
    seq![Effect::RequireAuth(user), persistent_write(DataKey::UserBets(key))] + (if amount > 0 {
        seq![
            Effect::Transfer {
                token: env.instance.protocol_token->Some_0,
                from: env.contract,
                to: user,
                amount,
            },
        ]
    } else {
        Seq::empty()
    }) + seq![
        Effect::Publish(Event::WinningsClaimed(WinningsClaimed { market_id, user, amount })),
    ]
}

/// The world after [`PredictionHub::claim`].
pub open spec fn claim_env(env: EnvView, user: Address, market_id: u32) -> EnvView {
    if pause_check(env) is Err || resolved_check(env, market_id) is Err {
        env
    } else if claim_result(env, user, market_id) is Err {
        env.asking(seq![Effect::RequireAuth(user)])
    } else {
        bets_paid(env, user, market_id).asking(claim_requests(env, user, market_id))
    }
}

/// No bet takes anything away from a claim.
pub proof fn lemma_bets_due_grows(bets: Seq<UserBet>, verdict: Verdict, i: int)
    requires
        0 <= i <= bets.len(),
    ensures
        0 <= bets_due(bets.take(i), verdict) <= bets_due(bets, verdict),
    decreases bets.len(),
{
    if i == bets.len() {
        assert(bets.take(i) =~= bets);
        if bets.len() > 0 {
            lemma_bets_due_grows(bets.drop_last(), verdict, i - 1);
            assert(bets.drop_last().take(i - 1) =~= bets.drop_last());
        }
    } else {
        assert(bets.take(i) =~= bets.drop_last().take(i));
        lemma_bets_due_grows(bets.drop_last(), verdict, i);
    }
}

/// What a bet is worth.
pub fn compute_worth(bet: &UserBet, verdict: &Verdict) -> (result: Result<i128, HubError>)
    ensures
        match result {
            Ok(worth) => bet_worth_fits(*bet, *verdict) && worth == bet_worth(*bet, *verdict),
            Err(error) => !bet_worth_fits(*bet, *verdict) && error == HubError::Overflow,
        },
{
    if verdict.winners_total == 0 {
        // No winner: refund the stake.
        Ok(bet.amount)
    } else if bet.choice == verdict.winning_choice {
        compute_share(bet.amount, verdict.payout_pool, verdict.winners_total)
    } else {
        Ok(0)
    }
}

/// Adds up what a claim pays for `bets`, and marks the bets that it pays.
fn settle_bets(bets: &Vec<UserBet>, verdict: &Verdict) -> (result: Result<
    (i128, Vec<UserBet>),
    HubError,
>)
    ensures
        match result {
            Ok((total, settled)) => {
                &&& bets_due_fit(bets@, *verdict)
                &&& total == bets_due(bets@, *verdict)
                &&& settled@ == bets_settled(bets@, *verdict)
            },
            Err(error) => !bets_due_fit(bets@, *verdict) && error == HubError::Overflow,
        },
{
    let mut total_payout: i128 = 0;
    let mut updated: Vec<UserBet> = Vec::new();
    let mut i: usize = 0;
    while i < bets.len()
        invariant
            i <= bets.len(),
            total_payout == bets_due(bets@.take(i as int), *verdict),
            updated@ == bets_settled(bets@.take(i as int), *verdict),
            forall|j: int|
                0 <= j < i && !bets@[j].claimed ==> bet_worth_fits(#[trigger] bets@[j], *verdict),
        decreases bets.len() - i,
    {
        let mut bet = bets[i].clone();
        proof {
            assert(bets@.take(i + 1).drop_last() =~= bets@.take(i as int));
            assert(bets@.take(i + 1).last() == bets@[i as int]);
            lemma_bets_due_grows(bets@, *verdict, i as int);
            lemma_bets_due_grows(bets@, *verdict, i + 1);
        }
        if !bet.claimed {
            let payout: i128 = compute_worth(&bet, verdict)?;
            if payout > 0 {
                total_payout = checked_sum(total_payout, payout)?;
                bet.claimed = true;
            }
        }
        updated.push(bet);
        proof {
            assert(updated@ =~= bets_settled(bets@.take(i + 1), *verdict));
        }
        i = i + 1;
    }
    proof {
        assert(bets@.take(i as int) =~= bets@);
    }
    Ok((total_payout, updated))
}

/// The resolved market that is claimed on.
fn resolved_market(env: &Env, market_id: u32) -> (result: Result<(Market, u32), HubError>)
    ensures
        match result {
            Ok((market, winning_choice)) => {
                &&& resolved_check(env@, market_id) is Ok
                &&& market@ == env@.persistent.predictions[market_id]
                &&& market.winning_choice == Some(winning_choice)
            },
            Err(error) => resolved_check(env@, market_id) == Err::<(), HubError>(error),
        },
{
    let market = match env.persistent.predictions.get(market_id) {
        Some(market) => market,
        None => {
            return Err(HubError::MarketNotFound);
        },
    };
    if !market.is_resolved {
        return Err(HubError::MarketNotResolved);
    }
    match market.winning_choice {
        Some(winning_choice) => Ok((market.clone(), winning_choice)),
        None => Err(HubError::NoWinningChoice),
    }
}

impl PredictionHub {
    /// Resolves a market by declaring the winning choice. Only moderators and
    /// the admin may resolve markets.
    ///
    /// The protocol fee is taken from the total pool (only when there is at
    /// least one winning stake) and paid to the fee recipient immediately. The
    /// remaining payout pool stays in the contract until winners claim.
    pub fn resolve_prediction(
        env: &mut Env,
        resolver: Address,
        market_id: u32,
        winning_choice: u32,
    ) -> (result: Result<(), HubError>)
        ensures
            result == resolve_result(old(env)@, resolver, market_id, winning_choice),
            final(env)@ == resolve_env(old(env)@, resolver, market_id, winning_choice),
    {
        assert_not_paused(env)?;
        if env.instance.resolution_paused.unwrap_or(false) {
            return Err(HubError::ResolutionPaused);
        }
        assert_moderator_or_admin(env, &resolver)?;
        env.ask(Effect::RequireAuth(resolver));

        let mut market: Market = match env.persistent.predictions.get(market_id) {
            Some(market) => market.clone(),
            None => {
                return Err(HubError::MarketNotFound);
            },
        };
        if market.is_resolved {
            return Err(HubError::MarketAlreadyResolved);
        }
        if winning_choice as usize >= market.choices.len() {
            return Err(HubError::InvalidChoice);
        }
        let total_pool: i128 = market.total_pool;
        let winners_total: i128 = market.choices[winning_choice as usize].staked_amount;

        // The protocol fee is only charged when at least one winning stake
        // exists, otherwise every stake is refunded in full.
        let platform_fee: i128 = env.instance.platform_fee.unwrap_or(0);
        let fee: i128 = compute_fee(total_pool, winners_total, platform_fee)?;
        let payout_pool: i128 = total_pool - fee;
        if fee > 0 && (env.instance.fee_recipient.is_none()
            || env.instance.protocol_token.is_none()) {
            return Err(HubError::NotInitialized);
        }
        market.is_resolved = true;
        market.is_open = false;
        market.winning_choice = Some(winning_choice);
        env.persistent.predictions.set(market_id, market);
        env.persistent_set(DataKey::Prediction(market_id));
        env.persistent.payout_pool.set(market_id, payout_pool);
        env.persistent_set(DataKey::PayoutPool(market_id));
        env.persistent.market_liquidity.set(market_id, 0);
        env.persistent_set(DataKey::MarketLiquidity(market_id));

        let tvl: i128 = env.instance.total_value_locked.unwrap_or(0);
        env.instance.total_value_locked = Some(saturating_difference(tvl, total_pool));
        env.instance_set(DataKey::TotalValueLocked);

        if fee > 0 {
            if let (Some(to), Some(token)) = (
                env.instance.fee_recipient,
                env.instance.protocol_token,
            ) {
                let from = env.contract;
                env.ask(Effect::Transfer { token, from, to, amount: fee });
            }
        }
        env.ask(
            Effect::Publish(
                Event::MarketResolved(
                    MarketResolved { market_id, resolver, winning_choice, payout_pool },
                ),
            ),
        );
        Ok(())
    }

    /// Claims the caller's winnings for a resolved market.
    ///
    /// Winning stakes receive a share of the payout pool proportional to their
    /// stake. When nobody backed the winning choice every stake is refunded in
    /// full, minus nothing (no fee is charged in that case). Nothing is paid
    /// while the protocol is frozen.
    pub fn claim(env: &mut Env, user: Address, market_id: u32) -> (result: Result<i128, HubError>)
        ensures
            result == claim_result(old(env)@, user, market_id),
            final(env)@ == claim_env(old(env)@, user, market_id),
    {
        assert_not_paused(env)?;
        let (market, winning_choice) = resolved_market(env, market_id)?;
        env.ask(Effect::RequireAuth(user));

        let bets_key = UserMarketKey { user, market_id };
        let bets: Vec<UserBet> = match env.persistent.user_bets.get(bets_key) {
            Some(bets) => bets.clone(),
            None => {
                return Err(HubError::NoBets);
            },
        };
        if bets.is_empty() {
            return Err(HubError::NoBets);
        }
        if winning_choice as usize >= market.choices.len() {
            return Err(HubError::ChoiceOutOfRange);
        }
        let winners_total: i128 = market.choices[winning_choice as usize].staked_amount;
        let payout_pool: i128 = match env.persistent.payout_pool.get(market_id) {
            Some(payout_pool) => *payout_pool,
            None => 0,
        };
        let verdict = Verdict { winning_choice, winners_total, payout_pool };
        let (total_payout, updated) = settle_bets(&bets, &verdict)?;
        if total_payout > 0 {
            protocol_token(env)?;
        }
        env.persistent.user_bets.set(bets_key, updated);
        env.persistent_set(DataKey::UserBets(bets_key));

        if total_payout > 0 {
            if let Some(token) = env.instance.protocol_token {
                let from = env.contract;
                env.ask(Effect::Transfer { token, from, to: user, amount: total_payout });
            }
        }
        env.ask(
            Effect::Publish(
                Event::WinningsClaimed(WinningsClaimed { market_id, user, amount: total_payout }),
            ),
        );
        Ok(total_payout)
    }

    /// Alias for [`Self::claim`].
    pub fn collect_winnings(env: &mut Env, user: Address, market_id: u32) -> (result: Result<
        i128,
        HubError,
    >)
        ensures
            result == claim_result(old(env)@, user, market_id),
            final(env)@ == claim_env(old(env)@, user, market_id),
    {
        Self::claim(env, user, market_id)
    }
}

} // verus!
