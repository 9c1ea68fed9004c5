//! What the words mean in which the other laws are put.

use vstd::prelude::*;

use crate::access::{
    admin_check, entry_or, moderates, pause_check, staff_check, token_check, value_or,
};
use crate::betting::{activity_of, bets_of, market_ids_of};
use crate::env::{
    instance_write, persistent_write, Effect, Env, EnvView, Instance, Persistent, PersistentView,
};
use crate::error::HubError;
use crate::money::{
    fits, pool_fee, pool_fee_fits, saturated_difference, share, share_fits, valid_fee,
};
use crate::queries::{
    any_market, betting_open, ids_up_to, locked_at, of_type, open_at, prediction_count, resolved,
    same_outcome, values,
};
use crate::settlement::{bet_worth, bet_worth_fits, stake_worth, Verdict};
use crate::types::{Activity, Address, DataKey, Market, MarketView, UserBet, UserMarketKey};

verus! {

// ------------------------------------------------------------
//  Views
// ------------------------------------------------------------
/// The value of a market holds every field of it.
pub proof fn law_market_value_is_complete(market: Market)
    ensures
        market@.market_id == market.market_id,
        market@.creator == market.creator,
        market@.title == market.title,
        market@.description == market.description,
        market@.category == market.category,
        market@.choices == market.choices@,
        market@.end_time == market.end_time,
        market@.is_open == market.is_open,
        market@.is_resolved == market.is_resolved,
        market@.winning_choice == market.winning_choice,
        market@.total_pool == market.total_pool,
        market@.market_type == market.market_type,
        market@.image_url == market.image_url,
{
}

/// The value of the persistent entries holds every table.
pub proof fn law_persistent_value_is_complete(persistent: Persistent)
    ensures
        persistent@.moderators == persistent.moderators@,
        persistent@.predictions == persistent.predictions@,
        persistent@.user_bets == persistent.user_bets@,
        persistent@.user_market_ids == persistent.user_market_ids@,
        persistent@.market_analytics == persistent.market_analytics@,
        persistent@.market_liquidity == persistent.market_liquidity@,
        persistent@.payout_pool == persistent.payout_pool@,
{
}

/// The value of an environment holds every part of it.
pub proof fn law_env_value_is_complete(env: Env)
    ensures
        env@.instance == env.instance,
        env@.persistent == env.persistent@,
        env@.timestamp == env.timestamp,
        env@.contract == env.contract,
        env@.effects == env.effects@,
{
}

/// A list of markets has the values of its markets, in order.
pub proof fn law_values_are_in_order(markets: Seq<Market>)
    ensures
        values(markets).len() == markets.len(),
        forall|i: int| 0 <= i < markets.len() ==> #[trigger] values(markets)[i] == markets[i]@,
{
}

/// An undeployed contract has no entries.
pub proof fn law_nothing_is_stored_at_first(
    who: Address,
    id: u32,
    key: UserMarketKey,
)
    ensures
        Instance::empty().admin is None,
        Instance::empty().moderator_count is None,
        Instance::empty().prediction_count is None,
        Instance::empty().total_value_locked is None,
        Instance::empty().fee_recipient is None,
        Instance::empty().platform_fee is None,
        Instance::empty().protocol_token is None,
        Instance::empty().is_paused is None,
        Instance::empty().market_creation_paused is None,
        Instance::empty().betting_paused is None,
        Instance::empty().resolution_paused is None,
        Instance::empty().min_market_duration is None,
        Instance::empty().max_market_duration is None,
        Instance::empty().resolution_window is None,
        Instance::empty().min_bet_amount is None,
        Instance::empty().max_bet_amount is None,
        !PersistentView::empty().moderators.contains_key(who),
        !PersistentView::empty().predictions.contains_key(id),
        !PersistentView::empty().user_bets.contains_key(key),
        !PersistentView::empty().user_market_ids.contains_key(who),
        !PersistentView::empty().market_analytics.contains_key(id),
        !PersistentView::empty().market_liquidity.contains_key(id),
        !PersistentView::empty().payout_pool.contains_key(id),
{
}

// ------------------------------------------------------------
//  Reading and writing entries
// ------------------------------------------------------------
/// A default stands in where nothing was written, and nowhere else.
pub proof fn law_defaults<T, K, V>(value: T, default: T, entries: Map<K, V>, key: K, other: V)
    ensures
        value_or(Some(value), default) == value,
        value_or(None::<T>, default) == default,
        entries.contains_key(key) ==> entry_or(entries, key, other) == entries[key],
        !entries.contains_key(key) ==> entry_or(entries, key, other) == other,
{
}

/// Bets, lists of markets and trails are what is written under their keys, and
/// empty where nothing was written.
pub proof fn law_lists_are_as_written(env: EnvView, user: Address, id: u32)
    ensures
        bets_of(env, user, id) == (if env.persistent.user_bets.contains_key(
            UserMarketKey { user, market_id: id },
        ) {
            env.persistent.user_bets[UserMarketKey { user, market_id: id }]
        } else {
            Seq::<UserBet>::empty()
        }),
        market_ids_of(env, user) == (if env.persistent.user_market_ids.contains_key(user) {
            env.persistent.user_market_ids[user]
        } else {
            Seq::<u32>::empty()
        }),
        activity_of(env, id) == (if env.persistent.market_analytics.contains_key(id) {
            env.persistent.market_analytics[id]
        } else {
            Seq::<Activity>::empty()
        }),
        prediction_count(env) == (match env.instance.prediction_count {
            Some(count) => count,
            None => 0,
        }),
{
}

/// Every write asks for its entry to be kept for 5,000,000 ledgers once fewer
/// than 100 are left, and asking adds to what was asked before.
pub proof fn law_writes_extend_life(env: EnvView, key: DataKey, requests: Seq<Effect>)
    ensures
        instance_write(key) == (Effect::SetInstance {
            key,
            ttl_threshold: 100,
            ttl_extend: 5_000_000,
        }),
        persistent_write(key) == (Effect::SetPersistent {
            key,
            ttl_threshold: 100,
            ttl_extend: 5_000_000,
        }),
        env.asking(requests).effects == env.effects + requests,
        env.asking(requests).instance == env.instance,
        env.asking(requests).persistent == env.persistent,
        env.asking(requests).timestamp == env.timestamp,
        env.asking(requests).contract == env.contract,
{
}

// ------------------------------------------------------------
//  Who may do what
// ------------------------------------------------------------
/// Whether `who` is the admin or a moderator on record.
pub open spec fn runs_markets(env: EnvView, who: Address) -> bool {
    ||| env.instance.admin == Some(who)
    ||| env.persistent.moderators.contains_key(who) && env.persistent.moderators[who]
}

/// The admin and the moderators are those on record, the protocol is frozen
/// exactly while the switch is on, and the token is the one on record.
pub proof fn law_roles_are_as_written(env: EnvView, who: Address)
    ensures
        moderates(env, who) <==> env.persistent.moderators.contains_key(who)
            && env.persistent.moderators[who],
        admin_check(env, who) is Ok <==> env.instance.admin == Some(who),
        admin_check(env, who) == Err::<(), HubError>(HubError::NotInitialized)
            <==> env.instance.admin is None,
        admin_check(env, who) == Err::<(), HubError>(HubError::OnlyAdmin)
            <==> env.instance.admin is Some && env.instance.admin != Some(who),
        staff_check(env, who) is Ok <==> env.instance.admin is Some && runs_markets(env, who),
        staff_check(env, who) == Err::<(), HubError>(HubError::NotInitialized)
            <==> env.instance.admin is None,
        staff_check(env, who) == Err::<(), HubError>(HubError::OnlyModeratorOrAdmin)
            <==> env.instance.admin is Some && !runs_markets(env, who),
        pause_check(env) is Ok <==> env.instance.is_paused != Some(true),
        pause_check(env) == Err::<(), HubError>(HubError::ContractPaused)
            <==> env.instance.is_paused == Some(true),
        token_check(env) == (match env.instance.protocol_token {
            Some(token) => Ok::<Address, HubError>(token),
            None => Err::<Address, HubError>(HubError::NotInitialized),
        }),
{
}

// ------------------------------------------------------------
//  Amounts
// ------------------------------------------------------------
/// The quotient `q` of `x` by `d`, rounded toward zero.
pub open spec fn rounds_toward_zero(q: int, x: int, d: int) -> bool {
    &&& x >= 0 && d > 0 ==> q * d <= x < (q + 1) * d
    &&& x < 0 && d > 0 ==> (q - 1) * d < x <= q * d
    &&& x >= 0 && d < 0 ==> q * d <= x < (q - 1) * d
    &&& x < 0 && d < 0 ==> (q + 1) * d < x <= q * d
}

/// A share is `amount * pool / winners_total`, rounded toward zero, whatever the
/// signs, and it can be computed exactly when product and quotient are amounts.
pub proof fn law_share_is_quotient(amount: int, pool: int, winners_total: int)
    requires
        winners_total != 0,
    ensures
        rounds_toward_zero(share(amount, pool, winners_total), amount * pool, winners_total),
        share_fits(amount, pool, winners_total) <==> i128::MIN <= amount * pool <= i128::MAX
            && i128::MIN <= share(amount, pool, winners_total) <= i128::MAX,
{
    let x = amount * pool;
    let d = winners_total;
    let ax = if x < 0 {
        -x
    } else {
        x
    };
    let ad = if d < 0 {
        -d
    } else {
        d
    };
    let n = ax / ad;
    assert(n * ad <= ax < (n + 1) * ad) by (nonlinear_arith)
        requires
            n == ax / ad,
            ad > 0,
    ;
    assert((-n) * ad == -(n * ad)) by (nonlinear_arith);
    assert(n * (-ad) == -(n * ad)) by (nonlinear_arith);
    assert((-n) * (-ad) == n * ad) by (nonlinear_arith);
    assert((n + 1) * ad == n * ad + ad) by (nonlinear_arith);
    assert((-n - 1) * ad == -(n * ad) - ad) by (nonlinear_arith);
    assert((n + 1) * (-ad) == -(n * ad) - ad) by (nonlinear_arith);
    assert((-n - 1) * (-ad) == n * ad + ad) by (nonlinear_arith);
}

/// The fee is `total_pool * platform_fee / 10_000` rounded down, but no more
/// than the pool; it is nothing unless there are winners, a rate and a pool.
pub proof fn law_fee_is_quotient(total_pool: int, winners_total: int, platform_fee: int)
    ensures
        winners_total <= 0 || platform_fee <= 0 || total_pool <= 0 ==> pool_fee(
            total_pool,
            winners_total,
            platform_fee,
        ) == 0 && pool_fee_fits(total_pool, winners_total, platform_fee),
        winners_total > 0 && platform_fee > 0 && total_pool > 0 ==> {
            let fee = pool_fee(total_pool, winners_total, platform_fee);
            &&& 0 <= fee <= total_pool
            &&& platform_fee <= 10_000 ==> fee * 10_000 <= total_pool * platform_fee < (fee + 1)
                * 10_000
            &&& platform_fee > 10_000 ==> fee == total_pool
            &&& pool_fee_fits(total_pool, winners_total, platform_fee) <==> total_pool
                * platform_fee <= i128::MAX
        },
{
    if winners_total > 0 && platform_fee > 0 && total_pool > 0 {
        assert(total_pool * platform_fee > 0) by (nonlinear_arith)
            requires
                total_pool > 0,
                platform_fee > 0,
        ;
        if platform_fee <= 10_000 {
            assert(total_pool * platform_fee <= total_pool * 10_000) by (nonlinear_arith)
                requires
                    total_pool > 0,
                    platform_fee <= 10_000,
            ;
        } else {
            assert(total_pool * platform_fee >= total_pool * 10_000) by (nonlinear_arith)
                requires
                    total_pool > 0,
                    platform_fee > 10_000,
            ;
        }
    }
}

/// An amount is a 128-bit number, a rate is at least nothing and less than the
/// whole, and differences stop at the bounds.
pub proof fn law_amounts_are_bounded(x: int, y: int, rate: i128)
    ensures
        fits(x) <==> -0x8000_0000_0000_0000_0000_0000_0000_0000 <= x
            <= 0x7fff_ffff_ffff_ffff_ffff_ffff_ffff_ffff,
        valid_fee(rate) <==> 0 <= rate < 10_000,
        fits(x - y) ==> saturated_difference(x, y) == x - y,
        x - y < i128::MIN ==> saturated_difference(x, y) == i128::MIN,
        x - y > i128::MAX ==> saturated_difference(x, y) == i128::MAX,
{
}

/// A stake is worth itself where nothing is on the winning choice, its share
/// where it is on the winning choice, and nothing otherwise.
pub proof fn law_worth_of_stake(bet: UserBet, verdict: Verdict)
    ensures
        bet_worth(bet, verdict) == stake_worth(bet.choice, bet.amount, verdict),
        verdict.winners_total == 0 ==> bet_worth(bet, verdict) == bet.amount && bet_worth_fits(
            bet,
            verdict,
        ),
        verdict.winners_total != 0 && bet.choice != verdict.winning_choice ==> bet_worth(
            bet,
            verdict,
        ) == 0 && bet_worth_fits(bet, verdict),
        verdict.winners_total != 0 && bet.choice == verdict.winning_choice ==> {
            &&& rounds_toward_zero(
                bet_worth(bet, verdict),
                bet.amount * verdict.payout_pool,
                verdict.winners_total as int,
            )
            &&& bet_worth_fits(bet, verdict) <==> i128::MIN <= bet.amount * verdict.payout_pool
                <= i128::MAX && i128::MIN <= bet_worth(bet, verdict) <= i128::MAX
        },
{
    if verdict.winners_total != 0 {
        law_share_is_quotient(
            bet.amount as int,
            verdict.payout_pool as int,
            verdict.winners_total as int,
        );
    }
}

/// A computed outcome is the expected one exactly when both are the same amount
/// or the same refusal.
pub proof fn law_outcomes_agree(result: Result<i128, HubError>, expected: Result<int, HubError>)
    ensures
        same_outcome(result, expected) <==> {
            ||| result is Ok && expected is Ok && result->Ok_0 == expected->Ok_0
            ||| result is Err && expected is Err && result->Err_0 == expected->Err_0
        },
{
}

// ------------------------------------------------------------
//  Markets
// ------------------------------------------------------------
/// What each listing asks of a market.
pub proof fn law_listings_test_these(market: MarketView, market_type: u32, now: u64)
    ensures
        any_market()(market),
        of_type(market_type)(market) <==> market.market_type == market_type,
        open_at(now)(market) <==> market.is_open && !market.is_resolved && now < market.end_time,
        locked_at(now)(market) <==> !market.is_resolved && market.end_time <= now,
        resolved()(market) <==> market.is_resolved,
{
}

/// The ids given out are `1`, `2`, and so on.
pub proof fn law_ids_are_consecutive(count: u32)
    ensures
        ids_up_to(count).len() == count,
        forall|i: int| 0 <= i < count ==> #[trigger] ids_up_to(count)[i] == i + 1,
{
}

/// A market takes stakes while nothing is paused, and it is on record, open, not
/// resolved, and not past its end.
pub proof fn law_market_takes_stakes(env: EnvView, id: u32)
    ensures
        betting_open(env, id) <==> {
            &&& env.instance.is_paused != Some(true)
            &&& env.instance.betting_paused != Some(true)
            &&& env.persistent.predictions.contains_key(id)
            &&& env.persistent.predictions[id].is_open
            &&& !env.persistent.predictions[id].is_resolved
            &&& env.timestamp < env.persistent.predictions[id].end_time
        },
{
}

// ------------------------------------------------------------
//  Reasons
// ------------------------------------------------------------
/// The text of each reason.
pub proof fn law_reasons_have_texts()
    ensures
        HubError::NotInitialized.text() == "not initialized"@,
        HubError::AlreadyInitialized.text() == "already initialized"@,
        HubError::InvalidFee.text() == "invalid fee"@,
        HubError::InvalidMinBet.text() == "invalid min bet"@,
        HubError::InvalidMaxBet.text() == "invalid max bet"@,
        HubError::OnlyAdmin.text() == "only admin"@,
        HubError::OnlyModeratorOrAdmin.text() == "only moderator or admin"@,
        HubError::ContractPaused.text() == "contract paused"@,
        HubError::MarketCreationPaused.text() == "market creation paused"@,
        HubError::BettingPaused.text() == "betting paused"@,
        HubError::ResolutionPaused.text() == "resolution paused"@,
        HubError::TitleRequired.text() == "title required"@,
        HubError::InvalidChoiceCount.text() == "invalid choice count"@,
        HubError::EndTimeNotInFuture.text() == "end time must be in the future"@,
        HubError::DurationTooShort.text() == "market duration too short"@,
        HubError::DurationTooLong.text() == "market duration too long"@,
        HubError::AmountNotPositive.text() == "amount must be positive"@,
        HubError::AmountBelowMinimum.text() == "amount below minimum"@,
        HubError::AmountAboveMaximum.text() == "amount above maximum"@,
        HubError::MarketNotFound.text() == "market not found"@,
        HubError::MarketClosed.text() == "market closed"@,
        HubError::MarketResolved.text() == "market resolved"@,
        HubError::MarketEnded.text() == "market ended"@,
        HubError::InvalidChoice.text() == "invalid choice"@,
        HubError::MarketAlreadyResolved.text() == "market already resolved"@,
        HubError::MarketNotResolved.text() == "market not resolved"@,
        HubError::NoWinningChoice.text() == "no winning choice"@,
        HubError::NoBets.text() == "no bets"@,
        HubError::BetNotFound.text() == "bet not found"@,
        HubError::ChoiceOutOfRange.text() == "choice out of range"@,
        HubError::Overflow.text() == "arithmetic overflow"@,
{
}

} // verus!
