//! When each call is accepted, what it then changes, and what it asks of the
//! host, entry by entry.

use vstd::prelude::*;

use crate::access::{entry_or, value_or};
use crate::admin::{
    add_moderator_env, add_moderator_result, emergency_env, names, pause_betting_env,
    pause_market_creation_env, pause_resolution_env, remove_all_env, remove_moderator_env,
    set_betting_limits_env, set_betting_limits_result, set_fee_recipient_env, set_platform_fee_env,
    set_platform_fee_result, trail_of, upgrade_env, users_in_trails,
};
use crate::betting::{activity_of, bets_of, buy_shares_env, buy_shares_result, market_ids_of};
use crate::env::{Effect, EnvView, Instance, PersistentView};
use crate::error::HubError;
use crate::events::{
    BetPlaced, EmergencyPaused, Event, FeeRecipientUpdated, Initialized, MarketCreated,
    MarketResolved, MarketToggled, ModeratorUpdated, PlatformFeeUpdated,
};
use crate::laws::vocabulary::{law_fee_is_quotient, runs_markets};
use crate::markets::{create_env, create_result, toggle_env, toggle_result};
use crate::settlement::{resolve_env, resolve_result};
use crate::setup::{initialize_env, initialize_result};
use crate::types::{Activity, Address, DataKey, MarketView, UserBet, UserMarketKey};

verus! {

/// The request to store an instance entry.
pub open spec fn stores_in_instance(key: DataKey) -> Effect {
    Effect::SetInstance { key, ttl_threshold: 100, ttl_extend: 5_000_000 }
}

/// The request to store a persistent entry.
pub open spec fn stores(key: DataKey) -> Effect {
    Effect::SetPersistent { key, ttl_threshold: 100, ttl_extend: 5_000_000 }
}

/// Whether a switch is on.
pub open spec fn on(switch: Option<bool>) -> bool {
    switch == Some(true)
}

/// Whether all that `next` has more than `env` are these requests.
pub open spec fn only_asks(env: EnvView, next: EnvView, requests: Seq<Effect>) -> bool {
    &&& next.instance == env.instance
    &&& next.persistent == env.persistent
    &&& next.timestamp == env.timestamp
    &&& next.contract == env.contract
    &&& next.effects == env.effects + requests
}

// ------------------------------------------------------------
//  Setting up
// ------------------------------------------------------------
/// The protocol is set up exactly when it was not before, the fee is less than
/// the whole and the limits are in order. Then the nine settings are as given,
/// both counters are zero, and everything else is as it was.
pub proof fn law_initialize_terms(
    env: EnvView,
    admin: Address,
    fee_recipient: Address,
    token: Address,
    platform_fee: i128,
    min_market_duration: u64,
    max_market_duration: u64,
    resolution_window: u64,
    min_bet_amount: i128,
    max_bet_amount: i128,
)
    ensures
        ({
            let result = initialize_result(env, platform_fee, min_bet_amount, max_bet_amount);
            let next = initialize_env(
                env,
                admin,
                fee_recipient,
                token,
                platform_fee,
                min_market_duration,
                max_market_duration,
                resolution_window,
                min_bet_amount,
                max_bet_amount,
            );
            let fresh = env.instance.admin is None;
            let fee_ok = 0 <= platform_fee < 10_000;
            &&& result == Err::<(), HubError>(HubError::AlreadyInitialized) <==> !fresh
            &&& result == Err::<(), HubError>(HubError::InvalidFee) <==> fresh && !fee_ok
            &&& result == Err::<(), HubError>(HubError::InvalidMinBet) <==> fresh && fee_ok
                && min_bet_amount < 0
            &&& result == Err::<(), HubError>(HubError::InvalidMaxBet) <==> fresh && fee_ok
                && min_bet_amount >= 0 && max_bet_amount < min_bet_amount
            &&& result is Ok <==> fresh && fee_ok && 0 <= min_bet_amount <= max_bet_amount
            &&& result is Err ==> next == env
            &&& result is Ok ==> {
                &&& next.instance == (Instance {
                    admin: Some(admin),
                    fee_recipient: Some(fee_recipient),
                    protocol_token: Some(token),
                    platform_fee: Some(platform_fee),
                    min_market_duration: Some(min_market_duration),
                    max_market_duration: Some(max_market_duration),
                    resolution_window: Some(resolution_window),
                    min_bet_amount: Some(min_bet_amount),
                    max_bet_amount: Some(max_bet_amount),
                    prediction_count: Some(0),
                    total_value_locked: Some(0),
                    ..env.instance
                })
                &&& next.persistent == env.persistent
                &&& next.timestamp == env.timestamp
                &&& next.contract == env.contract
                &&& next.effects == env.effects + seq![
                    Effect::RequireAuth(admin),
                    stores_in_instance(DataKey::Admin),
                    stores_in_instance(DataKey::FeeRecipient),
                    stores_in_instance(DataKey::ProtocolToken),
                    stores_in_instance(DataKey::PlatformFee),
                    stores_in_instance(DataKey::MinMarketDuration),
                    stores_in_instance(DataKey::MaxMarketDuration),
                    stores_in_instance(DataKey::ResolutionWindow),
                    stores_in_instance(DataKey::MinBetAmount),
                    stores_in_instance(DataKey::MaxBetAmount),
                    stores_in_instance(DataKey::PredictionCount),
                    stores_in_instance(DataKey::TotalValueLocked),
                    Effect::Publish(Event::Initialized(Initialized { admin, token })),
                ]
            }
        }),
{
}

// ------------------------------------------------------------
//  Markets
// ------------------------------------------------------------
/// A market is created exactly when creation is not paused, the creator is the
/// admin or a moderator, there is a title, there are one to 32 choices, the end
/// lies in the future and within the limits on durations, and ids are left. Each
/// refusal has its own reason, in this order.
pub proof fn law_creation_is_accepted_on_these_terms(
    env: EnvView,
    creator: Address,
    title: String,
    choices: Seq<String>,
    end_time: u64,
)
    ensures
        ({
            let result = create_result(env, creator, title, choices, end_time);
            let open = !on(env.instance.is_paused) && !on(env.instance.market_creation_paused);
            let allowed = open && env.instance.admin is Some && runs_markets(env, creator);
            let shaped = allowed && title@.len() > 0 && 1 <= choices.len() <= 32;
            let ahead = shaped && env.timestamp < end_time;
            let min_duration = value_or(env.instance.min_market_duration, 0);
            let max_duration = value_or(env.instance.max_market_duration, 0);
            let long_enough = min_duration == 0 || end_time - env.timestamp >= min_duration;
            let short_enough = max_duration == 0 || end_time - env.timestamp <= max_duration;
            let count = value_or(env.instance.prediction_count, 0);
            &&& on(env.instance.is_paused) ==> result == Err::<u32, HubError>(
                HubError::ContractPaused,
            )
            &&& !on(env.instance.is_paused) && on(env.instance.market_creation_paused) ==> result
                == Err::<u32, HubError>(HubError::MarketCreationPaused)
            &&& open && env.instance.admin is None ==> result == Err::<u32, HubError>(
                HubError::NotInitialized,
            )
            &&& open && env.instance.admin is Some && !runs_markets(env, creator) ==> result
                == Err::<u32, HubError>(HubError::OnlyModeratorOrAdmin)
            &&& allowed && title@.len() == 0 ==> result == Err::<u32, HubError>(
                HubError::TitleRequired,
            )
            &&& allowed && title@.len() > 0 && !(1 <= choices.len() <= 32) ==> result == Err::<
                u32,
                HubError,
            >(HubError::InvalidChoiceCount)
            &&& shaped && end_time <= env.timestamp ==> result == Err::<u32, HubError>(
                HubError::EndTimeNotInFuture,
            )
            &&& ahead && !long_enough ==> result == Err::<u32, HubError>(HubError::DurationTooShort)
            &&& ahead && long_enough && !short_enough ==> result == Err::<u32, HubError>(
                HubError::DurationTooLong,
            )
            &&& ahead && long_enough && short_enough && count == u32::MAX ==> result == Err::<
                u32,
                HubError,
            >(HubError::Overflow)
            &&& ahead && long_enough && short_enough && count < u32::MAX ==> result is Ok
                && result->Ok_0 == count + 1
        }),
{
}

/// A new market is on record under its id with every field as given: the labels
/// of its choices in the order given, nothing staked on any of them, open and
/// not resolved. It starts with an empty trail. Nothing else changes, and a
/// refused market changes nothing at all.
pub proof fn law_created_market_is_as_described(
    env: EnvView,
    creator: Address,
    title: String,
    description: String,
    choices: Seq<String>,
    category: String,
    end_time: u64,
    market_type: u32,
    image_url: String,
)
    ensures
        ({
            let result = create_result(env, creator, title, choices, end_time);
            let next = create_env(
                env,
                creator,
                title,
                description,
                choices,
                category,
                end_time,
                market_type,
                image_url,
            );
            let id = result->Ok_0;
            let market = next.persistent.predictions[id];
            let staff = env.instance.admin is Some && runs_markets(env, creator);
            &&& result is Ok ==> {
                &&& market.market_id == id
                &&& market.creator == creator
                &&& market.title == title
                &&& market.description == description
                &&& market.category == category
                &&& market.choices.len() == choices.len()
                &&& forall|i: int|
                    0 <= i < choices.len() ==> (#[trigger] market.choices[i]).label == choices[i]
                        && market.choices[i].staked_amount == 0
                &&& market.end_time == end_time
                &&& market.is_open
                &&& !market.is_resolved
                &&& market.winning_choice is None
                &&& market.total_pool == 0
                &&& market.market_type == market_type
                &&& market.image_url == image_url
                &&& next.instance == (Instance { prediction_count: Some(id), ..env.instance })
                &&& next.persistent == (PersistentView {
                    predictions: env.persistent.predictions.insert(id, market),
                    market_analytics: env.persistent.market_analytics.insert(
                        id,
                        Seq::<Activity>::empty(),
                    ),
                    ..env.persistent
                })
                &&& next.timestamp == env.timestamp
                &&& next.contract == env.contract
                &&& next.effects == env.effects + seq![
                    Effect::RequireAuth(creator),
                    stores(DataKey::Prediction(id)),
                    stores(DataKey::MarketAnalytics(id)),
                    stores_in_instance(DataKey::PredictionCount),
                    Effect::Publish(
                        Event::MarketCreated(
                            MarketCreated { market_id: id, creator, title, end_time, market_type },
                        ),
                    ),
                ]
            }
            &&& result is Err ==> only_asks(
                env,
                next,
                if on(env.instance.is_paused) || on(env.instance.market_creation_paused) || !staff {
                    Seq::empty()
                } else {
                    seq![Effect::RequireAuth(creator)]
                },
            )
        }),
{
}

/// The admin and the moderators open and close markets on record, resolved or
/// not, at any time. Nothing but the one flag changes.
pub proof fn law_toggle_terms(env: EnvView, who: Address, id: u32)
    ensures
        ({
            let result = toggle_result(env, who, id);
            let next = toggle_env(env, who, id);
            let staff = env.instance.admin is Some && runs_markets(env, who);
            let found = env.persistent.predictions.contains_key(id);
            let market = env.persistent.predictions[id];
            &&& env.instance.admin is None ==> result == Err::<(), HubError>(
                HubError::NotInitialized,
            )
            &&& env.instance.admin is Some && !staff ==> result == Err::<(), HubError>(
                HubError::OnlyModeratorOrAdmin,
            )
            &&& staff && !found ==> result == Err::<(), HubError>(HubError::MarketNotFound)
            &&& staff && found ==> result is Ok
            &&& !staff ==> next == env
            &&& staff && !found ==> only_asks(env, next, seq![Effect::RequireAuth(who)])
            &&& staff && found ==> {
                &&& next.instance == env.instance
                &&& next.persistent == (PersistentView {
                    predictions: env.persistent.predictions.insert(
                        id,
                        MarketView { is_open: !market.is_open, ..market },
                    ),
                    ..env.persistent
                })
                &&& next.timestamp == env.timestamp
                &&& next.contract == env.contract
                &&& next.effects == env.effects + seq![
                    Effect::RequireAuth(who),
                    stores(DataKey::Prediction(id)),
                    Effect::Publish(
                        Event::MarketToggled(
                            MarketToggled { market_id: id, is_open: !market.is_open },
                        ),
                    ),
                ]
            }
        }),
{
}

// ------------------------------------------------------------
//  Stakes
// ------------------------------------------------------------
/// Whether the four sums that a stake adds to have room for it.
pub open spec fn has_room(env: EnvView, id: u32, choice: u32, amount: i128) -> bool {
    let market = env.persistent.predictions[id];
    let locked = value_or(env.instance.total_value_locked, 0);
    &&& market.choices[choice as int].staked_amount + amount <= i128::MAX
    &&& market.total_pool + amount <= i128::MAX
    &&& entry_or(env.persistent.market_liquidity, id, 0) + amount <= i128::MAX
    &&& locked + amount <= i128::MAX
}

/// A stake is accepted exactly when betting is on, the amount is positive and
/// within the limits, the market is on record, open, not resolved and not past
/// its end, it has the choice, there is a token, and the four sums have room.
/// Each refusal has its own reason, in this order.
pub proof fn law_stake_is_accepted_on_these_terms(
    env: EnvView,
    id: u32,
    choice: u32,
    amount: i128,
)
    ensures
        ({
            let result = buy_shares_result(env, id, choice, amount);
            let market = env.persistent.predictions[id];
            let min_bet = value_or(env.instance.min_bet_amount, 0);
            let max_bet = value_or(env.instance.max_bet_amount, i128::MAX);
            let betting = !on(env.instance.is_paused) && !on(env.instance.betting_paused);
            let above = min_bet <= 0 || min_bet <= amount;
            let below = max_bet <= 0 || amount <= max_bet;
            let good = betting && amount > 0 && above && below;
            let found = good && env.persistent.predictions.contains_key(id);
            let open = found && market.is_open && !market.is_resolved;
            let timely = open && env.timestamp < market.end_time;
            let aimed = timely && choice < market.choices.len();
            let payable = aimed && env.instance.protocol_token is Some;
            &&& on(env.instance.is_paused) ==> result == Err::<(), HubError>(
                HubError::ContractPaused,
            )
            &&& !on(env.instance.is_paused) && on(env.instance.betting_paused) ==> result == Err::<
                (),
                HubError,
            >(HubError::BettingPaused)
            &&& betting && amount <= 0 ==> result == Err::<(), HubError>(
                HubError::AmountNotPositive,
            )
            &&& betting && amount > 0 && !above ==> result == Err::<(), HubError>(
                HubError::AmountBelowMinimum,
            )
            &&& betting && amount > 0 && above && !below ==> result == Err::<(), HubError>(
                HubError::AmountAboveMaximum,
            )
            &&& good && !found ==> result == Err::<(), HubError>(HubError::MarketNotFound)
            &&& found && !market.is_open ==> result == Err::<(), HubError>(HubError::MarketClosed)
            &&& found && market.is_open && market.is_resolved ==> result == Err::<(), HubError>(
                HubError::MarketResolved,
            )
            &&& open && !timely ==> result == Err::<(), HubError>(HubError::MarketEnded)
            &&& timely && !aimed ==> result == Err::<(), HubError>(HubError::InvalidChoice)
            &&& aimed && !payable ==> result == Err::<(), HubError>(HubError::NotInitialized)
            &&& payable && !has_room(env, id, choice, amount) ==> result == Err::<(), HubError>(
                HubError::Overflow,
            )
            &&& payable && has_room(env, id, choice, amount) ==> result is Ok
            &&& result is Ok ==> payable
        }),
{
}

/// An accepted stake adds its amount to the choice, the pool, the liquidity and
/// the value locked, its bet to the user's bets, its entry to the trail, and the
/// market to the user's list where it is the first. The tokens are pulled from
/// the user into the contract. Nothing else changes.
pub proof fn law_stake_changes_these(
    env: EnvView,
    user: Address,
    id: u32,
    choice: u32,
    amount: i128,
)
    requires
        buy_shares_result(env, id, choice, amount) is Ok,
    ensures
        ({
            let next = buy_shares_env(env, user, id, choice, amount);
            let key = UserMarketKey { user, market_id: id };
            let market = env.persistent.predictions[id];
            let later = next.persistent.predictions[id];
            let bets = bets_of(env, user, id);
            let locked = value_or(env.instance.total_value_locked, 0);
            let liquidity = entry_or(env.persistent.market_liquidity, id, 0);
            let bet = UserBet {
                market_id: id,
                choice,
                choice_label: market.choices[choice as int].label,
                amount,
                claimed: false,
            };
            let entry = Activity { user, choice, amount, timestamp: env.timestamp };
            let pull = Effect::TransferFrom {
                token: env.instance.protocol_token->Some_0,
                spender: env.contract,
                from: user,
                to: env.contract,
                amount,
            };
            let placed = Event::BetPlaced(BetPlaced { market_id: id, user, choice, amount });
            // The market.
            &&& later.total_pool == market.total_pool + amount
            &&& later.choices.len() == market.choices.len()
            &&& forall|c: int|
                0 <= c < market.choices.len() ==> (#[trigger] later.choices[c]).label
                    == market.choices[c].label && later.choices[c].staked_amount
                    == market.choices[c].staked_amount + if c == choice {
                    amount as int
                } else {
                    0
                }
            &&& later == (MarketView {
                total_pool: later.total_pool,
                choices: later.choices,
                ..market
            })
            // The other entries.
            &&& next.instance.total_value_locked is Some
            &&& next.instance.total_value_locked->Some_0 == locked + amount
            &&& next.instance == (Instance {
                total_value_locked: next.instance.total_value_locked,
                ..env.instance
            })
            &&& next.persistent.market_liquidity.contains_key(id)
            &&& next.persistent.market_liquidity[id] == liquidity + amount
            &&& next.persistent == (PersistentView {
                predictions: env.persistent.predictions.insert(id, later),
                user_bets: env.persistent.user_bets.insert(key, bets.push(bet)),
                user_market_ids: if bets.len() == 0 {
                    env.persistent.user_market_ids.insert(
                        user,
                        market_ids_of(env, user).push(id),
                    )
                } else {
                    env.persistent.user_market_ids
                },
                market_analytics: env.persistent.market_analytics.insert(
                    id,
                    activity_of(env, id).push(entry),
                ),
                market_liquidity: env.persistent.market_liquidity.insert(
                    id,
                    next.persistent.market_liquidity[id],
                ),
                ..env.persistent
            })
            &&& next.timestamp == env.timestamp
            &&& next.contract == env.contract
            // The requests.
            &&& bets.len() == 0 ==> next.effects == env.effects + seq![
                Effect::RequireAuth(user),
                pull,
                stores(DataKey::UserBets(key)),
                stores(DataKey::UserMarketIds(user)),
                stores(DataKey::MarketAnalytics(id)),
                stores(DataKey::MarketLiquidity(id)),
                stores_in_instance(DataKey::TotalValueLocked),
                stores(DataKey::Prediction(id)),
                Effect::Publish(placed),
            ]
            &&& bets.len() > 0 ==> next.effects == env.effects + seq![
                Effect::RequireAuth(user),
                pull,
                stores(DataKey::UserBets(key)),
                stores(DataKey::MarketAnalytics(id)),
                stores(DataKey::MarketLiquidity(id)),
                stores_in_instance(DataKey::TotalValueLocked),
                stores(DataKey::Prediction(id)),
                Effect::Publish(placed),
            ]
        }),
{
}

/// A refused stake changes no entry. It asks for the authorisation where all but
/// the token and the sums were in order, and for the tokens where only the sums
/// were not.
pub proof fn law_refused_stake_changes_nothing(
    env: EnvView,
    user: Address,
    id: u32,
    choice: u32,
    amount: i128,
)
    ensures
        ({
            let result = buy_shares_result(env, id, choice, amount);
            let next = buy_shares_env(env, user, id, choice, amount);
            &&& result is Err ==> next.instance == env.instance && next.persistent == env.persistent
                && next.timestamp == env.timestamp && next.contract == env.contract
            &&& result == Err::<(), HubError>(HubError::Overflow) ==> next.effects == env.effects
                + seq![
                Effect::RequireAuth(user),
                Effect::TransferFrom {
                    token: env.instance.protocol_token->Some_0,
                    spender: env.contract,
                    from: user,
                    to: env.contract,
                    amount,
                },
            ]
            &&& result == Err::<(), HubError>(HubError::NotInitialized) ==> next.effects
                == env.effects + seq![Effect::RequireAuth(user)]
            &&& result is Err && result != Err::<(), HubError>(HubError::Overflow) && result
                != Err::<(), HubError>(HubError::NotInitialized) ==> next.effects == env.effects
        }),
{
}

// ------------------------------------------------------------
//  Resolution
// ------------------------------------------------------------
/// A market is resolved exactly when resolution is not paused, the resolver is
/// the admin or a moderator, the market is on record and not resolved, it has
/// the choice, the fee can be computed, and there is a way to pay it where there
/// is one. The clock has no part in it. Each refusal has its own reason, in this
/// order.
pub proof fn law_resolution_is_accepted_on_these_terms(
    env: EnvView,
    resolver: Address,
    id: u32,
    winning_choice: u32,
)
    ensures
        ({
            let result = resolve_result(env, resolver, id, winning_choice);
            let market = env.persistent.predictions[id];
            let winners = market.choices[winning_choice as int].staked_amount;
            let rate = value_or(env.instance.platform_fee, 0);
            let open = !on(env.instance.is_paused) && !on(env.instance.resolution_paused);
            let allowed = open && env.instance.admin is Some && runs_markets(env, resolver);
            let found = allowed && env.persistent.predictions.contains_key(id);
            let waiting = found && !market.is_resolved;
            let aimed = waiting && winning_choice < market.choices.len();
            let charged = winners > 0 && rate > 0 && market.total_pool > 0;
            let computed = aimed && (charged ==> market.total_pool * rate <= i128::MAX);
            let due = charged && market.total_pool * rate >= 10_000;
            let payable = env.instance.fee_recipient is Some && env.instance.protocol_token is Some;
            &&& on(env.instance.is_paused) ==> result == Err::<(), HubError>(
                HubError::ContractPaused,
            )
            &&& !on(env.instance.is_paused) && on(env.instance.resolution_paused) ==> result
                == Err::<(), HubError>(HubError::ResolutionPaused)
            &&& open && env.instance.admin is None ==> result == Err::<(), HubError>(
                HubError::NotInitialized,
            )
            &&& open && env.instance.admin is Some && !allowed ==> result == Err::<(), HubError>(
                HubError::OnlyModeratorOrAdmin,
            )
            &&& allowed && !found ==> result == Err::<(), HubError>(HubError::MarketNotFound)
            &&& found && !waiting ==> result == Err::<(), HubError>(HubError::MarketAlreadyResolved)
            &&& waiting && !aimed ==> result == Err::<(), HubError>(HubError::InvalidChoice)
            &&& aimed && !computed ==> result == Err::<(), HubError>(HubError::Overflow)
            &&& computed && due && !payable ==> result == Err::<(), HubError>(
                HubError::NotInitialized,
            )
            &&& computed && (due ==> payable) ==> result is Ok
            &&& result is Ok ==> computed
        }),
{
    let market = env.persistent.predictions[id];
    let rate = value_or(env.instance.platform_fee, 0);
    if market.total_pool > 0 && rate > 0 {
        let product = market.total_pool * rate;
        assert(product > 0) by (nonlinear_arith)
            requires
                product == market.total_pool * rate,
                market.total_pool > 0,
                rate > 0,
        ;
        assert(product / 10_000 > 0 <==> product >= 10_000);
    }
}

/// A resolved market is closed and has the declared winner. Its payout pool is
/// its pool less the fee, which goes to the fee recipient; its liquidity is
/// nothing and its pool is no longer locked. Nothing else changes.
pub proof fn law_resolution_changes_these(
    env: EnvView,
    resolver: Address,
    id: u32,
    winning_choice: u32,
)
    requires
        resolve_result(env, resolver, id, winning_choice) is Ok,
    ensures
        ({
            let next = resolve_env(env, resolver, id, winning_choice);
            let market = env.persistent.predictions[id];
            let pool = next.persistent.payout_pool[id];
            let winners = market.choices[winning_choice as int].staked_amount;
            let rate = value_or(env.instance.platform_fee, 0);
            let fee = market.total_pool - pool;
            let locked = value_or(env.instance.total_value_locked, 0);
            let freed = next.instance.total_value_locked;
            let announced = Event::MarketResolved(
                MarketResolved { market_id: id, resolver, winning_choice, payout_pool: pool },
            );
            // The fee.
            &&& winners <= 0 || rate <= 0 || market.total_pool <= 0 ==> fee == 0
            &&& winners > 0 && 0 < rate <= 10_000 && market.total_pool > 0 ==> fee * 10_000
                <= market.total_pool * rate < (fee + 1) * 10_000
            &&& winners > 0 && rate > 10_000 && market.total_pool > 0 ==> fee == market.total_pool
            // The entries.
            &&& freed is Some
            &&& i128::MIN <= locked - market.total_pool <= i128::MAX ==> freed->Some_0 == locked
                - market.total_pool
            &&& locked - market.total_pool < i128::MIN ==> freed->Some_0 == i128::MIN
            &&& locked - market.total_pool > i128::MAX ==> freed->Some_0 == i128::MAX
            &&& next.instance == (Instance { total_value_locked: freed, ..env.instance })
            &&& next.persistent == (PersistentView {
                predictions: env.persistent.predictions.insert(
                    id,
                    MarketView {
                        is_resolved: true,
                        is_open: false,
                        winning_choice: Some(winning_choice),
                        ..market
                    },
                ),
                payout_pool: env.persistent.payout_pool.insert(id, pool),
                market_liquidity: env.persistent.market_liquidity.insert(id, 0),
                ..env.persistent
            })
            &&& next.timestamp == env.timestamp
            &&& next.contract == env.contract
            // The requests.
            &&& fee > 0 ==> next.effects == env.effects + seq![
                Effect::RequireAuth(resolver),
                stores(DataKey::Prediction(id)),
                stores(DataKey::PayoutPool(id)),
                stores(DataKey::MarketLiquidity(id)),
                stores_in_instance(DataKey::TotalValueLocked),
                Effect::Transfer {
                    token: env.instance.protocol_token->Some_0,
                    from: env.contract,
                    to: env.instance.fee_recipient->Some_0,
                    amount: fee as i128,
                },
                Effect::Publish(announced),
            ]
            &&& fee == 0 ==> next.effects == env.effects + seq![
                Effect::RequireAuth(resolver),
                stores(DataKey::Prediction(id)),
                stores(DataKey::PayoutPool(id)),
                stores(DataKey::MarketLiquidity(id)),
                stores_in_instance(DataKey::TotalValueLocked),
                Effect::Publish(announced),
            ]
            &&& fee >= 0
        }),
{
    let market = env.persistent.predictions[id];
    let winners = market.choices[winning_choice as int].staked_amount as int;
    let rate = value_or(env.instance.platform_fee, 0) as int;
    law_fee_is_quotient(market.total_pool as int, winners, rate);
}

/// A refused resolution changes no entry. It asks for the authorisation once the
/// resolver is known to be entitled.
pub proof fn law_refused_resolution_changes_nothing(
    env: EnvView,
    resolver: Address,
    id: u32,
    winning_choice: u32,
)
    requires
        resolve_result(env, resolver, id, winning_choice) is Err,
    ensures
        only_asks(
            env,
            resolve_env(env, resolver, id, winning_choice),
            if on(env.instance.is_paused) || on(env.instance.resolution_paused)
                || env.instance.admin is None || !runs_markets(env, resolver) {
                Seq::empty()
            } else {
                seq![Effect::RequireAuth(resolver)]
            },
        ),
{
}

// ------------------------------------------------------------
//  Administration
// ------------------------------------------------------------
/// Adding a moderator: the admin may, as long as the count has room. The address
/// moderates afterwards, and is counted if it did not before.
pub proof fn law_add_moderator_terms(env: EnvView, admin: Address, moderator: Address)
    ensures
        ({
            let result = add_moderator_result(env, admin, moderator);
            let next = add_moderator_env(env, admin, moderator);
            let entitled = env.instance.admin == Some(admin);
            let before = env.persistent.moderators.contains_key(moderator)
                && env.persistent.moderators[moderator];
            let count = value_or(env.instance.moderator_count, 0);
            let added = Effect::Publish(
                Event::ModeratorUpdated(ModeratorUpdated { moderator, enabled: true }),
            );
            &&& env.instance.admin is None ==> result == Err::<(), HubError>(
                HubError::NotInitialized,
            )
            &&& env.instance.admin is Some && !entitled ==> result == Err::<(), HubError>(
                HubError::OnlyAdmin,
            )
            &&& entitled && !before && count == u32::MAX ==> result == Err::<(), HubError>(
                HubError::Overflow,
            )
            &&& entitled && (before || count < u32::MAX) ==> result is Ok
            &&& !entitled ==> next == env
            &&& entitled && result is Err ==> only_asks(env, next, seq![Effect::RequireAuth(admin)])
            &&& result is Ok ==> {
                &&& next.instance == (Instance {
                    moderator_count: if before {
                        env.instance.moderator_count
                    } else {
                        Some((count + 1) as u32)
                    },
                    ..env.instance
                })
                &&& next.persistent == (PersistentView {
                    moderators: env.persistent.moderators.insert(moderator, true),
                    ..env.persistent
                })
                &&& next.timestamp == env.timestamp
                &&& next.contract == env.contract
                &&& before ==> next.effects == env.effects + seq![
                    Effect::RequireAuth(admin),
                    stores(DataKey::Moderator(moderator)),
                    added,
                ]
                &&& !before ==> next.effects == env.effects + seq![
                    Effect::RequireAuth(admin),
                    stores_in_instance(DataKey::ModeratorCount),
                    stores(DataKey::Moderator(moderator)),
                    added,
                ]
            }
        }),
{
}

/// Removing a moderator: the admin may. The address is off the record
/// afterwards, and one less is counted if it was a moderator.
pub proof fn law_remove_moderator_terms(env: EnvView, admin: Address, moderator: Address)
    ensures
        ({
            let next = remove_moderator_env(env, admin, moderator);
            let entitled = env.instance.admin == Some(admin);
            let before = env.persistent.moderators.contains_key(moderator)
                && env.persistent.moderators[moderator];
            let count = value_or(env.instance.moderator_count, 0);
            let removed = Effect::Publish(
                Event::ModeratorUpdated(ModeratorUpdated { moderator, enabled: false }),
            );
            &&& !entitled ==> next == env
            &&& entitled && !before ==> only_asks(
                env,
                next,
                seq![Effect::RequireAuth(admin), removed],
            )
            &&& entitled && before ==> {
                &&& next.instance == (Instance {
                    moderator_count: if count == 0 {
                        Some(0)
                    } else {
                        Some((count - 1) as u32)
                    },
                    ..env.instance
                })
                &&& next.persistent == (PersistentView {
                    moderators: env.persistent.moderators.remove(moderator),
                    ..env.persistent
                })
                &&& next.timestamp == env.timestamp
                &&& next.contract == env.contract
                &&& next.effects == env.effects + seq![
                    Effect::RequireAuth(admin),
                    stores_in_instance(DataKey::ModeratorCount),
                    Effect::RemovePersistent { key: DataKey::Moderator(moderator) },
                    removed,
                ]
            }
        }),
{
}

/// Whether a call of the admin that changes settings alone did so.
pub open spec fn admin_sets(
    env: EnvView,
    next: EnvView,
    admin: Address,
    instance: Instance,
    requests: Seq<Effect>,
) -> bool {
    &&& env.instance.admin != Some(admin) ==> next == env
    &&& env.instance.admin == Some(admin) ==> {
        &&& next.instance == instance
        &&& next.persistent == env.persistent
        &&& next.timestamp == env.timestamp
        &&& next.contract == env.contract
        &&& next.effects == env.effects + (seq![Effect::RequireAuth(admin)] + requests)
    }
}

/// Setting the fee: the admin may, to less than the whole.
pub proof fn law_set_platform_fee_terms(env: EnvView, admin: Address, platform_fee: i128)
    ensures
        ({
            let result = set_platform_fee_result(env, admin, platform_fee);
            let next = set_platform_fee_env(env, admin, platform_fee);
            let entitled = env.instance.admin == Some(admin);
            let good = 0 <= platform_fee < 10_000;
            &&& env.instance.admin is None ==> result == Err::<(), HubError>(
                HubError::NotInitialized,
            )
            &&& env.instance.admin is Some && !entitled ==> result == Err::<(), HubError>(
                HubError::OnlyAdmin,
            )
            &&& entitled && !good ==> result == Err::<(), HubError>(HubError::InvalidFee)
            &&& entitled && good ==> result is Ok
            &&& !good ==> admin_sets(env, next, admin, env.instance, Seq::empty())
            &&& good ==> admin_sets(
                env,
                next,
                admin,
                Instance { platform_fee: Some(platform_fee), ..env.instance },
                seq![
                    stores_in_instance(DataKey::PlatformFee),
                    Effect::Publish(Event::PlatformFeeUpdated(PlatformFeeUpdated { platform_fee })),
                ],
            )
        }),
{
}

/// Setting the limits on stakes: the admin may, in order and not negative.
pub proof fn law_set_betting_limits_terms(
    env: EnvView,
    admin: Address,
    min_bet: i128,
    max_bet: i128,
)
    ensures
        ({
            let result = set_betting_limits_result(env, admin, min_bet, max_bet);
            let next = set_betting_limits_env(env, admin, min_bet, max_bet);
            let entitled = env.instance.admin == Some(admin);
            let good = 0 <= min_bet <= max_bet;
            &&& env.instance.admin is None ==> result == Err::<(), HubError>(
                HubError::NotInitialized,
            )
            &&& env.instance.admin is Some && !entitled ==> result == Err::<(), HubError>(
                HubError::OnlyAdmin,
            )
            &&& entitled && min_bet < 0 ==> result == Err::<(), HubError>(HubError::InvalidMinBet)
            &&& entitled && min_bet >= 0 && max_bet < min_bet ==> result == Err::<(), HubError>(
                HubError::InvalidMaxBet,
            )
            &&& entitled && good ==> result is Ok
            &&& !good ==> admin_sets(env, next, admin, env.instance, Seq::empty())
            &&& good ==> admin_sets(
                env,
                next,
                admin,
                Instance {
                    min_bet_amount: Some(min_bet),
                    max_bet_amount: Some(max_bet),
                    ..env.instance
                },
                seq![
                    stores_in_instance(DataKey::MinBetAmount),
                    stores_in_instance(DataKey::MaxBetAmount),
                ],
            )
        }),
{
}

/// The calls by which the admin sets one thing or replaces the code.
pub proof fn law_settings_terms(
    env: EnvView,
    admin: Address,
    recipient: Address,
    flag: bool,
    new_wasm_hash: [u8; 32],
)
    ensures
        admin_sets(
            env,
            set_fee_recipient_env(env, admin, recipient),
            admin,
            Instance { fee_recipient: Some(recipient), ..env.instance },
            seq![
                stores_in_instance(DataKey::FeeRecipient),
                Effect::Publish(Event::FeeRecipientUpdated(FeeRecipientUpdated { recipient })),
            ],
        ),
        admin_sets(
            env,
            emergency_env(env, admin, flag),
            admin,
            Instance { is_paused: Some(flag), ..env.instance },
            seq![
                stores_in_instance(DataKey::IsPaused),
                Effect::Publish(Event::EmergencyPaused(EmergencyPaused { paused: flag })),
            ],
        ),
        admin_sets(
            env,
            pause_market_creation_env(env, admin, flag),
            admin,
            Instance { market_creation_paused: Some(flag), ..env.instance },
            seq![stores_in_instance(DataKey::MarketCreationPaused)],
        ),
        admin_sets(
            env,
            pause_betting_env(env, admin, flag),
            admin,
            Instance { betting_paused: Some(flag), ..env.instance },
            seq![stores_in_instance(DataKey::BettingPaused)],
        ),
        admin_sets(
            env,
            pause_resolution_env(env, admin, flag),
            admin,
            Instance { resolution_paused: Some(flag), ..env.instance },
            seq![stores_in_instance(DataKey::ResolutionPaused)],
        ),
        admin_sets(
            env,
            upgrade_env(env, admin, new_wasm_hash),
            admin,
            env.instance,
            seq![Effect::UpdateWasm { new_wasm_hash }],
        ),
{
}

/// Removing all markets: the admin may. Gone are exactly the entries about the
/// markets counted, the bets that their trails tell of, and the lists of the
/// users named there. Both counters are zero, and the rest is as it was.
pub proof fn law_removal_terms(env: EnvView, admin: Address, id: u32, user: Address)
    ensures
        ({
            let next = remove_all_env(env, admin);
            let count = value_or(env.instance.prediction_count, 0);
            let counted = 1 <= id <= count;
            let key = UserMarketKey { user, market_id: id };
            let bet = counted && exists|i: int|
                0 <= i < activity_of(env, id).len() && (#[trigger] activity_of(env, id)[i]).user
                    == user;
            let named = exists|other: u32, i: int|
                #![trigger activity_of(env, other)[i]]
                1 <= other <= count && 0 <= i < activity_of(env, other).len() && activity_of(
                    env,
                    other,
                )[i].user == user;
            let before = env.persistent;
            let now = next.persistent;
            &&& env.instance.admin != Some(admin) ==> next == env
            &&& env.instance.admin == Some(admin) ==> {
                &&& next.instance == (Instance {
                    prediction_count: Some(0),
                    total_value_locked: Some(0),
                    ..env.instance
                })
                &&& next.timestamp == env.timestamp
                &&& next.contract == env.contract
                &&& now.moderators == before.moderators
                &&& now.predictions.contains_key(id) <==> before.predictions.contains_key(id)
                    && !counted
                &&& now.predictions.contains_key(id) ==> now.predictions[id]
                    == before.predictions[id]
                &&& now.market_analytics.contains_key(id)
                    <==> before.market_analytics.contains_key(id) && !counted
                &&& now.market_analytics.contains_key(id) ==> now.market_analytics[id]
                    == before.market_analytics[id]
                &&& now.market_liquidity.contains_key(id)
                    <==> before.market_liquidity.contains_key(id) && !counted
                &&& now.market_liquidity.contains_key(id) ==> now.market_liquidity[id]
                    == before.market_liquidity[id]
                &&& now.payout_pool.contains_key(id) <==> before.payout_pool.contains_key(id)
                    && !counted
                &&& now.payout_pool.contains_key(id) ==> now.payout_pool[id]
                    == before.payout_pool[id]
                &&& now.user_bets.contains_key(key) <==> before.user_bets.contains_key(key) && !bet
                &&& now.user_bets.contains_key(key) ==> now.user_bets[key] == before.user_bets[key]
                &&& now.user_market_ids.contains_key(user)
                    <==> before.user_market_ids.contains_key(user) && !named
                &&& now.user_market_ids.contains_key(user) ==> now.user_market_ids[user]
                    == before.user_market_ids[user]
            }
        }),
{
    let count = value_or(env.instance.prediction_count, 0);
    assert forall|other: u32| #[trigger] trail_of(env.persistent, other) == activity_of(
        env,
        other,
    ) by {}
    if users_in_trails(env.persistent, count).contains(user) {
        let other = choose|other: u32|
            1 <= other <= count && #[trigger] names(trail_of(env.persistent, other), user);
        let i = choose|i: int|
            0 <= i < trail_of(env.persistent, other).len() && (#[trigger] trail_of(
                env.persistent,
                other,
            )[i]).user == user;
        assert(activity_of(env, other)[i].user == user);
    }
    if exists|other: u32, i: int|
        #![trigger activity_of(env, other)[i]]
        1 <= other <= count && 0 <= i < activity_of(env, other).len() && activity_of(
            env,
            other,
        )[i].user == user {
        let (other, i) = choose|other: u32, i: int|
            #![trigger activity_of(env, other)[i]]
            1 <= other <= count && 0 <= i < activity_of(env, other).len() && activity_of(
                env,
                other,
            )[i].user == user;
        assert(trail_of(env.persistent, other)[i].user == user);
        assert(names(trail_of(env.persistent, other), user));
    }
    if exists|i: int|
        0 <= i < activity_of(env, id).len() && (#[trigger] activity_of(env, id)[i]).user == user {
        let i = choose|i: int|
            0 <= i < activity_of(env, id).len() && (#[trigger] activity_of(env, id)[i]).user
                == user;
        assert(trail_of(env.persistent, id)[i].user == user);
    }
    if names(trail_of(env.persistent, id), user) {
        let i = choose|i: int|
            0 <= i < trail_of(env.persistent, id).len() && (#[trigger] trail_of(
                env.persistent,
                id,
            )[i]).user == user;
        assert(activity_of(env, id)[i].user == user);
    }
}

} // verus!
