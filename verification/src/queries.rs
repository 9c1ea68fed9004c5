//! Reading the state of the protocol.

use vstd::prelude::*;

use crate::access::{entry_or, is_moderator, moderates, protocol_token, token_check, value_or};
use crate::betting::{activity_of, bets_of, market_ids_of};
use crate::env::{Env, EnvView};
use crate::error::HubError;
use crate::hub::PredictionHub;
use crate::money::{checked_sum, fits};
use crate::settlement::{
    bet_worth, bet_worth_fits, compute_worth, verdict_in_range, verdict_of, Verdict,
};
use crate::types::{Activity, Address, Market, MarketView, UserBet, UserMarketKey};

verus! {

// ------------------------------------------------------------
//  Lists of markets
// ------------------------------------------------------------
/// A condition on markets.
pub type MarketTest = spec_fn(MarketView) -> bool;

/// Every market.
pub open spec fn any_market() -> MarketTest {
    |market: MarketView| true
}

/// The markets of one type.
pub open spec fn of_type(market_type: u32) -> MarketTest {
    |market: MarketView| market.market_type == market_type
}

/// The markets that take stakes at `now`.
pub open spec fn open_at(now: u64) -> MarketTest {
    |market: MarketView| market.is_open && !market.is_resolved && market.end_time > now
}

/// The markets whose betting window has closed by `now`, but which are not
/// resolved.
pub open spec fn locked_at(now: u64) -> MarketTest {
    |market: MarketView| !market.is_resolved && market.end_time <= now
}

/// The resolved markets.
pub open spec fn resolved() -> MarketTest {
    |market: MarketView| market.is_resolved
}

/// The number of markets created.
pub open spec fn prediction_count(env: EnvView) -> u32 {
    value_or(env.instance.prediction_count, 0)
}

/// The ids given out so far, in order: `1`, `2`, ..., `count`.
pub open spec fn ids_up_to(count: u32) -> Seq<u32> {
    Seq::new(count as nat, |i: int| (i + 1) as u32)
}

/// The markets on record under `ids` that pass the test, in the order of the ids.
pub open spec fn markets_among(env: EnvView, ids: Seq<u32>, test: MarketTest) -> Seq<MarketView> {
    ids.filter(
        |id: u32|
            env.persistent.predictions.contains_key(id) && test(env.persistent.predictions[id]),
    ).map_values(|id: u32| env.persistent.predictions[id])
}

/// The markets on record that pass the test, in the order of their ids.
pub open spec fn all_markets(env: EnvView, test: MarketTest) -> Seq<MarketView> {
    markets_among(env, ids_up_to(prediction_count(env)), test)
}

/// The markets a user has bet on that pass the test, in the order of the first bet.
pub open spec fn user_markets(env: EnvView, user: Address, test: MarketTest) -> Seq<MarketView> {
    markets_among(env, market_ids_of(env, user), test)
}

/// The values of a list of markets.
pub open spec fn values(markets: Seq<Market>) -> Seq<MarketView> {
    markets.map_values(|market: Market| market@)
}

/// One more id adds at most the market under that id.
pub proof fn lemma_markets_among_push(env: EnvView, ids: Seq<u32>, id: u32, test: MarketTest)
    ensures
        markets_among(env, ids.push(id), test) == if env.persistent.predictions.contains_key(id)
            && test(env.persistent.predictions[id]) {
            markets_among(env, ids, test).push(env.persistent.predictions[id])
        } else {
            markets_among(env, ids, test)
        },
{
    reveal(Seq::filter);
    assert(ids.push(id).drop_last() =~= ids);
    let on_record = |id: u32|
        env.persistent.predictions.contains_key(id) && test(env.persistent.predictions[id]);
    assert(ids.push(id).filter(on_record) =~= if on_record(id) {
        ids.filter(on_record).push(id)
    } else {
        ids.filter(on_record)
    });
    if on_record(id) {
        assert(markets_among(env, ids.push(id), test) =~= markets_among(env, ids, test).push(
            env.persistent.predictions[id],
        ));
    }
}

/// Adds the market under `id` to `out`, if it is on record and passes.
fn push_if_matching(
    env: &Env,
    id: u32,
    predicate: &impl Fn(&Market) -> bool,
    out: &mut Vec<Market>,
    Ghost(test): Ghost<MarketTest>,
    Ghost(ids): Ghost<Seq<u32>>,
)
    requires
        forall|market: &Market| call_requires(*predicate, (market,)),
        forall|market: &Market, passes: bool|
            call_ensures(*predicate, (market,), passes) ==> passes == test(market@),
        values(old(out)@) == markets_among(env@, ids, test),
    ensures
        values(final(out)@) == markets_among(env@, ids.push(id), test),
{
    proof {
        lemma_markets_among_push(env@, ids, id, test);
    }
    if let Some(market) = env.persistent.predictions.get(id) {
        if predicate(market) {
            out.push(market.clone());
            assert(values(out@) =~= values(old(out)@).push(market@));
        }
    }
}

// ------------------------------------------------------------
//  Claimable amounts
// ------------------------------------------------------------
/// `total` and what a bet can still bring.
pub open spec fn with_bet(total: int, bet: UserBet, verdict: Verdict) -> Result<int, HubError> {
    if bet.claimed {
        Ok(total)
    } else if bet_worth_fits(bet, verdict) && fits(total + bet_worth(bet, verdict)) {
        Ok(total + bet_worth(bet, verdict))
    } else {
        Err(HubError::Overflow)
    }
}

/// `total` and what a list of bets can still bring.
pub open spec fn with_bets(total: int, bets: Seq<UserBet>, verdict: Verdict) -> Result<int, HubError>
    decreases bets.len(),
{
    if bets.len() == 0 {
        Ok(total)
    } else {
        match with_bets(total, bets.drop_last(), verdict) {
            Ok(so_far) => with_bet(so_far, bets.last(), verdict),
            Err(error) => Err(error),
        }
    }
}

/// `total` and what a user can still claim from one market: something only
/// where the market is resolved.
pub open spec fn with_market(env: EnvView, user: Address, total: int, market_id: u32) -> Result<
    int,
    HubError,
> {
    let market = env.persistent.predictions[market_id];
    if !env.persistent.predictions.contains_key(market_id) || !market.is_resolved
        || market.winning_choice is None {
        Ok(total)
    } else if !verdict_in_range(env, market_id) {
        Err(HubError::ChoiceOutOfRange)
    } else {
        with_bets(total, bets_of(env, user, market_id), verdict_of(env, market_id))
    }
}

/// What a user can still claim from the markets `ids`.
pub open spec fn claimable_from(env: EnvView, user: Address, ids: Seq<u32>) -> Result<int, HubError>
    decreases ids.len(),
{
    if ids.len() == 0 {
        Ok(0)
    } else {
        match claimable_from(env, user, ids.drop_last()) {
            Ok(so_far) => with_market(env, user, so_far, ids.last()),
            Err(error) => Err(error),
        }
    }
}

/// What a user can still claim from every market they have bet on.
pub open spec fn claimable(env: EnvView, user: Address) -> Result<int, HubError> {
    claimable_from(env, user, market_ids_of(env, user))
}

/// Whether a computed amount, or a refusal, is the one asked for.
pub open spec fn same_outcome(result: Result<i128, HubError>, expected: Result<int, HubError>) -> bool {
    match (result, expected) {
        (Ok(amount), Ok(value)) => amount == value,
        (Err(error), Err(reason)) => error == reason,
        _ => false,
    }
}

/// An error in a prefix is an error of the whole.
proof fn lemma_with_bets_err(total: int, bets: Seq<UserBet>, verdict: Verdict, i: int)
    requires
        0 <= i <= bets.len(),
        with_bets(total, bets.take(i), verdict) is Err,
    ensures
        with_bets(total, bets, verdict) == with_bets(total, bets.take(i), verdict),
    decreases bets.len(),
{
    if i == bets.len() {
        assert(bets.take(i) =~= bets);
    } else {
        assert(bets.drop_last().take(i) =~= bets.take(i));
        lemma_with_bets_err(total, bets.drop_last(), verdict, i);
    }
}

/// An error in a prefix is an error of the whole.
proof fn lemma_claimable_from_err(env: EnvView, user: Address, ids: Seq<u32>, i: int)
    requires
        0 <= i <= ids.len(),
        claimable_from(env, user, ids.take(i)) is Err,
    ensures
        claimable_from(env, user, ids) == claimable_from(env, user, ids.take(i)),
    decreases ids.len(),
{
    if i == ids.len() {
        assert(ids.take(i) =~= ids);
    } else {
        assert(ids.drop_last().take(i) =~= ids.take(i));
        lemma_claimable_from_err(env, user, ids.drop_last(), i);
    }
}

/// Adds what `bets` can still bring to `total`.
fn add_bets(total: i128, bets: &Vec<UserBet>, verdict: &Verdict) -> (result: Result<i128, HubError>)
    ensures
        same_outcome(result, with_bets(total as int, bets@, *verdict)),
{
    let mut sum: i128 = total;
    let mut i: usize = 0;
    while i < bets.len()
        invariant
            i <= bets.len(),
            with_bets(total as int, bets@.take(i as int), *verdict) == Ok::<int, HubError>(
                sum as int,
            ),
        decreases bets.len() - i,
    {
        proof {
            assert(bets@.take(i + 1).drop_last() =~= bets@.take(i as int));
            assert(bets@.take(i + 1).last() == bets@[i as int]);
            if with_bets(total as int, bets@.take(i + 1), *verdict) is Err {
                lemma_with_bets_err(total as int, bets@, *verdict, i + 1);
            }
        }
        if !bets[i].claimed {
            let worth: i128 = compute_worth(&bets[i], verdict)?;
            sum = checked_sum(sum, worth)?;
        }
        i = i + 1;
    }
    proof {
        assert(bets@.take(i as int) =~= bets@);
    }
    Ok(sum)
}

/// Adds what `user` can still claim from `market_id` to `total`.
fn add_market(env: &Env, user: Address, total: i128, market_id: u32) -> (result: Result<
    i128,
    HubError,
>)
    ensures
        same_outcome(result, with_market(env@, user, total as int, market_id)),
{
    let market = match env.persistent.predictions.get(market_id) {
        Some(market) => market,
        None => {
            return Ok(total);
        },
    };
    if !market.is_resolved {
        return Ok(total);
    }
    let winning_choice: u32 = match market.winning_choice {
        Some(choice) => choice,
        None => {
            return Ok(total);
        },
    };
    if winning_choice as usize >= market.choices.len() {
        return Err(HubError::ChoiceOutOfRange);
    }
    let winners_total: i128 = market.choices[winning_choice as usize].staked_amount;
    let payout_pool: i128 = PredictionHub::get_payout_pool(env, market_id);
    let verdict = Verdict { winning_choice, winners_total, payout_pool };
    match env.persistent.user_bets.get(UserMarketKey { user, market_id }) {
        Some(bets) => add_bets(total, bets, &verdict),
        None => Ok(total),
    }
}

impl PredictionHub {
    /// The number of markets created.
    pub fn get_prediction_count(env: &Env) -> (count: u32)
        ensures
            count == prediction_count(env@),
    {
        env.instance.prediction_count.unwrap_or(0)
    }

    /// The market under an id.
    pub fn get_prediction(env: &Env, market_id: u32) -> (result: Result<Market, HubError>)
        ensures
            match result {
                Ok(market) => env@.persistent.predictions.contains_key(market_id) && market@
                    == env@.persistent.predictions[market_id],
                Err(error) => !env@.persistent.predictions.contains_key(market_id) && error
                    == HubError::MarketNotFound,
            },
    {
        match env.persistent.predictions.get(market_id) {
            Some(market) => Ok(market.clone()),
            None => Err(HubError::MarketNotFound),
        }
    }

    /// Every market, in the order of creation.
    pub fn get_all_predictions(env: &Env) -> (markets: Vec<Market>)
        ensures
            values(markets@) == all_markets(env@, any_market()),
    {
        Self::markets_matching(
            env,
            |m: &Market| -> (passes: bool)
                ensures
                    passes == (any_market())(m@)
            {
                true
            },
            Ghost(any_market()),
        )
    }

    /// The general markets.
    pub fn get_all_general_predictions(env: &Env) -> (markets: Vec<Market>)
        ensures
            values(markets@) == all_markets(env@, of_type(0)),
    {
        Self::markets_matching(
            env,
            |m: &Market| -> (passes: bool)
                ensures
                    passes == (of_type(0))(m@)
            {
                m.market_type == 0
            },
            Ghost(of_type(0)),
        )
    }

    /// The crypto markets.
    pub fn get_all_crypto_predictions(env: &Env) -> (markets: Vec<Market>)
        ensures
            values(markets@) == all_markets(env@, of_type(1)),
    {
        Self::markets_matching(
            env,
            |m: &Market| -> (passes: bool)
                ensures
                    passes == (of_type(1))(m@)
            {
                m.market_type == 1
            },
            Ghost(of_type(1)),
        )
    }

    /// The sports markets.
    pub fn get_all_sports_predictions(env: &Env) -> (markets: Vec<Market>)
        ensures
            values(markets@) == all_markets(env@, of_type(2)),
    {
        Self::markets_matching(
            env,
            |m: &Market| -> (passes: bool)
                ensures
                    passes == (of_type(2))(m@)
            {
                m.market_type == 2
            },
            Ghost(of_type(2)),
        )
    }

    /// Markets that take stakes now.
    pub fn get_all_open_markets(env: &Env) -> (markets: Vec<Market>)
        ensures
            values(markets@) == all_markets(env@, open_at(env@.timestamp)),
    {
        let now: u64 = env.timestamp;
        Self::markets_matching(
            env,
            |m: &Market| -> (passes: bool)
                ensures
                    passes == (open_at(now))(m@)
            {
                m.is_open && !m.is_resolved && m.end_time > now
            },
            Ghost(open_at(env@.timestamp)),
        )
    }

    /// Markets whose betting window closed but that are not resolved yet.
    pub fn get_all_locked_markets(env: &Env) -> (markets: Vec<Market>)
        ensures
            values(markets@) == all_markets(env@, locked_at(env@.timestamp)),
    {
        let now: u64 = env.timestamp;
        Self::markets_matching(
            env,
            |m: &Market| -> (passes: bool)
                ensures
                    passes == (locked_at(now))(m@)
            {
                !m.is_resolved && m.end_time <= now
            },
            Ghost(locked_at(env@.timestamp)),
        )
    }

    /// The resolved markets.
    pub fn get_all_resolved_markets(env: &Env) -> (markets: Vec<Market>)
        ensures
            values(markets@) == all_markets(env@, resolved()),
    {
        Self::markets_matching(
            env,
            |m: &Market| -> (passes: bool)
                ensures
                    passes == (resolved())(m@)
            {
                m.is_resolved
            },
            Ghost(resolved()),
        )
    }

    /// All markets the user has placed at least one bet on.
    pub fn get_all_bets_for_user(env: &Env, user: Address) -> (markets: Vec<Market>)
        ensures
            values(markets@) == user_markets(env@, user, any_market()),
    {
        Self::user_markets_matching(
            env,
            &user,
            |m: &Market| -> (passes: bool)
                ensures
                    passes == (any_market())(m@)
            {
                true
            },
            Ghost(any_market()),
        )
    }

    /// Alias for [`Self::get_all_bets_for_user`].
    pub fn get_user_predictions(env: &Env, user: Address) -> (markets: Vec<Market>)
        ensures
            values(markets@) == user_markets(env@, user, any_market()),
    {
        Self::get_all_bets_for_user(env, user)
    }

    /// The crypto markets the user has bet on.
    pub fn get_user_crypto_predictions(env: &Env, user: Address) -> (markets: Vec<Market>)
        ensures
            values(markets@) == user_markets(env@, user, of_type(1)),
    {
        Self::user_markets_matching(
            env,
            &user,
            |m: &Market| -> (passes: bool)
                ensures
                    passes == (of_type(1))(m@)
            {
                m.market_type == 1
            },
            Ghost(of_type(1)),
        )
    }

    /// The sports markets the user has bet on.
    pub fn get_user_sports_predictions(env: &Env, user: Address) -> (markets: Vec<Market>)
        ensures
            values(markets@) == user_markets(env@, user, of_type(2)),
    {
        Self::user_markets_matching(
            env,
            &user,
            |m: &Market| -> (passes: bool)
                ensures
                    passes == (of_type(2))(m@)
            {
                m.market_type == 2
            },
            Ghost(of_type(2)),
        )
    }

    /// The general markets the user has bet on.
    pub fn get_user_general_predictions(env: &Env, user: Address) -> (markets: Vec<Market>)
        ensures
            values(markets@) == user_markets(env@, user, of_type(0)),
    {
        Self::user_markets_matching(
            env,
            &user,
            |m: &Market| -> (passes: bool)
                ensures
                    passes == (of_type(0))(m@)
            {
                m.market_type == 0
            },
            Ghost(of_type(0)),
        )
    }

    /// Total amount the user can still claim across every resolved market.
    pub fn get_user_claimable_amount(env: &Env, user: Address) -> (result: Result<i128, HubError>)
        ensures
            same_outcome(result, claimable(env@, user)),
    {
        let empty: Vec<u32> = Vec::new();
        let ids: &Vec<u32> = match env.persistent.user_market_ids.get(user) {
            Some(ids) => ids,
            None => &empty,
        };
        let mut total: i128 = 0;
        let mut i: usize = 0;
        while i < ids.len()
            invariant
                i <= ids.len(),
                ids@ == market_ids_of(env@, user),
                claimable_from(env@, user, ids@.take(i as int)) == Ok::<int, HubError>(
                    total as int,
                ),
            decreases ids.len() - i,
        {
            proof {
                assert(ids@.take(i + 1).drop_last() =~= ids@.take(i as int));
                assert(ids@.take(i + 1).last() == ids@[i as int]);
                if claimable_from(env@, user, ids@.take(i + 1)) is Err {
                    lemma_claimable_from_err(env@, user, ids@, i + 1);
                }
            }
            total = add_market(env, user, total, ids[i])?;
            i = i + 1;
        }
        proof {
            assert(ids@.take(i as int) =~= ids@);
        }
        Ok(total)
    }

    /// The user's bets on a market, oldest first.
    pub fn get_user_bets(env: &Env, user: Address, market_id: u32) -> (bets: Vec<UserBet>)
        ensures
            bets@ == bets_of(env@, user, market_id),
    {
        match env.persistent.user_bets.get(UserMarketKey { user, market_id }) {
            Some(bets) => bets.clone(),
            None => Vec::new(),
        }
    }

    /// The number of the user's bets on a market.
    pub fn get_bet_count_for_market(env: &Env, user: Address, market_id: u32) -> (count: usize)
        ensures
            count == bets_of(env@, user, market_id).len(),
    {
        Self::get_user_bets(env, user, market_id).len()
    }

    /// One of the user's bets on a market.
    pub fn get_choice_and_bet(env: &Env, user: Address, market_id: u32, bet_index: u32) -> (result:
        Result<UserBet, HubError>)
        ensures
            result == (if bet_index < bets_of(env@, user, market_id).len() {
                Ok(bets_of(env@, user, market_id)[bet_index as int])
            } else {
                Err(HubError::BetNotFound)
            }),
    {
        let bets: Vec<UserBet> = Self::get_user_bets(env, user, market_id);
        if (bet_index as usize) < bets.len() {
            Ok(bets[bet_index as usize].clone())
        } else {
            Err(HubError::BetNotFound)
        }
    }

    /// The analytics trail of a market, oldest entry first.
    pub fn get_market_activity(env: &Env, market_id: u32) -> (activity: Vec<Activity>)
        ensures
            activity@ == activity_of(env@, market_id),
    {
        match env.persistent.market_analytics.get(market_id) {
            Some(activity) => activity.clone(),
            None => Vec::new(),
        }
    }

    /// Whether a market is open, and whether it is resolved.
    pub fn get_market_status(env: &Env, market_id: u32) -> (result: Result<(bool, bool), HubError>)
        ensures
            result == (if env@.persistent.predictions.contains_key(market_id) {
                Ok(
                    (
                        env@.persistent.predictions[market_id].is_open,
                        env@.persistent.predictions[market_id].is_resolved,
                    ),
                )
            } else {
                Err(HubError::MarketNotFound)
            }),
    {
        match env.persistent.predictions.get(market_id) {
            Some(market) => Ok((market.is_open, market.is_resolved)),
            None => Err(HubError::MarketNotFound),
        }
    }

    /// Amount currently staked on an unresolved market.
    pub fn get_market_liquidity(env: &Env, market_id: u32) -> (liquidity: i128)
        ensures
            liquidity == entry_or(env@.persistent.market_liquidity, market_id, 0),
    {
        match env.persistent.market_liquidity.get(market_id) {
            Some(liquidity) => *liquidity,
            None => 0,
        }
    }

    /// What a resolved market has to share out.
    pub fn get_payout_pool(env: &Env, market_id: u32) -> (payout_pool: i128)
        ensures
            payout_pool == entry_or(env@.persistent.payout_pool, market_id, 0),
    {
        match env.persistent.payout_pool.get(market_id) {
            Some(payout_pool) => *payout_pool,
            None => 0,
        }
    }

    /// What is staked on unresolved markets.
    pub fn get_total_value_locked(env: &Env) -> (tvl: i128)
        ensures
            tvl == value_or(env@.instance.total_value_locked, 0),
    {
        env.instance.total_value_locked.unwrap_or(0)
    }

    /// The minimum and maximum stake accepted per bet.
    pub fn get_betting_restrictions(env: &Env) -> (limits: (i128, i128))
        ensures
            limits == (
                value_or(env@.instance.min_bet_amount, 0),
                value_or(env@.instance.max_bet_amount, 0),
            ),
    {
        (env.instance.min_bet_amount.unwrap_or(0), env.instance.max_bet_amount.unwrap_or(0))
    }

    /// Returns the SEP-41 token used for staking.
    pub fn get_protocol_token(env: &Env) -> (result: Result<Address, HubError>)
        ensures
            result == token_check(env@),
    {
        protocol_token(env)
    }

    /// The admin.
    pub fn get_admin(env: &Env) -> (result: Result<Address, HubError>)
        ensures
            result == (match env@.instance.admin {
                Some(admin) => Ok(admin),
                None => Err(HubError::NotInitialized),
            }),
    {
        match env.instance.admin {
            Some(admin) => Ok(admin),
            None => Err(HubError::NotInitialized),
        }
    }

    /// The address that receives protocol fees.
    pub fn get_fee_recipient(env: &Env) -> (result: Result<Address, HubError>)
        ensures
            result == (match env@.instance.fee_recipient {
                Some(recipient) => Ok(recipient),
                None => Err(HubError::NotInitialized),
            }),
    {
        match env.instance.fee_recipient {
            Some(recipient) => Ok(recipient),
            None => Err(HubError::NotInitialized),
        }
    }

    /// The platform fee, in basis points.
    pub fn get_platform_fee(env: &Env) -> (platform_fee: i128)
        ensures
            platform_fee == value_or(env@.instance.platform_fee, 0),
    {
        env.instance.platform_fee.unwrap_or(0)
    }

    /// The number of moderators.
    pub fn get_moderator_count(env: &Env) -> (count: u32)
        ensures
            count == value_or(env@.instance.moderator_count, 0),
    {
        env.instance.moderator_count.unwrap_or(0)
    }

    /// Whether `who` has moderator privileges.
    pub fn is_moderator(env: &Env, who: Address) -> (result: bool)
        ensures
            result == moderates(env@, who),
    {
        is_moderator(env, &who)
    }

    /// Whether the protocol is frozen.
    pub fn is_paused(env: &Env) -> (paused: bool)
        ensures
            paused == value_or(env@.instance.is_paused, false),
    {
        env.instance.is_paused.unwrap_or(false)
    }

    /// Whether a market takes stakes now.
    pub fn is_market_open_for_betting(env: &Env, market_id: u32) -> (open: bool)
        ensures
            open == betting_open(env@, market_id),
    {
        if env.instance.is_paused.unwrap_or(false) || env.instance.betting_paused.unwrap_or(false) {
            return false;
        }
        match env.persistent.predictions.get(market_id) {
            Some(market) => market.is_open && !market.is_resolved && env.timestamp < market.end_time,
            None => false,
        }
    }

    /// The markets that pass `predicate`, in the order of their ids.
    fn markets_matching(
        env: &Env,
        predicate: impl Fn(&Market) -> bool,
        Ghost(test): Ghost<MarketTest>,
    ) -> (out: Vec<Market>)
        requires
            forall|market: &Market| call_requires(predicate, (market,)),
            forall|market: &Market, passes: bool|
                call_ensures(predicate, (market,), passes) ==> passes == test(market@),
        ensures
            values(out@) == all_markets(env@, test),
    {
        let count: u32 = env.instance.prediction_count.unwrap_or(0);
        let ghost ids = ids_up_to(count);
        let mut out: Vec<Market> = Vec::new();
        let mut seen: u32 = 0;
        proof {
            reveal(Seq::filter);
            assert(values(out@) =~= markets_among(env@, ids.take(0), test));
        }
        while seen < count
            invariant
                seen <= count,
                ids == ids_up_to(count),
                forall|market: &Market| call_requires(predicate, (market,)),
                forall|market: &Market, passes: bool|
                    call_ensures(predicate, (market,), passes) ==> passes == test(market@),
                values(out@) == markets_among(env@, ids.take(seen as int), test),
            decreases count - seen,
        {
            let id: u32 = seen + 1;
            push_if_matching(
                env,
                id,
                &predicate,
                &mut out,
                Ghost(test),
                Ghost(ids.take(seen as int)),
            );
            proof {
                assert(ids.take(id as int) =~= ids.take(seen as int).push(id));
            }
            seen = id;
        }
        proof {
            assert(ids.take(count as int) =~= ids);
        }
        out
    }

    /// The markets `user` has bet on that pass `predicate`, in the order of the
    /// first bet.
    fn user_markets_matching(
        env: &Env,
        user: &Address,
        predicate: impl Fn(&Market) -> bool,
        Ghost(test): Ghost<MarketTest>,
    ) -> (out: Vec<Market>)
        requires
            forall|market: &Market| call_requires(predicate, (market,)),
            forall|market: &Market, passes: bool|
                call_ensures(predicate, (market,), passes) ==> passes == test(market@),
        ensures
            values(out@) == user_markets(env@, *user, test),
    {
        let empty: Vec<u32> = Vec::new();
        let ids: &Vec<u32> = match env.persistent.user_market_ids.get(*user) {
            Some(ids) => ids,
            None => &empty,
        };
        let mut out: Vec<Market> = Vec::new();
        let mut i: usize = 0;
        proof {
            reveal(Seq::filter);
            assert(values(out@) =~= markets_among(env@, ids@.take(0), test));
        }
        while i < ids.len()
            invariant
                i <= ids.len(),
                ids@ == market_ids_of(env@, *user),
                forall|market: &Market| call_requires(predicate, (market,)),
                forall|market: &Market, passes: bool|
                    call_ensures(predicate, (market,), passes) ==> passes == test(market@),
                values(out@) == markets_among(env@, ids@.take(i as int), test),
            decreases ids.len() - i,
        {
            push_if_matching(
                env,
                ids[i],
                &predicate,
                &mut out,
                Ghost(test),
                Ghost(ids@.take(i as int)),
            );
            proof {
                assert(ids@.take(i + 1) =~= ids@.take(i as int).push(ids@[i as int]));
            }
            i = i + 1;
        }
        proof {
            assert(ids@.take(i as int) =~= ids@);
        }
        out
    }
}

/// Whether a market takes stakes now: nothing is paused and the market is open.
pub open spec fn betting_open(env: EnvView, market_id: u32) -> bool {
    &&& !value_or(env.instance.is_paused, false)
    &&& !value_or(env.instance.betting_paused, false)
    &&& env.persistent.predictions.contains_key(market_id)
    &&& open_at(env.timestamp)(env.persistent.predictions[market_id])
}

} // verus!
