//! The books of the protocol: how the entries about a market agree with each
//! other, in every state that calls can lead to.

use vstd::prelude::*;

use crate::access::{entry_or, moderates, value_or};
use crate::admin::{bets_in_trails, moderator_count, names, trail_of, users_in_trails};
use crate::betting::{activity_of, bets_of, market_ids_of};
use crate::env::EnvView;
use crate::laws::authority::law_refused_call_changes_nothing;
use crate::laws::calls::{after, refusal, Call};
use crate::laws::shares::law_fee_is_part_of_pool;
use crate::markets::MAX_CHOICES;
use crate::money::valid_fee;
use crate::queries::prediction_count;
use crate::settlement::{bets_settled, verdict_of};
use crate::types::{Activity, Address, Choice, MarketView, UserBet, UserMarketKey};

verus! {

// ------------------------------------------------------------
//  Sums
// ------------------------------------------------------------
/// What a trail of stakes puts on one choice.
pub open spec fn staked_on(trail: Seq<Activity>, choice: u32) -> int
    decreases trail.len(),
{
    if trail.len() == 0 {
        0
    } else if trail.last().choice == choice {
        staked_on(trail.drop_last(), choice) + trail.last().amount
    } else {
        staked_on(trail.drop_last(), choice)
    }
}

/// What a trail of stakes amounts to.
pub open spec fn staked(trail: Seq<Activity>) -> int
    decreases trail.len(),
{
    if trail.len() == 0 {
        0
    } else {
        staked(trail.drop_last()) + trail.last().amount
    }
}

/// What is on record for the first choices of a market.
pub open spec fn choices_total(choices: Seq<Choice>) -> int
    decreases choices.len(),
{
    if choices.len() == 0 {
        0
    } else {
        choices_total(choices.drop_last()) + choices.last().staked_amount
    }
}

/// The stakes of one user.
pub open spec fn stakes_by(trail: Seq<Activity>, user: Address) -> Seq<Activity> {
    trail.filter(|stake: Activity| stake.user == user)
}

/// What the unresolved markets among `1`, ..., `count` hold.
pub open spec fn unresolved_pools(predictions: Map<u32, MarketView>, count: nat) -> int
    decreases count,
{
    if count == 0 {
        0
    } else {
        unresolved_pools(predictions, (count - 1) as nat) + unresolved_pool(
            predictions[count as u32],
        )
    }
}

/// What a market holds as long as it is not resolved.
pub open spec fn unresolved_pool(market: MarketView) -> int {
    if market.is_resolved {
        0
    } else {
        market.total_pool as int
    }
}

// ------------------------------------------------------------
//  The books
// ------------------------------------------------------------
/// A market agrees with its trail of stakes, its liquidity and its payout pool.
pub open spec fn market_sound(
    market: MarketView,
    id: u32,
    trail: Seq<Activity>,
    liquidity: i128,
    payout_pool: Option<i128>,
) -> bool {
    &&& market.market_id == id
    &&& 1 <= market.choices.len() <= MAX_CHOICES
    // Every stake went to a choice of the market.
    &&& forall|i: int|
        #![trigger trail[i]]
        0 <= i < trail.len() ==> trail[i].amount > 0 && trail[i].choice < market.choices.len()
    // The pools are the sums of the stakes.
    &&& market.total_pool == staked(trail)
    &&& forall|c: u32|
        c < market.choices.len() ==> (#[trigger] market.choices[c as int]).staked_amount
            == staked_on(trail, c)
    // Liquidity is what is staked until resolution, and nothing afterwards.
    &&& liquidity == unresolved_pool(market)
    // There is a winning choice, and something set aside for it, once resolved.
    &&& market.is_resolved == market.winning_choice is Some
    &&& market.is_resolved == payout_pool is Some
    &&& market.is_resolved ==> {
        let winning_choice = market.winning_choice->Some_0;
        &&& winning_choice < market.choices.len()
        &&& 0 <= payout_pool->Some_0 <= market.total_pool
        &&& staked_on(trail, winning_choice) == 0 ==> payout_pool->Some_0 == market.total_pool
    }
}

/// An optional view of the entry under a key.
pub open spec fn entry<K, V>(entries: Map<K, V>, key: K) -> Option<V> {
    if entries.contains_key(key) {
        Some(entries[key])
    } else {
        None
    }
}

/// The entries about market `id` agree with each other.
pub open spec fn market_books(env: EnvView, id: u32) -> bool {
    market_sound(
        env.persistent.predictions[id],
        id,
        activity_of(env, id),
        entry_or(env.persistent.market_liquidity, id, 0),
        entry(env.persistent.payout_pool, id),
    )
}

/// Whether `id` has been given out.
pub open spec fn known(env: EnvView, id: u32) -> bool {
    1 <= id <= prediction_count(env)
}

/// The entries about the pools agree with each other: ids are given out one by
/// one, every market is sound, and the value locked is what the unresolved
/// markets hold.
pub open spec fn pool_books(env: EnvView) -> bool {
    &&& forall|id: u32| #[trigger]
        env.persistent.predictions.contains_key(id) <==> known(env, id)
    &&& forall|id: u32| #[trigger]
        env.persistent.market_analytics.contains_key(id) <==> known(env, id)
    &&& forall|id: u32| #[trigger]
        env.persistent.market_liquidity.contains_key(id) ==> known(env, id)
    &&& forall|id: u32| #[trigger] env.persistent.payout_pool.contains_key(id) ==> known(env, id)
    &&& forall|id: u32| known(env, id) ==> #[trigger] market_books(env, id)
    &&& value_or(env.instance.total_value_locked, 0) == unresolved_pools(
        env.persistent.predictions,
        prediction_count(env) as nat,
    )
    &&& env.instance.admin is None ==> prediction_count(env) == 0
    &&& env.instance.admin is Some ==> env.instance.protocol_token is Some
        && env.instance.fee_recipient is Some
    &&& valid_fee(value_or(env.instance.platform_fee, 0))
}

/// The bets of a user on a market agree with the user's stakes in the trail.
pub open spec fn bets_sound(
    bets: Seq<UserBet>,
    stakes: Seq<Activity>,
    market: MarketView,
    id: u32,
) -> bool {
    &&& bets.len() == stakes.len()
    &&& forall|i: int|
        #![trigger bets[i]]
        0 <= i < bets.len() ==> {
            &&& bets[i].market_id == id
            &&& bets[i].amount == stakes[i].amount
            &&& bets[i].choice == stakes[i].choice
            &&& bets[i].choice_label == market.choices[bets[i].choice as int].label
            &&& bets[i].claimed ==> market.is_resolved
        }
}

/// The bets of `user` on market `id` are on record as they were made.
pub open spec fn user_books(env: EnvView, user: Address, id: u32) -> bool {
    bets_sound(
        bets_of(env, user, id),
        stakes_by(activity_of(env, id), user),
        env.persistent.predictions[id],
        id,
    )
}

/// The entries about the users agree with those about the markets: every bet
/// is on a market on record and stands in its trail, and a user's list of
/// markets names those they have bet on, once each.
pub open spec fn bet_books(env: EnvView) -> bool {
    &&& forall|key: UserMarketKey| #[trigger]
        env.persistent.user_bets.contains_key(key) ==> known(env, key.market_id)
            && env.persistent.user_bets[key].len() > 0
    &&& forall|user: Address, id: u32| known(env, id) ==> #[trigger] user_books(env, user, id)
    &&& forall|user: Address| (#[trigger] market_ids_of(env, user)).no_duplicates()
    &&& forall|user: Address, id: u32|
        #![trigger market_ids_of(env, user).contains(id)]
        #![trigger bets_of(env, user, id)]
        market_ids_of(env, user).contains(id) <==> bets_of(env, user, id).len() > 0
}

/// The moderators on record are counted.
pub open spec fn staff_books(env: EnvView) -> bool {
    &&& env.persistent.moderators.dom().finite()
    &&& env.persistent.moderators.dom().len() == moderator_count(env)
    &&& forall|who: Address|
        env.persistent.moderators.contains_key(who) ==> #[trigger] env.persistent.moderators[who]
}

// ------------------------------------------------------------
//  Facts about the sums
// ------------------------------------------------------------
/// One more stake adds to the trail and to its choice.
pub proof fn lemma_staked_push(trail: Seq<Activity>, stake: Activity, choice: u32)
    ensures
        staked(trail.push(stake)) == staked(trail) + stake.amount,
        staked_on(trail.push(stake), choice) == staked_on(trail, choice) + if stake.choice
            == choice {
            stake.amount as int
        } else {
            0
        },
{
    assert(trail.push(stake).drop_last() =~= trail);
}

/// Where every stake is positive, so are the sums, and no choice has more than
/// all of them together.
pub proof fn lemma_staked_positive(trail: Seq<Activity>, choice: u32)
    requires
        forall|i: int| 0 <= i < trail.len() ==> (#[trigger] trail[i]).amount > 0,
    ensures
        0 <= staked_on(trail, choice) <= staked(trail),
    decreases trail.len(),
{
    if trail.len() > 0 {
        let rest = trail.drop_last();
        assert forall|i: int| 0 <= i < rest.len() implies (#[trigger] rest[i]).amount > 0 by {
            assert(rest[i] == trail[i]);
        }
        assert(trail.last() == trail[trail.len() - 1]);
        lemma_staked_positive(rest, choice);
    }
}

/// Maps that agree on what each unresolved market holds agree on the sum, but
/// for the market where they may differ.
pub proof fn lemma_unresolved_pools_change(
    before: Map<u32, MarketView>,
    later: Map<u32, MarketView>,
    count: nat,
    changed: u32,
)
    requires
        count <= u32::MAX,
        forall|id: u32|
            1 <= id <= count && id != changed ==> unresolved_pool(#[trigger] later[id])
                == unresolved_pool(before[id]),
    ensures
        unresolved_pools(later, count) == unresolved_pools(before, count) + if 1 <= changed
            <= count {
            unresolved_pool(later[changed]) - unresolved_pool(before[changed])
        } else {
            0
        },
    decreases count,
{
    if count > 0 {
        lemma_unresolved_pools_change(before, later, (count - 1) as nat, changed);
        assert(count as u32 != changed ==> unresolved_pool(later[count as u32])
            == unresolved_pool(before[count as u32]));
    }
}

/// Where no market holds less than nothing, each holds at most the sum.
pub proof fn lemma_unresolved_pools_bound(
    predictions: Map<u32, MarketView>,
    count: nat,
    id: u32,
)
    requires
        count <= u32::MAX,
        1 <= id <= count,
        forall|other: u32|
            1 <= other <= count ==> unresolved_pool(#[trigger] predictions[other]) >= 0,
    ensures
        0 <= unresolved_pool(predictions[id]) <= unresolved_pools(predictions, count),
    decreases count,
{
    assert(unresolved_pool(predictions[count as u32]) >= 0);
    if id == count {
        lemma_unresolved_pools_nonneg(predictions, (count - 1) as nat);
    } else {
        lemma_unresolved_pools_bound(predictions, (count - 1) as nat, id);
    }
}

/// Where no market holds less than nothing, neither do all of them together.
pub proof fn lemma_unresolved_pools_nonneg(predictions: Map<u32, MarketView>, count: nat)
    requires
        count <= u32::MAX,
        forall|other: u32|
            1 <= other <= count ==> unresolved_pool(#[trigger] predictions[other]) >= 0,
    ensures
        0 <= unresolved_pools(predictions, count),
    decreases count,
{
    if count > 0 {
        assert(unresolved_pool(predictions[count as u32]) >= 0);
        lemma_unresolved_pools_nonneg(predictions, (count - 1) as nat);
    }
}

/// A sound market holds no less than nothing, on any choice.
pub proof fn lemma_sound_market_is_positive(env: EnvView, id: u32, choice: u32)
    requires
        market_books(env, id),
    ensures
        0 <= staked_on(activity_of(env, id), choice) <= env.persistent.predictions[id].total_pool,
        0 <= unresolved_pool(env.persistent.predictions[id]),
{
    let trail = activity_of(env, id);
    assert forall|i: int| 0 <= i < trail.len() implies (#[trigger] trail[i]).amount > 0 by {}
    lemma_staked_positive(trail, choice);
}

// ------------------------------------------------------------
//  Pools
// ------------------------------------------------------------
/// The books of the pools speak of these entries alone.
proof fn lemma_pools_carry(env: EnvView, next: EnvView)
    requires
        pool_books(env),
        next.persistent.predictions == env.persistent.predictions,
        next.persistent.market_analytics == env.persistent.market_analytics,
        next.persistent.market_liquidity == env.persistent.market_liquidity,
        next.persistent.payout_pool == env.persistent.payout_pool,
        prediction_count(next) == prediction_count(env),
        value_or(next.instance.total_value_locked, 0) == value_or(
            env.instance.total_value_locked,
            0,
        ),
        env.instance.admin is Some ==> next.instance.admin is Some,
        next.instance.admin is Some ==> next.instance.protocol_token is Some
            && next.instance.fee_recipient is Some,
        valid_fee(value_or(next.instance.platform_fee, 0)),
    ensures
        pool_books(next),
{
    assert forall|id: u32| known(next, id) implies #[trigger] market_books(next, id) by {
        assert(market_books(env, id));
    }
    assert forall|id: u32| #[trigger]
        next.persistent.predictions.contains_key(id) <==> known(next, id) by {}
}

/// A refused call keeps the books of the pools.
proof fn lemma_refusal_keeps_pools(env: EnvView, call: Call)
    requires
        pool_books(env),
        refusal(env, call) is Some,
    ensures
        pool_books(after(env, call)),
{
    law_refused_call_changes_nothing(env, call);
    lemma_pools_carry(env, after(env, call));
}

/// Creating a market keeps the books of the pools.
proof fn lemma_create_keeps_pools(env: EnvView, call: Call)
    requires
        pool_books(env),
        call is CreatePredictions,
        refusal(env, call) is None,
    ensures
        pool_books(after(env, call)),
{
    let next = after(env, call);
    let id = (prediction_count(env) + 1) as u32;
    assert(!env.persistent.market_liquidity.contains_key(id));
    assert(!env.persistent.payout_pool.contains_key(id));
    assert(market_books(next, id));
    assert forall|other: u32| known(next, other) implies #[trigger] market_books(next, other) by {
        if other != id {
            assert(market_books(env, other));
        }
    }
    lemma_unresolved_pools_change(
        env.persistent.predictions,
        next.persistent.predictions,
        prediction_count(env) as nat,
        id,
    );
}

/// Staking keeps the books of the pools.
proof fn lemma_bet_keeps_pools(env: EnvView, call: Call)
    requires
        pool_books(env),
        call is BuyShares,
        refusal(env, call) is None,
    ensures
        pool_books(after(env, call)),
{
    let next = after(env, call);
    let user = call->BuyShares_user;
    let id = call->BuyShares_market_id;
    let choice = call->BuyShares_choice;
    let amount = call->BuyShares_amount;
    let stake = Activity { user, choice, amount, timestamp: env.timestamp };
    let trail = activity_of(env, id);
    assert(market_books(env, id));
    assert(activity_of(next, id) == trail.push(stake));
    let market = env.persistent.predictions[id];
    let changed = next.persistent.predictions[id];
    assert forall|c: u32| c < changed.choices.len() implies (
    #[trigger] changed.choices[c as int]).staked_amount == staked_on(trail.push(stake), c) by {
        lemma_staked_push(trail, stake, c);
        assert(market.choices[c as int].staked_amount == staked_on(trail, c));
    }
    lemma_staked_push(trail, stake, choice);
    assert(market_books(next, id));
    assert forall|other: u32| known(next, other) implies #[trigger] market_books(next, other) by {
        if other != id {
            assert(market_books(env, other));
        }
    }
    lemma_unresolved_pools_change(
        env.persistent.predictions,
        next.persistent.predictions,
        prediction_count(env) as nat,
        id,
    );
}

/// Resolving keeps the books of the pools.
proof fn lemma_resolve_keeps_pools(env: EnvView, call: Call)
    requires
        pool_books(env),
        call is ResolvePrediction,
        refusal(env, call) is None,
    ensures
        pool_books(after(env, call)),
{
    let next = after(env, call);
    let id = call->ResolvePrediction_market_id;
    let choice = call->winning_choice;
    assert(market_books(env, id));
    lemma_sound_market_is_positive(env, id, choice);
    let market = env.persistent.predictions[id];
    assert(market.choices[choice as int].staked_amount == staked_on(activity_of(env, id), choice));
    law_fee_is_part_of_pool(
        market.total_pool as int,
        market.choices[choice as int].staked_amount as int,
        value_or(env.instance.platform_fee, 0) as int,
    );
    assert(activity_of(next, id) == activity_of(env, id));
    assert(market_books(next, id));
    assert forall|other: u32| known(next, other) implies #[trigger] market_books(next, other) by {
        if other != id {
            assert(market_books(env, other));
        }
    }
    assert forall|other: u32| 1 <= other <= prediction_count(env) implies unresolved_pool(
        #[trigger] env.persistent.predictions[other],
    ) >= 0 by {
        assert(market_books(env, other));
        lemma_sound_market_is_positive(env, other, 0);
    }
    lemma_unresolved_pools_bound(
        env.persistent.predictions,
        prediction_count(env) as nat,
        id,
    );
    lemma_unresolved_pools_change(
        env.persistent.predictions,
        next.persistent.predictions,
        prediction_count(env) as nat,
        id,
    );
}

/// Toggling keeps the books of the pools.
proof fn lemma_toggle_keeps_pools(env: EnvView, call: Call)
    requires
        pool_books(env),
        call is ToggleMarketStatus,
        refusal(env, call) is None,
    ensures
        pool_books(after(env, call)),
{
    let next = after(env, call);
    let id = call->ToggleMarketStatus_market_id;
    assert(market_books(env, id));
    assert(market_books(next, id));
    assert forall|other: u32| known(next, other) implies #[trigger] market_books(next, other) by {
        if other != id {
            assert(market_books(env, other));
        }
    }
    lemma_unresolved_pools_change(
        env.persistent.predictions,
        next.persistent.predictions,
        prediction_count(env) as nat,
        id,
    );
}

/// The other calls keep the books of the pools.
proof fn lemma_other_calls_keep_pools(env: EnvView, call: Call)
    requires
        pool_books(env),
        refusal(env, call) is None,
        !(call is CreatePredictions),
        !(call is BuyShares),
        !(call is ResolvePrediction),
        !(call is ToggleMarketStatus),
    ensures
        pool_books(after(env, call)),
{
    let next = after(env, call);
    if call is Initialize {
        assert(unresolved_pools(env.persistent.predictions, 0) == 0);
        lemma_pools_carry(env, next);
    } else if call is RemoveAllPredictions {
        assert(unresolved_pools(next.persistent.predictions, 0) == 0);
    } else if call is Claim {
        lemma_pools_carry(env, next);
    } else {
        lemma_pools_carry(env, next);
    }
}

/// Every call keeps the books of the pools: in each market the pools are the
/// sums of the stakes, liquidity is what is staked until resolution, and the
/// total value locked is what the unresolved markets hold.
pub proof fn law_calls_keep_pool_books(env: EnvView, call: Call)
    requires
        pool_books(env),
    ensures
        pool_books(after(env, call)),
{
    if refusal(env, call) is Some {
        lemma_refusal_keeps_pools(env, call);
    } else if call is CreatePredictions {
        lemma_create_keeps_pools(env, call);
    } else if call is BuyShares {
        lemma_bet_keeps_pools(env, call);
    } else if call is ResolvePrediction {
        lemma_resolve_keeps_pools(env, call);
    } else if call is ToggleMarketStatus {
        lemma_toggle_keeps_pools(env, call);
    } else {
        lemma_other_calls_keep_pools(env, call);
    }
}

/// The pool of a sound market is what is on record for its choices.
pub proof fn law_pool_is_sum_of_choices(env: EnvView, id: u32)
    requires
        pool_books(env),
        known(env, id),
    ensures
        env.persistent.predictions[id].total_pool == choices_total(
            env.persistent.predictions[id].choices,
        ),
{
    assert(market_books(env, id));
    let market = env.persistent.predictions[id];
    let trail = activity_of(env, id);
    lemma_choices_total(market.choices, trail, market.choices.len() as int);
    assert(market.choices.take(market.choices.len() as int) =~= market.choices);
    assert forall|i: int| 0 <= i < trail.len() implies (#[trigger] trail[i]).choice
        < market.choices.len() by {}
    lemma_staked_below_all(trail, market.choices.len() as int);
}

/// What a trail puts on the choices below `bound`.
pub open spec fn staked_below(trail: Seq<Activity>, bound: int) -> int
    decreases trail.len(),
{
    if trail.len() == 0 {
        0
    } else if trail.last().choice < bound {
        staked_below(trail.drop_last(), bound) + trail.last().amount
    } else {
        staked_below(trail.drop_last(), bound)
    }
}

/// One more choice takes in what is staked on it.
proof fn lemma_staked_below_step(trail: Seq<Activity>, choice: u32)
    ensures
        staked_below(trail, choice + 1) == staked_below(trail, choice as int) + staked_on(
            trail,
            choice,
        ),
    decreases trail.len(),
{
    if trail.len() > 0 {
        lemma_staked_below_step(trail.drop_last(), choice);
    }
}

/// There is nothing below the first choice.
proof fn lemma_staked_below_zero(trail: Seq<Activity>)
    ensures
        staked_below(trail, 0) == 0,
    decreases trail.len(),
{
    if trail.len() > 0 {
        lemma_staked_below_zero(trail.drop_last());
    }
}

/// With every choice below the bound, all stakes count.
proof fn lemma_staked_below_all(trail: Seq<Activity>, bound: int)
    requires
        forall|i: int| 0 <= i < trail.len() ==> (#[trigger] trail[i]).choice < bound,
    ensures
        staked_below(trail, bound) == staked(trail),
    decreases trail.len(),
{
    if trail.len() > 0 {
        let rest = trail.drop_last();
        assert forall|i: int| 0 <= i < rest.len() implies (#[trigger] rest[i]).choice < bound by {
            assert(rest[i] == trail[i]);
        }
        assert(trail.last() == trail[trail.len() - 1]);
        lemma_staked_below_all(rest, bound);
    }
}

/// The first choices add up to what is staked below them.
proof fn lemma_choices_total(choices: Seq<Choice>, trail: Seq<Activity>, n: int)
    requires
        0 <= n <= choices.len() <= u32::MAX,
        forall|c: u32|
            c < choices.len() ==> (#[trigger] choices[c as int]).staked_amount == staked_on(
                trail,
                c,
            ),
    ensures
        choices_total(choices.take(n)) == staked_below(trail, n),
    decreases n,
{
    if n == 0 {
        lemma_staked_below_zero(trail);
    } else {
        let c = (n - 1) as u32;
        lemma_choices_total(choices, trail, n - 1);
        assert(choices.take(n).drop_last() =~= choices.take(n - 1));
        assert(choices.take(n).last() == choices[c as int]);
        lemma_staked_below_step(trail, c);
    }
}

// ------------------------------------------------------------
//  Bets
// ------------------------------------------------------------
/// One more stake is its user's, and nobody else's.
pub proof fn lemma_stakes_by_push(trail: Seq<Activity>, stake: Activity, user: Address)
    ensures
        stakes_by(trail.push(stake), user) == if stake.user == user {
            stakes_by(trail, user).push(stake)
        } else {
            stakes_by(trail, user)
        },
{
    trail.lemma_filter_push(stake, |stake: Activity| stake.user == user);
}

/// The books of the bets speak of these entries alone, and of the markets only
/// their labels and whether they are resolved.
proof fn lemma_bets_carry(env: EnvView, next: EnvView)
    requires
        bet_books(env),
        next.persistent.user_bets == env.persistent.user_bets,
        next.persistent.user_market_ids == env.persistent.user_market_ids,
        prediction_count(next) == prediction_count(env),
        forall|id: u32|
            known(env, id) ==> #[trigger] activity_of(next, id) == activity_of(env, id),
        forall|id: u32|
            #![trigger next.persistent.predictions[id]]
            known(env, id) ==> {
                &&& env.persistent.predictions[id].is_resolved
                    ==> next.persistent.predictions[id].is_resolved
                &&& next.persistent.predictions[id].choices
                    == env.persistent.predictions[id].choices
            },
    ensures
        bet_books(next),
{
    assert forall|user: Address, id: u32| known(next, id) implies #[trigger] user_books(
        next,
        user,
        id,
    ) by {
        assert(user_books(env, user, id));
        assert(bets_of(next, user, id) == bets_of(env, user, id));
        assert(activity_of(next, id) == activity_of(env, id));
        let market = next.persistent.predictions[id];
    }
    assert forall|user: Address| (#[trigger] market_ids_of(next, user)).no_duplicates() by {
        assert(market_ids_of(next, user) == market_ids_of(env, user));
    }
    assert forall|user: Address, id: u32|
        #![trigger market_ids_of(next, user).contains(id)]
        #![trigger bets_of(next, user, id)]
        market_ids_of(next, user).contains(id) <==> bets_of(next, user, id).len() > 0 by {
        assert(market_ids_of(next, user) == market_ids_of(env, user));
        assert(bets_of(next, user, id) == bets_of(env, user, id));
    }
}

/// Creating a market keeps the books of the bets.
proof fn lemma_create_keeps_bets(env: EnvView, call: Call)
    requires
        pool_books(env),
        bet_books(env),
        call is CreatePredictions,
        refusal(env, call) is None,
    ensures
        bet_books(after(env, call)),
{
    let next = after(env, call);
    let new = (prediction_count(env) + 1) as u32;
    assert forall|user: Address, id: u32| known(next, id) implies #[trigger] user_books(
        next,
        user,
        id,
    ) by {
        assert(bets_of(next, user, id) == bets_of(env, user, id));
        if id == new {
            let key = UserMarketKey { user, market_id: new };
            assert(!env.persistent.user_bets.contains_key(key));
            assert(activity_of(next, id) == Seq::<Activity>::empty());
            reveal(Seq::filter);
        } else {
            assert(user_books(env, user, id));
            assert(activity_of(next, id) == activity_of(env, id));
        }
    }
    assert forall|user: Address| (#[trigger] market_ids_of(next, user)).no_duplicates() by {
        assert(market_ids_of(next, user) == market_ids_of(env, user));
    }
    assert forall|user: Address, id: u32|
        #![trigger market_ids_of(next, user).contains(id)]
        #![trigger bets_of(next, user, id)]
        market_ids_of(next, user).contains(id) <==> bets_of(next, user, id).len() > 0 by {
        assert(market_ids_of(next, user) == market_ids_of(env, user));
        assert(bets_of(next, user, id) == bets_of(env, user, id));
    }
}

/// Staking keeps the books of the bets.
proof fn lemma_bet_keeps_bets(env: EnvView, call: Call)
    requires
        pool_books(env),
        bet_books(env),
        call is BuyShares,
        refusal(env, call) is None,
    ensures
        bet_books(after(env, call)),
{
    let next = after(env, call);
    let user = call->BuyShares_user;
    let id = call->BuyShares_market_id;
    let choice = call->BuyShares_choice;
    let amount = call->BuyShares_amount;
    let stake = Activity { user, choice, amount, timestamp: env.timestamp };
    let trail = activity_of(env, id);
    let market = env.persistent.predictions[id];
    let changed = next.persistent.predictions[id];
    assert(activity_of(next, id) == trail.push(stake));
    assert forall|c: int| 0 <= c < market.choices.len() implies #[trigger] changed.choices[c].label
        == market.choices[c].label by {}
    assert(market_books(env, id));
    assert forall|u: Address, m: u32| known(next, m) implies #[trigger] user_books(next, u, m) by {
        assert(user_books(env, u, m));
        if m == id {
            lemma_stakes_by_push(trail, stake, u);
            let bets = bets_of(env, u, m);
            let stakes = stakes_by(trail, u);
            let key = UserMarketKey { user: u, market_id: m };
            assert forall|i: int| 0 <= i < bets.len() implies (#[trigger] bets[i]).choice
                < market.choices.len() by {
                trail.lemma_filter_pred(|stake: Activity| stake.user == u, i);
                trail.lemma_filter_contains_rev(|stake: Activity| stake.user == u, stakes[i]);
                assert(trail.contains(stakes[i]));
                let j = choose|j: int| 0 <= j < trail.len() && trail[j] == stakes[i];
                assert(trail[j].choice < market.choices.len());
            }
            if u == user {
                assert(bets_of(next, u, m) == bets.push(bets_of(next, u, m).last()));
            } else {
                assert(bets_of(next, u, m) == bets);
            }
        } else {
            assert(bets_of(next, u, m) == bets_of(env, u, m));
            assert(activity_of(next, m) == activity_of(env, m));
        }
    }
    assert forall|u: Address| (#[trigger] market_ids_of(next, u)).no_duplicates() by {
        let ids = market_ids_of(env, u);
        assert(ids.no_duplicates());
        if u == user && bets_of(env, u, id).len() == 0 {
            assert(!ids.contains(id));
            assert(market_ids_of(next, u) == ids.push(id));
        } else {
            assert(market_ids_of(next, u) == ids);
        }
    }
    assert forall|u: Address, m: u32|
        #![trigger market_ids_of(next, u).contains(m)]
        #![trigger bets_of(next, u, m)]
        market_ids_of(next, u).contains(m) <==> bets_of(next, u, m).len() > 0 by {
        let ids = market_ids_of(env, u);
        assert(ids.contains(m) <==> bets_of(env, u, m).len() > 0);
        if u == user && bets_of(env, u, id).len() == 0 {
            assert(market_ids_of(next, u) == ids.push(id));
            assert(ids.push(id)[ids.len() as int] == id);
            assert(forall|i: int| 0 <= i < ids.len() ==> ids.push(id)[i] == ids[i]);
            if ids.contains(m) {
                let i = choose|i: int| 0 <= i < ids.len() && ids[i] == m;
                assert(ids.push(id)[i] == m);
            }
        } else {
            assert(market_ids_of(next, u) == ids);
        }
        if u == user && m == id {
        } else {
            assert(bets_of(next, u, m) == bets_of(env, u, m));
        }
    }
}

/// Claiming keeps the books of the bets.
proof fn lemma_claim_keeps_bets(env: EnvView, call: Call)
    requires
        pool_books(env),
        bet_books(env),
        call is Claim,
        refusal(env, call) is None,
    ensures
        bet_books(after(env, call)),
{
    let next = after(env, call);
    let user = call->Claim_user;
    let id = call->Claim_market_id;
    let bets = bets_of(env, user, id);
    assert(bets_of(next, user, id) == bets_settled(bets, verdict_of(env, id)));
    assert(bets_of(next, user, id).len() == bets.len());
    assert forall|u: Address, m: u32| known(next, m) implies #[trigger] user_books(next, u, m) by {
        assert(user_books(env, u, m));
        assert(activity_of(next, m) == activity_of(env, m));
        if u == user && m == id {
            assert forall|i: int| 0 <= i < bets.len() implies (#[trigger] bets_of(
                next,
                u,
                m,
            )[i]).amount == bets[i].amount by {}
        } else {
            assert(bets_of(next, u, m) == bets_of(env, u, m));
        }
    }
    assert forall|u: Address| (#[trigger] market_ids_of(next, u)).no_duplicates() by {
        assert(market_ids_of(next, u) == market_ids_of(env, u));
    }
    assert forall|u: Address, m: u32|
        #![trigger market_ids_of(next, u).contains(m)]
        #![trigger bets_of(next, u, m)]
        market_ids_of(next, u).contains(m) <==> bets_of(next, u, m).len() > 0 by {
        assert(market_ids_of(next, u) == market_ids_of(env, u));
        assert(market_ids_of(env, u).contains(m) <==> bets_of(env, u, m).len() > 0);
        if u == user && m == id {
        } else {
            assert(bets_of(next, u, m) == bets_of(env, u, m));
        }
    }
}

/// Everyone who has bets on a market is named in its trail.
proof fn lemma_bettors_are_named(env: EnvView, user: Address, id: u32)
    requires
        bet_books(env),
        bets_of(env, user, id).len() > 0,
    ensures
        known(env, id),
        names(activity_of(env, id), user),
{
    let trail = activity_of(env, id);
    let mine = |stake: Activity| stake.user == user;
    let stakes = stakes_by(trail, user);
    assert(env.persistent.user_bets.contains_key(UserMarketKey { user, market_id: id }));
    assert(user_books(env, user, id));
    trail.lemma_filter_pred(mine, 0);
    trail.lemma_filter_contains_rev(mine, stakes[0]);
    let j = choose|j: int| 0 <= j < trail.len() && trail[j] == stakes[0];
    assert(trail[j].user == user);
}

/// Removing all markets removes all bets and all lists of markets.
pub proof fn lemma_removal_removes_bets(env: EnvView, call: Call, user: Address, id: u32)
    requires
        bet_books(env),
        call is RemoveAllPredictions,
        refusal(env, call) is None,
    ensures
        bets_of(after(env, call), user, id) == Seq::<UserBet>::empty(),
        !after(env, call).persistent.user_bets.contains_key(UserMarketKey { user, market_id: id }),
        market_ids_of(after(env, call), user) == Seq::<u32>::empty(),
{
    let key = UserMarketKey { user, market_id: id };
    let count = prediction_count(env);
    if env.persistent.user_bets.contains_key(key) {
        lemma_bettors_are_named(env, user, id);
        assert(trail_of(env.persistent, id) == activity_of(env, id));
        assert(bets_in_trails(env.persistent, count).contains(key));
    }
    let ids = market_ids_of(env, user);
    if ids.len() > 0 {
        assert(ids.contains(ids[0]));
        assert(bets_of(env, user, ids[0]).len() > 0);
        lemma_bettors_are_named(env, user, ids[0]);
        assert(trail_of(env.persistent, ids[0]) == activity_of(env, ids[0]));
        assert(names(trail_of(env.persistent, ids[0]), user));
        assert(users_in_trails(env.persistent, count).contains(user));
    }
}

/// Every call keeps the books of the bets: each bet stands in its market's
/// trail, and a user's list of markets names those they have bet on, once
/// each.
pub proof fn law_calls_keep_bet_books(env: EnvView, call: Call)
    requires
        pool_books(env),
        bet_books(env),
    ensures
        bet_books(after(env, call)),
{
    let next = after(env, call);
    if refusal(env, call) is Some {
        law_refused_call_changes_nothing(env, call);
        lemma_bets_carry(env, next);
    } else if call is CreatePredictions {
        lemma_create_keeps_bets(env, call);
    } else if call is BuyShares {
        lemma_bet_keeps_bets(env, call);
    } else if call is Claim {
        lemma_claim_keeps_bets(env, call);
    } else if call is RemoveAllPredictions {
        assert forall|key: UserMarketKey| #[trigger]
            next.persistent.user_bets.contains_key(key) implies false by {
            lemma_removal_removes_bets(env, call, key.user, key.market_id);
        }
        assert forall|user: Address| (#[trigger] market_ids_of(next, user)).no_duplicates() by {
            lemma_removal_removes_bets(env, call, user, 0);
        }
        assert forall|user: Address, id: u32|
            #![trigger market_ids_of(next, user).contains(id)]
            #![trigger bets_of(next, user, id)]
            market_ids_of(next, user).contains(id) <==> bets_of(next, user, id).len() > 0 by {
            lemma_removal_removes_bets(env, call, user, id);
        }
    } else if call is ResolvePrediction || call is ToggleMarketStatus {
        lemma_bets_carry(env, next);
    } else if call is Initialize {
        lemma_bets_carry(env, next);
    } else {
        assert(next.persistent.predictions == env.persistent.predictions);
        lemma_bets_carry(env, next);
    }
}

// ------------------------------------------------------------
//  Moderators
// ------------------------------------------------------------
/// Every call keeps the count of the moderators equal to their number.
pub proof fn law_calls_keep_staff_books(env: EnvView, call: Call)
    requires
        staff_books(env),
    ensures
        staff_books(after(env, call)),
{
    let next = after(env, call);
    if refusal(env, call) is Some {
        law_refused_call_changes_nothing(env, call);
    } else if call is AddModerator {
        let moderator = call->AddModerator_moderator;
        let before = env.persistent.moderators;
        assert(before.insert(moderator, true).dom() =~= before.dom().insert(moderator));
        assert(before.contains_key(moderator) ==> before[moderator]);
        if before.contains_key(moderator) {
            assert(before.dom().insert(moderator) =~= before.dom());
        }
    } else if call is RemoveModerator {
        let moderator = call->RemoveModerator_moderator;
        let before = env.persistent.moderators;
        assert(before.remove(moderator).dom() =~= before.dom().remove(moderator));
        if moderates(env, moderator) {
            assert(before.dom().contains(moderator));
        }
    } else {
        assert(next.persistent.moderators == env.persistent.moderators);
        assert(moderator_count(next) == moderator_count(env));
    }
}

} // verus!
