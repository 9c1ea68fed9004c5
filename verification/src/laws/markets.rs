//! Markets: how they come, take stakes, are listed, and go.

use vstd::prelude::*;

use crate::access::{entry_or, pause_check, value_or};
use crate::betting::{
    activity_of, bet_sums_fit, bets_of, buy_shares_env, buy_shares_result, market_ids_of,
};
use crate::env::EnvView;
use crate::error::HubError;
use crate::laws::books::{bet_books, known, lemma_removal_removes_bets, market_books, pool_books};
use crate::laws::calls::{after, refusal, Call};
use crate::markets::{create_env, create_result, fresh_market};
use crate::queries::{
    all_markets, any_market, betting_open, ids_up_to, lemma_markets_among_push, locked_at,
    markets_among, open_at, prediction_count, resolved, user_markets, MarketTest,
};
use crate::settlement::claim_result;
use crate::types::{Activity, Address, MarketView, UserBet, UserMarketKey};

verus! {

// ------------------------------------------------------------
//  Creation
// ------------------------------------------------------------
/// A new market gets the next id, which no market has had, and is on record
/// as it was described, with nothing staked; all other markets stay as they were.
pub proof fn law_new_market_is_on_record(
    env: EnvView,
    creator: Address,
    title: String,
    description: String,
    choices: Seq<String>,
    category: String,
    end_time: u64,
    market_type: u32,
    image_url: String,
    other: u32,
)
    requires
        pool_books(env),
        create_result(env, creator, title, choices, end_time) is Ok,
    ensures
        ({
            let id = create_result(env, creator, title, choices, end_time)->Ok_0;
            let next = create_env(
                env,
                creator,
                title,
                description,
                choices,
                category,
                end_time,
                market_type,
                image_url,
            );
            &&& id == prediction_count(env) + 1
            &&& prediction_count(next) == id
            &&& !env.persistent.predictions.contains_key(id)
            &&& next.persistent.predictions.contains_key(id)
            &&& next.persistent.predictions[id] == fresh_market(
                id,
                creator,
                title,
                description,
                choices,
                category,
                end_time,
                market_type,
                image_url,
            )
            &&& next.persistent.predictions[id].choices.len() == choices.len()
            &&& activity_of(next, id) == Seq::<Activity>::empty()
            &&& other != id ==> next.persistent.predictions.contains_key(other)
                == env.persistent.predictions.contains_key(other)
                && next.persistent.predictions[other] == env.persistent.predictions[other]
        }),
{
}

/// A new market takes stakes at once, unless betting is paused.
pub proof fn law_new_market_is_open(
    env: EnvView,
    creator: Address,
    title: String,
    description: String,
    choices: Seq<String>,
    category: String,
    end_time: u64,
    market_type: u32,
    image_url: String,
)
    requires
        create_result(env, creator, title, choices, end_time) is Ok,
    ensures
        betting_open(
            create_env(
                env,
                creator,
                title,
                description,
                choices,
                category,
                end_time,
                market_type,
                image_url,
            ),
            create_result(env, creator, title, choices, end_time)->Ok_0,
        ) == !value_or(env.instance.betting_paused, false),
{
}

// ------------------------------------------------------------
//  Stakes
// ------------------------------------------------------------
/// Whether an amount is within the limits on stakes. A limit of zero is no limit.
pub open spec fn within_limits(env: EnvView, amount: i128) -> bool {
    let min_bet = value_or(env.instance.min_bet_amount, 0);
    let max_bet = value_or(env.instance.max_bet_amount, i128::MAX);
    &&& amount > 0
    &&& min_bet > 0 ==> amount >= min_bet
    &&& max_bet > 0 ==> amount <= max_bet
}

/// A stake is accepted exactly when the market takes stakes, has the choice,
/// the amount is within the limits, there is a token, and the accounts can
/// take it.
pub proof fn law_stake_needs_open_market(env: EnvView, market_id: u32, choice: u32, amount: i128)
    ensures
        buy_shares_result(env, market_id, choice, amount) is Ok <==> {
            &&& betting_open(env, market_id)
            &&& choice < env.persistent.predictions[market_id].choices.len()
            &&& within_limits(env, amount)
            &&& env.instance.protocol_token is Some
            &&& bet_sums_fit(env, market_id, choice, amount)
        },
{
}

/// An accepted stake is on record: it is the user's latest bet, the market's
/// latest activity, and part of every account it belongs to.
pub proof fn law_stake_is_on_record(
    env: EnvView,
    user: Address,
    market_id: u32,
    choice: u32,
    amount: i128,
)
    requires
        buy_shares_result(env, market_id, choice, amount) is Ok,
    ensures
        ({
            let next = buy_shares_env(env, user, market_id, choice, amount);
            let market = env.persistent.predictions[market_id];
            let later = next.persistent.predictions[market_id];
            let bet = bets_of(next, user, market_id).last();
            &&& bets_of(next, user, market_id) == bets_of(env, user, market_id).push(bet)
            &&& bet.market_id == market_id && bet.choice == choice && bet.amount == amount
                && !bet.claimed
            &&& bet.choice_label == market.choices[choice as int].label
            &&& activity_of(next, market_id) == activity_of(env, market_id).push(
                Activity { user, choice, amount, timestamp: env.timestamp },
            )
            &&& later.total_pool == market.total_pool + amount
            &&& later.choices[choice as int].staked_amount
                == market.choices[choice as int].staked_amount + amount
            &&& entry_or(next.persistent.market_liquidity, market_id, 0) == entry_or(
                env.persistent.market_liquidity,
                market_id,
                0,
            ) + amount
            &&& value_or(next.instance.total_value_locked, 0) == value_or(
                env.instance.total_value_locked,
                0,
            ) + amount
        }),
{
}

/// A stake leaves other choices, other markets and other users' bets alone.
pub proof fn law_stake_leaves_others(
    env: EnvView,
    user: Address,
    market_id: u32,
    choice: u32,
    amount: i128,
    other_choice: int,
    other_id: u32,
    other_user: Address,
)
    requires
        buy_shares_result(env, market_id, choice, amount) is Ok,
        other_choice != choice,
        0 <= other_choice < env.persistent.predictions[market_id].choices.len(),
        other_id != market_id,
        other_user != user,
    ensures
        ({
            let next = buy_shares_env(env, user, market_id, choice, amount);
            &&& next.persistent.predictions[market_id].choices[other_choice]
                == env.persistent.predictions[market_id].choices[other_choice]
            &&& next.persistent.predictions[other_id] == env.persistent.predictions[other_id]
            &&& activity_of(next, other_id) == activity_of(env, other_id)
            &&& bets_of(next, user, other_id) == bets_of(env, user, other_id)
            &&& bets_of(next, other_user, market_id) == bets_of(env, other_user, market_id)
            &&& market_ids_of(next, other_user) == market_ids_of(env, other_user)
        }),
{
}

// ------------------------------------------------------------
//  Listings
// ------------------------------------------------------------
/// A market is open, locked or resolved, never two of these; and one that is
/// none of them was closed before its time.
pub proof fn law_stages_are_disjoint(market: MarketView, now: u64)
    ensures
        !(open_at(now)(market) && locked_at(now)(market)),
        !(open_at(now)(market) && resolved()(market)),
        !(locked_at(now)(market) && resolved()(market)),
        !open_at(now)(market) && !locked_at(now)(market) && !resolved()(market) ==> !market.is_open
            && now < market.end_time,
{
}

/// A listing holds a market exactly when the market is on record under one of
/// the ids and passes the test.
pub proof fn law_listing_is_exact(
    env: EnvView,
    ids: Seq<u32>,
    test: MarketTest,
    market: MarketView,
)
    ensures
        markets_among(env, ids, test).contains(market) <==> exists|id: u32|
            #![trigger ids.contains(id)]
            ids.contains(id) && env.persistent.predictions.contains_key(id) && test(
                env.persistent.predictions[id],
            ) && env.persistent.predictions[id] == market,
{
    let on_record = |id: u32|
        env.persistent.predictions.contains_key(id) && test(env.persistent.predictions[id]);
    let chosen = ids.filter(on_record);
    let listed = markets_among(env, ids, test);
    assert(listed.len() == chosen.len());
    if listed.contains(market) {
        let i = choose|i: int| 0 <= i < listed.len() && listed[i] == market;
        ids.lemma_filter_pred(on_record, i);
        ids.lemma_filter_contains_rev(on_record, chosen[i]);
        assert(ids.contains(chosen[i]));
    }
    if exists|id: u32|
        #![trigger ids.contains(id)]
        ids.contains(id) && env.persistent.predictions.contains_key(id) && test(
            env.persistent.predictions[id],
        ) && env.persistent.predictions[id] == market {
        let id = choose|id: u32|
            #![trigger ids.contains(id)]
            ids.contains(id) && env.persistent.predictions.contains_key(id) && test(
                env.persistent.predictions[id],
            ) && env.persistent.predictions[id] == market;
        let j = choose|j: int| 0 <= j < ids.len() && ids[j] == id;
        ids.lemma_filter_contains(on_record, j);
        let i = choose|i: int| 0 <= i < chosen.len() && chosen[i] == id;
        assert(listed[i] == market);
    }
}

/// How a listing comes about: id by id, in order, each adding its market where
/// that is on record and passes the test. The listing of all markets goes
/// through the ids given out, that of a user through the user's list.
pub proof fn law_listings_are_built_in_order(
    env: EnvView,
    ids: Seq<u32>,
    id: u32,
    test: MarketTest,
    user: Address,
)
    ensures
        markets_among(env, Seq::<u32>::empty(), test) == Seq::<MarketView>::empty(),
        env.persistent.predictions.contains_key(id) && test(env.persistent.predictions[id])
            ==> markets_among(env, ids.push(id), test) == markets_among(env, ids, test).push(
            env.persistent.predictions[id],
        ),
        !env.persistent.predictions.contains_key(id) || !test(env.persistent.predictions[id])
            ==> markets_among(env, ids.push(id), test) == markets_among(env, ids, test),
        all_markets(env, test) == markets_among(
            env,
            Seq::new(
                value_or(env.instance.prediction_count, 0) as nat,
                |i: int| (i + 1) as u32,
            ),
            test,
        ),
        user_markets(env, user, test) == markets_among(env, market_ids_of(env, user), test),
{
    reveal(Seq::filter);
    lemma_markets_among_push(env, ids, id, test);
    assert(ids_up_to(prediction_count(env)) =~= Seq::new(
        value_or(env.instance.prediction_count, 0) as nat,
        |i: int| (i + 1) as u32,
    ));
}

/// A filter that everything passes changes nothing.
proof fn lemma_filter_all(ids: Seq<u32>, test: spec_fn(u32) -> bool)
    requires
        forall|i: int| 0 <= i < ids.len() ==> test(#[trigger] ids[i]),
    ensures
        ids.filter(test) == ids,
    decreases ids.len(),
{
    reveal(Seq::filter);
    if ids.len() > 0 {
        let rest = ids.drop_last();
        assert forall|i: int| 0 <= i < rest.len() implies test(#[trigger] rest[i]) by {
            assert(rest[i] == ids[i]);
        }
        lemma_filter_all(rest, test);
        assert(ids.last() == ids[ids.len() - 1]);
        assert(rest.push(ids.last()) =~= ids);
    }
}

/// The list of all markets holds every market once, in the order of the ids.
pub proof fn law_all_markets_are_listed(env: EnvView)
    requires
        pool_books(env),
    ensures
        all_markets(env, any_market()).len() == prediction_count(env),
        forall|i: int|
            0 <= i < prediction_count(env) ==> (#[trigger] all_markets(
                env,
                any_market(),
            )[i]).market_id == i + 1 && all_markets(env, any_market())[i]
                == env.persistent.predictions[(i + 1) as u32],
{
    let ids = ids_up_to(prediction_count(env));
    let on_record = |id: u32|
        env.persistent.predictions.contains_key(id) && any_market()(
            env.persistent.predictions[id],
        );
    assert forall|i: int| 0 <= i < ids.len() implies on_record(#[trigger] ids[i]) by {
        assert(known(env, ids[i]));
    }
    lemma_filter_all(ids, on_record);
    let listed = all_markets(env, any_market());
    assert forall|i: int| 0 <= i < prediction_count(env) implies (#[trigger] listed[i]).market_id
        == i + 1 && listed[i] == env.persistent.predictions[(i + 1) as u32] by {
        assert(market_books(env, (i + 1) as u32));
        assert(listed[i] == env.persistent.predictions[ids[i]]);
    }
}

/// The markets listed for a user are exactly those the user has a bet on.
pub proof fn law_user_listing_is_exact(env: EnvView, user: Address, id: u32)
    requires
        pool_books(env),
        bet_books(env),
        known(env, id),
    ensures
        user_markets(env, user, any_market()).contains(env.persistent.predictions[id])
            <==> bets_of(env, user, id).len() > 0,
{
    let market = env.persistent.predictions[id];
    let ids = market_ids_of(env, user);
    law_listing_is_exact(env, ids, any_market(), market);
    assert(market_books(env, id));
    assert(ids.contains(id) <==> bets_of(env, user, id).len() > 0);
    if user_markets(env, user, any_market()).contains(market) {
        let other = choose|other: u32|
            #![trigger ids.contains(other)]
            ids.contains(other) && env.persistent.predictions.contains_key(other)
                && any_market()(env.persistent.predictions[other])
                && env.persistent.predictions[other] == market;
        assert(market_books(env, other));
    }
}

/// The listing of a user holds one market for each id on the user's list, in the
/// order of that list, and no market twice.
pub proof fn law_user_listing_is_in_order(env: EnvView, user: Address)
    requires
        pool_books(env),
        bet_books(env),
    ensures
        user_markets(env, user, any_market()) == market_ids_of(env, user).map_values(
            |id: u32| env.persistent.predictions[id],
        ),
        user_markets(env, user, any_market()).no_duplicates(),
        forall|i: int|
            0 <= i < market_ids_of(env, user).len() ==> (#[trigger] user_markets(
                env,
                user,
                any_market(),
            )[i]).market_id == market_ids_of(env, user)[i],
{
    let ids = market_ids_of(env, user);
    let on_record = |id: u32|
        env.persistent.predictions.contains_key(id) && any_market()(
            env.persistent.predictions[id],
        );
    assert forall|i: int| 0 <= i < ids.len() implies on_record(#[trigger] ids[i]) && known(
        env,
        ids[i],
    ) by {
        assert(ids.contains(ids[i]));
        assert(bets_of(env, user, ids[i]).len() > 0);
        assert(env.persistent.user_bets.contains_key(UserMarketKey { user, market_id: ids[i] }));
    }
    lemma_filter_all(ids, on_record);
    let listed = user_markets(env, user, any_market());
    assert(ids.no_duplicates());
    assert forall|i: int| 0 <= i < ids.len() implies (#[trigger] listed[i]).market_id == ids[i] by {
        assert(known(env, ids[i]));
        assert(market_books(env, ids[i]));
    }
}

/// A listing with a test is the listing of everything, filtered by the test. So
/// the listings by type are parts of the full ones, in the same order.
pub proof fn law_listing_filters(env: EnvView, ids: Seq<u32>, test: MarketTest)
    ensures
        markets_among(env, ids, test) == markets_among(env, ids, any_market()).filter(test),
    decreases ids.len(),
{
    let all = markets_among(env, ids, any_market());
    reveal(Seq::filter);
    if ids.len() == 0 {
        assert(markets_among(env, ids, test) =~= all.filter(test));
    } else {
        let rest = ids.drop_last();
        let id = ids.last();
        assert(rest.push(id) =~= ids);
        law_listing_filters(env, rest, test);
        lemma_markets_among_push(env, rest, id, test);
        lemma_markets_among_push(env, rest, id, any_market());
        let earlier = markets_among(env, rest, any_market());
        if env.persistent.predictions.contains_key(id) {
            earlier.lemma_filter_push(env.persistent.predictions[id], test);
        }
    }
}

// ------------------------------------------------------------
//  Settings
// ------------------------------------------------------------
/// Settings are as they were last set.
pub proof fn law_settings_are_as_last_set(env: EnvView, call: Call)
    requires
        refusal(env, call) is None,
    ensures
        call is SetPlatformFee ==> after(env, call).instance.platform_fee == Some(
            call->SetPlatformFee_platform_fee,
        ),
        call is SetFeeRecipient ==> after(env, call).instance.fee_recipient == Some(
            call->recipient,
        ),
        call is SetBettingLimits ==> after(env, call).instance.min_bet_amount == Some(
            call->min_bet,
        ) && after(env, call).instance.max_bet_amount == Some(call->max_bet),
        call is EmergencyPause ==> after(env, call).instance.is_paused == Some(true),
        call is EmergencyUnpause ==> after(env, call).instance.is_paused == Some(false),
        call is PauseMarketCreation ==> after(env, call).instance.market_creation_paused == Some(
            call->PauseMarketCreation_paused,
        ),
        call is PauseBetting ==> after(env, call).instance.betting_paused == Some(
            call->PauseBetting_paused,
        ),
        call is PauseResolution ==> after(env, call).instance.resolution_paused == Some(
            call->PauseResolution_paused,
        ),
{
}

// ------------------------------------------------------------
//  Removal
// ------------------------------------------------------------
/// After all markets are removed nothing is left of them, nor of the bets on
/// them: the counters are zero, nothing is listed, and every claim is refused.
pub proof fn law_removal_ends_claims(env: EnvView, admin: Address, user: Address, id: u32)
    requires
        pool_books(env),
        bet_books(env),
        env.instance.admin == Some(admin),
    ensures
        ({
            let next = after(env, Call::RemoveAllPredictions { admin });
            &&& prediction_count(next) == 0
            &&& value_or(next.instance.total_value_locked, 0) == 0
            &&& !next.persistent.predictions.contains_key(id)
            &&& all_markets(next, any_market()).len() == 0
            &&& bets_of(next, user, id) == Seq::<UserBet>::empty()
            &&& market_ids_of(next, user) == Seq::<u32>::empty()
            &&& claim_result(next, user, id) == Err::<i128, HubError>(
                if pause_check(env) is Err {
                    HubError::ContractPaused
                } else {
                    HubError::MarketNotFound
                },
            )
        }),
{
    lemma_removal_removes_bets(env, Call::RemoveAllPredictions { admin }, user, id);
    reveal(Seq::filter);
    assert(ids_up_to(0).len() == 0);
}

} // verus!
