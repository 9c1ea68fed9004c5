//! The requests of a call carry over everything it changes: a host that serves
//! them ends up with the same entries.

use vstd::prelude::*;

use crate::admin::{
    bets_in_trails, bettor_removals, market_removal, names, removal_requests, trail_of,
    users_in_trails,
};
use crate::betting::{bet_requests, bets_of};
use crate::env::{instance_write, persistent_write, Effect, EnvView, PersistentView};
use crate::laws::authority::law_refused_call_changes_nothing;
use crate::laws::books::entry;
use crate::laws::calls::{actor, after, refusal, Call};
use crate::laws::solvency::requests_of;
use crate::markets::next_market_id;
use crate::queries::prediction_count;
use crate::settlement::{claim_requests, resolution_requests};
use crate::setup::initialize_requests;
use crate::types::{Activity, Address, DataKey, UserMarketKey};

verus! {

/// Whether an entry lives in the contract instance.
pub open spec fn in_instance(key: DataKey) -> bool {
    match key {
        DataKey::Moderator(_) => false,
        DataKey::Prediction(_) => false,
        DataKey::UserBets(_) => false,
        DataKey::UserMarketIds(_) => false,
        DataKey::MarketAnalytics(_) => false,
        DataKey::MarketLiquidity(_) => false,
        DataKey::PayoutPool(_) => false,
        _ => true,
    }
}

/// Whether there is an entry under `key`.
pub open spec fn stored(env: EnvView, key: DataKey) -> bool {
    match key {
        DataKey::Admin => env.instance.admin is Some,
        DataKey::Moderator(who) => env.persistent.moderators.contains_key(who),
        DataKey::ModeratorCount => env.instance.moderator_count is Some,
        DataKey::PredictionCount => env.instance.prediction_count is Some,
        DataKey::Prediction(id) => env.persistent.predictions.contains_key(id),
        DataKey::UserBets(bets) => env.persistent.user_bets.contains_key(bets),
        DataKey::UserMarketIds(user) => env.persistent.user_market_ids.contains_key(user),
        DataKey::MarketAnalytics(id) => env.persistent.market_analytics.contains_key(id),
        DataKey::MarketLiquidity(id) => env.persistent.market_liquidity.contains_key(id),
        DataKey::PayoutPool(id) => env.persistent.payout_pool.contains_key(id),
        DataKey::TotalValueLocked => env.instance.total_value_locked is Some,
        DataKey::FeeRecipient => env.instance.fee_recipient is Some,
        DataKey::PlatformFee => env.instance.platform_fee is Some,
        DataKey::ProtocolToken => env.instance.protocol_token is Some,
        DataKey::IsPaused => env.instance.is_paused is Some,
        DataKey::MarketCreationPaused => env.instance.market_creation_paused is Some,
        DataKey::BettingPaused => env.instance.betting_paused is Some,
        DataKey::ResolutionPaused => env.instance.resolution_paused is Some,
        DataKey::MinMarketDuration => env.instance.min_market_duration is Some,
        DataKey::MaxMarketDuration => env.instance.max_market_duration is Some,
        DataKey::ResolutionWindow => env.instance.resolution_window is Some,
        DataKey::MinBetAmount => env.instance.min_bet_amount is Some,
        DataKey::MaxBetAmount => env.instance.max_bet_amount is Some,
    }
}

/// Whether the entry under `key` is the same in two worlds.
pub open spec fn same_entry(env: EnvView, next: EnvView, key: DataKey) -> bool {
    let (one, other) = (env.instance, next.instance);
    let (before, now) = (env.persistent, next.persistent);
    match key {
        DataKey::Admin => one.admin == other.admin,
        DataKey::Moderator(who) => entry(before.moderators, who) == entry(now.moderators, who),
        DataKey::ModeratorCount => one.moderator_count == other.moderator_count,
        DataKey::PredictionCount => one.prediction_count == other.prediction_count,
        DataKey::Prediction(id) => entry(before.predictions, id) == entry(now.predictions, id),
        DataKey::UserBets(bets) => entry(before.user_bets, bets) == entry(now.user_bets, bets),
        DataKey::UserMarketIds(user) => entry(before.user_market_ids, user) == entry(
            now.user_market_ids,
            user,
        ),
        DataKey::MarketAnalytics(id) => entry(before.market_analytics, id) == entry(
            now.market_analytics,
            id,
        ),
        DataKey::MarketLiquidity(id) => entry(before.market_liquidity, id) == entry(
            now.market_liquidity,
            id,
        ),
        DataKey::PayoutPool(id) => entry(before.payout_pool, id) == entry(now.payout_pool, id),
        DataKey::TotalValueLocked => one.total_value_locked == other.total_value_locked,
        DataKey::FeeRecipient => one.fee_recipient == other.fee_recipient,
        DataKey::PlatformFee => one.platform_fee == other.platform_fee,
        DataKey::ProtocolToken => one.protocol_token == other.protocol_token,
        DataKey::IsPaused => one.is_paused == other.is_paused,
        DataKey::MarketCreationPaused => one.market_creation_paused == other.market_creation_paused,
        DataKey::BettingPaused => one.betting_paused == other.betting_paused,
        DataKey::ResolutionPaused => one.resolution_paused == other.resolution_paused,
        DataKey::MinMarketDuration => one.min_market_duration == other.min_market_duration,
        DataKey::MaxMarketDuration => one.max_market_duration == other.max_market_duration,
        DataKey::ResolutionWindow => one.resolution_window == other.resolution_window,
        DataKey::MinBetAmount => one.min_bet_amount == other.min_bet_amount,
        DataKey::MaxBetAmount => one.max_bet_amount == other.max_bet_amount,
    }
}

/// The request that brings the entry under `key` to what it is in `env`.
pub open spec fn update_request(env: EnvView, key: DataKey) -> Effect {
    if in_instance(key) {
        instance_write(key)
    } else if stored(env, key) {
        persistent_write(key)
    } else {
        Effect::RemovePersistent { key }
    }
}

/// Whether a request that stores or deletes an entry agrees with what there is.
pub open spec fn request_agrees(env: EnvView, request: Effect) -> bool {
    match request {
        Effect::SetInstance { key, .. } => in_instance(key) && stored(env, key),
        Effect::SetPersistent { key, .. } => !in_instance(key) && stored(env, key),
        Effect::RemovePersistent { key } => !in_instance(key) && !stored(env, key),
        _ => true,
    }
}

/// Every entry that a call changes is among the requests.
pub proof fn law_changes_are_requested(env: EnvView, call: Call, key: DataKey)
    requires
        !same_entry(env, after(env, call), key),
    ensures
        requests_of(env, call).contains(update_request(after(env, call), key)),
{
    let next = after(env, call);
    let requests = requests_of(env, call);
    let wanted = update_request(next, key);
    if refusal(env, call) is Some {
        law_refused_call_changes_nothing(env, call);
    } else if call is Initialize {
        let listed = initialize_requests(call->Initialize_admin, call->token);
        assert(requests =~= listed);
        assert(listed[1] == instance_write(DataKey::Admin));
        assert(listed[2] == instance_write(DataKey::FeeRecipient));
        assert(listed[3] == instance_write(DataKey::ProtocolToken));
        assert(listed[4] == instance_write(DataKey::PlatformFee));
        assert(listed[5] == instance_write(DataKey::MinMarketDuration));
        assert(listed[6] == instance_write(DataKey::MaxMarketDuration));
        assert(listed[7] == instance_write(DataKey::ResolutionWindow));
        assert(listed[8] == instance_write(DataKey::MinBetAmount));
        assert(listed[9] == instance_write(DataKey::MaxBetAmount));
        assert(listed[10] == instance_write(DataKey::PredictionCount));
        assert(listed[11] == instance_write(DataKey::TotalValueLocked));
    } else if call is CreatePredictions {
        let id = next_market_id(env);
        assert(requests[1] == persistent_write(DataKey::Prediction(id)));
        assert(requests[2] == persistent_write(DataKey::MarketAnalytics(id)));
        assert(requests[3] == instance_write(DataKey::PredictionCount));
    } else if call is BuyShares {
        let user = call->BuyShares_user;
        let market_id = call->BuyShares_market_id;
        assert(requests =~= bet_requests(
            env,
            user,
            market_id,
            call->BuyShares_choice,
            call->BuyShares_amount,
        ));
        let last = requests.len() - 1;
        assert(requests[2] == persistent_write(
            DataKey::UserBets(UserMarketKey { user, market_id }),
        ));
        assert(next.persistent.user_market_ids != env.persistent.user_market_ids ==> requests[3]
            == persistent_write(DataKey::UserMarketIds(user)));
        assert(requests[last - 4] == persistent_write(DataKey::MarketAnalytics(market_id)));
        assert(requests[last - 3] == persistent_write(DataKey::MarketLiquidity(market_id)));
        assert(requests[last - 2] == instance_write(DataKey::TotalValueLocked));
        assert(requests[last - 1] == persistent_write(DataKey::Prediction(market_id)));
    } else if call is ResolvePrediction {
        let market_id = call->ResolvePrediction_market_id;
        assert(requests =~= resolution_requests(
            env,
            call->resolver,
            market_id,
            call->winning_choice,
        ));
        assert(requests[1] == persistent_write(DataKey::Prediction(market_id)));
        assert(requests[2] == persistent_write(DataKey::PayoutPool(market_id)));
        assert(requests[3] == persistent_write(DataKey::MarketLiquidity(market_id)));
        assert(requests[4] == instance_write(DataKey::TotalValueLocked));
    } else if call is Claim {
        let user = call->Claim_user;
        let market_id = call->Claim_market_id;
        assert(requests =~= claim_requests(env, user, market_id));
        assert(requests[1] == persistent_write(
            DataKey::UserBets(UserMarketKey { user, market_id }),
        ));
    } else if call is ToggleMarketStatus {
        assert(requests[1] == persistent_write(
            DataKey::Prediction(call->ToggleMarketStatus_market_id),
        ));
    } else if call is AddModerator || call is RemoveModerator {
        assert(requests[1] == wanted || requests[2] == wanted);
    } else if call is RemoveAllPredictions {
        lemma_removal_is_requested(env, call, key);
    } else if call is SetBettingLimits {
        assert(requests[1] == instance_write(DataKey::MinBetAmount));
        assert(requests[2] == instance_write(DataKey::MaxBetAmount));
    } else {
        assert(requests[1] == wanted);
    }
}

/// The records of everyone named in a trail are among those deleted.
proof fn lemma_bettors_are_listed(trail: Seq<Activity>, id: u32, user: Address)
    requires
        names(trail, user),
    ensures
        bettor_removals(trail, id).contains(
            Effect::RemovePersistent {
                key: DataKey::UserBets(UserMarketKey { user, market_id: id }),
            },
        ),
        bettor_removals(trail, id).contains(
            Effect::RemovePersistent { key: DataKey::UserMarketIds(user) },
        ),
    decreases trail.len(),
{
    let rest = trail.drop_last();
    let before = bettor_removals(rest, id);
    let now = bettor_removals(trail, id);
    let bets = Effect::RemovePersistent {
        key: DataKey::UserBets(UserMarketKey { user, market_id: id }),
    };
    let ids = Effect::RemovePersistent { key: DataKey::UserMarketIds(user) };
    if trail.last().user == user {
        assert(now[before.len() as int] == bets);
        assert(now[before.len() as int + 1] == ids);
    } else {
        let i = choose|i: int| 0 <= i < trail.len() && (#[trigger] trail[i]).user == user;
        assert(rest[i].user == user);
        lemma_bettors_are_listed(rest, id, user);
        let j = choose|j: int| 0 <= j < before.len() && before[j] == bets;
        assert(now[j] == bets);
        let k = choose|k: int| 0 <= k < before.len() && before[k] == ids;
        assert(now[k] == ids);
    }
}

/// The requests about market `id` are among those of the removal, for every
/// `id` up to `count`.
proof fn lemma_removal_lists_market(persistent: PersistentView, count: nat, id: u32, wanted: Effect)
    requires
        1 <= id <= count,
        count <= u32::MAX,
        market_removal(id).contains(wanted) || bettor_removals(
            trail_of(persistent, id),
            id,
        ).contains(wanted),
    ensures
        removal_requests(persistent, count).contains(wanted),
    decreases count,
{
    let before = removal_requests(persistent, (count - 1) as nat);
    let now = removal_requests(persistent, count);
    if id < count {
        lemma_removal_lists_market(persistent, (count - 1) as nat, id, wanted);
        let j = choose|j: int| 0 <= j < before.len() && before[j] == wanted;
        assert(now[j] == wanted);
    } else {
        let bettors = bettor_removals(trail_of(persistent, id), id);
        if bettors.contains(wanted) {
            let j = choose|j: int| 0 <= j < bettors.len() && bettors[j] == wanted;
            assert(now[before.len() + j] == wanted);
        } else {
            let j = choose|j: int|
                0 <= j < market_removal(id).len() && market_removal(id)[j] == wanted;
            assert(now[before.len() + bettors.len() + j] == wanted);
        }
    }
}

/// Removing all markets asks for the deletion of everything it deletes.
proof fn lemma_removal_is_requested(env: EnvView, call: Call, key: DataKey)
    requires
        call is RemoveAllPredictions,
        refusal(env, call) is None,
        !same_entry(env, after(env, call), key),
    ensures
        requests_of(env, call).contains(update_request(after(env, call), key)),
{
    let next = after(env, call);
    let requests = requests_of(env, call);
    let count = prediction_count(env) as nat;
    let removals = removal_requests(env.persistent, count);
    assert(requests =~= seq![Effect::RequireAuth(actor(call))] + removals + seq![
        instance_write(DataKey::PredictionCount),
        instance_write(DataKey::TotalValueLocked),
    ]);
    assert(requests[removals.len() as int + 1] == instance_write(DataKey::PredictionCount));
    assert(requests[removals.len() as int + 2] == instance_write(DataKey::TotalValueLocked));
    if !in_instance(key) {
        let wanted = update_request(next, key);
        let id: u32 = match key {
            DataKey::Prediction(id) => id,
            DataKey::MarketAnalytics(id) => id,
            DataKey::MarketLiquidity(id) => id,
            DataKey::PayoutPool(id) => id,
            DataKey::UserBets(bets) => bets.market_id,
            DataKey::UserMarketIds(user) => choose|id: u32|
                1 <= id <= count && #[trigger] names(trail_of(env.persistent, id), user),
            _ => 0,
        };
        match key {
            DataKey::UserBets(bets) => {
                lemma_bettors_are_listed(trail_of(env.persistent, id), id, bets.user);
            },
            DataKey::UserMarketIds(user) => {
                assert(users_in_trails(env.persistent, prediction_count(env)).contains(user));
                lemma_bettors_are_listed(trail_of(env.persistent, id), id, user);
            },
            DataKey::Prediction(_) => {
                assert(market_removal(id)[0] == wanted);
            },
            DataKey::MarketAnalytics(_) => {
                assert(market_removal(id)[1] == wanted);
            },
            DataKey::MarketLiquidity(_) => {
                assert(market_removal(id)[2] == wanted);
            },
            DataKey::PayoutPool(_) => {
                assert(market_removal(id)[3] == wanted);
            },
            _ => {},
        }
        lemma_removal_lists_market(env.persistent, count, id, wanted);
        let j = choose|j: int| 0 <= j < removals.len() && removals[j] == wanted;
        assert(requests[j + 1] == wanted);
    }
}

/// Whether an entry is about one of the markets up to `count`, or about
/// somebody who bet on one.
pub open spec fn about_markets(persistent: PersistentView, key: DataKey, count: u32) -> bool {
    match key {
        DataKey::Prediction(id) => 1 <= id <= count,
        DataKey::MarketAnalytics(id) => 1 <= id <= count,
        DataKey::MarketLiquidity(id) => 1 <= id <= count,
        DataKey::PayoutPool(id) => 1 <= id <= count,
        DataKey::UserBets(bets) => bets_in_trails(persistent, count).contains(bets),
        DataKey::UserMarketIds(user) => users_in_trails(persistent, count).contains(user),
        _ => false,
    }
}

/// Nothing but the records of those named in a trail is deleted with it.
proof fn lemma_bettor_removals_are_about(
    persistent: PersistentView,
    trail: Seq<Activity>,
    id: u32,
    count: u32,
)
    requires
        1 <= id <= count,
        forall|user: Address| #[trigger]
            names(trail, user) ==> names(trail_of(persistent, id), user),
    ensures
        forall|i: int|
            0 <= i < bettor_removals(trail, id).len() ==> (#[trigger] bettor_removals(
                trail,
                id,
            )[i] matches Effect::RemovePersistent { key } && about_markets(persistent, key, count)),
    decreases trail.len(),
{
    if trail.len() > 0 {
        let rest = trail.drop_last();
        let before = bettor_removals(rest, id);
        let now = bettor_removals(trail, id);
        assert forall|user: Address| #[trigger] names(rest, user) implies names(
            trail_of(persistent, id),
            user,
        ) by {
            let i = choose|i: int| 0 <= i < rest.len() && (#[trigger] rest[i]).user == user;
            assert(trail[i].user == user);
            assert(names(trail, user));
        }
        lemma_bettor_removals_are_about(persistent, rest, id, count);
        assert(trail[trail.len() - 1].user == trail.last().user);
        assert(names(trail, trail.last().user));
        assert forall|i: int| 0 <= i < now.len() implies (
        #[trigger] now[i] matches Effect::RemovePersistent { key } && about_markets(
            persistent,
            key,
            count,
        )) by {
            if i < before.len() {
                assert(now[i] == before[i]);
            }
        }
    }
}

/// Removing markets deletes nothing but the entries about them.
proof fn lemma_removal_is_about_markets(persistent: PersistentView, n: nat, count: u32)
    requires
        n <= count,
    ensures
        forall|i: int|
            0 <= i < removal_requests(persistent, n).len() ==> (#[trigger] removal_requests(
                persistent,
                n,
            )[i] matches Effect::RemovePersistent { key } && about_markets(persistent, key, count)),
    decreases n,
{
    if n > 0 {
        let id = n as u32;
        let bettors = bettor_removals(trail_of(persistent, id), id);
        lemma_removal_is_about_markets(persistent, (n - 1) as nat, count);
        lemma_bettor_removals_are_about(persistent, trail_of(persistent, id), id, count);
        let before = removal_requests(persistent, (n - 1) as nat);
        let now = removal_requests(persistent, n);
        assert forall|i: int| 0 <= i < now.len() implies (
        #[trigger] now[i] matches Effect::RemovePersistent { key } && about_markets(
            persistent,
            key,
            count,
        )) by {
            if i < before.len() {
                assert(now[i] == before[i]);
            } else if i < before.len() + bettors.len() {
                assert(now[i] == bettors[i - before.len()]);
            } else {
                assert(now[i] == market_removal(id)[i - before.len() - bettors.len()]);
            }
        }
    }
}

/// What an accepted call asks to be stored is there to be stored, and what it
/// asks to be deleted is gone.
pub proof fn law_requests_agree_with_entries(env: EnvView, call: Call, i: int)
    requires
        refusal(env, call) is None,
        0 <= i < requests_of(env, call).len(),
    ensures
        request_agrees(after(env, call), requests_of(env, call)[i]),
{
    let next = after(env, call);
    let requests = requests_of(env, call);
    if call is Initialize {
        assert(requests =~= initialize_requests(call->Initialize_admin, call->token));
    } else if call is BuyShares {
        assert(requests =~= bet_requests(
            env,
            call->BuyShares_user,
            call->BuyShares_market_id,
            call->BuyShares_choice,
            call->BuyShares_amount,
        ));
        if bets_of(env, call->BuyShares_user, call->BuyShares_market_id).len() == 0 {
            assert(requests.len() == 9);
        } else {
            assert(requests.len() == 8);
        }
    } else if call is ResolvePrediction {
        assert(requests =~= resolution_requests(
            env,
            call->resolver,
            call->ResolvePrediction_market_id,
            call->winning_choice,
        ));
    } else if call is Claim {
        assert(requests =~= claim_requests(env, call->Claim_user, call->Claim_market_id));
    } else if call is RemoveAllPredictions {
        let count = prediction_count(env) as nat;
        let removals = removal_requests(env.persistent, count);
        lemma_removal_is_about_markets(env.persistent, count, prediction_count(env));
        assert(requests =~= seq![Effect::RequireAuth(actor(call))] + removals + seq![
            instance_write(DataKey::PredictionCount),
            instance_write(DataKey::TotalValueLocked),
        ]);
        if 1 <= i < 1 + removals.len() {
            assert(requests[i] == removals[i - 1]);
        }
    } else if call is CreatePredictions || call is ToggleMarketStatus {
        assert(request_agrees(next, requests[i]));
    } else if call is AddModerator || call is RemoveModerator {
        assert(request_agrees(next, requests[i]));
    } else {
    }
}

} // verus!
