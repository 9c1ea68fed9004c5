//! What the entries tell of the calls that were made.

use vstd::prelude::*;

use crate::access::{moderates, pause_check};
use crate::betting::{activity_of, bets_of, market_ids_of};
use crate::env::{persistent_write, Effect, EnvView};
use crate::error::HubError;
use crate::events::{Event, WinningsClaimed};
use crate::laws::authority::law_refused_call_changes_nothing;
use crate::laws::books::{
    bet_books, bets_sound, known, lemma_removal_removes_bets, market_books, pool_books, stakes_by,
    user_books,
};
use crate::laws::calls::{after, at, refusal, Call};
use crate::laws::claims::{due_from, law_resolution_is_final, lemma_settled_bets};
use crate::laws::history::{
    history, law_bet_books_always_hold, law_pool_books_always_hold, lemma_books_at, TimedCall,
};
use crate::laws::markets::law_user_listing_is_in_order;
use crate::laws::solvency::{
    bets_under, law_claim_reduces_liability, law_claims_use_up_pool, law_pool_covers_claims,
    lemma_liability_carry, lemma_nothing_outstanding, lemma_outstanding_at_first, liability,
    requests_of, stakes_on, trail_worth,
};
use crate::queries::{any_market, prediction_count, user_markets};
use crate::settlement::{
    bet_settled, bet_worth_fits, bets_due, bets_due_fit, bets_settled, claim_env, claim_result,
    lemma_bets_due_grows, verdict_of,
};
use crate::types::{Activity, Address, DataKey, UserMarketKey};

verus! {

// ------------------------------------------------------------
//  Calls in a sequence
// ------------------------------------------------------------
/// What call `i` of a sequence finds.
pub open spec fn before(contract: Address, calls: Seq<TimedCall>, i: int) -> EnvView {
    at(history(contract, calls.take(i)), calls[i].now)
}

/// Whether call `i` of a sequence is accepted.
pub open spec fn accepted(contract: Address, calls: Seq<TimedCall>, i: int) -> bool {
    refusal(before(contract, calls, i), calls[i].call) is None
}

/// The earlier calls of a sequence do not depend on the last one.
pub proof fn lemma_earlier_calls(contract: Address, calls: Seq<TimedCall>, i: int)
    requires
        0 <= i < calls.len() - 1,
    ensures
        before(contract, calls.drop_last(), i) == before(contract, calls, i),
        accepted(contract, calls.drop_last(), i) == accepted(contract, calls, i),
        calls.drop_last()[i] == calls[i],
{
    assert(calls.drop_last().take(i) =~= calls.take(i));
}

/// The last call of a sequence takes it from what it finds to what it leaves.
pub proof fn lemma_last_call(contract: Address, calls: Seq<TimedCall>)
    requires
        calls.len() > 0,
    ensures
        ({
            let last = calls.len() - 1;
            let env = before(contract, calls, last);
            &&& env == at(history(contract, calls.drop_last()), calls.last().now)
            &&& history(contract, calls) == after(env, calls.last().call)
            &&& pool_books(env)
            &&& bet_books(env)
            &&& pool_books(history(contract, calls))
            &&& bet_books(history(contract, calls))
        }),
{
    assert(calls.take(calls.len() - 1) =~= calls.drop_last());
    law_pool_books_always_hold(contract, calls.drop_last());
    law_bet_books_always_hold(contract, calls.drop_last());
    law_pool_books_always_hold(contract, calls);
    law_bet_books_always_hold(contract, calls);
    lemma_books_at(history(contract, calls.drop_last()), calls.last().now);
}

// ------------------------------------------------------------
//  Trails
// ------------------------------------------------------------
/// Whether the calls of a sequence are made one after the other.
pub open spec fn in_order(calls: Seq<TimedCall>) -> bool {
    forall|i: int, j: int|
        0 <= i <= j < calls.len() ==> (#[trigger] calls[i]).now <= (#[trigger] calls[j]).now
}

/// A call leaves a trail alone, starts it over, or adds one stake made now.
proof fn lemma_trail_step(env: EnvView, call: Call, id: u32)
    ensures
        ({
            let trail = activity_of(env, id);
            let later = activity_of(after(env, call), id);
            ||| later == trail
            ||| later == Seq::<Activity>::empty()
            ||| later == trail.push(later.last()) && later.last().timestamp == env.timestamp
        }),
{
    let trail = activity_of(env, id);
    let later = activity_of(after(env, call), id);
    if refusal(env, call) is Some {
        law_refused_call_changes_nothing(env, call);
    } else if call is BuyShares {
        if call->BuyShares_market_id == id {
            assert(later =~= trail.push(later.last()));
        }
    } else if call is CreatePredictions || call is RemoveAllPredictions {
        assert(later == trail || later == Seq::<Activity>::empty());
    } else {
        assert(after(env, call).persistent.market_analytics == env.persistent.market_analytics);
    }
}

/// With calls made one after the other, the trail of a market is in order of
/// time, and no stake in it is later than the last call.
pub proof fn law_trails_are_in_order(contract: Address, calls: Seq<TimedCall>, id: u32)
    requires
        in_order(calls),
    ensures
        ({
            let trail = activity_of(history(contract, calls), id);
            &&& forall|a: int, b: int|
                0 <= a <= b < trail.len() ==> (#[trigger] trail[a]).timestamp <= (
                #[trigger] trail[b]).timestamp
            &&& forall|a: int|
                0 <= a < trail.len() ==> calls.len() > 0 && (#[trigger] trail[a]).timestamp
                    <= calls.last().now
        }),
    decreases calls.len(),
{
    if calls.len() > 0 {
        let rest = calls.drop_last();
        assert forall|i: int, j: int| 0 <= i <= j < rest.len() implies (#[trigger] rest[i]).now <= (
        #[trigger] rest[j]).now by {
            assert(rest[i] == calls[i] && rest[j] == calls[j]);
        }
        law_trails_are_in_order(contract, rest, id);
        lemma_last_call(contract, calls);
        let env = before(contract, calls, calls.len() - 1);
        let trail = activity_of(history(contract, rest), id);
        assert(activity_of(env, id) == trail);
        lemma_trail_step(env, calls.last().call, id);
        assert(calls.last() == calls[calls.len() - 1]);
        if rest.len() > 0 {
            assert(rest.last() == calls[calls.len() - 2]);
        }
    }
}

// ------------------------------------------------------------
//  Lists of markets
// ------------------------------------------------------------
/// The markets a user has bet on, in the order of the first bet, since markets
/// were last removed.
pub open spec fn first_bets(contract: Address, calls: Seq<TimedCall>, user: Address) -> Seq<u32>
    decreases calls.len(),
{
    if calls.len() == 0 {
        Seq::empty()
    } else {
        let earlier = first_bets(contract, calls.drop_last(), user);
        if !accepted(contract, calls, calls.len() - 1) {
            earlier
        } else {
            match calls.last().call {
                Call::RemoveAllPredictions { .. } => Seq::empty(),
                Call::BuyShares { user: bettor, market_id, .. } => if bettor == user
                    && !earlier.contains(market_id) {
                    earlier.push(market_id)
                } else {
                    earlier
                },
                _ => earlier,
            }
        }
    }
}

/// A user's list of markets is in the order of the first bets.
proof fn lemma_lists_follow_bets(contract: Address, calls: Seq<TimedCall>, user: Address)
    ensures
        market_ids_of(history(contract, calls), user) == first_bets(contract, calls, user),
    decreases calls.len(),
{
    if calls.len() > 0 {
        lemma_lists_follow_bets(contract, calls.drop_last(), user);
        lemma_last_call(contract, calls);
        let env = before(contract, calls, calls.len() - 1);
        let call = calls.last().call;
        let next = after(env, call);
        let ids = market_ids_of(env, user);
        assert(ids == first_bets(contract, calls.drop_last(), user));
        if refusal(env, call) is Some {
            law_refused_call_changes_nothing(env, call);
        } else if call is RemoveAllPredictions {
            lemma_removal_removes_bets(env, call, user, 0);
        } else if call is BuyShares {
            let id = call->BuyShares_market_id;
            assert(ids.contains(id) <==> bets_of(env, user, id).len() > 0);
        } else {
            assert(next.persistent.user_market_ids == env.persistent.user_market_ids);
        }
    }
}

/// The listing of a user holds the markets the user has bet on, each once, in
/// the order of the first bets.
pub proof fn law_listing_follows_first_bets(
    contract: Address,
    calls: Seq<TimedCall>,
    user: Address,
)
    ensures
        ({
            let env = history(contract, calls);
            let ids = first_bets(contract, calls, user);
            &&& ids.no_duplicates()
            &&& user_markets(env, user, any_market()) == ids.map_values(
                |id: u32| env.persistent.predictions[id],
            )
            &&& user_markets(env, user, any_market()).no_duplicates()
        }),
{
    law_pool_books_always_hold(contract, calls);
    law_bet_books_always_hold(contract, calls);
    lemma_lists_follow_bets(contract, calls, user);
    law_user_listing_is_in_order(history(contract, calls), user);
}

// ------------------------------------------------------------
//  Moderators
// ------------------------------------------------------------
/// Whether the last accepted call that added or removed `who` as a moderator
/// was an addition.
pub open spec fn last_added(contract: Address, calls: Seq<TimedCall>, who: Address) -> bool
    decreases calls.len(),
{
    if calls.len() == 0 {
        false
    } else {
        let earlier = last_added(contract, calls.drop_last(), who);
        if !accepted(contract, calls, calls.len() - 1) {
            earlier
        } else {
            match calls.last().call {
                Call::AddModerator { moderator, .. } => moderator == who || earlier,
                Call::RemoveModerator { moderator, .. } => moderator != who && earlier,
                _ => earlier,
            }
        }
    }
}

/// An address moderates exactly when the last accepted call that added or
/// removed it was an addition.
pub proof fn law_last_word_decides(contract: Address, calls: Seq<TimedCall>, who: Address)
    ensures
        moderates(history(contract, calls), who) == last_added(contract, calls, who),
    decreases calls.len(),
{
    if calls.len() > 0 {
        law_last_word_decides(contract, calls.drop_last(), who);
        lemma_last_call(contract, calls);
        let env = before(contract, calls, calls.len() - 1);
        let call = calls.last().call;
        assert(moderates(env, who) == last_added(contract, calls.drop_last(), who));
        if refusal(env, call) is Some {
            law_refused_call_changes_nothing(env, call);
        } else if call is AddModerator || call is RemoveModerator {
            assert(moderates(after(env, call), who) == last_added(contract, calls, who));
        } else {
            assert(after(env, call).persistent.moderators == env.persistent.moderators);
        }
    }
}

// ------------------------------------------------------------
//  Removed bets
// ------------------------------------------------------------
/// Whether call `i` of a sequence is an accepted bet of `user` on market `id`.
pub open spec fn bets_at(
    contract: Address,
    calls: Seq<TimedCall>,
    i: int,
    user: Address,
    id: u32,
) -> bool {
    &&& calls[i].call is BuyShares
    &&& calls[i].call->BuyShares_user == user
    &&& calls[i].call->BuyShares_market_id == id
    &&& accepted(contract, calls, i)
}

/// Only an accepted bet of the user on the market brings the first bet.
proof fn lemma_no_bets_step(env: EnvView, call: Call, user: Address, id: u32)
    requires
        bet_books(env),
        bets_of(env, user, id).len() == 0,
        call is BuyShares && refusal(env, call) is None ==> call->BuyShares_user != user
            || call->BuyShares_market_id != id,
    ensures
        bets_of(after(env, call), user, id).len() == 0,
{
    if refusal(env, call) is Some {
        law_refused_call_changes_nothing(env, call);
    } else if call is RemoveAllPredictions {
        lemma_removal_removes_bets(env, call, user, id);
    } else if call is BuyShares || call is Claim {
        assert(bets_of(after(env, call), user, id).len() == 0);
    } else {
        assert(after(env, call).persistent.user_bets == env.persistent.user_bets);
    }
}

/// After all markets are removed, claims on the bets from before are impossible
/// for good, also where a new market takes an old id: whatever calls follow, a
/// user without an accepted bet on a market since the removal has no bets on it,
/// and their claim on it is refused.
pub proof fn law_removed_bets_are_gone(
    contract: Address,
    calls: Seq<TimedCall>,
    removal: int,
    user: Address,
    id: u32,
    now: u64,
)
    requires
        0 <= removal < calls.len(),
        calls[removal].call is RemoveAllPredictions,
        accepted(contract, calls, removal),
        forall|i: int|
            removal < i < calls.len() ==> !#[trigger] bets_at(contract, calls, i, user, id),
    ensures
        bets_of(history(contract, calls), user, id).len() == 0,
        claim_result(at(history(contract, calls), now), user, id) is Err,
    decreases calls.len(),
{
    lemma_last_call(contract, calls);
    let last = calls.len() - 1;
    let env = before(contract, calls, last);
    let call = calls.last().call;
    if removal == last {
        lemma_removal_removes_bets(env, call, user, id);
    } else {
        let rest = calls.drop_last();
        lemma_earlier_calls(contract, calls, removal);
        assert forall|i: int| removal < i < rest.len() implies !#[trigger] bets_at(
            contract,
            rest,
            i,
            user,
            id,
        ) by {
            lemma_earlier_calls(contract, calls, i);
            assert(!bets_at(contract, calls, i, user, id));
        }
        law_removed_bets_are_gone(contract, rest, removal, user, id, now);
        assert(!bets_at(contract, calls, last, user, id));
        assert(bets_of(env, user, id) == bets_of(history(contract, rest), user, id));
        lemma_no_bets_step(env, call, user, id);
    }
    assert(bets_of(at(history(contract, calls), now), user, id) == bets_of(
        history(contract, calls),
        user,
        id,
    ));
}

// ------------------------------------------------------------
//  Paid bets
// ------------------------------------------------------------
/// Whether a user's bets on market `id` have been claimed and nothing is left
/// to pay for them.
pub open spec fn claimed_up(env: EnvView, user: Address, id: u32) -> bool {
    let bets = bets_of(env, user, id);
    let verdict = verdict_of(env, id);
    &&& known(env, id)
    &&& env.persistent.predictions[id].is_resolved
    &&& bets.len() > 0
    &&& bets_settled(bets, verdict) == bets
    &&& bets_due(bets, verdict) == 0
    &&& bets_due_fit(bets, verdict)
}

/// An accepted claim leaves nothing to pay.
proof fn lemma_claim_claims_up(env: EnvView, user: Address, id: u32)
    requires
        pool_books(env),
        claim_result(env, user, id) is Ok,
    ensures
        claimed_up(claim_env(env, user, id), user, id),
{
    let next = claim_env(env, user, id);
    let bets = bets_of(env, user, id);
    let verdict = verdict_of(env, id);
    let settled = bets_settled(bets, verdict);
    lemma_settled_bets(bets, verdict);
    assert(verdict_of(next, id) == verdict);
    assert(bets_of(next, user, id) == settled);
    assert forall|i: int| 0 <= i < settled.len() && !settled[i].claimed implies bet_worth_fits(
        #[trigger] settled[i],
        verdict,
    ) by {
        assert(settled[i] == bet_settled(bets[i], verdict));
        assert(bet_worth_fits(bets[i], verdict));
    }
}

/// Short of a removal, no call brings anything more to pay.
proof fn lemma_claimed_up_step(env: EnvView, call: Call, user: Address, id: u32)
    requires
        pool_books(env),
        claimed_up(env, user, id),
        call is RemoveAllPredictions ==> refusal(env, call) is Some,
    ensures
        claimed_up(after(env, call), user, id),
{
    let next = after(env, call);
    law_resolution_is_final(env, call, id);
    if refusal(env, call) is Some {
        law_refused_call_changes_nothing(env, call);
    } else if call is BuyShares {
        assert(call->BuyShares_market_id != id);
    } else if call is Claim {
        if call->Claim_user == user && call->Claim_market_id == id {
            assert(bets_of(next, user, id) == bets_settled(
                bets_of(env, user, id),
                verdict_of(env, id),
            ));
        }
    } else {
        assert(next.persistent.user_bets == env.persistent.user_bets);
    }
    assert(bets_of(next, user, id) == bets_of(env, user, id));
}

/// After an accepted claim and any calls short of a removal, nothing is left to
/// pay for the user's bets.
proof fn lemma_stays_claimed_up(
    contract: Address,
    calls: Seq<TimedCall>,
    claim: int,
    user: Address,
    id: u32,
)
    requires
        0 <= claim < calls.len(),
        calls[claim].call == (Call::Claim { user, market_id: id }),
        accepted(contract, calls, claim),
        forall|i: int|
            claim < i < calls.len() && calls[i].call is RemoveAllPredictions
                ==> !#[trigger] accepted(contract, calls, i),
    ensures
        claimed_up(history(contract, calls), user, id),
    decreases calls.len(),
{
    lemma_last_call(contract, calls);
    let last = calls.len() - 1;
    let env = before(contract, calls, last);
    if claim == last {
        lemma_claim_claims_up(env, user, id);
    } else {
        let rest = calls.drop_last();
        lemma_earlier_calls(contract, calls, claim);
        assert forall|i: int|
            claim < i < rest.len() && rest[i].call is RemoveAllPredictions implies !#[trigger] accepted(
            contract,
            rest,
            i,
        ) by {
            lemma_earlier_calls(contract, calls, i);
        }
        lemma_stays_claimed_up(contract, rest, claim, user, id);
        assert(calls[last].call is RemoveAllPredictions ==> !accepted(contract, calls, last));
        assert(bets_of(env, user, id) == bets_of(history(contract, rest), user, id));
        assert(verdict_of(env, id) == verdict_of(history(contract, rest), id));
        assert(claimed_up(env, user, id));
        lemma_claimed_up_step(env, calls.last().call, user, id);
    }
}

/// A bet is paid once. After an accepted claim and any later calls short of a
/// removal, claiming again pays nothing, moves no tokens and changes no entry;
/// it is published as a claim of nothing. While the protocol is frozen it is
/// refused, as every claim is.
pub proof fn law_bets_are_paid_once(
    contract: Address,
    calls: Seq<TimedCall>,
    claim: int,
    user: Address,
    id: u32,
    now: u64,
)
    requires
        0 <= claim < calls.len(),
        calls[claim].call == (Call::Claim { user, market_id: id }),
        accepted(contract, calls, claim),
        forall|i: int|
            claim < i < calls.len() && calls[i].call is RemoveAllPredictions
                ==> !#[trigger] accepted(contract, calls, i),
        pause_check(history(contract, calls)) is Ok,
    ensures
        ({
            let env = at(history(contract, calls), now);
            let again = Call::Claim { user, market_id: id };
            &&& claim_result(env, user, id) == Ok::<i128, HubError>(0)
            &&& after(env, again).persistent == env.persistent
            &&& after(env, again).instance == env.instance
            &&& requests_of(env, again) == seq![
                Effect::RequireAuth(user),
                persistent_write(DataKey::UserBets(UserMarketKey { user, market_id: id })),
                Effect::Publish(
                    Event::WinningsClaimed(WinningsClaimed { market_id: id, user, amount: 0 }),
                ),
            ]
        }),
{
    lemma_stays_claimed_up(contract, calls, claim, user, id);
    law_pool_books_always_hold(contract, calls);
    let env = at(history(contract, calls), now);
    let again = Call::Claim { user, market_id: id };
    let key = UserMarketKey { user, market_id: id };
    lemma_books_at(history(contract, calls), now);
    assert(bets_of(env, user, id) == bets_of(history(contract, calls), user, id));
    assert(verdict_of(env, id) == verdict_of(history(contract, calls), id));
    assert(market_books(env, id));
    assert(env.persistent.user_bets.contains_key(key));
    assert(after(env, again).persistent.user_bets =~= env.persistent.user_bets);
}

// ------------------------------------------------------------
//  All claims on a market
// ------------------------------------------------------------
/// What accepted claims on market `id` have paid since markets were last
/// removed.
pub open spec fn paid_out(contract: Address, calls: Seq<TimedCall>, id: u32) -> int
    decreases calls.len(),
{
    if calls.len() == 0 {
        0
    } else {
        let earlier = paid_out(contract, calls.drop_last(), id);
        let env = before(contract, calls, calls.len() - 1);
        if !accepted(contract, calls, calls.len() - 1) {
            earlier
        } else {
            match calls.last().call {
                Call::RemoveAllPredictions { .. } => 0,
                Call::Claim { user, market_id } => if market_id == id {
                    earlier + claim_result(env, user, market_id)->Ok_0
                } else {
                    earlier
                },
                _ => earlier,
            }
        }
    }
}

/// What all claims on a market are worth together.
pub open spec fn claims_worth(env: EnvView, id: u32) -> int {
    trail_worth(activity_of(env, id), verdict_of(env, id))
}

/// Resolving a market makes all its claims outstanding.
proof fn lemma_resolved_market_owes_all(env: EnvView, call: Call, id: u32)
    requires
        pool_books(env),
        bet_books(env),
        call is ResolvePrediction,
        call->ResolvePrediction_market_id == id,
        refusal(env, call) is None,
    ensures
        liability(after(env, call), id) == claims_worth(after(env, call), id),
{
    let next = after(env, call);
    let trail = activity_of(env, id);
    let market = env.persistent.predictions[id];
    let user_bets = env.persistent.user_bets;
    assert(known(env, id));
    assert(activity_of(next, id) == trail);
    assert forall|user: Address|
        bets_sound(
            #[trigger] bets_under(user_bets, user, id),
            stakes_by(trail, user),
            market,
            id,
        ) by {
        assert(user_books(env, user, id));
        assert(bets_under(user_bets, user, id) == bets_of(env, user, id));
    }
    lemma_outstanding_at_first(
        trail,
        id,
        market,
        user_bets,
        verdict_of(next, id),
        trail.len() as int,
    );
    assert(trail.take(trail.len() as int) =~= trail);
}

/// A call that is neither a claim on a resolved market nor a removal leaves what
/// is owed for the market and what its claims are worth.
proof fn lemma_resolved_market_step(env: EnvView, call: Call, id: u32)
    requires
        pool_books(env),
        known(env, id),
        env.persistent.predictions[id].is_resolved,
        refusal(env, call) is None,
        !(call is RemoveAllPredictions),
        call is Claim ==> call->Claim_market_id != id,
    ensures
        liability(after(env, call), id) == liability(env, id),
        claims_worth(after(env, call), id) == claims_worth(env, id),
{
    let next = after(env, call);
    law_resolution_is_final(env, call, id);
    assert(market_books(env, id));
    if call is BuyShares {
        assert(call->BuyShares_market_id != id);
        assert(activity_of(next, id) == activity_of(env, id));
    } else if call is CreatePredictions {
        assert(activity_of(next, id) == activity_of(env, id));
    } else {
        assert(next.persistent.market_analytics == env.persistent.market_analytics);
    }
    assert forall|user: Address| #[trigger]
        bets_under(next.persistent.user_bets, user, id) == bets_under(
            env.persistent.user_bets,
            user,
            id,
        ) by {
        if call is BuyShares || call is Claim {
            assert(bets_of(next, user, id) == bets_of(env, user, id));
        } else {
            assert(next.persistent.user_bets == env.persistent.user_bets);
        }
    }
    lemma_liability_carry(env, next, id);
}

/// Once a market is resolved, what claims have paid and what is still owed make
/// up what all claims are worth. Before, nothing is paid.
proof fn lemma_paid_and_owed(contract: Address, calls: Seq<TimedCall>, id: u32)
    ensures
        ({
            let env = history(contract, calls);
            if known(env, id) && env.persistent.predictions[id].is_resolved {
                paid_out(contract, calls, id) + liability(env, id) == claims_worth(env, id)
            } else {
                paid_out(contract, calls, id) == 0
            }
        }),
    decreases calls.len(),
{
    if calls.len() > 0 {
        let rest = calls.drop_last();
        lemma_paid_and_owed(contract, rest, id);
        lemma_last_call(contract, calls);
        let earlier = history(contract, rest);
        let env = before(contract, calls, calls.len() - 1);
        let call = calls.last().call;
        let next = history(contract, calls);
        assert(known(env, id) == known(earlier, id));
        lemma_liability_carry(earlier, env, id);
        assert(claims_worth(env, id) == claims_worth(earlier, id));
        if refusal(env, call) is Some {
            law_refused_call_changes_nothing(env, call);
            lemma_liability_carry(env, next, id);
            assert(claims_worth(next, id) == claims_worth(env, id));
            assert(known(next, id) == known(env, id));
        } else if call is RemoveAllPredictions {
            assert(!known(next, id));
        } else if known(env, id) && env.persistent.predictions[id].is_resolved {
            law_resolution_is_final(env, call, id);
            if call is Claim && call->Claim_market_id == id {
                law_claim_reduces_liability(env, call->Claim_user, id);
                assert(activity_of(next, id) == activity_of(env, id));
            } else {
                lemma_resolved_market_step(env, call, id);
            }
        } else if call is ResolvePrediction && call->ResolvePrediction_market_id == id {
            lemma_resolved_market_owes_all(env, call, id);
        } else {
            lemma_unresolved_market_step(env, call, id);
        }
    }
}

/// A market that is not resolved is so until it is resolved, and cannot be
/// claimed on.
proof fn lemma_unresolved_market_step(env: EnvView, call: Call, id: u32)
    requires
        pool_books(env),
        refusal(env, call) is None,
        !(known(env, id) && env.persistent.predictions[id].is_resolved),
        call is ResolvePrediction ==> call->ResolvePrediction_market_id != id,
    ensures
        call is Claim ==> call->Claim_market_id != id,
        !(known(after(env, call), id) && after(env, call).persistent.predictions[id].is_resolved),
{
    let next = after(env, call);
    if call is CreatePredictions || call is BuyShares || call is ResolvePrediction {
    } else if call is ToggleMarketStatus || call is Claim || call is RemoveAllPredictions {
    } else if call is Initialize {
        assert(!known(next, id));
    } else {
        assert(next.persistent.predictions == env.persistent.predictions);
        assert(prediction_count(next) == prediction_count(env));
    }
}

/// All claims on a resolved market together never pay more than its payout
/// pool. Once nothing is due to anybody they have paid what the claims are
/// worth, in whatever order they came: the whole pool where nobody won, and
/// otherwise less than the pool by less than the number of winning bets.
pub proof fn law_claims_add_up(contract: Address, calls: Seq<TimedCall>, id: u32)
    requires
        known(history(contract, calls), id),
        history(contract, calls).persistent.predictions[id].is_resolved,
    ensures
        ({
            let env = history(contract, calls);
            let paid = paid_out(contract, calls, id);
            let verdict = verdict_of(env, id);
            let pool = env.persistent.payout_pool[id];
            &&& 0 <= paid <= claims_worth(env, id) <= pool
            &&& (forall|user: Address| #[trigger] due_from(env, user, id) == 0) ==> {
                &&& paid == claims_worth(env, id)
                &&& verdict.winners_total == 0 ==> paid
                    == env.persistent.predictions[id].total_pool
                &&& verdict.winners_total > 0 ==> pool - paid < stakes_on(
                    activity_of(env, id),
                    verdict.winning_choice,
                )
            }
        }),
{
    let env = history(contract, calls);
    let trail = activity_of(env, id);
    let verdict = verdict_of(env, id);
    let user_bets = env.persistent.user_bets;
    law_pool_books_always_hold(contract, calls);
    law_bet_books_always_hold(contract, calls);
    lemma_paid_and_owed(contract, calls, id);
    lemma_paid_nonneg(contract, calls, id);
    law_pool_covers_claims(env, id);
    law_claims_use_up_pool(env, id);
    if forall|user: Address| #[trigger] due_from(env, user, id) == 0 {
        assert forall|user: Address|
            bets_sound(
                #[trigger] bets_under(user_bets, user, id),
                stakes_by(trail, user),
                env.persistent.predictions[id],
                id,
            ) && bets_due(bets_under(user_bets, user, id), verdict) == 0 by {
            assert(user_books(env, user, id));
            assert(bets_under(user_bets, user, id) == bets_of(env, user, id));
            assert(due_from(env, user, id) == 0);
        }
        lemma_nothing_outstanding(
            trail,
            id,
            env.persistent.predictions[id],
            user_bets,
            verdict,
            trail.len() as int,
        );
        assert(trail.take(trail.len() as int) =~= trail);
    }
}

/// Claims never pay less than nothing.
proof fn lemma_paid_nonneg(contract: Address, calls: Seq<TimedCall>, id: u32)
    ensures
        0 <= paid_out(contract, calls, id),
    decreases calls.len(),
{
    if calls.len() > 0 {
        lemma_paid_nonneg(contract, calls.drop_last(), id);
        let env = before(contract, calls, calls.len() - 1);
        let call = calls.last().call;
        if call is Claim {
            let bets = bets_of(env, call->Claim_user, call->Claim_market_id);
            lemma_bets_due_grows(bets, verdict_of(env, call->Claim_market_id), 0);
        }
    }
}

} // verus!
