//! What claims pay, to whom, and how often.

use vstd::prelude::*;

use crate::access::pause_check;
use crate::betting::{activity_of, bets_of, market_ids_of};
use crate::env::EnvView;
use crate::error::HubError;
use crate::laws::authority::law_refused_call_changes_nothing;
use crate::laws::books::{
    bet_books, entry, known, law_calls_keep_bet_books, law_calls_keep_pool_books,
    lemma_staked_positive, market_books, pool_books, staked_on, stakes_by, user_books,
};
use crate::laws::calls::{after, refusal, Call};
use crate::laws::shares::{law_share_within_pool, lemma_share_exact};
use crate::laws::solvency::{law_pool_covers_claims, lemma_due_within_outstanding};
use crate::money::fits;
use crate::queries::{claimable, claimable_from, with_bets};
use crate::settlement::{
    bet_settled, bet_worth, bet_worth_fits, bets_due, bets_due_fit, bets_settled, claim_env,
    claim_result, lemma_bets_due_grows, resolved_check, verdict_in_range, verdict_of, Verdict,
};
use crate::types::{Activity, Address, UserBet};

verus! {

// ------------------------------------------------------------
//  Claiming twice
// ------------------------------------------------------------
/// Settled bets are due nothing, and settling them again changes nothing.
pub proof fn lemma_settled_bets(bets: Seq<UserBet>, verdict: Verdict)
    ensures
        bets_due(bets_settled(bets, verdict), verdict) == 0,
        bets_settled(bets_settled(bets, verdict), verdict) == bets_settled(bets, verdict),
    decreases bets.len(),
{
    let settled = bets_settled(bets, verdict);
    assert(bets_settled(settled, verdict) =~= settled);
    if bets.len() > 0 {
        lemma_settled_bets(bets.drop_last(), verdict);
        assert(settled.drop_last() =~= bets_settled(bets.drop_last(), verdict));
        assert(settled.last() == bet_settled(bets.last(), verdict));
    }
}

/// A bet is paid once: claiming again pays nothing and changes no entry.
pub proof fn law_second_claim_pays_nothing(env: EnvView, user: Address, market_id: u32)
    requires
        claim_result(env, user, market_id) is Ok,
    ensures
        ({
            let once = claim_env(env, user, market_id);
            let twice = claim_env(once, user, market_id);
            &&& claim_result(once, user, market_id) == Ok::<i128, HubError>(0)
            &&& twice.persistent == once.persistent
            &&& twice.instance == once.instance
        }),
{
    let once = claim_env(env, user, market_id);
    let twice = claim_env(once, user, market_id);
    let bets = bets_of(env, user, market_id);
    let verdict = verdict_of(env, market_id);
    let settled = bets_settled(bets, verdict);
    lemma_settled_bets(bets, verdict);
    assert(verdict_of(once, market_id) == verdict);
    assert(bets_of(once, user, market_id) == settled);
    assert forall|i: int| 0 <= i < settled.len() && !settled[i].claimed implies bet_worth_fits(
        #[trigger] settled[i],
        verdict,
    ) by {
        assert(settled[i] == bet_settled(bets[i], verdict));
        assert(bet_worth_fits(bets[i], verdict));
    }
    assert(twice.persistent.user_bets =~= once.persistent.user_bets);
}

// ------------------------------------------------------------
//  Who can claim
// ------------------------------------------------------------
/// The bets of a user on a market on record are positive stakes on its choices.
pub proof fn lemma_bets_are_stakes(env: EnvView, user: Address, id: u32, i: int)
    requires
        pool_books(env),
        bet_books(env),
        known(env, id),
        0 <= i < bets_of(env, user, id).len(),
    ensures
        bets_of(env, user, id)[i].amount > 0,
        bets_of(env, user, id)[i].choice < env.persistent.predictions[id].choices.len(),
{
    let trail = activity_of(env, id);
    let mine = |stake: Activity| stake.user == user;
    let stakes = stakes_by(trail, user);
    assert(market_books(env, id));
    assert(user_books(env, user, id));
    trail.lemma_filter_contains_rev(mine, stakes[i]);
    let j = choose|j: int| 0 <= j < trail.len() && trail[j] == stakes[i];
    assert(trail[j].amount > 0);
    assert(bets_of(env, user, id)[i].amount == stakes[i].amount);
}

/// A user's bets do not put more on a choice than the whole trail does.
pub proof fn lemma_stake_within_choice(trail: Seq<Activity>, j: int)
    requires
        0 <= j < trail.len(),
        forall|i: int| 0 <= i < trail.len() ==> (#[trigger] trail[i]).amount > 0,
    ensures
        trail[j].amount <= staked_on(trail, trail[j].choice),
    decreases trail.len(),
{
    let rest = trail.drop_last();
    assert forall|i: int| 0 <= i < rest.len() implies (#[trigger] rest[i]).amount > 0 by {
        assert(rest[i] == trail[i]);
    }
    lemma_staked_positive(rest, trail[j].choice);
    if j < trail.len() - 1 {
        assert(rest[j] == trail[j]);
        lemma_stake_within_choice(rest, j);
        assert(trail.last() == trail[trail.len() - 1]);
    }
}

/// Everybody who bet on a resolved market can claim, as long as the protocol is
/// not frozen. The claim succeeds unless
/// the product of a winning stake and the payout pool is no amount any more,
/// and pays at most the payout pool.
pub proof fn law_bettor_can_claim(env: EnvView, user: Address, id: u32)
    requires
        pause_check(env) is Ok,
        pool_books(env),
        bet_books(env),
        known(env, id),
        env.persistent.predictions[id].is_resolved,
        bets_of(env, user, id).len() > 0,
        forall|i: int|
            0 <= i < bets_of(env, user, id).len() && !bets_of(env, user, id)[i].claimed && bets_of(
                env,
                user,
                id,
            )[i].choice == verdict_of(env, id).winning_choice ==> fits(
                (#[trigger] bets_of(env, user, id)[i]).amount * env.persistent.payout_pool[id],
            ),
    ensures
        claim_result(env, user, id) == Ok::<i128, HubError>(
            bets_due(bets_of(env, user, id), verdict_of(env, id)) as i128,
        ),
        0 <= bets_due(bets_of(env, user, id), verdict_of(env, id)) <= env.persistent.payout_pool[id],
{
    let bets = bets_of(env, user, id);
    let verdict = verdict_of(env, id);
    let market = env.persistent.predictions[id];
    let trail = activity_of(env, id);
    assert(market_books(env, id));
    assert(market.choices[verdict.winning_choice as int].staked_amount == staked_on(
        trail,
        verdict.winning_choice,
    ));
    assert forall|i: int| 0 <= i < trail.len() implies (#[trigger] trail[i]).amount > 0 by {}
    lemma_staked_positive(trail, verdict.winning_choice);
    assert forall|i: int| 0 <= i < bets.len() && !bets[i].claimed implies bet_worth_fits(
        #[trigger] bets[i],
        verdict,
    ) by {
        lemma_bets_are_stakes(env, user, id, i);
        if verdict.winners_total != 0 && bets[i].choice == verdict.winning_choice {
            let mine = |stake: Activity| stake.user == user;
            let stakes = stakes_by(trail, user);
            assert(user_books(env, user, id));
            trail.lemma_filter_contains_rev(mine, stakes[i]);
            let j = choose|j: int| 0 <= j < trail.len() && trail[j] == stakes[i];
            lemma_stake_within_choice(trail, j);
            law_share_within_pool(
                bets[i].amount as int,
                verdict.payout_pool as int,
                verdict.winners_total as int,
            );
        }
    }
    lemma_bets_due_grows(bets, verdict, 0);
    lemma_due_within_pool(env, user, id);
    assert(env.instance.admin is Some);
}

/// What is due to one user is part of what is owed for the market.
proof fn lemma_due_within_pool(env: EnvView, user: Address, id: u32)
    requires
        pool_books(env),
        bet_books(env),
        known(env, id),
        env.persistent.predictions[id].is_resolved,
    ensures
        bets_due(bets_of(env, user, id), verdict_of(env, id)) <= env.persistent.payout_pool[id],
{
    law_pool_covers_claims(env, id);
    assert(user_books(env, user, id));
    lemma_due_within_outstanding(env, user, id);
}

// ------------------------------------------------------------
//  What a claim pays
// ------------------------------------------------------------
/// The stakes of the bets that have not been claimed.
pub open spec fn unclaimed_stakes(bets: Seq<UserBet>) -> int
    decreases bets.len(),
{
    if bets.len() == 0 {
        0
    } else if bets.last().claimed {
        unclaimed_stakes(bets.drop_last())
    } else {
        unclaimed_stakes(bets.drop_last()) + bets.last().amount
    }
}

/// Where nobody won, all positive stakes are due in full.
proof fn lemma_refund(bets: Seq<UserBet>, verdict: Verdict)
    requires
        verdict.winners_total == 0,
        forall|i: int| 0 <= i < bets.len() ==> (#[trigger] bets[i]).amount > 0,
    ensures
        bets_due(bets, verdict) == unclaimed_stakes(bets),
    decreases bets.len(),
{
    if bets.len() > 0 {
        let rest = bets.drop_last();
        assert forall|i: int| 0 <= i < rest.len() implies (#[trigger] rest[i]).amount > 0 by {
            assert(rest[i] == bets[i]);
        }
        assert(bets.last() == bets[bets.len() - 1]);
        lemma_refund(rest, verdict);
    }
}

/// When nobody backed the winning choice every stake is refunded in full: the
/// market keeps its whole pool, and the claim of each user who bet on it
/// succeeds and pays the sum of their stakes that were not refunded before.
pub proof fn law_refund_in_full(env: EnvView, user: Address, id: u32)
    requires
        pause_check(env) is Ok,
        pool_books(env),
        bet_books(env),
        known(env, id),
        env.persistent.predictions[id].is_resolved,
        verdict_of(env, id).winners_total == 0,
        bets_of(env, user, id).len() > 0,
    ensures
        env.persistent.payout_pool[id] == env.persistent.predictions[id].total_pool,
        claim_result(env, user, id) == Ok::<i128, HubError>(
            unclaimed_stakes(bets_of(env, user, id)) as i128,
        ),
        0 <= unclaimed_stakes(bets_of(env, user, id))
            <= env.persistent.predictions[id].total_pool,
{
    let bets = bets_of(env, user, id);
    let verdict = verdict_of(env, id);
    let market = env.persistent.predictions[id];
    assert(market_books(env, id));
    assert(market.choices[verdict.winning_choice as int].staked_amount == staked_on(
        activity_of(env, id),
        verdict.winning_choice,
    ));
    assert forall|i: int| 0 <= i < bets.len() implies (#[trigger] bets[i]).amount > 0 by {
        lemma_bets_are_stakes(env, user, id, i);
    }
    lemma_refund(bets, verdict);
    lemma_bets_due_grows(bets, verdict, 0);
    lemma_due_within_pool(env, user, id);
}

/// Bets on other choices are due nothing where somebody won.
proof fn lemma_losing_bets(bets: Seq<UserBet>, verdict: Verdict)
    requires
        verdict.winners_total != 0,
        forall|i: int|
            0 <= i < bets.len() ==> (#[trigger] bets[i]).choice != verdict.winning_choice,
    ensures
        bets_due(bets, verdict) == 0,
        bets_settled(bets, verdict) == bets,
    decreases bets.len(),
{
    assert(bets_settled(bets, verdict) =~= bets);
    if bets.len() > 0 {
        let rest = bets.drop_last();
        assert forall|i: int| 0 <= i < rest.len() implies (#[trigger] rest[i]).choice
            != verdict.winning_choice by {
            assert(rest[i] == bets[i]);
        }
        assert(bets.last() == bets[bets.len() - 1]);
        lemma_losing_bets(rest, verdict);
    }
}

/// Where somebody won, a user who did not back the winning choice gets nothing.
pub proof fn law_losers_get_nothing(env: EnvView, user: Address, id: u32)
    requires
        pause_check(env) is Ok,
        resolved_check(env, id) is Ok,
        verdict_in_range(env, id),
        verdict_of(env, id).winners_total != 0,
        bets_of(env, user, id).len() > 0,
        forall|i: int|
            0 <= i < bets_of(env, user, id).len() ==> (#[trigger] bets_of(env, user, id)[i]).choice
                != verdict_of(env, id).winning_choice,
    ensures
        claim_result(env, user, id) == Ok::<i128, HubError>(0),
        claim_env(env, user, id).persistent == env.persistent,
{
    let bets = bets_of(env, user, id);
    lemma_losing_bets(bets, verdict_of(env, id));
    assert(claim_env(env, user, id).persistent.user_bets =~= env.persistent.user_bets);
}

/// A user whose one unclaimed bet is all that backs the winning choice takes
/// the whole payout pool.
pub proof fn law_lone_winner_takes_pool(env: EnvView, user: Address, id: u32)
    requires
        pause_check(env) is Ok,
        resolved_check(env, id) is Ok,
        verdict_in_range(env, id),
        env.instance.protocol_token is Some,
        bets_of(env, user, id).len() == 1,
        !bets_of(env, user, id)[0].claimed,
        bets_of(env, user, id)[0].choice == verdict_of(env, id).winning_choice,
        bets_of(env, user, id)[0].amount == verdict_of(env, id).winners_total,
        verdict_of(env, id).winners_total > 0,
        verdict_of(env, id).payout_pool >= 0,
        fits(verdict_of(env, id).winners_total * verdict_of(env, id).payout_pool),
    ensures
        claim_result(env, user, id) == Ok::<i128, HubError>(verdict_of(env, id).payout_pool),
{
    let bets = bets_of(env, user, id);
    let verdict = verdict_of(env, id);
    law_share_within_pool(
        bets[0].amount as int,
        verdict.payout_pool as int,
        verdict.winners_total as int,
    );
    assert(bets.drop_last().len() == 0);
    assert(bets_due(bets.drop_last(), verdict) == 0);
    assert(bets.last() == bets[0]);
    assert(bets_due(bets, verdict) == verdict.payout_pool);
}

/// A claim on one market changes nothing for another user, nor for another
/// market.
pub proof fn law_claims_are_independent(
    env: EnvView,
    user: Address,
    id: u32,
    other_user: Address,
    other_id: u32,
)
    requires
        other_user != user || other_id != id,
    ensures
        claim_result(claim_env(env, user, id), other_user, other_id) == claim_result(
            env,
            other_user,
            other_id,
        ),
{
    let next = claim_env(env, user, id);
    assert(bets_of(next, other_user, other_id) == bets_of(env, other_user, other_id));
    assert(verdict_of(next, other_id) == verdict_of(env, other_id));
}

// ------------------------------------------------------------
//  Claimable amounts
// ------------------------------------------------------------
/// What a claim of `user` on market `id` would pay now.
pub open spec fn due_from(env: EnvView, user: Address, id: u32) -> int {
    if env.persistent.predictions.contains_key(id) && env.persistent.predictions[id].is_resolved {
        bets_due(bets_of(env, user, id), verdict_of(env, id))
    } else {
        0
    }
}

/// What claims of `user` on the markets `ids` would pay now.
pub open spec fn due_from_all(env: EnvView, user: Address, ids: Seq<u32>) -> int
    decreases ids.len(),
{
    if ids.len() == 0 {
        0
    } else {
        due_from_all(env, user, ids.drop_last()) + due_from(env, user, ids.last())
    }
}

/// Bets that are worth no less than nothing bring what is due for them.
proof fn lemma_with_bets_is_due(total: int, bets: Seq<UserBet>, verdict: Verdict)
    requires
        forall|i: int| 0 <= i < bets.len() ==> bet_worth(#[trigger] bets[i], verdict) >= 0,
    ensures
        with_bets(total, bets, verdict) is Ok ==> with_bets(total, bets, verdict) == Ok::<
            int,
            HubError,
        >(total + bets_due(bets, verdict)),
        fits(total) && total >= 0 && bets_due_fit(bets, verdict) && fits(
            total + bets_due(bets, verdict),
        ) ==> with_bets(total, bets, verdict) is Ok,
        with_bets(total, bets, verdict) is Ok ==> forall|i: int|
            0 <= i < bets.len() && !bets[i].claimed ==> bet_worth_fits(#[trigger] bets[i], verdict),
        with_bets(total, bets, verdict) is Ok && fits(total) ==> fits(
            total + bets_due(bets, verdict),
        ),
    decreases bets.len(),
{
    if bets.len() > 0 {
        let rest = bets.drop_last();
        assert forall|i: int| 0 <= i < rest.len() implies bet_worth(#[trigger] rest[i], verdict)
            >= 0 by {
            assert(rest[i] == bets[i]);
        }
        assert(bets.last() == bets[bets.len() - 1]);
        lemma_with_bets_is_due(total, rest, verdict);
        lemma_bets_due_grows(bets, verdict, bets.len() - 1);
        assert(bets.take(bets.len() - 1) =~= rest);
        if bets_due_fit(bets, verdict) {
            assert forall|i: int| 0 <= i < rest.len() && !rest[i].claimed implies bet_worth_fits(
                #[trigger] rest[i],
                verdict,
            ) by {
                assert(rest[i] == bets[i]);
            }
        }
        if with_bets(total, bets, verdict) is Ok {
            assert forall|i: int| 0 <= i < bets.len() && !bets[i].claimed implies bet_worth_fits(
                #[trigger] bets[i],
                verdict,
            ) by {
                if i < rest.len() {
                    assert(rest[i] == bets[i]);
                }
            }
        }
    }
}

/// No bet on a market on record is worth less than nothing.
proof fn lemma_worth_nonneg(env: EnvView, user: Address, id: u32)
    requires
        pool_books(env),
        bet_books(env),
        known(env, id),
        env.persistent.predictions[id].is_resolved,
    ensures
        forall|i: int|
            0 <= i < bets_of(env, user, id).len() ==> bet_worth(
                #[trigger] bets_of(env, user, id)[i],
                verdict_of(env, id),
            ) >= 0,
{
    let bets = bets_of(env, user, id);
    let verdict = verdict_of(env, id);
    let trail = activity_of(env, id);
    let market = env.persistent.predictions[id];
    assert(market_books(env, id));
    assert(market.choices[verdict.winning_choice as int].staked_amount == staked_on(
        trail,
        verdict.winning_choice,
    ));
    assert forall|i: int| 0 <= i < trail.len() implies (#[trigger] trail[i]).amount > 0 by {}
    lemma_staked_positive(trail, verdict.winning_choice);
    assert forall|i: int| 0 <= i < bets.len() implies bet_worth(#[trigger] bets[i], verdict)
        >= 0 by {
        lemma_bets_are_stakes(env, user, id, i);
        if verdict.winners_total != 0 {
            lemma_share_exact(
                bets[i].amount as int,
                verdict.payout_pool as int,
                verdict.winners_total as int,
            );
        }
    }
}

/// The claimable amount over some of a user's markets is what claims on them
/// would pay.
proof fn lemma_claimable_from_is_due(env: EnvView, user: Address, ids: Seq<u32>)
    requires
        pool_books(env),
        bet_books(env),
    ensures
        claimable_from(env, user, ids) is Ok ==> claimable_from(env, user, ids) == Ok::<
            int,
            HubError,
        >(due_from_all(env, user, ids)),
        0 <= due_from_all(env, user, ids),
        claimable_from(env, user, ids) is Ok ==> fits(due_from_all(env, user, ids)),
    decreases ids.len(),
{
    if ids.len() > 0 {
        lemma_claimable_from_is_due(env, user, ids.drop_last());
        let id = ids.last();
        if env.persistent.predictions.contains_key(id) && env.persistent.predictions[id].is_resolved {
            assert(market_books(env, id));
            lemma_worth_nonneg(env, user, id);
            lemma_bets_due_grows(bets_of(env, user, id), verdict_of(env, id), 0);
            lemma_with_bets_is_due(
                due_from_all(env, user, ids.drop_last()),
                bets_of(env, user, id),
                verdict_of(env, id),
            );
        }
    }
}

/// The amount a user can still claim is the sum of what claims on all the
/// markets they have bet on would pay.
pub proof fn law_claimable_is_sum_of_claims(env: EnvView, user: Address)
    requires
        pool_books(env),
        bet_books(env),
        claimable(env, user) is Ok,
    ensures
        claimable(env, user) == Ok::<int, HubError>(
            due_from_all(env, user, market_ids_of(env, user)),
        ),
{
    lemma_claimable_from_is_due(env, user, market_ids_of(env, user));
}

/// An error in a part is an error of the whole.
proof fn lemma_claimable_part(env: EnvView, user: Address, ids: Seq<u32>, n: int)
    requires
        0 <= n <= ids.len(),
        claimable_from(env, user, ids) is Ok,
    ensures
        claimable_from(env, user, ids.take(n)) is Ok,
    decreases ids.len(),
{
    if n == ids.len() {
        assert(ids.take(n) =~= ids);
    } else {
        assert(ids.drop_last().take(n) =~= ids.take(n));
        lemma_claimable_part(env, user, ids.drop_last(), n);
    }
}

/// When the claimable amount of a user can be computed, each of the claims it
/// is made of succeeds and pays its part.
pub proof fn law_claimable_amounts_can_be_claimed(env: EnvView, user: Address, id: u32)
    requires
        pause_check(env) is Ok,
        pool_books(env),
        bet_books(env),
        claimable(env, user) is Ok,
        known(env, id),
        env.persistent.predictions[id].is_resolved,
        bets_of(env, user, id).len() > 0,
    ensures
        claim_result(env, user, id) == Ok::<i128, HubError>(due_from(env, user, id) as i128),
        0 <= due_from(env, user, id) <= claimable(env, user)->Ok_0,
{
    let ids = market_ids_of(env, user);
    assert(ids.contains(id));
    let n = choose|n: int| 0 <= n < ids.len() && ids[n] == id;
    let bets = bets_of(env, user, id);
    let verdict = verdict_of(env, id);
    lemma_claimable_part(env, user, ids, n + 1);
    assert(ids.take(n + 1).drop_last() =~= ids.take(n));
    assert(ids.take(n + 1).last() == id);
    lemma_claimable_from_is_due(env, user, ids.take(n));
    lemma_worth_nonneg(env, user, id);
    assert(market_books(env, id));
    lemma_with_bets_is_due(due_from_all(env, user, ids.take(n)), bets, verdict);
    lemma_bets_due_grows(bets, verdict, 0);
    lemma_due_within_pool(env, user, id);
    lemma_claimable_from_is_due(env, user, ids);
    lemma_part_of_due(env, user, ids, n);
    assert(env.instance.admin is Some);
}

/// What is due from one market is part of what is due from all.
proof fn lemma_part_of_due(env: EnvView, user: Address, ids: Seq<u32>, n: int)
    requires
        pool_books(env),
        bet_books(env),
        0 <= n < ids.len(),
    ensures
        due_from(env, user, ids[n]) <= due_from_all(env, user, ids),
    decreases ids.len(),
{
    let rest = ids.drop_last();
    lemma_claimable_from_is_due(env, user, rest);
    if n < rest.len() {
        assert(rest[n] == ids[n]);
        lemma_part_of_due(env, user, rest, n);
        let id = ids.last();
        lemma_bets_due_grows(bets_of(env, user, id), verdict_of(env, id), 0);
    }
}

/// A claim on one market takes its part, and no other, off the sum.
proof fn lemma_due_after_claim(env: EnvView, user: Address, id: u32, ids: Seq<u32>)
    requires
        claim_result(env, user, id) is Ok,
        ids.no_duplicates(),
    ensures
        due_from_all(claim_env(env, user, id), user, ids) == due_from_all(env, user, ids)
            - if ids.contains(id) {
            due_from(env, user, id)
        } else {
            0
        },
    decreases ids.len(),
{
    let next = claim_env(env, user, id);
    if ids.len() > 0 {
        let rest = ids.drop_last();
        let last = ids.last();
        assert(rest.no_duplicates()) by {
            assert forall|i: int, j: int|
                0 <= i < rest.len() && 0 <= j < rest.len() && i != j implies rest[i] != rest[j] by {
                assert(rest[i] == ids[i] && rest[j] == ids[j]);
            }
        }
        lemma_due_after_claim(env, user, id, rest);
        assert(last == ids[ids.len() - 1]);
        assert(verdict_of(next, last) == verdict_of(env, last));
        if last == id {
            lemma_settled_bets(bets_of(env, user, id), verdict_of(env, id));
            assert(bets_of(next, user, id) == bets_settled(
                bets_of(env, user, id),
                verdict_of(env, id),
            ));
            assert(!rest.contains(id)) by {
                if rest.contains(id) {
                    let i = choose|i: int| 0 <= i < rest.len() && rest[i] == id;
                    assert(ids[i] == ids[ids.len() - 1]);
                }
            }
            assert(ids.contains(id));
        } else {
            assert(bets_of(next, user, last) == bets_of(env, user, last));
            assert(ids.contains(id) == rest.contains(id)) by {
                if rest.contains(id) {
                    let i = choose|i: int| 0 <= i < rest.len() && rest[i] == id;
                    assert(ids[i] == id);
                }
                if ids.contains(id) {
                    let i = choose|i: int| 0 <= i < ids.len() && ids[i] == id;
                    assert(rest[i] == id);
                }
            }
        }
    }
}

/// After a claim the claimable amount can still be computed.
proof fn lemma_claimable_after_claim(env: EnvView, user: Address, id: u32, ids: Seq<u32>)
    requires
        pool_books(env),
        bet_books(env),
        pool_books(claim_env(env, user, id)),
        bet_books(claim_env(env, user, id)),
        claim_result(env, user, id) is Ok,
        claimable_from(env, user, ids) is Ok,
    ensures
        claimable_from(claim_env(env, user, id), user, ids) is Ok,
        due_from_all(claim_env(env, user, id), user, ids) <= due_from_all(env, user, ids),
    decreases ids.len(),
{
    let next = claim_env(env, user, id);
    if ids.len() > 0 {
        let rest = ids.drop_last();
        let last = ids.last();
        lemma_claimable_after_claim(env, user, id, rest);
        lemma_claimable_from_is_due(env, user, rest);
        lemma_claimable_from_is_due(env, user, ids);
        lemma_claimable_from_is_due(next, user, rest);
        if env.persistent.predictions.contains_key(last)
            && env.persistent.predictions[last].is_resolved {
            assert(market_books(env, last));
            let verdict = verdict_of(env, last);
            let bets = bets_of(env, user, last);
            let later = bets_of(next, user, last);
            assert(verdict_of(next, last) == verdict);
            lemma_worth_nonneg(env, user, last);
            lemma_worth_nonneg(next, user, last);
            lemma_bets_due_grows(later, verdict, 0);
            lemma_bets_due_grows(bets, verdict, 0);
            lemma_with_bets_is_due(due_from_all(env, user, rest), bets, verdict);
            if last == id {
                lemma_settled_bets(bets, verdict);
                assert(later == bets_settled(bets, verdict));
                assert forall|i: int| 0 <= i < later.len() && !later[i].claimed implies
                    bet_worth_fits(#[trigger] later[i], verdict) by {
                    assert(later[i] == bet_settled(bets[i], verdict));
                    assert(bet_worth_fits(bets[i], verdict));
                }
            } else {
                assert(later == bets);
            }
            lemma_with_bets_is_due(due_from_all(next, user, rest), later, verdict);
        }
    }
}

/// A claim takes exactly what it pays off the claimable amount.
pub proof fn law_claim_reduces_claimable(env: EnvView, user: Address, id: u32)
    requires
        pool_books(env),
        bet_books(env),
        claimable(env, user) is Ok,
        claim_result(env, user, id) is Ok,
    ensures
        claimable(claim_env(env, user, id), user) == Ok::<int, HubError>(
            claimable(env, user)->Ok_0 - claim_result(env, user, id)->Ok_0,
        ),
{
    let call = Call::Claim { user, market_id: id };
    let next = claim_env(env, user, id);
    let ids = market_ids_of(env, user);
    assert(next == after(env, call));
    law_calls_keep_pool_books(env, call);
    law_calls_keep_bet_books(env, call);
    assert(bets_of(env, user, id).len() > 0);
    assert(ids.contains(id));
    assert(ids.no_duplicates());
    assert(market_ids_of(next, user) == ids);
    lemma_due_after_claim(env, user, id, ids);
    lemma_claimable_after_claim(env, user, id, ids);
    lemma_claimable_from_is_due(env, user, ids);
    lemma_claimable_from_is_due(next, user, ids);
}

/// What a user can still claim from some markets is left alone by another user's
/// claim.
proof fn lemma_claimable_from_others(
    env: EnvView,
    user: Address,
    ids: Seq<u32>,
    other: Address,
    id: u32,
)
    requires
        other != user,
    ensures
        claimable_from(claim_env(env, other, id), user, ids) == claimable_from(env, user, ids),
    decreases ids.len(),
{
    if ids.len() > 0 {
        let next = claim_env(env, other, id);
        lemma_claimable_from_others(env, user, ids.drop_last(), other, id);
        assert(bets_of(next, user, ids.last()) == bets_of(env, user, ids.last()));
        assert(verdict_of(next, ids.last()) == verdict_of(env, ids.last()));
    }
}

/// Another user's claim leaves the claimable amount as it was.
pub proof fn law_claims_of_others_leave_claimable(
    env: EnvView,
    user: Address,
    other: Address,
    id: u32,
)
    requires
        other != user,
    ensures
        claimable(claim_env(env, other, id), user) == claimable(env, user),
{
    let next = claim_env(env, other, id);
    assert(market_ids_of(next, user) == market_ids_of(env, user));
    lemma_claimable_from_others(env, user, market_ids_of(env, user), other, id);
}

/// Once every market has been claimed, nothing is left to claim.
pub proof fn law_nothing_claimable_after_claims(env: EnvView, user: Address)
    requires
        pool_books(env),
        bet_books(env),
        claimable(env, user) is Ok,
        forall|id: u32| #[trigger] due_from(env, user, id) == 0,
    ensures
        claimable(env, user) == Ok::<int, HubError>(0),
{
    lemma_claimable_from_is_due(env, user, market_ids_of(env, user));
    lemma_nothing_due(env, user, market_ids_of(env, user));
}

/// Nothing due from each market is nothing due from all.
proof fn lemma_nothing_due(env: EnvView, user: Address, ids: Seq<u32>)
    requires
        forall|id: u32| #[trigger] due_from(env, user, id) == 0,
    ensures
        due_from_all(env, user, ids) == 0,
    decreases ids.len(),
{
    if ids.len() > 0 {
        lemma_nothing_due(env, user, ids.drop_last());
    }
}

// ------------------------------------------------------------
//  Finality
// ------------------------------------------------------------
/// Two worlds agree on the outcome of market `id`.
pub open spec fn same_outcome_of(env: EnvView, next: EnvView, id: u32) -> bool {
    let market = env.persistent.predictions[id];
    let later = next.persistent.predictions[id];
    &&& known(next, id)
    &&& later.is_resolved == market.is_resolved
    &&& later.winning_choice == market.winning_choice
    &&& later.choices == market.choices
    &&& later.total_pool == market.total_pool
    &&& entry(next.persistent.payout_pool, id) == entry(env.persistent.payout_pool, id)
    &&& verdict_of(next, id) == verdict_of(env, id)
}

/// A resolution is final: until all markets are removed, no call changes who
/// won, what was staked, or what there is to share out.
pub proof fn law_resolution_is_final(env: EnvView, call: Call, id: u32)
    requires
        pool_books(env),
        known(env, id),
        env.persistent.predictions[id].is_resolved,
        call is RemoveAllPredictions ==> refusal(env, call) is Some,
    ensures
        same_outcome_of(env, after(env, call), id),
{
    let next = after(env, call);
    assert(env.instance.admin is Some);
    if refusal(env, call) is Some {
        law_refused_call_changes_nothing(env, call);
        assert(same_outcome_of(env, next, id));
    } else if call is CreatePredictions {
        assert(same_outcome_of(env, next, id));
    } else if call is BuyShares {
        assert(same_outcome_of(env, next, id));
    } else if call is ResolvePrediction {
        assert(same_outcome_of(env, next, id));
    } else if call is ToggleMarketStatus {
        assert(same_outcome_of(env, next, id));
    } else {
        assert(next.persistent.predictions == env.persistent.predictions);
        assert(next.persistent.payout_pool == env.persistent.payout_pool);
        assert(next.instance.prediction_count == env.instance.prediction_count);
    }
}

} // verus!
