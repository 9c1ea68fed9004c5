//! What bettors are paid, in terms of the market on record: its winning choice,
//! its stakes and its payout pool.

use vstd::prelude::*;

use crate::betting::{activity_of, bets_of, market_ids_of};
use crate::env::{Effect, EnvView, PersistentView};
use crate::error::HubError;
use crate::events::{Event, WinningsClaimed};
use crate::laws::books::{
    bet_books, known, lemma_staked_positive, market_books, pool_books, staked_on, stakes_by,
    user_books,
};
use crate::laws::calls::{at, Call};
use crate::laws::claims::{
    law_bettor_can_claim, law_resolution_is_final, lemma_bets_are_stakes, lemma_stake_within_choice,
};
use crate::laws::history::{
    history, law_bet_books_always_hold, law_pool_books_always_hold, lemma_books_at, TimedCall,
};
use crate::laws::records::{accepted, before, lemma_earlier_calls, lemma_last_call};
use crate::laws::shares::lemma_share_exact;
use crate::laws::terms::{on, only_asks, stores};
use crate::money::fits;
use crate::queries::{claimable, claimable_from, with_bet, with_bets, with_market};
use crate::settlement::{
    bet_due, bet_settled, bet_worth, bet_worth_fits, bets_due, bets_due_fit, bets_settled,
    claim_env, claim_result, lemma_bets_due_grows, verdict_of, Verdict,
};
use crate::types::{Activity, Address, DataKey, UserBet, UserMarketKey};

verus! {

// ------------------------------------------------------------
//  Pieces of a claim
// ------------------------------------------------------------
/// A verdict is the winning choice on record, what the market has on record as
/// staked on it, and the payout pool on record.
pub proof fn law_verdict_is_as_recorded(env: EnvView, id: u32)
    requires
        env.persistent.predictions[id].winning_choice is Some,
    ensures
        ({
            let market = env.persistent.predictions[id];
            let winner = market.winning_choice->Some_0;
            let verdict = verdict_of(env, id);
            &&& verdict.winning_choice == winner
            &&& verdict.winners_total == market.choices[winner as int].staked_amount
            &&& env.persistent.payout_pool.contains_key(id) ==> verdict.payout_pool
                == env.persistent.payout_pool[id]
            &&& !env.persistent.payout_pool.contains_key(id) ==> verdict.payout_pool == 0
        }),
{
}

/// A bet is due its worth as long as it is not claimed and worth something, and
/// a list of bets is due the sum. Paying a bet marks it as claimed and changes
/// nothing else of it.
pub proof fn law_due_is_unclaimed_worth(bets: Seq<UserBet>, bet: UserBet, verdict: Verdict)
    ensures
        bet.claimed ==> bet_due(bet, verdict) == 0,
        !bet.claimed && bet_worth(bet, verdict) > 0 ==> bet_due(bet, verdict) == bet_worth(
            bet,
            verdict,
        ),
        !bet.claimed && bet_worth(bet, verdict) <= 0 ==> bet_due(bet, verdict) == 0,
        bets_due(Seq::<UserBet>::empty(), verdict) == 0,
        bets_due(bets.push(bet), verdict) == bets_due(bets, verdict) + bet_due(bet, verdict),
        bet_settled(bet, verdict) == (UserBet {
            claimed: bet.claimed || bet_worth(bet, verdict) > 0,
            ..bet
        }),
        bets_settled(bets, verdict).len() == bets.len(),
        forall|i: int|
            0 <= i < bets.len() ==> #[trigger] bets_settled(bets, verdict)[i] == bet_settled(
                bets[i],
                verdict,
            ),
        bets_due_fit(bets, verdict) <==> {
            &&& forall|i: int|
                0 <= i < bets.len() && !bets[i].claimed ==> bet_worth_fits(
                    #[trigger] bets[i],
                    verdict,
                )
            &&& bets_due(bets, verdict) <= i128::MAX
        },
{
    assert(bets.push(bet).drop_last() =~= bets);
    lemma_bets_due_grows(bets, verdict, 0);
}

/// A claim succeeds exactly when the protocol is not frozen, the market is on
/// record and resolved for a choice it has, the user has bets on it, what is due
/// for them can be computed, and there is a token where something is due. It
/// then pays what is due. Each refusal has its own reason, in this order.
pub proof fn law_claim_is_accepted_on_these_terms(env: EnvView, user: Address, id: u32)
    ensures
        ({
            let result = claim_result(env, user, id);
            let market = env.persistent.predictions[id];
            let bets = bets_of(env, user, id);
            let verdict = verdict_of(env, id);
            let found = !on(env.instance.is_paused) && env.persistent.predictions.contains_key(id);
            let decided = found && market.is_resolved && market.winning_choice is Some;
            let backed = decided && bets.len() > 0;
            let in_range = backed && market.winning_choice->Some_0 < market.choices.len();
            let computed = in_range && bets_due_fit(bets, verdict);
            let payable = bets_due(bets, verdict) == 0 || env.instance.protocol_token is Some;
            &&& on(env.instance.is_paused) ==> result == Err::<i128, HubError>(
                HubError::ContractPaused,
            )
            &&& !on(env.instance.is_paused) && !found ==> result == Err::<i128, HubError>(
                HubError::MarketNotFound,
            )
            &&& found && !market.is_resolved ==> result == Err::<i128, HubError>(
                HubError::MarketNotResolved,
            )
            &&& found && market.is_resolved && market.winning_choice is None ==> result == Err::<
                i128,
                HubError,
            >(HubError::NoWinningChoice)
            &&& decided && !backed ==> result == Err::<i128, HubError>(HubError::NoBets)
            &&& backed && !in_range ==> result == Err::<i128, HubError>(HubError::ChoiceOutOfRange)
            &&& in_range && !computed ==> result == Err::<i128, HubError>(HubError::Overflow)
            &&& computed && !payable ==> result == Err::<i128, HubError>(HubError::NotInitialized)
            &&& computed && payable ==> result is Ok && result->Ok_0 == bets_due(bets, verdict)
        }),
{
    lemma_bets_due_grows(bets_of(env, user, id), verdict_of(env, id), 0);
}

/// An accepted claim marks the bets it pays, pays the user from the contract
/// where there is something to pay, and publishes the amount. Nothing else
/// changes. A refused claim changes no entry.
pub proof fn law_claim_changes_these(env: EnvView, user: Address, id: u32)
    ensures
        ({
            let result = claim_result(env, user, id);
            let next = claim_env(env, user, id);
            let key = UserMarketKey { user, market_id: id };
            let bets = bets_of(env, user, id);
            let market = env.persistent.predictions[id];
            let amount = result->Ok_0;
            let claimed = Effect::Publish(
                Event::WinningsClaimed(WinningsClaimed { market_id: id, user, amount }),
            );
            &&& result is Ok ==> {
                &&& next.instance == env.instance
                &&& next.persistent == (PersistentView {
                    user_bets: env.persistent.user_bets.insert(key, bets_of(next, user, id)),
                    ..env.persistent
                })
                &&& bets_of(next, user, id).len() == bets.len()
                &&& forall|i: int|
                    0 <= i < bets.len() ==> #[trigger] bets_of(next, user, id)[i] == (UserBet {
                        claimed: bets[i].claimed || bet_worth(bets[i], verdict_of(env, id)) > 0,
                        ..bets[i]
                    })
                &&& next.timestamp == env.timestamp
                &&& next.contract == env.contract
                &&& amount >= 0
                &&& amount > 0 ==> next.effects == env.effects + seq![
                    Effect::RequireAuth(user),
                    stores(DataKey::UserBets(key)),
                    Effect::Transfer {
                        token: env.instance.protocol_token->Some_0,
                        from: env.contract,
                        to: user,
                        amount,
                    },
                    claimed,
                ]
                &&& amount == 0 ==> next.effects == env.effects + seq![
                    Effect::RequireAuth(user),
                    stores(DataKey::UserBets(key)),
                    claimed,
                ]
            }
            &&& result is Err ==> only_asks(
                env,
                next,
                if on(env.instance.is_paused) || !env.persistent.predictions.contains_key(id)
                    || !market.is_resolved || market.winning_choice is None {
                    Seq::empty()
                } else {
                    seq![Effect::RequireAuth(user)]
                },
            )
        }),
{
    lemma_bets_due_grows(bets_of(env, user, id), verdict_of(env, id), 0);
}

// ------------------------------------------------------------
//  Payments
// ------------------------------------------------------------
/// What a bet is paid in a market won by `winner`, with `backing` staked on it
/// and `pool` to share out: the stake where nothing is staked on the winner, the
/// proportional part of the pool rounded down where the bet is on the winner,
/// and nothing otherwise or once it is claimed.
pub open spec fn payment(bet: UserBet, winner: u32, backing: i128, pool: i128) -> int {
    if bet.claimed {
        0
    } else if backing == 0 {
        bet.amount as int
    } else if bet.choice == winner {
        bet.amount * pool / backing as int
    } else {
        0
    }
}

/// What a list of bets is paid.
pub open spec fn payments(bets: Seq<UserBet>, winner: u32, backing: i128, pool: i128) -> int
    decreases bets.len(),
{
    if bets.len() == 0 {
        0
    } else {
        payments(bets.drop_last(), winner, backing, pool) + payment(
            bets.last(),
            winner,
            backing,
            pool,
        )
    }
}

/// Whether every unclaimed bet on the winner has a product with the pool that is
/// an amount.
pub open spec fn products_fit(bets: Seq<UserBet>, winner: u32, pool: i128) -> bool {
    forall|i: int|
        0 <= i < bets.len() && !bets[i].claimed && bets[i].choice == winner ==> (
        #[trigger] bets[i]).amount * pool <= i128::MAX
}

/// Whether a list of bets is one of positive stakes, the market is one where
/// nothing is negative, and a bet on the winner is part of what backs it.
spec fn ordinary(bets: Seq<UserBet>, winner: u32, backing: i128, pool: i128) -> bool {
    &&& backing >= 0
    &&& pool >= 0
    &&& forall|i: int| 0 <= i < bets.len() ==> (#[trigger] bets[i]).amount > 0
    &&& backing == 0 ==> forall|i: int|
        0 <= i < bets.len() ==> (#[trigger] bets[i]).choice != winner
}

/// What one bet is worth is what it is paid.
proof fn lemma_worth_is_payment(bet: UserBet, winner: u32, backing: i128, pool: i128)
    requires
        backing >= 0,
        pool >= 0,
        bet.amount > 0,
        backing == 0 ==> bet.choice != winner,
    ensures
        ({
            let verdict = Verdict { winning_choice: winner, winners_total: backing, payout_pool: pool };
            &&& payment(bet, winner, backing, pool) >= 0
            &&& !bet.claimed ==> bet_worth(bet, verdict) == payment(bet, winner, backing, pool)
            &&& bet_due(bet, verdict) == payment(bet, winner, backing, pool)
            &&& bet_worth_fits(bet, verdict) <==> (bet.choice == winner ==> bet.amount * pool
                <= i128::MAX)
        }),
{
    let product = bet.amount * pool;
    assert(product >= 0) by (nonlinear_arith)
        requires
            product == bet.amount * pool,
            bet.amount > 0,
            pool >= 0,
    ;
    if backing > 0 {
        lemma_share_exact(bet.amount as int, pool as int, backing as int);
        assert(0 <= product / backing as int <= product) by (nonlinear_arith)
            requires
                product >= 0,
                backing > 0,
        ;
    }
}

/// What a list of bets is due is what it is paid.
proof fn lemma_due_is_payments(bets: Seq<UserBet>, winner: u32, backing: i128, pool: i128)
    requires
        ordinary(bets, winner, backing, pool),
    ensures
        ({
            let verdict = Verdict { winning_choice: winner, winners_total: backing, payout_pool: pool };
            &&& bets_due(bets, verdict) == payments(bets, winner, backing, pool)
            &&& payments(bets, winner, backing, pool) >= 0
        }),
    decreases bets.len(),
{
    if bets.len() > 0 {
        let rest = bets.drop_last();
        assert forall|i: int| 0 <= i < rest.len() implies (#[trigger] rest[i]).amount > 0 && (
        backing == 0 ==> rest[i].choice != winner) by {
            assert(rest[i] == bets[i]);
        }
        assert(bets.last() == bets[bets.len() - 1]);
        lemma_due_is_payments(rest, winner, backing, pool);
        lemma_worth_is_payment(bets.last(), winner, backing, pool);
    }
}

/// A bet is part of what its market has on record as staked on its choice.
proof fn lemma_bet_is_backing(env: EnvView, user: Address, id: u32, i: int)
    requires
        pool_books(env),
        bet_books(env),
        known(env, id),
        0 <= i < bets_of(env, user, id).len(),
    ensures
        bets_of(env, user, id)[i].amount <= staked_on(
            activity_of(env, id),
            bets_of(env, user, id)[i].choice,
        ),
{
    let trail = activity_of(env, id);
    let mine = |stake: Activity| stake.user == user;
    let stakes = stakes_by(trail, user);
    assert(market_books(env, id));
    assert(user_books(env, user, id));
    trail.lemma_filter_contains_rev(mine, stakes[i]);
    let j = choose|j: int| 0 <= j < trail.len() && trail[j] == stakes[i];
    assert forall|k: int| 0 <= k < trail.len() implies (#[trigger] trail[k]).amount > 0 by {}
    lemma_stake_within_choice(trail, j);
    assert(bets_of(env, user, id)[i].amount == stakes[i].amount);
}

/// The bets on a resolved market on record are ordinary.
proof fn lemma_bets_are_ordinary(env: EnvView, user: Address, id: u32)
    requires
        pool_books(env),
        bet_books(env),
        known(env, id),
        env.persistent.predictions[id].is_resolved,
    ensures
        ({
            let market = env.persistent.predictions[id];
            let winner = market.winning_choice->Some_0;
            let backing = market.choices[winner as int].staked_amount;
            let pool = env.persistent.payout_pool[id];
            &&& market.winning_choice is Some
            &&& winner < market.choices.len()
            &&& env.persistent.payout_pool.contains_key(id)
            &&& ordinary(bets_of(env, user, id), winner, backing, pool)
            &&& verdict_of(env, id) == (Verdict {
                winning_choice: winner,
                winners_total: backing,
                payout_pool: pool,
            })
        }),
{
    let market = env.persistent.predictions[id];
    let winner = market.winning_choice->Some_0;
    let trail = activity_of(env, id);
    let bets = bets_of(env, user, id);
    let backing = market.choices[winner as int].staked_amount;
    assert(market_books(env, id));
    assert(backing == staked_on(trail, winner));
    assert forall|i: int| 0 <= i < trail.len() implies (#[trigger] trail[i]).amount > 0 by {}
    lemma_staked_positive(trail, winner);
    assert forall|i: int| 0 <= i < bets.len() implies (#[trigger] bets[i]).amount > 0 && (backing
        == 0 ==> bets[i].choice != winner) by {
        lemma_bets_are_stakes(env, user, id, i);
        lemma_bet_is_backing(env, user, id, i);
    }
}

/// In every state that calls lead to, the claim of a user on a market resolved
/// for `winner` pays `amount * pool / backing` for each unclaimed bet on
/// `winner`, or refunds every unclaimed stake where nothing is staked on it. It
/// is refused only while the protocol is frozen, where there are no bets, or
/// where a product is no amount.
pub proof fn law_claim_pays_backers_of_winner(env: EnvView, user: Address, id: u32)
    requires
        pool_books(env),
        bet_books(env),
        env.persistent.predictions.contains_key(id),
        env.persistent.predictions[id].is_resolved,
    ensures
        ({
            let result = claim_result(env, user, id);
            let market = env.persistent.predictions[id];
            let winner = market.winning_choice->Some_0;
            let backing = market.choices[winner as int].staked_amount;
            let pool = env.persistent.payout_pool[id];
            let bets = bets_of(env, user, id);
            let later = bets_of(claim_env(env, user, id), user, id);
            &&& market.winning_choice is Some
            &&& winner < market.choices.len()
            &&& on(env.instance.is_paused) ==> result == Err::<i128, HubError>(
                HubError::ContractPaused,
            )
            &&& !on(env.instance.is_paused) && bets.len() == 0 ==> result == Err::<i128, HubError>(
                HubError::NoBets,
            )
            &&& !on(env.instance.is_paused) && bets.len() > 0 && !products_fit(bets, winner, pool)
                ==> result == Err::<i128, HubError>(HubError::Overflow)
            &&& !on(env.instance.is_paused) && bets.len() > 0 && products_fit(bets, winner, pool)
                ==> {
                &&& result is Ok
                &&& result->Ok_0 == payments(bets, winner, backing, pool)
                &&& later.len() == bets.len()
                &&& forall|i: int|
                    0 <= i < bets.len() ==> #[trigger] later[i] == (UserBet {
                        claimed: bets[i].claimed || payment(bets[i], winner, backing, pool) > 0,
                        ..bets[i]
                    })
            }
        }),
{
    let market = env.persistent.predictions[id];
    let winner = market.winning_choice->Some_0;
    let backing = market.choices[winner as int].staked_amount;
    let pool = env.persistent.payout_pool[id];
    let bets = bets_of(env, user, id);
    assert(known(env, id));
    lemma_bets_are_ordinary(env, user, id);
    lemma_due_is_payments(bets, winner, backing, pool);
    let verdict = verdict_of(env, id);
    assert forall|i: int| 0 <= i < bets.len() implies {
        &&& (!bets[i].claimed ==> bet_worth(#[trigger] bets[i], verdict) == payment(
            bets[i],
            winner,
            backing,
            pool,
        ))
        &&& (bet_worth_fits(bets[i], verdict) <==> (bets[i].choice == winner ==> bets[i].amount
            * pool <= i128::MAX))
    } by {
        lemma_worth_is_payment(bets[i], winner, backing, pool);
    }
    if on(env.instance.is_paused) || bets.len() == 0 {
    } else if products_fit(bets, winner, pool) {
        assert forall|i: int|
            0 <= i < bets.len() && !bets[i].claimed && bets[i].choice == winner implies fits(
            (#[trigger] bets[i]).amount * pool,
        ) by {
            assert(bets[i].amount * pool >= 0) by (nonlinear_arith)
                requires
                    bets[i].amount > 0,
                    pool >= 0,
            ;
        }
        law_bettor_can_claim(env, user, id);
        let later = bets_of(claim_env(env, user, id), user, id);
        assert(later == bets_settled(bets, verdict));
        assert forall|i: int| 0 <= i < bets.len() implies #[trigger] later[i] == (UserBet {
            claimed: bets[i].claimed || payment(bets[i], winner, backing, pool) > 0,
            ..bets[i]
        }) by {
            lemma_worth_is_payment(bets[i], winner, backing, pool);
            assert(later[i] == bet_settled(bets[i], verdict));
        }
    } else {
        let i = choose|i: int|
            0 <= i < bets.len() && !bets[i].claimed && bets[i].choice == winner && !((
            #[trigger] bets[i]).amount * pool <= i128::MAX);
        assert(!bet_worth_fits(bets[i], verdict));
        assert(!bets_due_fit(bets, verdict));
    }
}

/// Where somebody backed the winner, the claim of a user whose bets are not
/// claimed is the sum over the bets on the winner of their proportional parts,
/// and nothing for a user without such a bet.
pub proof fn law_only_backers_are_paid(
    bets: Seq<UserBet>,
    winner: u32,
    backing: i128,
    pool: i128,
)
    requires
        backing > 0,
    ensures
        (forall|i: int| 0 <= i < bets.len() ==> (#[trigger] bets[i]).choice != winner) ==> payments(
            bets,
            winner,
            backing,
            pool,
        ) == 0,
        bets.len() > 0 && !bets.last().claimed && bets.last().choice == winner ==> payments(
            bets,
            winner,
            backing,
            pool,
        ) == payments(bets.drop_last(), winner, backing, pool) + bets.last().amount * pool
            / backing as int,
        bets.len() > 0 && bets.last().choice != winner ==> payments(bets, winner, backing, pool)
            == payments(bets.drop_last(), winner, backing, pool),
    decreases bets.len(),
{
    if bets.len() > 0 {
        law_only_backers_are_paid(bets.drop_last(), winner, backing, pool);
        if forall|i: int| 0 <= i < bets.len() ==> (#[trigger] bets[i]).choice != winner {
            assert forall|i: int| 0 <= i < bets.drop_last().len() implies (
            #[trigger] bets.drop_last()[i]).choice != winner by {
                assert(bets.drop_last()[i] == bets[i]);
            }
            assert(bets.last() == bets[bets.len() - 1]);
        }
    }
}

// ------------------------------------------------------------
//  The declared choice
// ------------------------------------------------------------
/// After a market is resolved for `winner`, and whatever calls follow short of a
/// removal, `winner` is the choice whose backers are paid: the market on record
/// says so, and a claim pays by it.
pub proof fn law_declared_choice_is_paid(
    contract: Address,
    calls: Seq<TimedCall>,
    resolution: int,
    resolver: Address,
    id: u32,
    winner: u32,
    user: Address,
    now: u64,
)
    requires
        0 <= resolution < calls.len(),
        calls[resolution].call == (Call::ResolvePrediction {
            resolver,
            market_id: id,
            winning_choice: winner,
        }),
        accepted(contract, calls, resolution),
        forall|i: int|
            resolution < i < calls.len() && calls[i].call is RemoveAllPredictions
                ==> !#[trigger] accepted(contract, calls, i),
    ensures
        ({
            let env = at(history(contract, calls), now);
            let market = env.persistent.predictions[id];
            let declared = before(contract, calls, resolution).persistent.predictions[id];
            let backing = declared.choices[winner as int].staked_amount;
            let pool = env.persistent.payout_pool[id];
            let bets = bets_of(env, user, id);
            &&& env.persistent.predictions.contains_key(id)
            &&& market.is_resolved
            &&& market.winning_choice == Some(winner)
            &&& market.choices == declared.choices
            &&& market.total_pool == declared.total_pool
            &&& 0 <= pool <= market.total_pool
            &&& !on(env.instance.is_paused) && bets.len() > 0 && products_fit(bets, winner, pool)
                ==> claim_result(env, user, id) is Ok && claim_result(env, user, id)->Ok_0
                == payments(bets, winner, backing, pool)
        }),
{
    lemma_declared_choice_stays(contract, calls, resolution, resolver, id, winner);
    law_pool_books_always_hold(contract, calls);
    law_bet_books_always_hold(contract, calls);
    lemma_books_at(history(contract, calls), now);
    let env = at(history(contract, calls), now);
    assert(market_books(env, id));
    law_claim_pays_backers_of_winner(env, user, id);
}

/// What a resolution declares stays on record until a removal.
proof fn lemma_declared_choice_stays(
    contract: Address,
    calls: Seq<TimedCall>,
    resolution: int,
    resolver: Address,
    id: u32,
    winner: u32,
)
    requires
        0 <= resolution < calls.len(),
        calls[resolution].call == (Call::ResolvePrediction {
            resolver,
            market_id: id,
            winning_choice: winner,
        }),
        accepted(contract, calls, resolution),
        forall|i: int|
            resolution < i < calls.len() && calls[i].call is RemoveAllPredictions
                ==> !#[trigger] accepted(contract, calls, i),
    ensures
        ({
            let env = history(contract, calls);
            let market = env.persistent.predictions[id];
            let declared = before(contract, calls, resolution).persistent.predictions[id];
            &&& known(env, id)
            &&& env.persistent.predictions.contains_key(id)
            &&& market.is_resolved
            &&& market.winning_choice == Some(winner)
            &&& market.choices == declared.choices
            &&& market.total_pool == declared.total_pool
        }),
    decreases calls.len(),
{
    lemma_last_call(contract, calls);
    let last = calls.len() - 1;
    let env = before(contract, calls, last);
    if resolution == last {
        assert(known(env, id));
    } else {
        let rest = calls.drop_last();
        lemma_earlier_calls(contract, calls, resolution);
        assert forall|i: int|
            resolution < i < rest.len()
                && rest[i].call is RemoveAllPredictions implies !#[trigger] accepted(
            contract,
            rest,
            i,
        ) by {
            lemma_earlier_calls(contract, calls, i);
        }
        lemma_declared_choice_stays(contract, rest, resolution, resolver, id, winner);
        assert(calls[last].call is RemoveAllPredictions ==> !accepted(contract, calls, last));
        law_resolution_is_final(env, calls.last().call, id);
    }
}

// ------------------------------------------------------------
//  Claimable amounts
// ------------------------------------------------------------
/// What claims of `user` on the markets `ids` would pay: something only where a
/// market is on record and resolved.
pub open spec fn payments_from(env: EnvView, user: Address, ids: Seq<u32>) -> int
    decreases ids.len(),
{
    if ids.len() == 0 {
        0
    } else {
        let id = ids.last();
        let market = env.persistent.predictions[id];
        let winner = market.winning_choice->Some_0;
        payments_from(env, user, ids.drop_last()) + if env.persistent.predictions.contains_key(id)
            && market.is_resolved {
            payments(
                bets_of(env, user, id),
                winner,
                market.choices[winner as int].staked_amount,
                env.persistent.payout_pool[id],
            )
        } else {
            0
        }
    }
}

/// Whether the products of all unclaimed winning bets on the resolved markets
/// among `ids` are amounts.
pub open spec fn products_from_fit(env: EnvView, user: Address, ids: Seq<u32>) -> bool {
    forall|i: int|
        0 <= i < ids.len() && env.persistent.predictions.contains_key(ids[i])
            && env.persistent.predictions[ids[i]].is_resolved ==> products_fit(
            bets_of(env, user, #[trigger] ids[i]),
            env.persistent.predictions[ids[i]].winning_choice->Some_0,
            env.persistent.payout_pool[ids[i]],
        )
}

/// Bets add what they are paid, unless a product or the sum is no amount.
proof fn lemma_with_bets_terms(
    total: int,
    bets: Seq<UserBet>,
    winner: u32,
    backing: i128,
    pool: i128,
)
    requires
        0 <= total <= i128::MAX,
        ordinary(bets, winner, backing, pool),
    ensures
        ({
            let verdict = Verdict { winning_choice: winner, winners_total: backing, payout_pool: pool };
            let sum = total + payments(bets, winner, backing, pool);
            with_bets(total, bets, verdict) == if products_fit(bets, winner, pool) && sum
                <= i128::MAX {
                Ok::<int, HubError>(sum)
            } else {
                Err::<int, HubError>(HubError::Overflow)
            }
        }),
    decreases bets.len(),
{
    let verdict = Verdict { winning_choice: winner, winners_total: backing, payout_pool: pool };
    if bets.len() > 0 {
        let rest = bets.drop_last();
        let last = bets.last();
        assert forall|i: int| 0 <= i < rest.len() implies (#[trigger] rest[i]).amount > 0 && (
        backing == 0 ==> rest[i].choice != winner) by {
            assert(rest[i] == bets[i]);
        }
        assert(last == bets[bets.len() - 1]);
        lemma_with_bets_terms(total, rest, winner, backing, pool);
        lemma_due_is_payments(rest, winner, backing, pool);
        lemma_worth_is_payment(last, winner, backing, pool);
        let last_fits = !last.claimed && last.choice == winner ==> last.amount * pool <= i128::MAX;
        assert(products_fit(bets, winner, pool) <==> products_fit(rest, winner, pool) && last_fits)
            by {
            if products_fit(bets, winner, pool) {
                assert forall|i: int|
                    0 <= i < rest.len() && !rest[i].claimed && rest[i].choice == winner implies (
                #[trigger] rest[i]).amount * pool <= i128::MAX by {
                    assert(rest[i] == bets[i]);
                }
                assert(bets[bets.len() - 1] == last);
            }
            if products_fit(rest, winner, pool) && last_fits {
                assert forall|i: int|
                    0 <= i < bets.len() && !bets[i].claimed && bets[i].choice == winner implies (
                #[trigger] bets[i]).amount * pool <= i128::MAX by {
                    if i < rest.len() {
                        assert(rest[i] == bets[i]);
                    }
                }
            }
        }
    }
}

/// The claimable amount over some markets is what claims on them would pay,
/// unless a product or the sum is no amount.
proof fn lemma_claimable_from_terms(env: EnvView, user: Address, ids: Seq<u32>)
    requires
        pool_books(env),
        bet_books(env),
    ensures
        payments_from(env, user, ids) >= 0,
        claimable_from(env, user, ids) == if products_from_fit(env, user, ids) && payments_from(
            env,
            user,
            ids,
        ) <= i128::MAX {
            Ok::<int, HubError>(payments_from(env, user, ids))
        } else {
            Err::<int, HubError>(HubError::Overflow)
        },
    decreases ids.len(),
{
    if ids.len() > 0 {
        let rest = ids.drop_last();
        let id = ids.last();
        let market = env.persistent.predictions[id];
        let winner = market.winning_choice->Some_0;
        let backing = market.choices[winner as int].staked_amount;
        let pool = env.persistent.payout_pool[id];
        let bets = bets_of(env, user, id);
        let counts = env.persistent.predictions.contains_key(id) && market.is_resolved;
        lemma_claimable_from_terms(env, user, rest);
        assert(id == ids[ids.len() - 1]);
        assert(products_from_fit(env, user, ids) <==> products_from_fit(env, user, rest) && (counts
            ==> products_fit(bets, winner, pool))) by {
            if products_from_fit(env, user, ids) {
                assert forall|i: int|
                    0 <= i < rest.len() && env.persistent.predictions.contains_key(rest[i])
                        && env.persistent.predictions[rest[i]].is_resolved implies products_fit(
                    bets_of(env, user, #[trigger] rest[i]),
                    env.persistent.predictions[rest[i]].winning_choice->Some_0,
                    env.persistent.payout_pool[rest[i]],
                ) by {
                    assert(rest[i] == ids[i]);
                }
            }
            if products_from_fit(env, user, rest) && (counts ==> products_fit(bets, winner, pool)) {
                assert forall|i: int|
                    0 <= i < ids.len() && env.persistent.predictions.contains_key(ids[i])
                        && env.persistent.predictions[ids[i]].is_resolved implies products_fit(
                    bets_of(env, user, #[trigger] ids[i]),
                    env.persistent.predictions[ids[i]].winning_choice->Some_0,
                    env.persistent.payout_pool[ids[i]],
                ) by {
                    if i < rest.len() {
                        assert(rest[i] == ids[i]);
                    }
                }
            }
        }
        if counts {
            assert(known(env, id));
            lemma_bets_are_ordinary(env, user, id);
            lemma_due_is_payments(bets, winner, backing, pool);
            if claimable_from(env, user, rest) is Ok {
                lemma_with_bets_terms(
                    payments_from(env, user, rest),
                    bets,
                    winner,
                    backing,
                    pool,
                );
            }
        }
    }
}

/// In every state that calls lead to, the claimable amount of a user is the sum
/// of what claims on the resolved markets on the user's list would pay. Markets
/// that are not resolved add nothing. It is refused only where the product of a
/// winning bet and its pool, or the sum, is no amount.
pub proof fn law_claimable_is_what_claims_would_pay(env: EnvView, user: Address)
    requires
        pool_books(env),
        bet_books(env),
    ensures
        ({
            let ids = market_ids_of(env, user);
            let sum = payments_from(env, user, ids);
            &&& products_from_fit(env, user, ids) && sum <= i128::MAX ==> claimable(env, user)
                == Ok::<int, HubError>(sum)
            &&& !(products_from_fit(env, user, ids) && sum <= i128::MAX) ==> claimable(env, user)
                == Err::<int, HubError>(HubError::Overflow)
            &&& sum >= 0
        }),
{
    lemma_claimable_from_terms(env, user, market_ids_of(env, user));
}

/// How a claimable amount comes about in any state: market by market, in the
/// order of the list, skipping those that are not on record, not resolved or
/// without a winning choice, and bet by bet, skipping those that are claimed.
pub proof fn law_claimable_adds_up(
    env: EnvView,
    user: Address,
    ids: Seq<u32>,
    id: u32,
    total: int,
    bets: Seq<UserBet>,
    bet: UserBet,
    verdict: Verdict,
)
    ensures
        claimable(env, user) == claimable_from(env, user, market_ids_of(env, user)),
        claimable_from(env, user, Seq::<u32>::empty()) == Ok::<int, HubError>(0),
        claimable_from(env, user, ids) is Err ==> claimable_from(env, user, ids.push(id))
            == claimable_from(env, user, ids),
        claimable_from(env, user, ids) is Ok ==> claimable_from(env, user, ids.push(id))
            == with_market(env, user, claimable_from(env, user, ids)->Ok_0, id),
        ({
            let market = env.persistent.predictions[id];
            let counts = env.persistent.predictions.contains_key(id) && market.is_resolved
                && market.winning_choice is Some;
            let in_range = market.winning_choice->Some_0 < market.choices.len();
            &&& !counts ==> with_market(env, user, total, id) == Ok::<int, HubError>(total)
            &&& counts && !in_range ==> with_market(env, user, total, id) == Err::<int, HubError>(
                HubError::ChoiceOutOfRange,
            )
            &&& counts && in_range ==> with_market(env, user, total, id) == with_bets(
                total,
                bets_of(env, user, id),
                verdict_of(env, id),
            )
        }),
        with_bets(total, Seq::<UserBet>::empty(), verdict) == Ok::<int, HubError>(total),
        with_bets(total, bets, verdict) is Err ==> with_bets(total, bets.push(bet), verdict)
            == with_bets(total, bets, verdict),
        with_bets(total, bets, verdict) is Ok ==> with_bets(total, bets.push(bet), verdict)
            == with_bet(with_bets(total, bets, verdict)->Ok_0, bet, verdict),
        bet.claimed ==> with_bet(total, bet, verdict) == Ok::<int, HubError>(total),
        !bet.claimed ==> {
            let sum = total + bet_worth(bet, verdict);
            &&& bet_worth_fits(bet, verdict) && i128::MIN <= sum <= i128::MAX ==> with_bet(
                total,
                bet,
                verdict,
            ) == Ok::<int, HubError>(sum)
            &&& !(bet_worth_fits(bet, verdict) && i128::MIN <= sum <= i128::MAX) ==> with_bet(
                total,
                bet,
                verdict,
            ) == Err::<int, HubError>(HubError::Overflow)
        },
{
    assert(ids.push(id).drop_last() =~= ids);
    assert(bets.push(bet).drop_last() =~= bets);
}

} // verus!
