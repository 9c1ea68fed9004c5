//! The contract can pay what it owes.

use vstd::prelude::*;

use crate::access::{entry_or, value_or};
use crate::admin::{bettor_removals, market_removal, removal_requests, trail_of};
use crate::betting::{activity_of, bet_requests, bets_of};
use crate::env::{instance_write, Effect, EnvView, PersistentView};
use crate::laws::books::{
    bet_books, bets_sound, entry, known, law_calls_keep_bet_books, law_calls_keep_pool_books,
    lemma_sound_market_is_positive, lemma_staked_positive, market_books, pool_books, staked,
    staked_on, stakes_by, user_books,
};
use crate::laws::calls::{actor, after, refusal, Call};
use crate::laws::shares::{law_fee_is_part_of_pool, lemma_share_exact};
use crate::queries::prediction_count;
use crate::settlement::{
    bet_due, bet_settled, bets_due, bets_settled, claim_requests, lemma_bets_due_grows,
    resolution_fee, resolution_requests, stake_worth, verdict_of, Verdict,
};
use crate::types::{Activity, Address, DataKey, MarketView, UserBet, UserMarketKey};

verus! {

// ------------------------------------------------------------
//  What is owed
// ------------------------------------------------------------
/// The bets of a user on market `id`.
pub open spec fn bets_under(
    user_bets: Map<UserMarketKey, Seq<UserBet>>,
    user: Address,
    id: u32,
) -> Seq<UserBet> {
    entry_or(user_bets, UserMarketKey { user, market_id: id }, Seq::empty())
}

/// What claims can still bring for a trail of stakes: for each stake what is
/// due for the bet that records it.
pub open spec fn outstanding(
    trail: Seq<Activity>,
    id: u32,
    user_bets: Map<UserMarketKey, Seq<UserBet>>,
    verdict: Verdict,
) -> int
    decreases trail.len(),
{
    if trail.len() == 0 {
        0
    } else {
        let earlier = trail.drop_last();
        let user = trail.last().user;
        let bet = bets_under(user_bets, user, id)[stakes_by(earlier, user).len() as int];
        outstanding(earlier, id, user_bets, verdict) + bet_due(bet, verdict)
    }
}

/// What the contract owes for market `id`: all stakes until it is resolved,
/// then what has not been claimed.
pub open spec fn liability(env: EnvView, id: u32) -> int {
    if env.persistent.predictions[id].is_resolved {
        outstanding(activity_of(env, id), id, env.persistent.user_bets, verdict_of(env, id))
    } else {
        env.persistent.predictions[id].total_pool as int
    }
}

/// What the contract owes for the markets `1`, ..., `count`.
pub open spec fn liabilities_up_to(env: EnvView, count: nat) -> int
    decreases count,
{
    if count == 0 {
        0
    } else {
        liabilities_up_to(env, (count - 1) as nat) + liability(env, count as u32)
    }
}

/// What the contract owes.
pub open spec fn liabilities(env: EnvView) -> int {
    liabilities_up_to(env, prediction_count(env) as nat)
}

// ------------------------------------------------------------
//  What is held
// ------------------------------------------------------------
/// What one request brings to `holder`, or takes from it, in units of `token`.
pub open spec fn flow(request: Effect, token: Address, holder: Address) -> int {
    match request {
        Effect::TransferFrom { token: t, from, to, amount, .. } => if t == token {
            (if to == holder {
                amount as int
            } else {
                0
            }) - (if from == holder {
                amount as int
            } else {
                0
            })
        } else {
            0
        },
        Effect::Transfer { token: t, from, to, amount } => if t == token {
            (if to == holder {
                amount as int
            } else {
                0
            }) - (if from == holder {
                amount as int
            } else {
                0
            })
        } else {
            0
        },
        _ => 0,
    }
}

/// What a list of requests brings to `holder`.
pub open spec fn received(requests: Seq<Effect>, token: Address, holder: Address) -> int
    decreases requests.len(),
{
    if requests.len() == 0 {
        0
    } else {
        received(requests.drop_last(), token, holder) + flow(requests.last(), token, holder)
    }
}

/// What a call asks of the host.
pub open spec fn requests_of(env: EnvView, call: Call) -> Seq<Effect> {
    after(env, call).effects.skip(env.effects.len() as int)
}

/// What the requests of an accepted call bring to the contract.
pub open spec fn net_received(env: EnvView, call: Call) -> int {
    received(requests_of(env, call), env.instance.protocol_token->Some_0, env.contract)
}

// ------------------------------------------------------------
//  A pool covers the claims on it
// ------------------------------------------------------------
/// What a trail of stakes is worth.
pub open spec fn trail_worth(trail: Seq<Activity>, verdict: Verdict) -> int
    decreases trail.len(),
{
    if trail.len() == 0 {
        0
    } else {
        let worth = stake_worth(trail.last().choice, trail.last().amount, verdict);
        trail_worth(trail.drop_last(), verdict) + if worth > 0 {
            worth
        } else {
            0
        }
    }
}

/// The stakes of a user so far, and the next one of theirs.
proof fn lemma_stake_position(trail: Seq<Activity>, n: int)
    requires
        0 <= n < trail.len(),
    ensures
        ({
            let user = trail[n].user;
            let position = stakes_by(trail.take(n), user).len() as int;
            &&& position < stakes_by(trail, user).len()
            &&& stakes_by(trail, user)[position] == trail[n]
            &&& stakes_by(trail.take(n + 1), user).len() == position + 1
        }),
{
    let user = trail[n].user;
    let mine = |stake: Activity| stake.user == user;
    let so_far = trail.take(n);
    assert(trail.take(n + 1) =~= so_far.push(trail[n]));
    so_far.lemma_filter_push(trail[n], mine);
    assert(trail =~= trail.take(n + 1) + trail.skip(n + 1));
    Seq::filter_distributes_over_add(trail.take(n + 1), trail.skip(n + 1), mine);
}

/// Stakes of others do not move a user's position.
proof fn lemma_other_position(trail: Seq<Activity>, n: int, user: Address)
    requires
        0 <= n < trail.len(),
        trail[n].user != user,
    ensures
        stakes_by(trail.take(n + 1), user) == stakes_by(trail.take(n), user),
{
    assert(trail.take(n + 1) =~= trail.take(n).push(trail[n]));
    trail.take(n).lemma_filter_push(trail[n], |stake: Activity| stake.user == user);
}

/// Bets that record a trail are due at most what the trail is worth.
proof fn lemma_outstanding_bound(
    trail: Seq<Activity>,
    id: u32,
    market: MarketView,
    user_bets: Map<UserMarketKey, Seq<UserBet>>,
    verdict: Verdict,
    n: int,
)
    requires
        0 <= n <= trail.len(),
        forall|user: Address|
            bets_sound(
                #[trigger] bets_under(user_bets, user, id),
                stakes_by(trail, user),
                market,
                id,
            ),
    ensures
        0 <= outstanding(trail.take(n), id, user_bets, verdict) <= trail_worth(
            trail.take(n),
            verdict,
        ),
    decreases n,
{
    if n > 0 {
        lemma_outstanding_bound(trail, id, market, user_bets, verdict, n - 1);
        assert(trail.take(n).drop_last() =~= trail.take(n - 1));
        assert(trail.take(n).last() == trail[n - 1]);
        lemma_stake_position(trail, n - 1);
        let user = trail[n - 1].user;
        let bets = bets_under(user_bets, user, id);
        let position = stakes_by(trail.take(n - 1), user).len() as int;
        assert(bets_sound(bets, stakes_by(trail, user), market, id));
        assert(bets[position].amount == trail[n - 1].amount);
    }
}

/// Where nobody won, a trail is worth what was staked.
proof fn lemma_refund_worth(trail: Seq<Activity>, verdict: Verdict)
    requires
        verdict.winners_total == 0,
        forall|i: int| 0 <= i < trail.len() ==> (#[trigger] trail[i]).amount > 0,
    ensures
        trail_worth(trail, verdict) == staked(trail),
    decreases trail.len(),
{
    if trail.len() > 0 {
        let rest = trail.drop_last();
        assert forall|i: int| 0 <= i < rest.len() implies (#[trigger] rest[i]).amount > 0 by {
            assert(rest[i] == trail[i]);
        }
        assert(trail.last() == trail[trail.len() - 1]);
        lemma_refund_worth(rest, verdict);
    }
}

/// Where somebody won, a trail is worth at most the winners' part of the pool.
proof fn lemma_winners_worth(trail: Seq<Activity>, verdict: Verdict)
    requires
        verdict.winners_total > 0,
        verdict.payout_pool >= 0,
        forall|i: int| 0 <= i < trail.len() ==> (#[trigger] trail[i]).amount > 0,
    ensures
        trail_worth(trail, verdict) * verdict.winners_total <= staked_on(
            trail,
            verdict.winning_choice,
        ) * verdict.payout_pool,
    decreases trail.len(),
{
    let w = verdict.winners_total as int;
    let p = verdict.payout_pool as int;
    if trail.len() == 0 {
        assert(0 * w == 0 && 0 * p == 0);
    } else {
        let rest = trail.drop_last();
        let last = trail.last();
        assert forall|i: int| 0 <= i < rest.len() implies (#[trigger] rest[i]).amount > 0 by {
            assert(rest[i] == trail[i]);
        }
        assert(last == trail[trail.len() - 1]);
        lemma_winners_worth(rest, verdict);
        if last.choice == verdict.winning_choice {
            lemma_share_exact(last.amount as int, p, w);
            let worth = stake_worth(last.choice, last.amount, verdict);
            let before = trail_worth(rest, verdict);
            let on = staked_on(rest, verdict.winning_choice);
            assert((before + worth) * w <= (on + last.amount) * p) by (nonlinear_arith)
                requires
                    before * w <= on * p,
                    worth * w <= last.amount * p,
            ;
        }
    }
}

/// The payout pool of a resolved market covers everything that can still be
/// claimed from it.
pub proof fn law_pool_covers_claims(env: EnvView, id: u32)
    requires
        pool_books(env),
        bet_books(env),
        known(env, id),
        env.persistent.predictions[id].is_resolved,
    ensures
        0 <= liability(env, id) <= env.persistent.payout_pool[id],
{
    let market = env.persistent.predictions[id];
    let trail = activity_of(env, id);
    let verdict = verdict_of(env, id);
    let user_bets = env.persistent.user_bets;
    assert(market_books(env, id));
    assert forall|i: int| 0 <= i < trail.len() implies (#[trigger] trail[i]).amount > 0 by {}
    assert forall|user: Address|
        bets_sound(#[trigger] bets_under(user_bets, user, id), stakes_by(trail, user), market, id) by {
        assert(user_books(env, user, id));
        assert(bets_under(user_bets, user, id) == bets_of(env, user, id));
    }
    lemma_outstanding_bound(trail, id, market, user_bets, verdict, trail.len() as int);
    assert(trail.take(trail.len() as int) =~= trail);
    let winning_choice = verdict.winning_choice;
    assert(market.choices[winning_choice as int].staked_amount == staked_on(trail, winning_choice));
    lemma_staked_positive(trail, winning_choice);
    if verdict.winners_total == 0 {
        lemma_refund_worth(trail, verdict);
    } else {
        lemma_winners_worth(trail, verdict);
        let worth = trail_worth(trail, verdict);
        let w = verdict.winners_total as int;
        let p = verdict.payout_pool as int;
        assert(worth <= p) by (nonlinear_arith)
            requires
                w > 0,
                worth * w <= w * p,
        ;
    }
}

/// The number of stakes on one choice.
pub open spec fn stakes_on(trail: Seq<Activity>, choice: u32) -> nat
    decreases trail.len(),
{
    if trail.len() == 0 {
        0
    } else if trail.last().choice == choice {
        stakes_on(trail.drop_last(), choice) + 1
    } else {
        stakes_on(trail.drop_last(), choice)
    }
}

/// Rounding costs each winning stake less than one unit.
proof fn lemma_winners_rounding(trail: Seq<Activity>, verdict: Verdict)
    requires
        verdict.winners_total > 0,
        verdict.payout_pool >= 0,
        forall|i: int| 0 <= i < trail.len() ==> (#[trigger] trail[i]).amount > 0,
    ensures
        (trail_worth(trail, verdict) + stakes_on(trail, verdict.winning_choice))
            * verdict.winners_total >= staked_on(trail, verdict.winning_choice)
            * verdict.payout_pool + stakes_on(trail, verdict.winning_choice),
    decreases trail.len(),
{
    let w = verdict.winners_total as int;
    let p = verdict.payout_pool as int;
    if trail.len() == 0 {
        assert(0 * w == 0 && 0 * p == 0);
    } else {
        let rest = trail.drop_last();
        let last = trail.last();
        assert forall|i: int| 0 <= i < rest.len() implies (#[trigger] rest[i]).amount > 0 by {
            assert(rest[i] == trail[i]);
        }
        assert(last == trail[trail.len() - 1]);
        lemma_winners_rounding(rest, verdict);
        if last.choice == verdict.winning_choice {
            lemma_share_exact(last.amount as int, p, w);
            let worth = stake_worth(last.choice, last.amount, verdict);
            let before = trail_worth(rest, verdict);
            let n = stakes_on(rest, verdict.winning_choice) as int;
            let on = staked_on(rest, verdict.winning_choice);
            assert((before + worth + n + 1) * w >= (on + last.amount) * p + n + 1)
                by (nonlinear_arith)
                requires
                    (before + n) * w >= on * p + n,
                    (worth + 1) * w > last.amount * p,
            ;
        }
    }
}

/// Where something is staked there is a stake.
proof fn lemma_stakes_on_positive(trail: Seq<Activity>, choice: u32)
    requires
        staked_on(trail, choice) != 0,
    ensures
        stakes_on(trail, choice) > 0,
    decreases trail.len(),
{
    if trail.len() > 0 && trail.last().choice != choice {
        lemma_stakes_on_positive(trail.drop_last(), choice);
    }
}

/// All claims on a resolved market together are worth at most its payout pool.
/// Where nobody won they are worth the whole pool, otherwise the pool exceeds
/// them by less than the number of winning bets.
pub proof fn law_claims_use_up_pool(env: EnvView, id: u32)
    requires
        pool_books(env),
        known(env, id),
        env.persistent.predictions[id].is_resolved,
    ensures
        ({
            let verdict = verdict_of(env, id);
            let pool = env.persistent.payout_pool[id];
            let worth = trail_worth(activity_of(env, id), verdict);
            &&& 0 <= worth <= pool
            &&& verdict.winners_total >= 0
            &&& verdict.winners_total == 0 ==> worth == pool && pool
                == env.persistent.predictions[id].total_pool
            &&& verdict.winners_total > 0 ==> pool - worth < stakes_on(
                activity_of(env, id),
                verdict.winning_choice,
            )
        }),
{
    let market = env.persistent.predictions[id];
    let trail = activity_of(env, id);
    let verdict = verdict_of(env, id);
    assert(market_books(env, id));
    assert forall|i: int| 0 <= i < trail.len() implies (#[trigger] trail[i]).amount > 0 by {}
    let winning_choice = verdict.winning_choice;
    assert(market.choices[winning_choice as int].staked_amount == staked_on(trail, winning_choice));
    lemma_staked_positive(trail, winning_choice);
    lemma_trail_worth_nonneg(trail, verdict);
    if verdict.winners_total == 0 {
        lemma_refund_worth(trail, verdict);
    } else {
        lemma_winners_worth(trail, verdict);
        lemma_winners_rounding(trail, verdict);
        lemma_stakes_on_positive(trail, winning_choice);
        let worth = trail_worth(trail, verdict);
        let n = stakes_on(trail, winning_choice) as int;
        let w = verdict.winners_total as int;
        let p = verdict.payout_pool as int;
        assert(worth <= p) by (nonlinear_arith)
            requires
                w > 0,
                worth * w <= w * p,
        ;
        assert(p < worth + n) by (nonlinear_arith)
            requires
                w > 0,
                n > 0,
                (worth + n) * w >= w * p + n,
        ;
    }
}

/// A trail is never worth less than nothing.
proof fn lemma_trail_worth_nonneg(trail: Seq<Activity>, verdict: Verdict)
    ensures
        0 <= trail_worth(trail, verdict),
    decreases trail.len(),
{
    if trail.len() > 0 {
        lemma_trail_worth_nonneg(trail.drop_last(), verdict);
    }
}

/// As long as no bet is claimed, what is outstanding is what the trail is worth.
pub proof fn lemma_outstanding_at_first(
    trail: Seq<Activity>,
    id: u32,
    market: MarketView,
    user_bets: Map<UserMarketKey, Seq<UserBet>>,
    verdict: Verdict,
    n: int,
)
    requires
        0 <= n <= trail.len(),
        !market.is_resolved,
        forall|user: Address|
            bets_sound(
                #[trigger] bets_under(user_bets, user, id),
                stakes_by(trail, user),
                market,
                id,
            ),
    ensures
        outstanding(trail.take(n), id, user_bets, verdict) == trail_worth(trail.take(n), verdict),
    decreases n,
{
    if n > 0 {
        lemma_outstanding_at_first(trail, id, market, user_bets, verdict, n - 1);
        assert(trail.take(n).drop_last() =~= trail.take(n - 1));
        assert(trail.take(n).last() == trail[n - 1]);
        lemma_stake_position(trail, n - 1);
        let user = trail[n - 1].user;
        let bets = bets_under(user_bets, user, id);
        let position = stakes_by(trail.take(n - 1), user).len() as int;
        assert(bets_sound(bets, stakes_by(trail, user), market, id));
        assert(bets[position].amount == trail[n - 1].amount);
    }
}

/// Where nothing is due to anybody, nothing is outstanding.
pub proof fn lemma_nothing_outstanding(
    trail: Seq<Activity>,
    id: u32,
    market: MarketView,
    user_bets: Map<UserMarketKey, Seq<UserBet>>,
    verdict: Verdict,
    n: int,
)
    requires
        0 <= n <= trail.len(),
        forall|user: Address|
            bets_sound(
                #[trigger] bets_under(user_bets, user, id),
                stakes_by(trail, user),
                market,
                id,
            ) && bets_due(bets_under(user_bets, user, id), verdict) == 0,
    ensures
        outstanding(trail.take(n), id, user_bets, verdict) == 0,
    decreases n,
{
    if n > 0 {
        lemma_nothing_outstanding(trail, id, market, user_bets, verdict, n - 1);
        assert(trail.take(n).drop_last() =~= trail.take(n - 1));
        assert(trail.take(n).last() == trail[n - 1]);
        lemma_stake_position(trail, n - 1);
        let user = trail[n - 1].user;
        let bets = bets_under(user_bets, user, id);
        let position = stakes_by(trail.take(n - 1), user).len() as int;
        assert(bets_sound(bets, stakes_by(trail, user), market, id));
        lemma_bets_due_grows(bets, verdict, position);
        lemma_bets_due_grows(bets, verdict, position + 1);
        assert(bets.take(position + 1).drop_last() =~= bets.take(position));
        assert(bets.take(position + 1).last() == bets[position]);
        lemma_bets_due_grows(bets.take(position), verdict, 0);
    }
}

/// What is owed is never less than nothing.
pub proof fn lemma_liability_positive(env: EnvView, id: u32)
    requires
        pool_books(env),
        bet_books(env),
        known(env, id),
    ensures
        0 <= liability(env, id),
{
    assert(market_books(env, id));
    lemma_sound_market_is_positive(env, id, 0);
    if env.persistent.predictions[id].is_resolved {
        law_pool_covers_claims(env, id);
    }
}

// ------------------------------------------------------------
//  Sums of liabilities
// ------------------------------------------------------------
/// Worlds that agree on what is owed for each market agree on the sum, but for
/// the market where they may differ.
proof fn lemma_liabilities_change(env: EnvView, next: EnvView, count: nat, changed: u32)
    requires
        count <= u32::MAX,
        forall|id: u32|
            1 <= id <= count && id != changed ==> #[trigger] liability(next, id) == liability(
                env,
                id,
            ),
    ensures
        liabilities_up_to(next, count) == liabilities_up_to(env, count) + if 1 <= changed <= count {
            liability(next, changed) - liability(env, changed)
        } else {
            0
        },
    decreases count,
{
    if count > 0 {
        lemma_liabilities_change(env, next, (count - 1) as nat, changed);
        if count as u32 != changed {
            assert(liability(next, count as u32) == liability(env, count as u32));
        }
    }
}

/// What is owed for one market is part of what is owed.
proof fn lemma_liabilities_bound(env: EnvView, count: nat, id: u32)
    requires
        pool_books(env),
        bet_books(env),
        count <= prediction_count(env),
    ensures
        0 <= liabilities_up_to(env, count),
        1 <= id <= count ==> liability(env, id) <= liabilities_up_to(env, count),
    decreases count,
{
    if count > 0 {
        lemma_liabilities_bound(env, (count - 1) as nat, id);
        lemma_liability_positive(env, count as u32);
    }
}

/// What is outstanding for a market depends on the bets on that market alone.
proof fn lemma_outstanding_carry(
    trail: Seq<Activity>,
    id: u32,
    before: Map<UserMarketKey, Seq<UserBet>>,
    later: Map<UserMarketKey, Seq<UserBet>>,
    verdict: Verdict,
)
    requires
        forall|user: Address| #[trigger]
            bets_under(later, user, id) == bets_under(before, user, id),
    ensures
        outstanding(trail, id, later, verdict) == outstanding(trail, id, before, verdict),
    decreases trail.len(),
{
    if trail.len() > 0 {
        lemma_outstanding_carry(trail.drop_last(), id, before, later, verdict);
        assert(bets_under(later, trail.last().user, id) == bets_under(
            before,
            trail.last().user,
            id,
        ));
    }
}

/// A market is owed the same in two worlds that agree on the entries about it.
pub proof fn lemma_liability_carry(env: EnvView, next: EnvView, id: u32)
    requires
        next.persistent.predictions[id].is_resolved == env.persistent.predictions[id].is_resolved,
        next.persistent.predictions[id].winning_choice
            == env.persistent.predictions[id].winning_choice,
        next.persistent.predictions[id].choices == env.persistent.predictions[id].choices,
        next.persistent.predictions[id].total_pool == env.persistent.predictions[id].total_pool,
        activity_of(next, id) == activity_of(env, id),
        entry(next.persistent.payout_pool, id) == entry(env.persistent.payout_pool, id),
        forall|user: Address| #[trigger]
            bets_under(next.persistent.user_bets, user, id) == bets_under(
                env.persistent.user_bets,
                user,
                id,
            ),
    ensures
        liability(next, id) == liability(env, id),
{
    assert(verdict_of(next, id) == verdict_of(env, id));
    lemma_outstanding_carry(
        activity_of(env, id),
        id,
        env.persistent.user_bets,
        next.persistent.user_bets,
        verdict_of(env, id),
    );
}

/// The same storage owes the same.
pub proof fn lemma_liabilities_carry(env: EnvView, next: EnvView)
    requires
        next.instance == env.instance,
        next.persistent == env.persistent,
    ensures
        liabilities(next) == liabilities(env),
{
    let count = prediction_count(env) as nat;
    assert forall|id: u32| 1 <= id <= count && id != 0 implies #[trigger] liability(next, id)
        == liability(env, id) by {
        lemma_liability_carry(env, next, id);
    }
    lemma_liabilities_change(env, next, count, 0);
}

// ------------------------------------------------------------
//  Claims
// ------------------------------------------------------------
/// A bet that has been settled is due nothing.
proof fn lemma_settled_bet_is_not_due(bet: UserBet, verdict: Verdict)
    ensures
        bet_due(bet_settled(bet, verdict), verdict) == 0,
{
}

/// Settling the bets of one user takes what was due to them, and nothing else,
/// out of what is outstanding.
proof fn lemma_outstanding_after_claim(
    trail: Seq<Activity>,
    id: u32,
    user_bets: Map<UserMarketKey, Seq<UserBet>>,
    user: Address,
    verdict: Verdict,
    n: int,
)
    requires
        0 <= n <= trail.len(),
        bets_under(user_bets, user, id).len() == stakes_by(trail, user).len(),
    ensures
        ({
            let key = UserMarketKey { user, market_id: id };
            let bets = bets_under(user_bets, user, id);
            let later = user_bets.insert(key, bets_settled(bets, verdict));
            let position = stakes_by(trail.take(n), user).len() as int;
            outstanding(trail.take(n), id, user_bets, verdict) == outstanding(
                trail.take(n),
                id,
                later,
                verdict,
            ) + bets_due(bets.take(position), verdict)
        }),
    decreases n,
{
    let key = UserMarketKey { user, market_id: id };
    let bets = bets_under(user_bets, user, id);
    let later = user_bets.insert(key, bets_settled(bets, verdict));
    if n == 0 {
        reveal(Seq::filter);
    } else {
        lemma_outstanding_after_claim(trail, id, user_bets, user, verdict, n - 1);
        let earlier = trail.take(n - 1);
        let last = trail[n - 1];
        assert(trail.take(n).drop_last() =~= earlier);
        assert(trail.take(n).last() == last);
        if last.user == user {
            lemma_stake_position(trail, n - 1);
            let position = stakes_by(earlier, user).len() as int;
            assert(bets.take(position + 1).drop_last() =~= bets.take(position));
            assert(bets.take(position + 1).last() == bets[position]);
            assert(bets_under(later, user, id)[position] == bet_settled(bets[position], verdict));
            lemma_settled_bet_is_not_due(bets[position], verdict);
        } else {
            lemma_other_position(trail, n - 1, user);
            assert(bets_under(later, last.user, id) == bets_under(user_bets, last.user, id));
        }
    }
}

/// Nothing is due that is less than nothing.
proof fn lemma_outstanding_nonneg(
    trail: Seq<Activity>,
    id: u32,
    user_bets: Map<UserMarketKey, Seq<UserBet>>,
    verdict: Verdict,
)
    ensures
        0 <= outstanding(trail, id, user_bets, verdict),
    decreases trail.len(),
{
    if trail.len() > 0 {
        lemma_outstanding_nonneg(trail.drop_last(), id, user_bets, verdict);
    }
}

/// What is due to one user is part of what is owed for the market.
pub proof fn lemma_due_within_outstanding(env: EnvView, user: Address, id: u32)
    requires
        user_books(env, user, id),
        env.persistent.predictions[id].is_resolved,
    ensures
        bets_due(bets_of(env, user, id), verdict_of(env, id)) <= liability(env, id),
{
    let trail = activity_of(env, id);
    let verdict = verdict_of(env, id);
    let bets = bets_of(env, user, id);
    let user_bets = env.persistent.user_bets;
    assert(bets_under(user_bets, user, id) == bets);
    lemma_outstanding_after_claim(trail, id, user_bets, user, verdict, trail.len() as int);
    assert(trail.take(trail.len() as int) =~= trail);
    assert(bets.take(bets.len() as int) =~= bets);
    lemma_outstanding_nonneg(
        trail,
        id,
        user_bets.insert(UserMarketKey { user, market_id: id }, bets_settled(bets, verdict)),
        verdict,
    );
}

/// A claim takes exactly what it pays off what is owed for its market.
pub proof fn law_claim_reduces_liability(env: EnvView, user: Address, id: u32)
    requires
        pool_books(env),
        bet_books(env),
        refusal(env, (Call::Claim { user, market_id: id })) is None,
    ensures
        liability(after(env, (Call::Claim { user, market_id: id })), id) == liability(env, id)
            - bets_due(bets_of(env, user, id), verdict_of(env, id)),
{
    let next = after(env, Call::Claim { user, market_id: id });
    let trail = activity_of(env, id);
    let verdict = verdict_of(env, id);
    let bets = bets_of(env, user, id);
    assert(user_books(env, user, id));
    assert(bets_under(env.persistent.user_bets, user, id) == bets);
    lemma_outstanding_after_claim(
        trail,
        id,
        env.persistent.user_bets,
        user,
        verdict,
        trail.len() as int,
    );
    assert(trail.take(trail.len() as int) =~= trail);
    assert(bets.take(bets.len() as int) =~= bets);
    assert(activity_of(next, id) == trail);
    assert(verdict_of(next, id) == verdict);
}

// ------------------------------------------------------------
//  Flows
// ------------------------------------------------------------
/// Two lists of requests bring what each of them brings.
pub proof fn lemma_received_add(
    first: Seq<Effect>,
    second: Seq<Effect>,
    token: Address,
    holder: Address,
)
    ensures
        received(first + second, token, holder) == received(first, token, holder) + received(
            second,
            token,
            holder,
        ),
    decreases second.len(),
{
    if second.len() == 0 {
        assert(first + second =~= first);
    } else {
        assert((first + second).drop_last() =~= first + second.drop_last());
        lemma_received_add(first, second.drop_last(), token, holder);
    }
}

/// Requests that move no tokens bring nothing.
pub proof fn lemma_received_nothing(requests: Seq<Effect>, token: Address, holder: Address)
    requires
        forall|i: int|
            0 <= i < requests.len() ==> !(#[trigger] requests[i] is TransferFrom) && !(
            requests[i] is Transfer),
    ensures
        received(requests, token, holder) == 0,
    decreases requests.len(),
{
    if requests.len() > 0 {
        let rest = requests.drop_last();
        assert forall|i: int| 0 <= i < rest.len() implies !(#[trigger] rest[i] is TransferFrom)
            && !(rest[i] is Transfer) by {
            assert(rest[i] == requests[i]);
        }
        assert(requests.last() == requests[requests.len() - 1]);
        lemma_received_nothing(rest, token, holder);
    }
}

/// A list with one transfer brings what that transfer brings.
proof fn lemma_received_one(requests: Seq<Effect>, at: int, token: Address, holder: Address)
    requires
        0 <= at < requests.len(),
        forall|i: int|
            0 <= i < requests.len() && i != at ==> !(#[trigger] requests[i] is TransferFrom) && !(
            requests[i] is Transfer),
    ensures
        received(requests, token, holder) == flow(requests[at], token, holder),
{
    let head = requests.take(at);
    let one = seq![requests[at]];
    let tail = requests.skip(at + 1);
    assert(requests =~= head + one + tail);
    lemma_received_add(head + one, tail, token, holder);
    lemma_received_add(head, one, token, holder);
    lemma_received_nothing(head, token, holder);
    lemma_received_nothing(tail, token, holder);
    assert(one.drop_last() =~= Seq::<Effect>::empty());
    assert(received(one.drop_last(), token, holder) == 0);
    assert(one.last() == requests[at]);
}

/// Deleting the records of bettors asks for nothing but that.
proof fn lemma_bettor_removals_only_remove(trail: Seq<Activity>, id: u32)
    ensures
        forall|i: int|
            0 <= i < bettor_removals(trail, id).len() ==> #[trigger] bettor_removals(
                trail,
                id,
            )[i] is RemovePersistent,
    decreases trail.len(),
{
    if trail.len() > 0 {
        lemma_bettor_removals_only_remove(trail.drop_last(), id);
        let before = bettor_removals(trail.drop_last(), id);
        let now = bettor_removals(trail, id);
        assert forall|i: int| 0 <= i < now.len() implies #[trigger] now[i] is RemovePersistent by {
            if i < before.len() {
                assert(now[i] == before[i]);
            }
        }
    }
}

/// Deleting markets asks for nothing but that.
pub proof fn lemma_removal_only_removes(persistent: PersistentView, count: nat)
    ensures
        forall|i: int|
            0 <= i < removal_requests(persistent, count).len() ==> #[trigger] removal_requests(
                persistent,
                count,
            )[i] is RemovePersistent,
    decreases count,
{
    if count > 0 {
        let id = count as u32;
        let bettors = bettor_removals(trail_of(persistent, id), id);
        lemma_removal_only_removes(persistent, (count - 1) as nat);
        lemma_bettor_removals_only_remove(trail_of(persistent, id), id);
        let before = removal_requests(persistent, (count - 1) as nat);
        let now = removal_requests(persistent, count);
        assert forall|i: int| 0 <= i < now.len() implies #[trigger] now[i] is RemovePersistent by {
            if i < before.len() {
                assert(now[i] == before[i]);
            } else if i < before.len() + bettors.len() {
                assert(now[i] == bettors[i - before.len()]);
            } else {
                assert(now[i] == market_removal(id)[i - before.len() - bettors.len()]);
            }
        }
    }
}

/// An accepted stake brings its amount, unless the contract stakes itself.
pub proof fn law_stake_is_received(
    env: EnvView,
    user: Address,
    market_id: u32,
    choice: u32,
    amount: i128,
)
    requires
        refusal(env, (Call::BuyShares { user, market_id, choice, amount })) is None,
        user != env.contract,
    ensures
        net_received(env, (Call::BuyShares { user, market_id, choice, amount })) == amount,
{
    let call = Call::BuyShares { user, market_id, choice, amount };
    let requests = bet_requests(env, user, market_id, choice, amount);
    assert(requests_of(env, call) =~= requests);
    lemma_received_one(requests, 1, env.instance.protocol_token->Some_0, env.contract);
}

/// Resolving pays the fee out, unless the contract is its own fee recipient.
pub proof fn law_fee_is_paid(env: EnvView, resolver: Address, market_id: u32, winning_choice: u32)
    requires
        refusal(env, (Call::ResolvePrediction { resolver, market_id, winning_choice })) is None,
    ensures
        net_received(env, (Call::ResolvePrediction { resolver, market_id, winning_choice }))
            == if env.instance.fee_recipient == Some(env.contract) {
            0
        } else {
            -resolution_fee(env, market_id, winning_choice)
        },
{
    let call = Call::ResolvePrediction { resolver, market_id, winning_choice };
    let requests = resolution_requests(env, resolver, market_id, winning_choice);
    let token = env.instance.protocol_token->Some_0;
    assert(requests_of(env, call) =~= requests);
    let pool = env.persistent.predictions[market_id].total_pool as int;
    let platform_fee = value_or(env.instance.platform_fee, 0) as int;
    assert(pool > 0 && platform_fee > 0 ==> pool * platform_fee > 0) by (nonlinear_arith);
    assert(0 <= resolution_fee(env, market_id, winning_choice) <= i128::MAX);
    if resolution_fee(env, market_id, winning_choice) > 0 {
        lemma_received_one(requests, 5, token, env.contract);
    } else {
        lemma_received_nothing(requests, token, env.contract);
    }
}

/// A claim pays out its amount, unless the contract claims itself.
pub proof fn law_claim_is_paid(env: EnvView, user: Address, market_id: u32)
    requires
        refusal(env, (Call::Claim { user, market_id })) is None,
        user != env.contract,
    ensures
        net_received(env, (Call::Claim { user, market_id })) == -bets_due(
            bets_of(env, user, market_id),
            verdict_of(env, market_id),
        ),
{
    let call = Call::Claim { user, market_id };
    let requests = claim_requests(env, user, market_id);
    let token = env.instance.protocol_token->Some_0;
    let bets = bets_of(env, user, market_id);
    let verdict = verdict_of(env, market_id);
    assert(requests_of(env, call) =~= requests);
    lemma_bets_due_grows(bets, verdict, 0);
    if bets_due(bets, verdict) > 0 {
        lemma_received_one(requests, 2, token, env.contract);
    } else {
        lemma_received_nothing(requests, token, env.contract);
    }
}

/// Every call but staking, resolving and claiming moves no tokens.
pub proof fn law_other_calls_move_nothing(env: EnvView, call: Call)
    requires
        !(call is BuyShares),
        !(call is ResolvePrediction),
        !(call is Claim),
    ensures
        net_received(env, call) == 0,
{
    let requests = requests_of(env, call);
    let token = env.instance.protocol_token->Some_0;
    if call is RemoveAllPredictions {
        let count = prediction_count(env) as nat;
        lemma_removal_only_removes(env.persistent, count);
        if refusal(env, call) is None {
            assert(requests =~= seq![Effect::RequireAuth(actor(call))] + removal_requests(env.persistent, count)
                + seq![
                instance_write(DataKey::PredictionCount),
                instance_write(DataKey::TotalValueLocked),
            ]);
            assert forall|i: int| 0 <= i < requests.len() implies !(
            #[trigger] requests[i] is TransferFrom) && !(requests[i] is Transfer) by {
                if 1 <= i < 1 + removal_requests(env.persistent, count).len() {
                    assert(requests[i] == removal_requests(env.persistent, count)[i - 1]);
                }
            }
        }
    } else if call is Initialize || call is CreatePredictions || call is ToggleMarketStatus {
        assert forall|i: int| 0 <= i < requests.len() implies !(
        #[trigger] requests[i] is TransferFrom) && !(requests[i] is Transfer) by {}
    } else if call is AddModerator || call is RemoveModerator {
        assert forall|i: int| 0 <= i < requests.len() implies !(
        #[trigger] requests[i] is TransferFrom) && !(requests[i] is Transfer) by {}
    } else {
        assert forall|i: int| 0 <= i < requests.len() implies !(
        #[trigger] requests[i] is TransferFrom) && !(requests[i] is Transfer) by {}
    }
    lemma_received_nothing(requests, token, env.contract);
}

// ------------------------------------------------------------
//  Solvency
// ------------------------------------------------------------
/// An accepted stake keeps the contract solvent.
proof fn lemma_bet_keeps_solvent(env: EnvView, call: Call)
    requires
        pool_books(env),
        bet_books(env),
        call is BuyShares,
        refusal(env, call) is None,
    ensures
        liabilities(after(env, call)) == liabilities(env) + call->BuyShares_amount,
{
    let next = after(env, call);
    let user = call->BuyShares_user;
    let id = call->BuyShares_market_id;
    assert forall|other: u32| 1 <= other <= prediction_count(env) && other != id implies
        #[trigger] liability(next, other) == liability(env, other) by {
        assert(activity_of(next, other) == activity_of(env, other));
        lemma_liability_carry(env, next, other);
    }
    lemma_liabilities_change(env, next, prediction_count(env) as nat, id);
}

/// Resolving takes at least the fee off what is owed.
proof fn lemma_resolve_keeps_solvent(env: EnvView, call: Call)
    requires
        pool_books(env),
        bet_books(env),
        call is ResolvePrediction,
        refusal(env, call) is None,
    ensures
        liabilities(after(env, call)) <= liabilities(env) - resolution_fee(
            env,
            call->ResolvePrediction_market_id,
            call->winning_choice,
        ),
        0 <= resolution_fee(env, call->ResolvePrediction_market_id, call->winning_choice)
            <= env.persistent.predictions[call->ResolvePrediction_market_id].total_pool,
{
    let next = after(env, call);
    let id = call->ResolvePrediction_market_id;
    let choice = call->winning_choice;
    let market = env.persistent.predictions[id];
    law_calls_keep_pool_books(env, call);
    law_calls_keep_bet_books(env, call);
    assert(market_books(env, id));
    lemma_sound_market_is_positive(env, id, choice);
    law_fee_is_part_of_pool(
        market.total_pool as int,
        market.choices[choice as int].staked_amount as int,
        value_or(env.instance.platform_fee, 0) as int,
    );
    law_pool_covers_claims(next, id);
    assert forall|other: u32| 1 <= other <= prediction_count(env) && other != id implies
        #[trigger] liability(next, other) == liability(env, other) by {
        assert(activity_of(next, other) == activity_of(env, other));
        lemma_liability_carry(env, next, other);
    }
    lemma_liabilities_change(env, next, prediction_count(env) as nat, id);
}

/// A claim takes exactly what it pays off what is owed.
proof fn lemma_claim_keeps_solvent(env: EnvView, call: Call)
    requires
        pool_books(env),
        bet_books(env),
        call is Claim,
        refusal(env, call) is None,
    ensures
        liabilities(after(env, call)) == liabilities(env) - bets_due(
            bets_of(env, call->Claim_user, call->Claim_market_id),
            verdict_of(env, call->Claim_market_id),
        ),
{
    let next = after(env, call);
    let user = call->Claim_user;
    let id = call->Claim_market_id;
    law_claim_reduces_liability(env, user, id);
    assert forall|other: u32| 1 <= other <= prediction_count(env) && other != id implies
        #[trigger] liability(next, other) == liability(env, other) by {
        assert(activity_of(next, other) == activity_of(env, other));
        lemma_liability_carry(env, next, other);
    }
    lemma_liabilities_change(env, next, prediction_count(env) as nat, id);
}

/// The other calls owe nobody more.
proof fn lemma_other_calls_keep_solvent(env: EnvView, call: Call)
    requires
        pool_books(env),
        bet_books(env),
        !(call is BuyShares),
        !(call is ResolvePrediction),
        !(call is Claim),
        refusal(env, call) is None,
    ensures
        liabilities(after(env, call)) <= liabilities(env),
{
    let next = after(env, call);
    let count = prediction_count(env) as nat;
    if call is RemoveAllPredictions {
        lemma_liabilities_bound(env, count, 0);
    } else if call is CreatePredictions {
        let new = (count + 1) as u32;
        assert forall|other: u32| 1 <= other <= count && other != new implies #[trigger] liability(
            next,
            other,
        ) == liability(env, other) by {
            assert(activity_of(next, other) == activity_of(env, other));
            lemma_liability_carry(env, next, other);
        }
        lemma_liabilities_change(env, next, count, new);
        assert(liability(next, new) == 0);
    } else if call is ToggleMarketStatus {
        assert forall|other: u32| 1 <= other <= count && other != 0 implies #[trigger] liability(
            next,
            other,
        ) == liability(env, other) by {
            lemma_liability_carry(env, next, other);
        }
        lemma_liabilities_change(env, next, count, 0);
    } else {
        assert(next.persistent.predictions == env.persistent.predictions);
        assert(next.persistent.user_bets == env.persistent.user_bets);
        assert(next.persistent.market_analytics == env.persistent.market_analytics);
        assert(next.persistent.payout_pool == env.persistent.payout_pool);
        assert(prediction_count(next) == prediction_count(env));
        assert forall|other: u32| 1 <= other <= count && other != 0 implies #[trigger] liability(
            next,
            other,
        ) == liability(env, other) by {
            lemma_liability_carry(env, next, other);
        }
        lemma_liabilities_change(env, next, count, 0);
    }
}

/// The contract can always pay what it owes: if its balance covers all
/// liabilities before an accepted call, it covers them after the transfers of
/// that call. This holds as long as the contract does not stake itself, which
/// would move nothing.
pub proof fn law_calls_keep_solvent(env: EnvView, call: Call, balance: int)
    requires
        pool_books(env),
        bet_books(env),
        refusal(env, call) is None,
        call is BuyShares ==> actor(call) != env.contract,
        balance >= liabilities(env),
    ensures
        balance + net_received(env, call) >= liabilities(after(env, call)),
{
    if call is BuyShares {
        lemma_bet_keeps_solvent(env, call);
        law_stake_is_received(
            env,
            call->BuyShares_user,
            call->BuyShares_market_id,
            call->BuyShares_choice,
            call->BuyShares_amount,
        );
    } else if call is ResolvePrediction {
        lemma_resolve_keeps_solvent(env, call);
        law_fee_is_paid(
            env,
            call->resolver,
            call->ResolvePrediction_market_id,
            call->winning_choice,
        );
    } else if call is Claim {
        lemma_claim_keeps_solvent(env, call);
        let user = call->Claim_user;
        let id = call->Claim_market_id;
        lemma_bets_due_grows(bets_of(env, user, id), verdict_of(env, id), 0);
        if user != env.contract {
            law_claim_is_paid(env, user, id);
        } else {
            let requests = claim_requests(env, user, id);
            let token = env.instance.protocol_token->Some_0;
            assert(requests_of(env, call) =~= requests);
            if bets_due(bets_of(env, user, id), verdict_of(env, id)) > 0 {
                lemma_received_one(requests, 2, token, env.contract);
            } else {
                lemma_received_nothing(requests, token, env.contract);
            }
        }
    } else {
        lemma_other_calls_keep_solvent(env, call);
        law_other_calls_move_nothing(env, call);
    }
}

/// A balance that covers all liabilities covers every payout: what a claim
/// pays, and the fee of a resolution.
pub proof fn law_payouts_are_covered(env: EnvView, call: Call, balance: int)
    requires
        pool_books(env),
        bet_books(env),
        refusal(env, call) is None,
        balance >= liabilities(env),
    ensures
        call is Claim ==> 0 <= bets_due(
            bets_of(env, call->Claim_user, call->Claim_market_id),
            verdict_of(env, call->Claim_market_id),
        ) <= balance,
        call is ResolvePrediction ==> 0 <= resolution_fee(
            env,
            call->ResolvePrediction_market_id,
            call->winning_choice,
        ) <= balance,
{
    let next = after(env, call);
    if call is Claim {
        let user = call->Claim_user;
        let id = call->Claim_market_id;
        lemma_bets_due_grows(bets_of(env, user, id), verdict_of(env, id), 0);
        lemma_claim_keeps_solvent(env, call);
        law_calls_keep_pool_books(env, call);
        law_calls_keep_bet_books(env, call);
        lemma_liabilities_bound(next, prediction_count(next) as nat, 0);
    } else if call is ResolvePrediction {
        lemma_resolve_keeps_solvent(env, call);
        lemma_liabilities_bound(
            env,
            prediction_count(env) as nat,
            call->ResolvePrediction_market_id,
        );
    }
}

} // verus!
