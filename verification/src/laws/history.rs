//! What holds after any sequence of calls.

use vstd::prelude::*;

use crate::betting::{bets_of, market_ids_of};
use crate::env::{EnvView, Instance, PersistentView};
use crate::laws::authority::law_refused_call_changes_nothing;
use crate::laws::books::{
    bet_books, known, law_calls_keep_bet_books, law_calls_keep_pool_books,
    law_calls_keep_staff_books, market_books, pool_books, staff_books, user_books,
};
use crate::laws::calls::{actor, after, at, refusal, Call};
use crate::laws::solvency::{
    law_calls_keep_solvent, lemma_liabilities_carry, liabilities, net_received,
};
use crate::types::Address;

verus! {

/// A call and the time at which it is made.
pub struct TimedCall {
    pub now: u64,
    pub call: Call,
}

/// The contract as it is deployed.
pub open spec fn deployed(contract: Address) -> EnvView {
    EnvView {
        instance: Instance::empty(),
        persistent: PersistentView::empty(),
        timestamp: 0,
        contract,
        effects: Seq::empty(),
    }
}

/// The contract after a sequence of calls.
pub open spec fn history(contract: Address, calls: Seq<TimedCall>) -> EnvView
    decreases calls.len(),
{
    if calls.len() == 0 {
        deployed(contract)
    } else {
        let last = calls.last();
        after(at(history(contract, calls.drop_last()), last.now), last.call)
    }
}

/// What the accepted calls of a sequence have brought to the contract.
pub open spec fn balance_after(contract: Address, calls: Seq<TimedCall>) -> int
    decreases calls.len(),
{
    if calls.len() == 0 {
        0
    } else {
        let last = calls.last();
        let env = at(history(contract, calls.drop_last()), last.now);
        balance_after(contract, calls.drop_last()) + if refusal(env, last.call) is None {
            net_received(env, last.call)
        } else {
            0
        }
    }
}

/// The contract never stakes on its own account.
pub open spec fn stakes_of_others(contract: Address, calls: Seq<TimedCall>) -> bool {
    forall|i: int|
        0 <= i < calls.len() && (#[trigger] calls[i]).call is BuyShares ==> actor(calls[i].call)
            != contract
}

/// The books do not depend on the time.
pub proof fn lemma_books_at(env: EnvView, now: u64)
    ensures
        pool_books(env) ==> pool_books(at(env, now)),
        bet_books(env) ==> bet_books(at(env, now)),
        staff_books(env) ==> staff_books(at(env, now)),
{
    let later = at(env, now);
    if pool_books(env) {
        assert forall|id: u32| known(later, id) implies #[trigger] market_books(later, id) by {
            assert(market_books(env, id));
        }
        assert forall|id: u32| #[trigger]
            later.persistent.predictions.contains_key(id) <==> known(later, id) by {}
        assert(pool_books(later));
    }
    if bet_books(env) {
        assert forall|user: Address, id: u32| known(later, id) implies #[trigger] user_books(
            later,
            user,
            id,
        ) by {
            assert(user_books(env, user, id));
        }
        assert forall|user: Address| (#[trigger] market_ids_of(
            later,
            user,
        )).no_duplicates() by {
            assert(market_ids_of(env, user).no_duplicates());
        }
        assert forall|user: Address, id: u32|
            #![trigger market_ids_of(later, user).contains(id)]
            #![trigger bets_of(later, user, id)]
            market_ids_of(later, user).contains(id)
                <==> bets_of(later, user, id).len() > 0 by {
            assert(market_ids_of(env, user).contains(id)
                <==> bets_of(env, user, id).len() > 0);
        }
        assert(bet_books(later));
    }
}

/// Whatever calls are made from deployment on, the books of the pools and of
/// the moderators are in order.
pub proof fn law_pool_books_always_hold(contract: Address, calls: Seq<TimedCall>)
    ensures
        pool_books(history(contract, calls)),
        staff_books(history(contract, calls)),
        history(contract, calls).contract == contract,
    decreases calls.len(),
{
    if calls.len() > 0 {
        law_pool_books_always_hold(contract, calls.drop_last());
        let before = history(contract, calls.drop_last());
        let last = calls.last();
        lemma_books_at(before, last.now);
        law_calls_keep_pool_books(at(before, last.now), last.call);
        law_calls_keep_staff_books(at(before, last.now), last.call);
    }
}

/// Whatever calls are made from deployment on, the books of the bets are in
/// order.
pub proof fn law_bet_books_always_hold(contract: Address, calls: Seq<TimedCall>)
    ensures
        bet_books(history(contract, calls)),
    decreases calls.len(),
{
    if calls.len() > 0 {
        let before = history(contract, calls.drop_last());
        let last = calls.last();
        law_bet_books_always_hold(contract, calls.drop_last());
        law_pool_books_always_hold(contract, calls.drop_last());
        lemma_books_at(before, last.now);
        law_calls_keep_bet_books(at(before, last.now), last.call);
    }
}

/// Whatever calls are made from deployment on, short of stakes by the contract
/// itself, the contract holds at least what it owes: all stakes in unresolved
/// markets and all unclaimed payouts of resolved ones.
pub proof fn law_contract_is_always_solvent(contract: Address, calls: Seq<TimedCall>)
    requires
        stakes_of_others(contract, calls),
    ensures
        balance_after(contract, calls) >= liabilities(history(contract, calls)),
    decreases calls.len(),
{
    if calls.len() > 0 {
        let rest = calls.drop_last();
        let last = calls.last();
        assert forall|i: int| 0 <= i < rest.len() && (#[trigger] rest[i]).call is BuyShares implies
            actor(rest[i].call) != contract by {
            assert(rest[i] == calls[i]);
        }
        assert(last == calls[calls.len() - 1]);
        law_contract_is_always_solvent(contract, rest);
        law_pool_books_always_hold(contract, rest);
        law_bet_books_always_hold(contract, rest);
        let before = history(contract, rest);
        let env = at(before, last.now);
        lemma_books_at(before, last.now);
        lemma_liabilities_carry(before, env);
        if refusal(env, last.call) is None {
            law_calls_keep_solvent(env, last.call, balance_after(contract, rest));
        } else {
            law_refused_call_changes_nothing(env, last.call);
            lemma_liabilities_carry(env, after(env, last.call));
        }
    }
}

} // verus!
