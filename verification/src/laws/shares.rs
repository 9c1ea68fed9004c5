//! Fees and shares: what belongs to whom, and how rounding goes.

use vstd::prelude::*;
use vstd::arithmetic::div_mod::{
    lemma_div_is_ordered, lemma_div_pos_is_pos, lemma_fundamental_div_mod, lemma_mod_bound,
    lemma_div_by_multiple,
};
use vstd::arithmetic::mul::lemma_mul_is_commutative;

use crate::money::{pool_fee, share, FEE_DENOMINATOR};

verus! {

/// The quotient of nonnegative numbers, by its defining inequalities.
pub proof fn lemma_share_exact(amount: int, pool: int, winners_total: int)
    requires
        0 <= amount,
        0 <= pool,
        0 < winners_total,
    ensures
        0 <= share(amount, pool, winners_total),
        share(amount, pool, winners_total) * winners_total <= amount * pool,
        amount * pool < (share(amount, pool, winners_total) + 1) * winners_total,
{
    let product = amount * pool;
    assert(0 <= product) by (nonlinear_arith)
        requires
            0 <= amount,
            0 <= pool,
            product == amount * pool,
    ;
    let q = product / winners_total;
    assert(share(amount, pool, winners_total) == q);
    lemma_fundamental_div_mod(product, winners_total);
    lemma_mod_bound(product, winners_total);
    lemma_div_pos_is_pos(product, winners_total);
    assert(q * winners_total == winners_total * q) by (nonlinear_arith);
    assert((q + 1) * winners_total == winners_total * q + winners_total) by (nonlinear_arith);
}

/// A share is proportional to the stake, rounded down: it never exceeds
/// `pool * amount / winners_total`, and falls short of it by less than one unit.
pub proof fn law_share_is_proportional(amount: i128, pool: i128, winners_total: i128)
    requires
        0 <= amount,
        0 <= pool,
        0 < winners_total,
    ensures
        share(amount as int, pool as int, winners_total as int) * winners_total <= amount * pool,
        amount * pool < (share(amount as int, pool as int, winners_total as int) + 1)
            * winners_total,
{
    lemma_share_exact(amount as int, pool as int, winners_total as int);
}

/// A larger stake never receives less.
pub proof fn law_share_grows_with_stake(smaller: int, larger: int, pool: int, winners_total: int)
    requires
        0 <= smaller <= larger,
        0 <= pool,
        0 < winners_total,
    ensures
        share(smaller, pool, winners_total) <= share(larger, pool, winners_total),
{
    assert(0 <= smaller * pool <= larger * pool) by (nonlinear_arith)
        requires
            0 <= smaller <= larger,
            0 <= pool,
    ;
    lemma_div_is_ordered(smaller * pool, larger * pool, winners_total);
}

/// No winner receives more than the pool, and a lone winner receives all of it.
pub proof fn law_share_within_pool(amount: int, pool: int, winners_total: int)
    requires
        0 <= amount <= winners_total,
        0 <= pool,
        0 < winners_total,
    ensures
        0 <= share(amount, pool, winners_total) <= pool,
        share(winners_total, pool, winners_total) == pool,
{
    lemma_share_exact(amount, pool, winners_total);
    law_share_grows_with_stake(amount, winners_total, pool, winners_total);
    assert(0 <= winners_total * pool) by (nonlinear_arith)
        requires
            0 <= pool,
            0 < winners_total,
    ;
    lemma_mul_is_commutative(winners_total, pool);
    lemma_div_by_multiple(pool, winners_total);
}

/// Splitting a stake never pays more than staking it at once, and loses at most
/// one unit to rounding.
pub proof fn law_share_of_split_stake(first: int, second: int, pool: int, winners_total: int)
    requires
        0 <= first,
        0 <= second,
        0 <= pool,
        0 < winners_total,
    ensures
        share(first, pool, winners_total) + share(second, pool, winners_total) <= share(
            first + second,
            pool,
            winners_total,
        ) <= share(first, pool, winners_total) + share(second, pool, winners_total) + 1,
{
    let a = share(first, pool, winners_total);
    let b = share(second, pool, winners_total);
    let c = share(first + second, pool, winners_total);
    lemma_share_exact(first, pool, winners_total);
    lemma_share_exact(second, pool, winners_total);
    lemma_share_exact(first + second, pool, winners_total);
    assert((first + second) * pool == first * pool + second * pool) by (nonlinear_arith);
    assert(a + b < c + 1) by (nonlinear_arith)
        requires
            0 < winners_total,
            a * winners_total + b * winners_total < (c + 1) * winners_total,
    ;
    assert(c < a + b + 2) by (nonlinear_arith)
        requires
            0 < winners_total,
            c * winners_total < (a + 1) * winners_total + (b + 1) * winners_total,
    ;
}

/// The fee is the given part of the pool, rounded down; it and the rest make up
/// the pool, and the rest is not empty.
pub proof fn law_fee_is_part_of_pool(total_pool: int, winners_total: int, platform_fee: int)
    requires
        0 <= total_pool,
        0 <= platform_fee < FEE_DENOMINATOR,
    ensures
        0 <= pool_fee(total_pool, winners_total, platform_fee) <= total_pool,
        total_pool > 0 ==> pool_fee(total_pool, winners_total, platform_fee) < total_pool,
        winners_total > 0 ==> pool_fee(total_pool, winners_total, platform_fee)
            == total_pool * platform_fee / FEE_DENOMINATOR as int,
{
    let d = FEE_DENOMINATOR as int;
    let product = total_pool * platform_fee;
    assert(0 <= product <= total_pool * (d - 1)) by (nonlinear_arith)
        requires
            0 <= total_pool,
            0 <= platform_fee <= d - 1,
            product == total_pool * platform_fee,
    ;
    assert(total_pool * (d - 1) == total_pool * d - total_pool) by (nonlinear_arith);
    assert(total_pool == 0 || platform_fee == 0 ==> product == 0) by (nonlinear_arith)
        requires
            product == total_pool * platform_fee,
    ;
}

/// Where nobody won, nothing is charged.
pub proof fn law_no_fee_without_winners(total_pool: int, platform_fee: int)
    ensures
        pool_fee(total_pool, 0, platform_fee) == 0,
{
}

} // verus!
