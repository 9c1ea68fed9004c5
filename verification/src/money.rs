//! Amounts of the protocol token: fees and proportional shares.

use vstd::prelude::*;

use crate::error::HubError;

verus! {

/// Fees are expressed in basis points (1 / 10_000).
pub const FEE_DENOMINATOR: i128 = 10_000;

/// Whether a number is an amount.
pub open spec fn fits(x: int) -> bool {
    i128::MIN <= x <= i128::MAX
}

/// The absolute value.
pub open spec fn abs(x: int) -> int {
    if x < 0 {
        -x
    } else {
        x
    }
}

/// Division that rounds toward zero.
pub open spec fn trunc_div(x: int, d: int) -> int {
    if (x < 0) == (d < 0) {
        abs(x) / abs(d)
    } else {
        -(abs(x) / abs(d))
    }
}

/// Whether `platform_fee` is a share of less than the whole, in basis points.
pub open spec fn valid_fee(platform_fee: i128) -> bool {
    0 <= platform_fee < FEE_DENOMINATOR
}

/// The fee taken from a pool: a share of it in basis points, rounded down and
/// at most the pool, and nothing where nobody won.
pub open spec fn pool_fee(total_pool: int, winners_total: int, platform_fee: int) -> int {
    if winners_total > 0 && platform_fee > 0 && total_pool > 0 {
        if total_pool * platform_fee / FEE_DENOMINATOR as int > total_pool {
            total_pool
        } else {
            total_pool * platform_fee / FEE_DENOMINATOR as int
        }
    } else {
        0
    }
}

/// Whether the fee can be computed.
pub open spec fn pool_fee_fits(total_pool: int, winners_total: int, platform_fee: int) -> bool {
    winners_total > 0 && platform_fee > 0 && total_pool > 0 ==> fits(total_pool * platform_fee)
}

/// The part of `pool` that belongs to a stake of `amount` out of `winners_total`.
pub open spec fn share(amount: int, pool: int, winners_total: int) -> int {
    trunc_div(amount * pool, winners_total)
}

/// Whether the share can be computed.
pub open spec fn share_fits(amount: int, pool: int, winners_total: int) -> bool {
    fits(amount * pool) && fits(share(amount, pool, winners_total))
}

/// `x - y`, held within the amounts.
pub open spec fn saturated_difference(x: int, y: int) -> int {
    if x - y < i128::MIN {
        i128::MIN as int
    } else if x - y > i128::MAX {
        i128::MAX as int
    } else {
        x - y
    }
}

/// The sum of two amounts.
pub fn checked_sum(x: i128, y: i128) -> (result: Result<i128, HubError>)
    ensures
        result == (if fits(x + y) {
            Ok((x + y) as i128)
        } else {
            Err(HubError::Overflow)
        }),
{
    match x.checked_add(y) {
        Some(sum) => Ok(sum),
        None => Err(HubError::Overflow),
    }
}

/// Subtracts `y` from `x`, stopping at the bounds of the amounts.
pub fn saturating_difference(x: i128, y: i128) -> (result: i128)
    ensures
        result == saturated_difference(x as int, y as int),
{
    match x.checked_sub(y) {
        Some(difference) => difference,
        None => if y > 0 {
            i128::MIN
        } else {
            i128::MAX
        },
    }
}

/// The fee taken from a pool.
pub fn compute_fee(total_pool: i128, winners_total: i128, platform_fee: i128) -> (result: Result<
    i128,
    HubError,
>)
    ensures
        result == (if pool_fee_fits(total_pool as int, winners_total as int, platform_fee as int) {
            Ok(pool_fee(total_pool as int, winners_total as int, platform_fee as int) as i128)
        } else {
            Err(HubError::Overflow)
        }),
        result is Ok ==> result->Ok_0 == pool_fee(
            total_pool as int,
            winners_total as int,
            platform_fee as int,
        ),
{
    let mut fee: i128 = 0;
    if winners_total > 0 && platform_fee > 0 && total_pool > 0 {
        let product: i128 = match total_pool.checked_mul(platform_fee) {
            Some(product) => product,
            None => {
                return Err(HubError::Overflow);
            },
        };
        proof {
            assert(total_pool * platform_fee > 0) by (nonlinear_arith)
                requires
                    total_pool > 0,
                    platform_fee > 0,
            ;
        }
        fee = product / FEE_DENOMINATOR;
        if fee > total_pool {
            fee = total_pool;
        }
    }
    Ok(fee)
}

/// The part of `pool` that belongs to a stake of `amount` out of `winners_total`.
pub fn compute_share(amount: i128, pool: i128, winners_total: i128) -> (result: Result<
    i128,
    HubError,
>)
    requires
        winners_total != 0,
    ensures
        result == (if share_fits(amount as int, pool as int, winners_total as int) {
            Ok(share(amount as int, pool as int, winners_total as int) as i128)
        } else {
            Err(HubError::Overflow)
        }),
        result is Ok ==> result->Ok_0 == share(amount as int, pool as int, winners_total as int),
{
    match amount.checked_mul(pool) {
        None => Err(HubError::Overflow),
        Some(product) => match product.checked_div(winners_total) {
            None => Err(HubError::Overflow),
            Some(quotient) => Ok(quotient),
        },
    }
}

} // verus!
