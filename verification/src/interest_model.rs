//! The kink-based, piecewise-linear interest-rate model.
//!
//! Utilization is the fraction of pooled assets currently lent out, scaled
//! by [`SCALE`]. Below the kink the per-block borrow rate grows with the
//! ordinary multiplier; past it, the excess utilization is charged at the
//! steeper jump multiplier. All rate constants are fixed at build time.

use vstd::prelude::*;
use crate::error::MarketError;
use crate::exponential::SCALE;

verus! {

/// Per-block rate charged on each unit of utilization below the kink.
pub const MULTIPLIER_PER_BLOCK: u128 = 23;

/// Per-block rate charged at zero utilization.
pub const BASE_RATE_PER_BLOCK: u128 = 0;

/// Per-block rate charged on each unit of utilization past the kink.
pub const JUMP_MULTIPLIER_PER_BLOCK: u128 = 51;

/// Utilization threshold past which the curve steepens, scaled by `SCALE`.
pub const KINK: u128 = 80_000_000;

/// Model of [`get_utilization_rate`]: `borrows * SCALE / (cash + borrows - reserves)`,
/// or zero when nothing is borrowed; every intermediate value must fit in
/// 128 bits and the divisor must be positive.
pub open spec fn spec_utilization_rate(cash: int, borrows: int, reserves: int) -> Result<
    u128,
    MarketError,
> {
    if borrows == 0 {
        Result::Ok(0u128)
    } else if cash + borrows > u128::MAX {
        Result::Err(MarketError::ArithmeticOverflow)
    } else if reserves > cash + borrows {
        Result::Err(MarketError::InvalidMarketState)
    } else if cash + borrows - reserves == 0 {
        Result::Err(MarketError::DivisionByZero)
    } else if borrows * SCALE > u128::MAX {
        Result::Err(MarketError::ArithmeticOverflow)
    } else {
        Result::Ok(((borrows * SCALE) / (cash + borrows - reserves)) as u128)
    }
}

/// Model of [`get_borrow_rate`]: utilization times the ordinary multiplier
/// up to the kink; past it, the excess utilization times the jump
/// multiplier on top of the rate at the kink.
pub open spec fn spec_borrow_rate(cash: int, borrows: int, reserves: int) -> Result<
    u128,
    MarketError,
> {
    match spec_utilization_rate(cash, borrows, reserves) {
        Result::Err(e) => Result::Err(e),
        Result::Ok(util) => if util <= KINK {
            Result::Ok((util * MULTIPLIER_PER_BLOCK + BASE_RATE_PER_BLOCK) as u128)
        } else {
            let normal_rate = KINK * MULTIPLIER_PER_BLOCK + BASE_RATE_PER_BLOCK;
            let excess_util = util - KINK;
            if excess_util * JUMP_MULTIPLIER_PER_BLOCK + normal_rate > u128::MAX {
                Result::Err(MarketError::ArithmeticOverflow)
            } else {
                Result::Ok((excess_util * JUMP_MULTIPLIER_PER_BLOCK + normal_rate) as u128)
            }
        },
    }
}

/// Fraction of pooled assets currently lent out, scaled by `SCALE`.
///
/// Zero when nothing is borrowed, whatever cash and reserves hold.
pub fn get_utilization_rate(cash: u128, borrows: u128, reserves: u128) -> (r: Result<
    u128,
    MarketError,
>)
    ensures
        r == spec_utilization_rate(cash as int, borrows as int, reserves as int),
{
    if borrows == 0 {
        return Result::Ok(0);
    }
    let total = match cash.checked_add(borrows) {
        Option::Some(t) => t,
        Option::None => { return Result::Err(MarketError::ArithmeticOverflow); },
    };
    let denom = match total.checked_sub(reserves) {
        Option::Some(d) => d,
        Option::None => { return Result::Err(MarketError::InvalidMarketState); },
    };
    if denom == 0 {
        return Result::Err(MarketError::DivisionByZero);
    }
    let scaled = match borrows.checked_mul(SCALE) {
        Option::Some(s) => s,
        Option::None => { return Result::Err(MarketError::ArithmeticOverflow); },
    };
    Result::Ok(scaled / denom)
}

/// Per-block borrow rate for the given market totals.
///
/// When nothing is borrowed the utilization is zero and so is the rate.
pub fn get_borrow_rate(cash: u128, borrows: u128, reserves: u128) -> (r: Result<
    u128,
    MarketError,
>)
    ensures
        r == spec_borrow_rate(cash as int, borrows as int, reserves as int),
        borrows == 0 ==> r == Result::<u128, MarketError>::Ok(0u128),
{
    let util = match get_utilization_rate(cash, borrows, reserves) {
        Result::Ok(u) => u,
        Result::Err(e) => { return Result::Err(e); },
    };
    if util <= KINK {
        Result::Ok(util * MULTIPLIER_PER_BLOCK + BASE_RATE_PER_BLOCK)
    } else {
        let normal_rate = KINK * MULTIPLIER_PER_BLOCK + BASE_RATE_PER_BLOCK;
        let excess_util = util - KINK;
        let jump_part = match excess_util.checked_mul(JUMP_MULTIPLIER_PER_BLOCK) {
            Option::Some(p) => p,
            Option::None => { return Result::Err(MarketError::ArithmeticOverflow); },
        };
        match jump_part.checked_add(normal_rate) {
            Option::Some(rate) => Result::Ok(rate),
            Option::None => Result::Err(MarketError::ArithmeticOverflow),
        }
    }
}

/// Model of [`get_supply_rate`]: utilization times the share of the borrow
/// rate that is not retained as reserves.
pub open spec fn spec_supply_rate(
    cash: int,
    borrows: int,
    reserves: int,
    reserve_factor: int,
) -> Result<u128, MarketError>
    recommends
        0 <= reserve_factor <= SCALE,
{
    match spec_borrow_rate(cash, borrows, reserves) {
        Result::Err(e) => Result::Err(e),
        Result::Ok(rate) => {
            let one_minus_reserve_factor = SCALE - reserve_factor;
            if rate * one_minus_reserve_factor > u128::MAX {
                Result::Err(MarketError::ArithmeticOverflow)
            } else {
                match spec_utilization_rate(cash, borrows, reserves) {
                    Result::Err(e) => Result::Err(e),
                    Result::Ok(util) => if util * (rate * one_minus_reserve_factor)
                        > u128::MAX {
                        Result::Err(MarketError::ArithmeticOverflow)
                    } else {
                        Result::Ok((util * (rate * one_minus_reserve_factor)) as u128)
                    },
                }
            }
        },
    }
}

/// Informational per-block rate earned by suppliers; no mutating operation
/// reads it.
pub fn get_supply_rate(cash: u128, borrows: u128, reserves: u128, reserve_factor: u128) -> (r:
    Result<u128, MarketError>)
    requires
        reserve_factor <= SCALE,
    ensures
        r == spec_supply_rate(cash as int, borrows as int, reserves as int, reserve_factor as int),
{
    let rate = match get_borrow_rate(cash, borrows, reserves) {
        Result::Ok(x) => x,
        Result::Err(e) => { return Result::Err(e); },
    };
    let one_minus_reserve_factor = SCALE - reserve_factor;
    let rate_to_pool = match rate.checked_mul(one_minus_reserve_factor) {
        Option::Some(p) => p,
        Option::None => { return Result::Err(MarketError::ArithmeticOverflow); },
    };
    let util = match get_utilization_rate(cash, borrows, reserves) {
        Result::Ok(u) => u,
        Result::Err(e) => { return Result::Err(e); },
    };
    match util.checked_mul(rate_to_pool) {
        Option::Some(r) => Result::Ok(r),
        Option::None => Result::Err(MarketError::ArithmeticOverflow),
    }
}

} // verus!
