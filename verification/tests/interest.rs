use money_market::error::MarketError;
use money_market::exponential::truncate;
use money_market::interest_model::{get_borrow_rate, get_supply_rate, get_utilization_rate};

#[test]
fn truncate_drops_the_scale() {
    assert_eq!(truncate(200_000_000), 2);
    assert_eq!(truncate(199_999_999), 1);
    assert_eq!(truncate(0), 0);
    assert_eq!(truncate(99_999_999), 0);
}

#[test]
fn utilization_is_zero_without_borrows() {
    assert_eq!(get_utilization_rate(0, 0, 0), Ok(0));
    assert_eq!(get_utilization_rate(1_000_000, 0, 500), Ok(0));
}

#[test]
fn borrow_rate_is_zero_without_borrows() {
    // Utilization zero means the rate is the base rate, which is zero.
    assert_eq!(get_borrow_rate(0, 0, 0), Ok(0));
    assert_eq!(get_borrow_rate(123_456, 0, 45), Ok(0));
}

#[test]
fn full_utilization_uses_the_jump_branch() {
    // cash 0, borrows 100, reserves 0: utilization is exactly one, scaled.
    assert_eq!(get_utilization_rate(0, 100, 0), Ok(100_000_000));
    // normal rate at the kink: 80_000_000 * 23; excess 20_000_000 * 51.
    let normal_rate: u128 = 80_000_000 * 23;
    let expected = 20_000_000 * 51 + normal_rate;
    assert_eq!(get_borrow_rate(0, 100, 0), Ok(expected));
    assert_eq!(expected, 2_860_000_000);
}

#[test]
fn half_utilization_uses_the_ordinary_branch() {
    // cash 100, borrows 100: utilization one half, below the kink.
    assert_eq!(get_utilization_rate(100, 100, 0), Ok(50_000_000));
    assert_eq!(get_borrow_rate(100, 100, 0), Ok(50_000_000 * 23));
}

#[test]
fn utilization_fails_on_zero_denominator() {
    // borrows positive but cash + borrows - reserves == 0.
    assert_eq!(get_utilization_rate(0, 5, 5), Err(MarketError::DivisionByZero));
    assert_eq!(get_borrow_rate(0, 5, 5), Err(MarketError::DivisionByZero));
}

#[test]
fn utilization_fails_when_reserves_exceed_assets() {
    assert_eq!(get_utilization_rate(0, 5, 10), Err(MarketError::InvalidMarketState));
}

#[test]
fn utilization_reports_overflow() {
    // cash + borrows overflows 128 bits.
    assert_eq!(get_utilization_rate(u128::MAX, 1, 0), Err(MarketError::ArithmeticOverflow));
    // borrows * SCALE overflows 128 bits.
    assert_eq!(get_utilization_rate(0, u128::MAX, 0), Err(MarketError::ArithmeticOverflow));
}

#[test]
fn supply_rate_combines_utilization_and_pool_share() {
    // utilization 50_000_000, borrow rate 1_150_000_000, full pool share.
    let rate_to_pool: u128 = 1_150_000_000 * 100_000_000;
    assert_eq!(get_supply_rate(100, 100, 0, 0), Ok(50_000_000 * rate_to_pool));
}

#[test]
fn supply_rate_shrinks_with_the_reserve_factor() {
    // Reserve factor one half leaves half the rate to the pool.
    let rate_to_pool: u128 = 1_150_000_000 * 50_000_000;
    assert_eq!(get_supply_rate(100, 100, 0, 50_000_000), Ok(50_000_000 * rate_to_pool));
}
