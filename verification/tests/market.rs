use money_market::collateral::Market;
use money_market::error::MarketError;
use money_market::msg::ResponseStatus;
use money_market::state::{BorrowSnapshot, Config, State};
use money_market::token::Ledger;

const SCALE: u128 = 100_000_000;
const MAX_RATE: u128 = 1_000_000_000_000;
const ALICE: u64 = 1;
const BOB: u64 = 2;

fn fresh_market(initial_exchange_rate: u128, block: u64) -> Market {
    Market::init(
        String::from("Pool Share"),
        8,
        String::from("PSH"),
        String::from("uluna"),
        initial_exchange_rate,
        5_000_000,
        MAX_RATE,
        SCALE,
        block,
    )
}

#[test]
fn fresh_market_starts_empty() {
    let market = fresh_market(SCALE, 7);
    assert_eq!(market.get_config().total_supply, 0);
    let state = market.get_state();
    assert_eq!(state.cash, 0);
    assert_eq!(state.block_number, 7);
    assert_eq!(state.total_borrows, 0);
    assert_eq!(state.total_reserves, 0);
    assert_eq!(state.borrow_index, SCALE);
    assert!(market.get_borrow_balance(ALICE).is_none());
}

#[test]
fn first_mint_at_one_to_one_rate() {
    // Fresh market, total supply zero, initial rate 1:1 (scaled).
    let mut market = fresh_market(SCALE, 1);
    assert_eq!(market.get_exchange_rate(), Ok(SCALE));
    let minted = market.try_mint(ALICE, 1_000_000, 1);
    assert_eq!(minted, Ok(1_000_000));
    assert_eq!(market.get_state().cash, 1_000_000);
    assert_eq!(market.get_config().total_supply, 1_000_000);
    assert_eq!(market.ledger.get_balance(ALICE), 1_000_000);
}

#[test]
fn supply_always_matches_the_ledger() {
    let mut market = fresh_market(SCALE, 1);
    market.try_mint(ALICE, 1_000, 1).unwrap();
    market.ledger.try_transfer(ALICE, BOB, 300).unwrap();
    let total = market.ledger.get_balance(ALICE) + market.ledger.get_balance(BOB);
    assert_eq!(market.get_config().total_supply, total);
}

#[test]
fn accrual_grows_borrows_reserves_and_index() {
    let mut market = fresh_market(SCALE, 1);
    market.try_mint(ALICE, 1_000_000, 1).unwrap();
    assert_eq!(market.try_borrow(ALICE, 500_000, 1), Ok(500_000));
    assert_eq!(market.get_state().cash, 500_000);
    assert_eq!(market.get_state().total_borrows, 500_000);
    assert_eq!(
        market.get_borrow_balance(ALICE),
        Some(BorrowSnapshot { principal: 500_000, interest_index: SCALE })
    );

    // Ten blocks later: utilization 1/2, rate 50_000_000 * 23 per block.
    assert_eq!(market.accrue_interest(11), Ok(()));
    let state = market.get_state();
    assert_eq!(state.block_number, 11);
    assert_eq!(state.cash, 500_000);
    assert_eq!(state.total_borrows, 58_000_000);
    assert_eq!(state.total_reserves, 2_875_000);
    assert_eq!(state.borrow_index, 11_600_000_000);
    // Solvency: cash plus borrows covers reserves.
    assert!(state.cash + state.total_borrows >= state.total_reserves);

    // The owed amount grows with the index.
    assert_eq!(market.get_account_borrow(ALICE), Ok(58_000_000));

    // Post-accrual exchange rate: truncate((cash + borrows - reserves)
    // * SCALE / supply) == truncate(55_625_000 * SCALE / 1_000_000).
    assert_eq!(market.get_exchange_rate(), Ok(55));
}

#[test]
fn accrual_twice_at_one_block_is_a_no_op() {
    let mut market = fresh_market(SCALE, 1);
    market.try_mint(ALICE, 1_000_000, 1).unwrap();
    market.try_borrow(ALICE, 500_000, 1).unwrap();
    market.accrue_interest(11).unwrap();
    let first = market.get_state();
    market.accrue_interest(11).unwrap();
    assert_eq!(market.get_state(), first);
}

#[test]
fn borrow_index_never_decreases() {
    let mut market = fresh_market(SCALE, 1);
    market.try_mint(ALICE, 1_000_000, 1).unwrap();
    market.try_borrow(ALICE, 500_000, 1).unwrap();
    let mut last = market.get_state().borrow_index;
    for block in [3u64, 5, 5, 9, 20] {
        market.accrue_interest(block).unwrap();
        let index = market.get_state().borrow_index;
        assert!(index >= last);
        last = index;
    }
}

#[test]
fn mint_then_redeem_returns_the_deposit() {
    // At a rate whose square is the scale, mint and redeem are inverse.
    let mut market = fresh_market(10_000, 1);
    assert_eq!(market.try_mint(ALICE, 1_000_000, 1), Ok(100));
    assert_eq!(market.get_exchange_rate(), Ok(10_000));
    assert_eq!(market.try_redeem(ALICE, 100, 0, 1), Ok((1_000_000, 100)));
    assert_eq!(market.get_state().cash, 0);
    assert_eq!(market.get_config().total_supply, 0);
    assert_eq!(market.ledger.get_balance(ALICE), 0);
}

#[test]
fn redeem_by_asset_amount() {
    let mut market = fresh_market(SCALE, 1);
    market.try_mint(ALICE, 1_000, 1).unwrap();
    // Exchange rate is truncate(1000 * SCALE / 1000) == 1; the burned
    // share count truncates 500 / (SCALE * 1) twice, to zero.
    assert_eq!(market.try_redeem(ALICE, 0, 500, 1), Ok((500, 0)));
    assert_eq!(market.get_state().cash, 1_500);
    assert_eq!(market.get_config().total_supply, 1_000);
    assert_eq!(market.ledger.get_balance(ALICE), 1_000);
}

#[test]
fn redeem_rejects_both_or_neither_kind() {
    let mut market = fresh_market(SCALE, 1);
    market.try_mint(ALICE, 1_000, 1).unwrap();
    assert_eq!(market.try_redeem(ALICE, 10, 10, 1), Err(MarketError::BothRedeemKindsNonZero));
    assert_eq!(market.try_redeem(ALICE, 0, 0, 1), Err(MarketError::BothRedeemKindsNonZero));
    // Nothing was written.
    assert_eq!(market.get_state().cash, 1_000);
    assert_eq!(market.get_config().total_supply, 1_000);
    assert_eq!(market.ledger.get_balance(ALICE), 1_000);
}

#[test]
fn redeem_fails_when_the_pool_lacks_cash() {
    let mut market = fresh_market(SCALE, 1);
    market.try_mint(ALICE, 1_000, 1).unwrap();
    market.try_borrow(ALICE, 900, 1).unwrap();
    // Paying out 200 exceeds the 100 of cash left in the pool.
    assert_eq!(market.try_redeem(ALICE, 200, 0, 1), Err(MarketError::InsufficientPoolCash));
    assert_eq!(market.get_state().cash, 100);
    assert_eq!(market.get_config().total_supply, 1_000);
}

#[test]
fn redeem_fails_beyond_the_holding() {
    let mut market = fresh_market(SCALE, 1);
    market.try_mint(ALICE, 1_000, 1).unwrap();
    assert_eq!(market.try_redeem(BOB, 10, 0, 1), Err(MarketError::InsufficientBalance));
    assert_eq!(market.get_config().total_supply, 1_000);
    assert_eq!(market.ledger.get_balance(ALICE), 1_000);
}

#[test]
fn borrow_fails_beyond_the_pool_cash() {
    // The request exceeds cash: the pool refuses and writes nothing.
    let mut market = fresh_market(SCALE, 1);
    market.try_mint(ALICE, 1_000, 1).unwrap();
    assert_eq!(market.try_borrow(ALICE, 1_001, 1), Err(MarketError::InsufficientPoolCash));
    assert_eq!(market.get_state().cash, 1_000);
    assert_eq!(market.get_state().total_borrows, 0);
    assert!(market.get_borrow_balance(ALICE).is_none());
}

#[test]
fn borrowing_twice_compounds_the_principal() {
    let mut market = fresh_market(SCALE, 1);
    market.try_mint(ALICE, 1_000_000, 1).unwrap();
    market.try_borrow(ALICE, 500_000, 1).unwrap();
    market.accrue_interest(11).unwrap();
    // Owed grew to 58_000_000 but the pool only holds 500_000 of cash.
    assert_eq!(market.try_borrow(ALICE, 100_000, 11), Ok(58_100_000));
    assert_eq!(
        market.get_borrow_balance(ALICE),
        Some(BorrowSnapshot { principal: 58_100_000, interest_index: 11_600_000_000 })
    );
    assert_eq!(market.get_state().cash, 400_000);
    assert_eq!(market.get_state().total_borrows, 58_100_000);
}

#[test]
fn accrual_refuses_an_absurd_borrow_rate() {
    let mut market = Market::init(
        String::from("Pool Share"),
        8,
        String::from("PSH"),
        String::from("uluna"),
        SCALE,
        5_000_000,
        0,  // no borrow rate above zero is accepted
        SCALE,
        1,
    );
    market.try_mint(ALICE, 1_000, 1).unwrap();
    market.try_borrow(ALICE, 500, 1).unwrap();
    assert_eq!(market.accrue_interest(2), Err(MarketError::BorrowRateTooHigh));
    assert_eq!(market.get_state().block_number, 1);
}

#[test]
fn accrual_refuses_a_block_in_the_past() {
    let mut market = fresh_market(SCALE, 10);
    assert_eq!(market.accrue_interest(5), Err(MarketError::InvalidBlockOrder));
    assert_eq!(market.get_state().block_number, 10);
}

#[test]
fn mint_reports_overflow() {
    let mut market = fresh_market(SCALE, 1);
    assert_eq!(market.try_mint(ALICE, u128::MAX, 1), Err(MarketError::ArithmeticOverflow));
    assert_eq!(market.get_state().cash, 0);
    assert_eq!(market.get_config().total_supply, 0);
}

#[test]
fn exchange_rate_reports_underflow() {
    // A corrupt state with reserves above cash plus borrows is refused.
    let market = Market {
        config: Config {
            name: String::from("Pool Share"),
            total_supply: 10,
            decimals: 8,
            symbol: String::from("PSH"),
            initial_exchange_rate: SCALE,
            reserve_factor: 0,
            borrow_index: SCALE,
            max_borrow_rate: MAX_RATE,
            denom: String::from("uluna"),
        },
        state: State {
            cash: 1,
            block_number: 1,
            total_reserves: 5,
            total_borrows: 1,
            reserve_factor: 0,
            max_borrow_rate: MAX_RATE,
            borrow_index: SCALE,
        },
        ledger: Ledger::new(),
        borrows: Vec::new(),
    };
    assert_eq!(market.get_exchange_rate(), Err(MarketError::Underflow));
}

#[test]
fn owed_amount_refuses_a_zero_snapshot_index() {
    let mut market = fresh_market(SCALE, 1);
    market.set_borrow_balance(ALICE, BorrowSnapshot { principal: 5, interest_index: 0 });
    assert_eq!(market.get_account_borrow(ALICE), Err(MarketError::DivisionByZero));
}

#[test]
fn zero_principal_owes_zero() {
    let mut market = fresh_market(SCALE, 1);
    market.set_borrow_balance(ALICE, BorrowSnapshot { principal: 0, interest_index: 0 });
    assert_eq!(market.get_account_borrow(ALICE), Ok(0));
}

#[test]
fn repay_borrow_is_recorded_but_unsupported() {
    let mut market = fresh_market(SCALE, 1);
    market.try_mint(ALICE, 1_000, 1).unwrap();
    market.try_borrow(ALICE, 500, 1).unwrap();
    assert_eq!(market.try_repay_borrow(ALICE), Ok(()));
    // Nothing changes: the operation is not yet supported.
    assert_eq!(market.get_state().total_borrows, 500);
    assert_eq!(
        market.get_borrow_balance(ALICE),
        Some(BorrowSnapshot { principal: 500, interest_index: SCALE })
    );
}

#[test]
fn error_names_are_stable() {
    assert_eq!(
        MarketError::InsufficientPoolCash.as_str(),
        "the lending pool has insufficient cash"
    );
    assert_eq!(MarketError::MarketNotFresh.as_str(), "market is not fresh");
}

#[test]
fn response_status_marks_success_and_failure() {
    assert_eq!(ResponseStatus::Success, ResponseStatus::Success);
    assert_ne!(ResponseStatus::Success, ResponseStatus::Failure);
}
