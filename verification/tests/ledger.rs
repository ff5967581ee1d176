use money_market::error::MarketError;
use money_market::token::Ledger;

const ALICE: u64 = 1;
const BOB: u64 = 2;
const CAROL: u64 = 3;

#[test]
fn balances_default_to_zero() {
    let ledger = Ledger::new();
    assert_eq!(ledger.get_balance(ALICE), 0);
    assert_eq!(ledger.get_allowance(ALICE, BOB), 0);
}

#[test]
fn set_balance_overwrites() {
    let mut ledger = Ledger::new();
    ledger.set_balance(ALICE, 50);
    assert_eq!(ledger.get_balance(ALICE), 50);
    ledger.set_balance(ALICE, 7);
    assert_eq!(ledger.get_balance(ALICE), 7);
    assert_eq!(ledger.get_balance(BOB), 0);
}

#[test]
fn transfer_moves_shares_and_conserves_the_total() {
    let mut ledger = Ledger::new();
    ledger.set_balance(ALICE, 100);
    ledger.set_balance(BOB, 30);
    assert_eq!(ledger.try_transfer(ALICE, BOB, 40), Ok(()));
    assert_eq!(ledger.get_balance(ALICE), 60);
    assert_eq!(ledger.get_balance(BOB), 70);
    assert_eq!(ledger.get_balance(CAROL), 0);
}

#[test]
fn transfer_to_self_changes_nothing() {
    let mut ledger = Ledger::new();
    ledger.set_balance(ALICE, 100);
    assert_eq!(ledger.try_transfer(ALICE, ALICE, 60), Ok(()));
    assert_eq!(ledger.get_balance(ALICE), 100);
}

#[test]
fn transfer_fails_on_insufficient_balance() {
    let mut ledger = Ledger::new();
    ledger.set_balance(ALICE, 10);
    assert_eq!(ledger.try_transfer(ALICE, BOB, 11), Err(MarketError::InsufficientBalance));
    assert_eq!(ledger.get_balance(ALICE), 10);
    assert_eq!(ledger.get_balance(BOB), 0);
}

#[test]
fn approve_overwrites_the_allowance() {
    let mut ledger = Ledger::new();
    ledger.try_approve(ALICE, BOB, 25);
    assert_eq!(ledger.get_allowance(ALICE, BOB), 25);
    // Overwrite, not add.
    ledger.try_approve(ALICE, BOB, 10);
    assert_eq!(ledger.get_allowance(ALICE, BOB), 10);
    // The reverse pair is a different key.
    assert_eq!(ledger.get_allowance(BOB, ALICE), 0);
}

#[test]
fn transfer_from_spends_the_allowance() {
    let mut ledger = Ledger::new();
    ledger.set_balance(ALICE, 100);
    ledger.try_approve(ALICE, BOB, 60);
    assert_eq!(ledger.try_transfer_from(BOB, ALICE, CAROL, 40), Ok(()));
    assert_eq!(ledger.get_balance(ALICE), 60);
    assert_eq!(ledger.get_balance(CAROL), 40);
    assert_eq!(ledger.get_allowance(ALICE, BOB), 20);
}

#[test]
fn transfer_from_fails_on_insufficient_allowance() {
    // The allowance is smaller than the amount: the operation fails and
    // both balances and the allowance are untouched.
    let mut ledger = Ledger::new();
    ledger.set_balance(ALICE, 100);
    ledger.try_approve(ALICE, BOB, 30);
    assert_eq!(
        ledger.try_transfer_from(BOB, ALICE, CAROL, 31),
        Err(MarketError::InsufficientAllowance)
    );
    assert_eq!(ledger.get_balance(ALICE), 100);
    assert_eq!(ledger.get_balance(CAROL), 0);
    assert_eq!(ledger.get_allowance(ALICE, BOB), 30);
}

#[test]
fn transfer_from_fails_on_insufficient_balance() {
    let mut ledger = Ledger::new();
    ledger.set_balance(ALICE, 10);
    ledger.try_approve(ALICE, BOB, 100);
    assert_eq!(
        ledger.try_transfer_from(BOB, ALICE, CAROL, 50),
        Err(MarketError::InsufficientBalance)
    );
    assert_eq!(ledger.get_balance(ALICE), 10);
    assert_eq!(ledger.get_allowance(ALICE, BOB), 100);
}

#[test]
fn mint_and_burn_adjust_one_balance() {
    let mut ledger = Ledger::new();
    ledger.mint_tokens(ALICE, 500);
    assert_eq!(ledger.get_balance(ALICE), 500);
    assert_eq!(ledger.burn_tokens(ALICE, 200), Ok(()));
    assert_eq!(ledger.get_balance(ALICE), 300);
}

#[test]
fn burn_fails_beyond_the_balance() {
    let mut ledger = Ledger::new();
    ledger.mint_tokens(ALICE, 5);
    assert_eq!(ledger.burn_tokens(ALICE, 6), Err(MarketError::InsufficientBalance));
    assert_eq!(ledger.get_balance(ALICE), 5);
}
