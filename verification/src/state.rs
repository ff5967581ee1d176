//! The market's records: the immutable-ish configuration, the mutable
//! market-wide state advanced by accrual, and per-borrower snapshots.

use vstd::prelude::*;
use crate::exponential::SCALE;

verus! {

/// Market configuration, created once at initialization. Only
/// `total_supply` changes afterwards: it tracks the sum of all share
/// balances in the ledger.
#[derive(Clone, Debug)]
pub struct Config {
    /// Display name of the share token.
    pub name: String,
    /// Sum of all share balances in the ledger.
    pub total_supply: u128,
    /// Decimal places of the share token.
    pub decimals: u8,
    /// Ticker symbol of the share token.
    pub symbol: String,
    /// Exchange rate used while `total_supply == 0`, scaled by `SCALE`.
    pub initial_exchange_rate: u128,
    /// Fraction of accrued interest retained as reserves, scaled by `SCALE`.
    pub reserve_factor: u128,
    /// Initial cumulative interest multiplier, scaled by `SCALE`.
    pub borrow_index: u128,
    /// Ceiling on the per-block borrow rate.
    pub max_borrow_rate: u128,
    /// Denomination of the underlying asset.
    pub denom: String,
}

/// The ledger-wide mutable record, advanced by every accrual call.
#[derive(Clone, Copy, Debug, PartialEq, Eq, Structural)]
pub struct State {
    /// Underlying asset held by the pool.
    pub cash: u128,
    /// Block height at which the state was last accrued.
    pub block_number: u64,
    /// Interest retained by the pool, not owed to share holders.
    pub total_reserves: u128,
    /// Outstanding borrowed principal plus accrued interest.
    pub total_borrows: u128,
    /// Fraction of accrued interest retained as reserves, scaled by `SCALE`;
    /// copied from [`Config`] at initialization, then carried independently.
    pub reserve_factor: u128,
    /// Ceiling on the per-block borrow rate; copied from [`Config`] at
    /// initialization, then carried independently.
    pub max_borrow_rate: u128,
    /// Cumulative interest multiplier, scaled by `SCALE`; never decreases.
    pub borrow_index: u128,
}

/// A borrower's record: the borrowed principal and the value of the global
/// borrow index when the principal was last written.
#[derive(Clone, Copy, Debug, PartialEq, Eq, Structural)]
pub struct BorrowSnapshot {
    /// The borrower's owed amount at the time of the snapshot.
    pub principal: u128,
    /// The global borrow index at the time of the snapshot.
    pub interest_index: u128,
}

impl State {
    /// Structural soundness of a market state: the reserve factor is a
    /// fraction (at most one, scaled), and reserves never outgrow borrows,
    /// since each accrual adds at most as much to reserves as to borrows.
    pub open spec fn wf(self) -> bool {
        &&& self.reserve_factor <= SCALE
        &&& self.total_reserves <= self.total_borrows
    }
}

} // verus!
