//! The failure kinds of the market operations.
//!
//! Every failure aborts the enclosing operation with no partial write and
//! is reported to the caller; none is silently swallowed or retried.

use vstd::prelude::*;

verus! {

/// Why a market operation or a ledger operation was refused.
#[derive(Clone, Copy, Debug, PartialEq, Eq, Structural)]
pub enum MarketError {
    /// The market state's recorded block is not the current block.
    MarketNotFresh,
    /// The computed borrow rate exceeds the configured ceiling.
    BorrowRateTooHigh,
    /// The current block lies before the block at which state was last accrued.
    InvalidBlockOrder,
    /// The pool holds less cash than the operation would pay out.
    InsufficientPoolCash,
    /// An account holds fewer shares than the operation would take.
    InsufficientBalance,
    /// A spender's allowance is smaller than the requested amount.
    InsufficientAllowance,
    /// A redeem request must name shares or an asset amount, not both or neither.
    BothRedeemKindsNonZero,
    /// A divisor of the rate or owed-amount formulas is zero.
    DivisionByZero,
    /// Reserves exceed cash plus borrows, so utilization is undefined.
    InvalidMarketState,
    /// Cash plus borrows fell below reserves in the exchange-rate formula.
    Underflow,
    /// An intermediate product or sum does not fit in 128 bits.
    ArithmeticOverflow,
}

impl MarketError {
    /// A short human-readable name for the error.
    pub fn as_str(&self) -> (r: &'static str)
    {
        match self {
            MarketError::MarketNotFresh => "market is not fresh",
            MarketError::BorrowRateTooHigh => "borrow rate is absurdly high",
            MarketError::InvalidBlockOrder => "current block precedes last accrual",
            MarketError::InsufficientPoolCash => "the lending pool has insufficient cash",
            MarketError::InsufficientBalance => "insufficient funds",
            MarketError::InsufficientAllowance => "insufficient allowance",
            MarketError::BothRedeemKindsNonZero => "one of redeeming tokens or asset must be 0",
            MarketError::DivisionByZero => "division by zero",
            MarketError::InvalidMarketState => "reserves exceed cash plus borrows",
            MarketError::Underflow => "cash plus borrows fell below reserves",
            MarketError::ArithmeticOverflow => "arithmetic overflow",
        }
    }
}

} // verus!
