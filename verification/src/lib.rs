//! A single-asset money-market engine.
//!
//! Participants deposit a base asset to mint pool-ownership shares, redeem
//! shares for the underlying asset plus accrued interest, and borrow the
//! base asset. The crate covers the financial state machine: the per-block
//! interest-rate model, interest accrual, the share/asset exchange rate,
//! the four market operations (mint, redeem, borrow, repay) and the share
//! ledger (balances, allowances) they depend on. Message dispatch, address
//! handling and persistence are left to the host around this library.

pub mod collateral;
pub mod error;
pub mod exponential;
pub mod interest_model;
pub mod msg;
pub mod state;
pub mod token;
