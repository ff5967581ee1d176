//! The market operations: interest accrual, the exchange-rate oracle, and
//! the state transitions mint, redeem, borrow and repay.
//!
//! Every operation is all-or-nothing: each precondition and intermediate
//! computation is checked before the first write, so a failure never
//! leaves a partial update behind.

use vstd::prelude::*;
use crate::error::MarketError;
use crate::exponential::{spec_truncate, truncate, SCALE};
use crate::interest_model::{get_borrow_rate, spec_borrow_rate};
use crate::state::{BorrowSnapshot, Config, State};
use crate::token::{allowance_of, balance_of, sum_balances, Ledger};

verus! {

/// No two snapshot entries name the same borrower.
pub open spec fn borrow_keys_unique(s: Seq<(u64, BorrowSnapshot)>) -> bool {
    forall|i: int, j: int| 0 <= i < j < s.len() ==> s[i].0 != s[j].0
}

/// Some snapshot entry names this borrower.
pub open spec fn has_borrow_key(s: Seq<(u64, BorrowSnapshot)>, account: u64) -> bool {
    exists|i: int| 0 <= i < s.len() && s[i].0 == account
}

/// A borrower's snapshot: the first entry that names the borrower, or the
/// zero snapshot (no principal) if none was ever written.
pub open spec fn snapshot_of(s: Seq<(u64, BorrowSnapshot)>, account: u64) -> BorrowSnapshot
    decreases s.len(),
{
    if s.len() == 0 {
        BorrowSnapshot { principal: 0u128, interest_index: 0u128 }
    } else if s[0].0 == account {
        s[0].1
    } else {
        snapshot_of(s.drop_first(), account)
    }
}

proof fn lemma_snapshot_first_match(s: Seq<(u64, BorrowSnapshot)>, i: int, account: u64)
    requires
        0 <= i < s.len(),
        s[i].0 == account,
        forall|j: int| 0 <= j < i ==> s[j].0 != account,
    ensures
        snapshot_of(s, account) == s[i].1,
    decreases i,
{
    if i > 0 {
        lemma_snapshot_first_match(s.drop_first(), i - 1, account);
    }
}

proof fn lemma_absent_snapshot_zero(s: Seq<(u64, BorrowSnapshot)>, account: u64)
    requires
        !has_borrow_key(s, account),
    ensures
        snapshot_of(s, account) == (BorrowSnapshot { principal: 0u128, interest_index: 0u128 }),
    decreases s.len(),
{
    if s.len() > 0 {
        assert(!has_borrow_key(s.drop_first(), account)) by {
            if has_borrow_key(s.drop_first(), account) {
                let i = choose|i: int|
                    0 <= i < s.drop_first().len() && s.drop_first()[i].0 == account;
                assert(s[i + 1].0 == account);
            }
        }
        lemma_absent_snapshot_zero(s.drop_first(), account);
    }
}

proof fn lemma_snapshot_of_update(
    s: Seq<(u64, BorrowSnapshot)>,
    i: int,
    e: (u64, BorrowSnapshot),
    k: u64,
)
    requires
        borrow_keys_unique(s),
        0 <= i < s.len(),
        s[i].0 == e.0,
    ensures
        snapshot_of(s.update(i, e), k) == if k == e.0 {
            e.1
        } else {
            snapshot_of(s, k)
        },
    decreases i,
{
    if i == 0 {
        assert(s.update(0, e).drop_first() =~= s.drop_first());
    } else {
        assert(s.update(i, e).drop_first() =~= s.drop_first().update(i - 1, e));
        assert(borrow_keys_unique(s.drop_first())) by {
            assert(forall|a: int| 0 <= a < s.drop_first().len()
                ==> s.drop_first()[a] == s[a + 1]);
        }
        assert(s[0].0 != e.0);
        lemma_snapshot_of_update(s.drop_first(), i - 1, e, k);
    }
}

proof fn lemma_snapshot_of_push(s: Seq<(u64, BorrowSnapshot)>, e: (u64, BorrowSnapshot), k: u64)
    requires
        !has_borrow_key(s, e.0),
    ensures
        snapshot_of(s.push(e), k) == if k == e.0 {
            e.1
        } else {
            snapshot_of(s, k)
        },
    decreases s.len(),
{
    assert(s.push(e).len() == s.len() + 1);
    assert(snapshot_of(s.push(e), k) == if s.push(e)[0].0 == k {
        s.push(e)[0].1
    } else {
        snapshot_of(s.push(e).drop_first(), k)
    });
    if s.len() == 0 {
        assert(s.push(e)[0] == e);
        assert(s.push(e).drop_first() =~= Seq::<(u64, BorrowSnapshot)>::empty());
    } else {
        assert(s.push(e)[0] == s[0]);
        assert(s.push(e).drop_first() =~= s.drop_first().push(e));
        assert(s[0].0 != e.0);
        assert(!has_borrow_key(s.drop_first(), e.0)) by {
            if has_borrow_key(s.drop_first(), e.0) {
                let i = choose|i: int|
                    0 <= i < s.drop_first().len() && s.drop_first()[i].0 == e.0;
                assert(s[i + 1].0 == e.0);
            }
        }
        lemma_snapshot_of_push(s.drop_first(), e, k);
    }
}

/// The whole market: configuration, accrued state, the share ledger, and
/// one snapshot per borrower.
pub struct Market {
    /// Configuration fixed at initialization, plus the share supply.
    pub config: Config,
    /// The record advanced by accrual.
    pub state: State,
    /// Share balances and allowances.
    pub ledger: Ledger,
    /// One entry per borrower that was ever written.
    pub borrows: Vec<(u64, BorrowSnapshot)>,
}

impl Market {
    /// The market invariant, established at initialization and preserved
    /// by every operation: ledger and snapshot keys are unique, the
    /// recorded share supply equals the sum of all balances, the reserve
    /// factor is a fraction, and reserves never outgrow borrows.
    pub open spec fn wf(self) -> bool {
        &&& self.ledger.keys_wf()
        &&& borrow_keys_unique(self.borrows@)
        &&& self.config.total_supply == sum_balances(self.ledger.balances@)
        &&& self.state.wf()
    }

    /// Nothing in the market differs from `m`.
    pub open spec fn unchanged_from(self, m: Market) -> bool {
        &&& self.config == m.config
        &&& self.state == m.state
        &&& self.ledger.balances@ == m.ledger.balances@
        &&& self.ledger.allowances@ == m.ledger.allowances@
        &&& self.borrows@ == m.borrows@
    }

    /// A fresh market: empty ledger, no cash, no borrows, no reserves,
    /// accrued as of the given block. The share supply starts at zero,
    /// matching the empty ledger.
    pub fn init(
        name: String,
        decimals: u8,
        symbol: String,
        denom: String,
        initial_exchange_rate: u128,
        reserve_factor: u128,
        max_borrow_rate: u128,
        borrow_index: u128,
        block_number: u64,
    ) -> (r: Market)
        requires
            reserve_factor <= SCALE,
        ensures
            r.wf(),
            r.config.total_supply == 0,
            r.config.initial_exchange_rate == initial_exchange_rate,
            r.config.reserve_factor == reserve_factor,
            r.config.max_borrow_rate == max_borrow_rate,
            r.config.borrow_index == borrow_index,
            r.config.decimals == decimals,
            r.state == (State {
                cash: 0u128,
                block_number,
                total_reserves: 0u128,
                total_borrows: 0u128,
                reserve_factor,
                max_borrow_rate,
                borrow_index,
            }),
            forall|k: u64| balance_of(r.ledger.balances@, k) == 0,
            forall|o: u64, p: u64| allowance_of(r.ledger.allowances@, o, p) == 0,
            forall|k: u64|
                snapshot_of(r.borrows@, k) == (BorrowSnapshot {
                    principal: 0u128,
                    interest_index: 0u128,
                }),
    {
        let market = Market {
            config: Config {
                name,
                total_supply: 0,
                decimals,
                symbol,
                initial_exchange_rate,
                reserve_factor,
                borrow_index,
                max_borrow_rate,
                denom,
            },
            state: State {
                cash: 0,
                block_number,
                total_reserves: 0,
                total_borrows: 0,
                reserve_factor,
                max_borrow_rate,
                borrow_index,
            },
            ledger: Ledger::new(),
            borrows: Vec::new(),
        };
        proof {
            assert(forall|k: u64| snapshot_of(market.borrows@, k) == (BorrowSnapshot {
                principal: 0u128,
                interest_index: 0u128,
            }));
        }
        market
    }

    /// The configuration record.
    pub fn get_config(&self) -> (r: &Config)
        ensures
            r == self.config,
    {
        &self.config
    }

    /// The market-wide state record.
    pub fn get_state(&self) -> (r: State)
        ensures
            r == self.state,
    {
        self.state
    }

    /// A borrower's snapshot, if one was ever written.
    pub fn get_borrow_balance(&self, account: u64) -> (r: Option<BorrowSnapshot>)
        ensures
            r matches Some(snap) ==> has_borrow_key(self.borrows@, account) && snap == snapshot_of(
                self.borrows@,
                account,
            ),
            r is None ==> !has_borrow_key(self.borrows@, account),
    {
        let mut i: usize = 0;
        while i < self.borrows.len()
            invariant
                i <= self.borrows.len(),
                forall|j: int| 0 <= j < i ==> self.borrows@[j].0 != account,
            decreases self.borrows.len() - i,
        {
            if self.borrows[i].0 == account {
                proof {
                    lemma_snapshot_first_match(self.borrows@, i as int, account);
                }
                return Some(self.borrows[i].1);
            }
            i += 1;
        }
        None
    }

    /// Overwrite a borrower's snapshot, creating its entry on first write.
    pub fn set_borrow_balance(&mut self, account: u64, snapshot: BorrowSnapshot)
        requires
            borrow_keys_unique(old(self).borrows@),
        ensures
            borrow_keys_unique(final(self).borrows@),
            snapshot_of(final(self).borrows@, account) == snapshot,
            forall|k: u64|
                k != account ==> snapshot_of(final(self).borrows@, k) == snapshot_of(
                    old(self).borrows@,
                    k,
                ),
            final(self).config == old(self).config,
            final(self).state == old(self).state,
            final(self).ledger.balances@ == old(self).ledger.balances@,
            final(self).ledger.allowances@ == old(self).ledger.allowances@,
    {
        let ghost s = self.borrows@;
        let mut i: usize = 0;
        while i < self.borrows.len()
            invariant
                i <= self.borrows.len(),
                forall|j: int| 0 <= j < i ==> self.borrows@[j].0 != account,
                self.borrows@ == s,
                s == old(self).borrows@,
                borrow_keys_unique(s),
                self.config == old(self).config,
                self.state == old(self).state,
                self.ledger.balances@ == old(self).ledger.balances@,
                self.ledger.allowances@ == old(self).ledger.allowances@,
            decreases self.borrows.len() - i,
        {
            if self.borrows[i].0 == account {
                proof {
                    let e = (account, snapshot);
                    assert forall|k: u64| #![all_triggers] true implies snapshot_of(
                        s.update(i as int, e),
                        k,
                    ) == if k == account {
                        snapshot
                    } else {
                        snapshot_of(s, k)
                    } by {
                        lemma_snapshot_of_update(s, i as int, e, k);
                    }
                    assert forall|a: int, b: int|
                        0 <= a < b < s.update(i as int, e).len() implies s.update(i as int, e)[a].0
                        != s.update(i as int, e)[b].0 by {
                        assert(s.update(i as int, e)[a].0 == s[a].0);
                        assert(s.update(i as int, e)[b].0 == s[b].0);
                    }
                }
                self.borrows[i] = (account, snapshot);
                return;
            }
            i += 1;
        }
        proof {
            let e = (account, snapshot);
            assert(!has_borrow_key(s, account));
            assert forall|k: u64| #![all_triggers] true implies snapshot_of(s.push(e), k) == if k
                == account {
                snapshot
            } else {
                snapshot_of(s, k)
            } by {
                lemma_snapshot_of_push(s, e, k);
            }
            assert forall|a: int, b: int|
                0 <= a < b < s.push(e).len() implies s.push(e)[a].0 != s.push(e)[b].0 by {
                if b < s.len() {
                    assert(s.push(e)[a] == s[a]);
                    assert(s.push(e)[b] == s[b]);
                } else {
                    assert(s.push(e)[b] == e);
                    assert(s.push(e)[a] == s[a]);
                    assert(s[a].0 != account);
                }
            }
        }
        self.borrows.push((account, snapshot));
    }
}

/// Model of interest accrual. From the state prior to the call: compute
/// the borrow rate, refuse it above the ceiling, refuse a current block
/// before the recorded one, then add simple interest (rate times elapsed
/// blocks) to borrows, a reserve-factor share of it to reserves, and the
/// same factor to the borrow index. Cash is untouched. Every intermediate
/// value must fit in 128 bits.
pub open spec fn spec_accrue(s: State, current_block: u64) -> Result<State, MarketError> {
    match spec_borrow_rate(s.cash as int, s.total_borrows as int, s.total_reserves as int) {
        Result::Err(e) => Result::Err(e),
        Result::Ok(borrow_rate) => if borrow_rate > s.max_borrow_rate {
            Result::Err(MarketError::BorrowRateTooHigh)
        } else if current_block < s.block_number {
            Result::Err(MarketError::InvalidBlockOrder)
        } else {
            let block_delta = current_block - s.block_number;
            if borrow_rate * block_delta > u128::MAX {
                Result::Err(MarketError::ArithmeticOverflow)
            } else {
                let simple_interest_factor = borrow_rate * block_delta;
                if simple_interest_factor * s.total_borrows > u128::MAX {
                    Result::Err(MarketError::ArithmeticOverflow)
                } else {
                    let accumulated_interest = spec_truncate(
                        simple_interest_factor * s.total_borrows,
                    );
                    if accumulated_interest + s.total_borrows > u128::MAX {
                        Result::Err(MarketError::ArithmeticOverflow)
                    } else if accumulated_interest * s.reserve_factor > u128::MAX {
                        Result::Err(MarketError::ArithmeticOverflow)
                    } else if spec_truncate(accumulated_interest * s.reserve_factor)
                        + s.total_reserves > u128::MAX {
                        Result::Err(MarketError::ArithmeticOverflow)
                    } else if simple_interest_factor * s.borrow_index > u128::MAX {
                        Result::Err(MarketError::ArithmeticOverflow)
                    } else if spec_truncate(simple_interest_factor * s.borrow_index)
                        + s.borrow_index > u128::MAX {
                        Result::Err(MarketError::ArithmeticOverflow)
                    } else {
                        Result::Ok(
                            (State {
                                cash: s.cash,
                                block_number: current_block,
                                total_reserves: (s.total_reserves + spec_truncate(
                                    accumulated_interest * s.reserve_factor,
                                )) as u128,
                                total_borrows: (s.total_borrows + accumulated_interest) as u128,
                                reserve_factor: s.reserve_factor,
                                max_borrow_rate: s.max_borrow_rate,
                                borrow_index: (s.borrow_index + spec_truncate(
                                    simple_interest_factor * s.borrow_index,
                                )) as u128,
                            }),
                        )
                    }
                }
            }
        },
    }
}

/// Compute the accrued state without committing it.
fn compute_accrued_state(state: &State, current_block: u64) -> (r: Result<State, MarketError>)
    ensures
        r == spec_accrue(*state, current_block),
{
    let borrow_rate = match get_borrow_rate(
        state.cash,
        state.total_borrows,
        state.total_reserves,
    ) {
        Result::Ok(x) => x,
        Result::Err(e) => { return Result::Err(e) },
    };
    if borrow_rate > state.max_borrow_rate {
        return Result::Err(MarketError::BorrowRateTooHigh);
    }
    if current_block < state.block_number {
        return Result::Err(MarketError::InvalidBlockOrder);
    }
    let block_delta: u128 = (current_block - state.block_number) as u128;
    let simple_interest_factor = match borrow_rate.checked_mul(block_delta) {
        Option::Some(x) => x,
        Option::None => { return Result::Err(MarketError::ArithmeticOverflow) },
    };
    let interest_product = match simple_interest_factor.checked_mul(state.total_borrows) {
        Option::Some(x) => x,
        Option::None => { return Result::Err(MarketError::ArithmeticOverflow) },
    };
    let accumulated_interest = truncate(interest_product);
    let new_total_borrows = match accumulated_interest.checked_add(state.total_borrows) {
        Option::Some(x) => x,
        Option::None => { return Result::Err(MarketError::ArithmeticOverflow) },
    };
    let reserves_product = match accumulated_interest.checked_mul(state.reserve_factor) {
        Option::Some(x) => x,
        Option::None => { return Result::Err(MarketError::ArithmeticOverflow) },
    };
    let new_total_reserves = match truncate(reserves_product).checked_add(state.total_reserves) {
        Option::Some(x) => x,
        Option::None => { return Result::Err(MarketError::ArithmeticOverflow) },
    };
    let index_product = match simple_interest_factor.checked_mul(state.borrow_index) {
        Option::Some(x) => x,
        Option::None => { return Result::Err(MarketError::ArithmeticOverflow) },
    };
    let new_borrow_index = match truncate(index_product).checked_add(state.borrow_index) {
        Option::Some(x) => x,
        Option::None => { return Result::Err(MarketError::ArithmeticOverflow) },
    };
    Result::Ok(
        State {
            cash: state.cash,
            block_number: current_block,
            total_reserves: new_total_reserves,
            total_borrows: new_total_borrows,
            reserve_factor: state.reserve_factor,
            max_borrow_rate: state.max_borrow_rate,
            borrow_index: new_borrow_index,
        },
    )
}

/// Accrual preserves the state invariant: the reserve-factor share of the
/// new interest never exceeds the interest itself, so reserves keep
/// trailing borrows.
pub proof fn lemma_accrue_preserves_wf(s: State, current_block: u64)
    requires
        s.wf(),
    ensures
        spec_accrue(s, current_block) matches Ok(s2) ==> s2.wf() && s2.block_number
            == current_block && s2.cash == s.cash,
{
    match spec_accrue(s, current_block) {
        Result::Ok(s2) => {
            let rate = spec_borrow_rate(
                s.cash as int,
                s.total_borrows as int,
                s.total_reserves as int,
            )->Ok_0;
            let simple_interest_factor = rate * (current_block - s.block_number);
            let accumulated_interest = spec_truncate(simple_interest_factor * s.total_borrows);
            vstd::arithmetic::mul::lemma_mul_nonnegative(
                simple_interest_factor,
                s.total_borrows as int,
            );
            vstd::arithmetic::div_mod::lemma_div_pos_is_pos(
                simple_interest_factor * s.total_borrows,
                SCALE as int,
            );
            vstd::arithmetic::mul::lemma_mul_nonnegative(
                accumulated_interest,
                s.reserve_factor as int,
            );
            vstd::arithmetic::div_mod::lemma_div_pos_is_pos(
                accumulated_interest * s.reserve_factor,
                SCALE as int,
            );
            vstd::arithmetic::mul::lemma_mul_nonnegative(
                simple_interest_factor,
                s.borrow_index as int,
            );
            vstd::arithmetic::div_mod::lemma_div_pos_is_pos(
                simple_interest_factor * s.borrow_index,
                SCALE as int,
            );
            // The reserve share of the interest is at most the interest:
            // rf <= SCALE, so accum * rf / SCALE <= accum * SCALE / SCALE == accum.
            vstd::arithmetic::mul::lemma_mul_inequality(
                s.reserve_factor as int,
                SCALE as int,
                accumulated_interest,
            );
            vstd::arithmetic::mul::lemma_mul_is_commutative(
                s.reserve_factor as int,
                accumulated_interest,
            );
            vstd::arithmetic::mul::lemma_mul_is_commutative(SCALE as int, accumulated_interest);
            vstd::arithmetic::div_mod::lemma_div_is_ordered(
                accumulated_interest * s.reserve_factor,
                accumulated_interest * SCALE,
                SCALE as int,
            );
            vstd::arithmetic::div_mod::lemma_div_multiples_vanish(
                accumulated_interest,
                SCALE as int,
            );
        },
        Result::Err(_) => {},
    }
}

/// The borrow index never decreases: each successful accrual adds a
/// non-negative increment, so any sequence of accrual calls with
/// non-decreasing block numbers leaves the index non-decreasing.
pub proof fn lemma_borrow_index_monotone(s: State, current_block: u64)
    ensures
        spec_accrue(s, current_block) matches Ok(s2) ==> s2.borrow_index >= s.borrow_index,
{
    match spec_accrue(s, current_block) {
        Result::Ok(s2) => {
            let rate = spec_borrow_rate(
                s.cash as int,
                s.total_borrows as int,
                s.total_reserves as int,
            )->Ok_0;
            let simple_interest_factor = rate * (current_block - s.block_number);
            vstd::arithmetic::mul::lemma_mul_nonnegative(
                simple_interest_factor,
                s.borrow_index as int,
            );
            vstd::arithmetic::div_mod::lemma_div_pos_is_pos(
                simple_interest_factor * s.borrow_index,
                SCALE as int,
            );
        },
        Result::Err(_) => {},
    }
}

/// Accrual is idempotent at a block: after an accrual has advanced the
/// recorded block to `current_block`, a second accrual at the same block
/// sees zero elapsed blocks, so if it succeeds it changes none of the four
/// accrual-written fields (and if it fails, the operation writes nothing).
pub proof fn lemma_accrue_idempotent(s: State, s2: State, current_block: u64)
    requires
        spec_accrue(s, current_block) == Result::<State, MarketError>::Ok(s2),
    ensures
        spec_accrue(s2, current_block) matches Ok(s3) ==> s3 == s2,
{
    match spec_accrue(s2, current_block) {
        Result::Ok(s3) => {
            assert(s2.block_number == current_block);
            let rate2 = spec_borrow_rate(
                s2.cash as int,
                s2.total_borrows as int,
                s2.total_reserves as int,
            )->Ok_0;
            assert(current_block - s2.block_number == 0);
            vstd::arithmetic::mul::lemma_mul_by_zero_is_zero(rate2 as int);
            assert(rate2 * (current_block - s2.block_number) == 0);
            assert(0int * s2.total_borrows == 0);
            assert(0int * s2.borrow_index == 0);
            assert(spec_truncate(0) == 0) by {
                vstd::arithmetic::div_mod::lemma_div_of0(SCALE as int);
            }
            assert(0int * s2.reserve_factor == 0);
        },
        Result::Err(_) => {},
    }
}

impl Market {
    /// Advance interest to the current block, committing the accrued
    /// state; on failure the market is left untouched. The borrow index
    /// never decreases.
    pub fn accrue_interest(&mut self, current_block: u64) -> (r: Result<(), MarketError>)
        requires
            old(self).wf(),
        ensures
            final(self).wf(),
            final(self).config == old(self).config,
            final(self).ledger.balances@ == old(self).ledger.balances@,
            final(self).ledger.allowances@ == old(self).ledger.allowances@,
            final(self).borrows@ == old(self).borrows@,
            (match spec_accrue(old(self).state, current_block) {
                Result::Ok(s1) => r is Ok && final(self).state == s1,
                Result::Err(e) => r == Result::<(), MarketError>::Err(e) && final(self).state
                    == old(self).state,
            }),
            final(self).state.borrow_index >= old(self).state.borrow_index,
    {
        proof {
            lemma_accrue_preserves_wf(self.state, current_block);
            lemma_borrow_index_monotone(self.state, current_block);
        }
        match compute_accrued_state(&self.state, current_block) {
            Result::Ok(s1) => {
                self.state = s1;
                Result::Ok(())
            },
            Result::Err(e) => Result::Err(e),
        }
    }
}

/// Model of the exchange-rate oracle. While no shares exist the
/// configured initial rate holds; afterwards the rate follows what the
/// pool holds and is owed, net of reserves, per share.
pub open spec fn spec_exchange_rate(c: Config, s: State) -> Result<u128, MarketError> {
    if c.total_supply == 0 {
        Result::Ok(c.initial_exchange_rate)
    } else if s.cash + s.total_borrows > u128::MAX {
        Result::Err(MarketError::ArithmeticOverflow)
    } else if s.cash + s.total_borrows < s.total_reserves {
        Result::Err(MarketError::Underflow)
    } else if (s.cash + s.total_borrows - s.total_reserves) * SCALE > u128::MAX {
        Result::Err(MarketError::ArithmeticOverflow)
    } else {
        Result::Ok(
            spec_truncate(
                ((s.cash + s.total_borrows - s.total_reserves) * SCALE) / (
                c.total_supply as int),
            ) as u128,
        )
    }
}

/// Compute the exchange rate of a configuration and a state.
fn compute_exchange_rate(config: &Config, state: &State) -> (r: Result<u128, MarketError>)
    ensures
        r == spec_exchange_rate(*config, *state),
{
    if config.total_supply == 0 {
        return Result::Ok(config.initial_exchange_rate);
    }
    let total = match state.cash.checked_add(state.total_borrows) {
        Option::Some(x) => x,
        Option::None => { return Result::Err(MarketError::ArithmeticOverflow) },
    };
    let net = match total.checked_sub(state.total_reserves) {
        Option::Some(x) => x,
        Option::None => { return Result::Err(MarketError::Underflow) },
    };
    let scaled = match net.checked_mul(SCALE) {
        Option::Some(x) => x,
        Option::None => { return Result::Err(MarketError::ArithmeticOverflow) },
    };
    Result::Ok(truncate(scaled / config.total_supply))
}

/// Model of a borrower's current owed amount: the snapshot principal
/// grown by the ratio of the current borrow index to the index recorded
/// in the snapshot. A zero principal owes exactly zero whatever the
/// indices hold.
pub open spec fn spec_account_borrow(snapshot: BorrowSnapshot, borrow_index: u128) -> Result<
    u128,
    MarketError,
> {
    if snapshot.principal == 0 {
        Result::Ok(0u128)
    } else if snapshot.principal * borrow_index > u128::MAX {
        Result::Err(MarketError::ArithmeticOverflow)
    } else if snapshot.interest_index == 0 {
        Result::Err(MarketError::DivisionByZero)
    } else {
        Result::Ok(
            (((snapshot.principal * borrow_index) as int) / (snapshot.interest_index as int)) as u128,
        )
    }
}

/// Compute what a snapshot owes under the given borrow index.
fn compute_account_borrow(snapshot: BorrowSnapshot, borrow_index: u128) -> (r: Result<
    u128,
    MarketError,
>)
    ensures
        r == spec_account_borrow(snapshot, borrow_index),
{
    if snapshot.principal == 0 {
        return Result::Ok(0);
    }
    let product = match snapshot.principal.checked_mul(borrow_index) {
        Option::Some(x) => x,
        Option::None => { return Result::Err(MarketError::ArithmeticOverflow) },
    };
    if snapshot.interest_index == 0 {
        return Result::Err(MarketError::DivisionByZero);
    }
    Result::Ok(product / snapshot.interest_index)
}

impl Market {
    /// The current share/asset exchange rate, from the current state.
    pub fn get_exchange_rate(&self) -> (r: Result<u128, MarketError>)
        ensures
            r == spec_exchange_rate(self.config, self.state),
    {
        compute_exchange_rate(&self.config, &self.state)
    }

    /// What an account currently owes, under the current borrow index.
    pub fn get_account_borrow(&self, account: u64) -> (r: Result<u128, MarketError>)
        ensures
            r == spec_account_borrow(snapshot_of(self.borrows@, account), self.state.borrow_index),
    {
        let snapshot = match self.get_borrow_balance(account) {
            Option::Some(s) => s,
            Option::None => {
                proof {
                    lemma_absent_snapshot_zero(self.borrows@, account);
                }
                BorrowSnapshot { principal: 0, interest_index: 0 }
            },
        };
        compute_account_borrow(snapshot, self.state.borrow_index)
    }
}

/// Shares minted for a deposit at an exchange rate: the scaled product,
/// truncated back to scale.
pub open spec fn spec_mint_shares(amount: int, rate: int) -> int {
    spec_truncate(amount * rate)
}

impl Market {
    /// Deposit `mint_amount` of the underlying asset and mint shares for
    /// the depositor at the post-accrual exchange rate.
    ///
    /// On success returns the minted share count; the deposit joins the
    /// pool's cash and the shares join the depositor's balance and the
    /// total supply. On any failure nothing is written.
    pub fn try_mint(&mut self, minter: u64, mint_amount: u128, current_block: u64) -> (r: Result<
        u128,
        MarketError,
    >)
        requires
            old(self).wf(),
            mint_amount > 0,
        ensures
            final(self).wf(),
            r is Err ==> final(self).unchanged_from(*old(self)),
            final(self).ledger.allowances@ == old(self).ledger.allowances@,
            final(self).borrows@ == old(self).borrows@,
            ({
                match spec_accrue(old(self).state, current_block) {
                    Result::Err(e) => r == Result::<u128, MarketError>::Err(e),
                    Result::Ok(s1) => match spec_exchange_rate(old(self).config, s1) {
                        Result::Err(e) => r == Result::<u128, MarketError>::Err(e),
                        Result::Ok(rate) => if mint_amount * rate > u128::MAX {
                            r == Result::<u128, MarketError>::Err(MarketError::ArithmeticOverflow)
                        } else {
                            let shares = spec_mint_shares(mint_amount as int, rate as int);
                            if old(self).config.total_supply + shares > u128::MAX {
                                r == Result::<u128, MarketError>::Err(
                                    MarketError::ArithmeticOverflow,
                                )
                            } else if s1.cash + mint_amount > u128::MAX {
                                r == Result::<u128, MarketError>::Err(
                                    MarketError::ArithmeticOverflow,
                                )
                            } else {
                                &&& r == Result::<u128, MarketError>::Ok(shares as u128)
                                &&& final(self).state == (State {
                                    cash: (s1.cash + mint_amount) as u128,
                                    ..s1
                                })
                                &&& final(self).config == (Config {
                                    total_supply: (old(self).config.total_supply + shares) as u128,
                                    ..old(self).config
                                })
                                &&& balance_of(final(self).ledger.balances@, minter) == balance_of(
                                    old(self).ledger.balances@,
                                    minter,
                                ) + shares
                                &&& forall|k: u64|
                                    k != minter ==> balance_of(final(self).ledger.balances@, k)
                                        == balance_of(old(self).ledger.balances@, k)
                            }
                        },
                    },
                }
            }),
    {
        proof {
            lemma_accrue_preserves_wf(self.state, current_block);
        }
        let s1 = match compute_accrued_state(&self.state, current_block) {
            Result::Ok(s) => s,
            Result::Err(e) => { return Result::Err(e) },
        };
        if current_block != s1.block_number {
            // Defensive freshness re-check; accrual has just set the block.
            return Result::Err(MarketError::MarketNotFresh);
        }
        let exchange_rate = match compute_exchange_rate(&self.config, &s1) {
            Result::Ok(x) => x,
            Result::Err(e) => { return Result::Err(e) },
        };
        let token_mint_amount = match mint_amount.checked_mul(exchange_rate) {
            Option::Some(p) => truncate(p),
            Option::None => { return Result::Err(MarketError::ArithmeticOverflow) },
        };
        let new_total_supply = match self.config.total_supply.checked_add(token_mint_amount) {
            Option::Some(x) => x,
            Option::None => { return Result::Err(MarketError::ArithmeticOverflow) },
        };
        let new_cash = match s1.cash.checked_add(mint_amount) {
            Option::Some(x) => x,
            Option::None => { return Result::Err(MarketError::ArithmeticOverflow) },
        };
        self.state = State { cash: new_cash, ..s1 };
        self.config.total_supply = new_total_supply;
        self.ledger.mint_tokens(minter, token_mint_amount);
        Result::Ok(token_mint_amount)
    }
}

/// Asset paid out for redeemed shares at an exchange rate.
pub open spec fn spec_redeem_native_out(rate: int, redeem_tokens_in: int) -> int {
    spec_truncate(rate * SCALE * redeem_tokens_in)
}

/// Shares burned for a redeemed asset amount at an exchange rate.
pub open spec fn spec_redeem_tokens_burned(rate: int, redeem_native_in: int) -> int {
    spec_truncate(redeem_native_in / (SCALE * rate))
}

impl Market {
    /// Redeem shares for the underlying asset, or an attached asset
    /// amount for shares: exactly one of `redeem_tokens_in` and
    /// `redeem_native_in` must be nonzero.
    ///
    /// On success returns the asset paid out and the shares burned; the
    /// pool-cash check uses the post-accrual, pre-mutation cash and runs
    /// before any write. On any failure nothing is written.
    pub fn try_redeem(
        &mut self,
        redeemer: u64,
        redeem_tokens_in: u128,
        redeem_native_in: u128,
        current_block: u64,
    ) -> (r: Result<(u128, u128), MarketError>)
        requires
            old(self).wf(),
        ensures
            final(self).wf(),
            r is Err ==> final(self).unchanged_from(*old(self)),
            final(self).ledger.allowances@ == old(self).ledger.allowances@,
            final(self).borrows@ == old(self).borrows@,
            ({
                match spec_accrue(old(self).state, current_block) {
                    Result::Err(e) => r == Result::<(u128, u128), MarketError>::Err(e),
                    Result::Ok(s1) => match spec_exchange_rate(old(self).config, s1) {
                        Result::Err(e) => r == Result::<(u128, u128), MarketError>::Err(e),
                        Result::Ok(rate) => if (redeem_tokens_in != 0 && redeem_native_in != 0) || (
                        redeem_tokens_in == 0 && redeem_native_in == 0) {
                            r == Result::<(u128, u128), MarketError>::Err(
                                MarketError::BothRedeemKindsNonZero,
                            )
                        } else if redeem_tokens_in > 0 {
                            if rate * SCALE > u128::MAX {
                                r == Result::<(u128, u128), MarketError>::Err(
                                    MarketError::ArithmeticOverflow,
                                )
                            } else if (rate * SCALE) * redeem_tokens_in > u128::MAX {
                                r == Result::<(u128, u128), MarketError>::Err(
                                    MarketError::ArithmeticOverflow,
                                )
                            } else {
                                let native_out = spec_redeem_native_out(
                                    rate as int,
                                    redeem_tokens_in as int,
                                );
                                if s1.cash < native_out {
                                    r == Result::<(u128, u128), MarketError>::Err(
                                        MarketError::InsufficientPoolCash,
                                    )
                                } else if balance_of(old(self).ledger.balances@, redeemer)
                                    < redeem_tokens_in {
                                    r == Result::<(u128, u128), MarketError>::Err(
                                        MarketError::InsufficientBalance,
                                    )
                                } else {
                                    &&& r == Result::<(u128, u128), MarketError>::Ok(
                                        (native_out as u128, redeem_tokens_in),
                                    )
                                    &&& final(self).state == (State {
                                        cash: (s1.cash - native_out) as u128,
                                        ..s1
                                    })
                                    &&& final(self).config == (Config {
                                        total_supply: (old(self).config.total_supply
                                            - redeem_tokens_in) as u128,
                                        ..old(self).config
                                    })
                                    &&& balance_of(final(self).ledger.balances@, redeemer)
                                        == balance_of(old(self).ledger.balances@, redeemer)
                                        - redeem_tokens_in
                                    &&& forall|k: u64|
                                        k != redeemer ==> balance_of(
                                            final(self).ledger.balances@,
                                            k,
                                        ) == balance_of(old(self).ledger.balances@, k)
                                }
                            }
                        } else {
                            if SCALE * rate > u128::MAX {
                                r == Result::<(u128, u128), MarketError>::Err(
                                    MarketError::ArithmeticOverflow,
                                )
                            } else if SCALE * rate == 0 {
                                r == Result::<(u128, u128), MarketError>::Err(
                                    MarketError::DivisionByZero,
                                )
                            } else {
                                let burned = spec_redeem_tokens_burned(
                                    rate as int,
                                    redeem_native_in as int,
                                );
                                if s1.cash + redeem_native_in > u128::MAX {
                                    r == Result::<(u128, u128), MarketError>::Err(
                                        MarketError::ArithmeticOverflow,
                                    )
                                } else if balance_of(old(self).ledger.balances@, redeemer)
                                    < burned {
                                    r == Result::<(u128, u128), MarketError>::Err(
                                        MarketError::InsufficientBalance,
                                    )
                                } else {
                                    &&& r == Result::<(u128, u128), MarketError>::Ok(
                                        (redeem_native_in, burned as u128),
                                    )
                                    &&& final(self).state == (State {
                                        cash: (s1.cash + redeem_native_in) as u128,
                                        ..s1
                                    })
                                    &&& final(self).config == (Config {
                                        total_supply: (old(self).config.total_supply
                                            - burned) as u128,
                                        ..old(self).config
                                    })
                                    &&& balance_of(final(self).ledger.balances@, redeemer)
                                        == balance_of(old(self).ledger.balances@, redeemer) - burned
                                    &&& forall|k: u64|
                                        k != redeemer ==> balance_of(
                                            final(self).ledger.balances@,
                                            k,
                                        ) == balance_of(old(self).ledger.balances@, k)
                                }
                            }
                        },
                    },
                }
            }),
    {
        proof {
            lemma_accrue_preserves_wf(self.state, current_block);
        }
        let s1 = match compute_accrued_state(&self.state, current_block) {
            Result::Ok(s) => s,
            Result::Err(e) => { return Result::Err(e) },
        };
        if current_block != s1.block_number {
            // Defensive freshness re-check; accrual has just set the block.
            return Result::Err(MarketError::MarketNotFresh);
        }
        let exchange_rate = match compute_exchange_rate(&self.config, &s1) {
            Result::Ok(x) => x,
            Result::Err(e) => { return Result::Err(e) },
        };
        if (redeem_tokens_in != 0 && redeem_native_in != 0) || (redeem_tokens_in == 0
            && redeem_native_in == 0) {
            return Result::Err(MarketError::BothRedeemKindsNonZero);
        }
        if redeem_tokens_in > 0 {
            let scaled_rate = match exchange_rate.checked_mul(SCALE) {
                Option::Some(x) => x,
                Option::None => { return Result::Err(MarketError::ArithmeticOverflow) },
            };
            let product = match scaled_rate.checked_mul(redeem_tokens_in) {
                Option::Some(x) => x,
                Option::None => { return Result::Err(MarketError::ArithmeticOverflow) },
            };
            let redeem_native = truncate(product);
            if s1.cash < redeem_native {
                return Result::Err(MarketError::InsufficientPoolCash);
            }
            let balance = self.ledger.get_balance(redeemer);
            if balance < redeem_tokens_in {
                return Result::Err(MarketError::InsufficientBalance);
            }
            proof {
                crate::token::lemma_balance_le_sum(self.ledger.balances@, redeemer);
            }
            self.state = State { cash: s1.cash - redeem_native, ..s1 };
            self.config.total_supply = self.config.total_supply - redeem_tokens_in;
            match self.ledger.burn_tokens(redeemer, redeem_tokens_in) {
                Result::Ok(()) => {},
                Result::Err(e) => { return Result::Err(e) },
            }
            Result::Ok((redeem_native, redeem_tokens_in))
        } else {
            let scaled_rate = match SCALE.checked_mul(exchange_rate) {
                Option::Some(x) => x,
                Option::None => { return Result::Err(MarketError::ArithmeticOverflow) },
            };
            if scaled_rate == 0 {
                return Result::Err(MarketError::DivisionByZero);
            }
            let redeem_tokens = truncate(redeem_native_in / scaled_rate);
            let new_cash = match s1.cash.checked_add(redeem_native_in) {
                Option::Some(x) => x,
                Option::None => { return Result::Err(MarketError::ArithmeticOverflow) },
            };
            let balance = self.ledger.get_balance(redeemer);
            if balance < redeem_tokens {
                return Result::Err(MarketError::InsufficientBalance);
            }
            proof {
                crate::token::lemma_balance_le_sum(self.ledger.balances@, redeemer);
            }
            self.state = State { cash: new_cash, ..s1 };
            self.config.total_supply = self.config.total_supply - redeem_tokens;
            match self.ledger.burn_tokens(redeemer, redeem_tokens) {
                Result::Ok(()) => {},
                Result::Err(e) => { return Result::Err(e) },
            }
            Result::Ok((redeem_native_in, redeem_tokens))
        }
    }
}

impl Market {
    /// Borrow `borrow_amount` of the underlying asset against the pool.
    ///
    /// On success returns the borrower's new principal: the amount already
    /// owed (grown by the borrow index) plus the new borrow. The cash
    /// check uses the post-accrual cash; on any failure nothing is
    /// written. Authorization against an external controller is outside
    /// this library's scope and is left to the host.
    pub fn try_borrow(&mut self, borrower: u64, borrow_amount: u128, current_block: u64) -> (r:
        Result<u128, MarketError>)
        requires
            old(self).wf(),
        ensures
            final(self).wf(),
            r is Err ==> final(self).unchanged_from(*old(self)),
            final(self).ledger.balances@ == old(self).ledger.balances@,
            final(self).ledger.allowances@ == old(self).ledger.allowances@,
            final(self).config == old(self).config,
            ({
                match spec_accrue(old(self).state, current_block) {
                    Result::Err(e) => r == Result::<u128, MarketError>::Err(e),
                    Result::Ok(s1) => if s1.cash < borrow_amount {
                        r == Result::<u128, MarketError>::Err(MarketError::InsufficientPoolCash)
                    } else {
                        match spec_account_borrow(
                            snapshot_of(old(self).borrows@, borrower),
                            s1.borrow_index,
                        ) {
                            Result::Err(e) => r == Result::<u128, MarketError>::Err(e),
                            Result::Ok(owed) => if owed + borrow_amount > u128::MAX {
                                r == Result::<u128, MarketError>::Err(
                                    MarketError::ArithmeticOverflow,
                                )
                            } else if s1.total_borrows + borrow_amount > u128::MAX {
                                r == Result::<u128, MarketError>::Err(
                                    MarketError::ArithmeticOverflow,
                                )
                            } else {
                                &&& r == Result::<u128, MarketError>::Ok(
                                    (owed + borrow_amount) as u128,
                                )
                                &&& final(self).state == (State {
                                    cash: (s1.cash - borrow_amount) as u128,
                                    total_borrows: (s1.total_borrows + borrow_amount) as u128,
                                    ..s1
                                })
                                &&& snapshot_of(final(self).borrows@, borrower)
                                    == (BorrowSnapshot {
                                    principal: (owed + borrow_amount) as u128,
                                    interest_index: s1.borrow_index,
                                })
                                &&& forall|k: u64|
                                    k != borrower ==> snapshot_of(final(self).borrows@, k)
                                        == snapshot_of(old(self).borrows@, k)
                            },
                        }
                    },
                }
            }),
    {
        proof {
            lemma_accrue_preserves_wf(self.state, current_block);
        }
        let s1 = match compute_accrued_state(&self.state, current_block) {
            Result::Ok(s) => s,
            Result::Err(e) => { return Result::Err(e) },
        };
        if current_block != s1.block_number {
            // Defensive freshness re-check; accrual has just set the block.
            return Result::Err(MarketError::MarketNotFresh);
        }
        if s1.cash < borrow_amount {
            return Result::Err(MarketError::InsufficientPoolCash);
        }
        let snapshot = match self.get_borrow_balance(borrower) {
            Option::Some(s) => s,
            Option::None => {
                proof {
                    lemma_absent_snapshot_zero(self.borrows@, borrower);
                }
                BorrowSnapshot { principal: 0, interest_index: 0 }
            },
        };
        let account_borrow = match compute_account_borrow(snapshot, s1.borrow_index) {
            Result::Ok(x) => x,
            Result::Err(e) => { return Result::Err(e) },
        };
        let new_account_borrow = match account_borrow.checked_add(borrow_amount) {
            Option::Some(x) => x,
            Option::None => { return Result::Err(MarketError::ArithmeticOverflow) },
        };
        let new_total_borrows = match s1.total_borrows.checked_add(borrow_amount) {
            Option::Some(x) => x,
            Option::None => { return Result::Err(MarketError::ArithmeticOverflow) },
        };
        self.state = State {
            cash: s1.cash - borrow_amount,
            total_borrows: new_total_borrows,
            ..s1
        };
        self.set_borrow_balance(
            borrower,
            BorrowSnapshot { principal: new_account_borrow, interest_index: s1.borrow_index },
        );
        Result::Ok(new_account_borrow)
    }

    /// Repaying a borrow is not yet supported in this scope: the call
    /// records the action for the host's log and changes nothing.
    pub fn try_repay_borrow(&self, _payer: u64) -> (r: Result<(), MarketError>)
        ensures
            r is Ok,
    {
        Result::Ok(())
    }
}

/// A mint followed at once by redeeming every minted share at the same
/// exchange rate pays back the deposit up to truncation loss below
/// `SCALE`. This inversion holds exactly for the rates whose square is the
/// scale; at other rates the two formulas are not mutually inverse.
pub proof fn lemma_mint_redeem_round_trip(amount: u128, rate: u128)
    requires
        rate * rate == SCALE,
        amount * rate <= u128::MAX,
    ensures
        spec_redeem_native_out(rate as int, spec_mint_shares(amount as int, rate as int))
            <= amount,
        amount - spec_redeem_native_out(rate as int, spec_mint_shares(amount as int, rate as int))
            < SCALE,
{
    let a = amount as int;
    let r = rate as int;
    let s = SCALE as int;
    assert(r > 0) by {
        if r == 0 {
            assert(rate * rate == 0);
        }
    }
    let shares = spec_mint_shares(a, r);
    // shares == (a * r) / (r * r) == a / r
    assert(shares == a / r) by {
        vstd::arithmetic::mul::lemma_mul_nonnegative(a, r);
        vstd::arithmetic::div_mod::lemma_div_denominator(a * r, r, r);
        assert((a * r) / (r * r) == ((a * r) / r) / r);
        vstd::arithmetic::mul::lemma_mul_is_commutative(a, r);
        vstd::arithmetic::div_mod::lemma_div_multiples_vanish(a, r);
        assert((a * r) / r == a);
    }
    // native out == (r * s * shares) / s == r * shares
    assert(spec_redeem_native_out(r, shares) == r * shares) by {
        assert(r * s * shares == s * (r * shares)) by (nonlinear_arith);
        vstd::arithmetic::div_mod::lemma_div_multiples_vanish(r * shares, s);
    }
    // r * (a / r) == a - a % r, and 0 <= a % r < r <= s
    vstd::arithmetic::div_mod::lemma_fundamental_div_mod(a, r);
    vstd::arithmetic::div_mod::lemma_mod_division_less_than_divisor(a, r);
    vstd::arithmetic::mul::lemma_mul_increases(r, r);
}

/// For every well-formed market, the recorded total share supply equals
/// the sum of all balances in the share ledger.
pub proof fn lemma_total_supply_is_ledger_sum(m: Market)
    requires
        m.wf(),
    ensures
        m.config.total_supply == sum_balances(m.ledger.balances@),
{
}

/// Every well-formed market is solvent: cash is never negative, and the
/// pool's cash together with what it is owed covers the reserves.
pub proof fn lemma_market_solvent(m: Market)
    requires
        m.wf(),
    ensures
        m.state.cash >= 0,
        m.state.cash + m.state.total_borrows >= m.state.total_reserves,
{
}

} // verus!
