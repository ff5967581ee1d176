//! The share ledger: per-account balances and owner/spender allowances,
//! with transfer, approve, mint and burn primitives.
//!
//! Accounts are small integer identifiers; the host maps addresses to
//! them. Balances and allowances are sparse: an absent record reads as
//! zero, and records are created on first write.

use vstd::prelude::*;
use crate::error::MarketError;

verus! {

/// No two balance entries name the same account.
pub open spec fn balance_keys_unique(s: Seq<(u64, u128)>) -> bool {
    forall|i: int, j: int| 0 <= i < j < s.len() ==> s[i].0 != s[j].0
}

/// Some balance entry names this account.
pub open spec fn has_balance_key(s: Seq<(u64, u128)>, account: u64) -> bool {
    exists|i: int| 0 <= i < s.len() && s[i].0 == account
}

/// Shares held by an account: the first entry that names it, or zero.
pub open spec fn balance_of(s: Seq<(u64, u128)>, account: u64) -> u128
    decreases s.len(),
{
    if s.len() == 0 {
        0u128
    } else if s[0].0 == account {
        s[0].1
    } else {
        balance_of(s.drop_first(), account)
    }
}

/// Total shares across all balance entries.
pub open spec fn sum_balances(s: Seq<(u64, u128)>) -> int
    decreases s.len(),
{
    if s.len() == 0 {
        0
    } else {
        s[0].1 + sum_balances(s.drop_first())
    }
}

/// No two allowance entries name the same owner/spender pair.
pub open spec fn allowance_keys_unique(s: Seq<(u64, u64, u128)>) -> bool {
    forall|i: int, j: int|
        0 <= i < j < s.len() ==> !(s[i].0 == s[j].0 && s[i].1 == s[j].1)
}

/// Some allowance entry names this owner/spender pair.
pub open spec fn has_allowance_key(s: Seq<(u64, u64, u128)>, owner: u64, spender: u64) -> bool {
    exists|i: int| 0 <= i < s.len() && s[i].0 == owner && s[i].1 == spender
}

/// Amount a spender may move from an owner: the first entry that names
/// the pair, or zero.
pub open spec fn allowance_of(s: Seq<(u64, u64, u128)>, owner: u64, spender: u64) -> u128
    decreases s.len(),
{
    if s.len() == 0 {
        0u128
    } else if s[0].0 == owner && s[0].1 == spender {
        s[0].2
    } else {
        allowance_of(s.drop_first(), owner, spender)
    }
}

proof fn lemma_balance_first_match(s: Seq<(u64, u128)>, i: int, account: u64)
    requires
        0 <= i < s.len(),
        s[i].0 == account,
        forall|j: int| 0 <= j < i ==> s[j].0 != account,
    ensures
        balance_of(s, account) == s[i].1,
    decreases i,
{
    if i > 0 {
        lemma_balance_first_match(s.drop_first(), i - 1, account);
    }
}

proof fn lemma_absent_balance_zero(s: Seq<(u64, u128)>, account: u64)
    requires
        !has_balance_key(s, account),
    ensures
        balance_of(s, account) == 0,
    decreases s.len(),
{
    if s.len() > 0 {
        assert(!has_balance_key(s.drop_first(), account)) by {
            if has_balance_key(s.drop_first(), account) {
                let i = choose|i: int|
                    0 <= i < s.drop_first().len() && s.drop_first()[i].0 == account;
                assert(s[i + 1].0 == account);
            }
        }
        lemma_absent_balance_zero(s.drop_first(), account);
    }
}

proof fn lemma_sum_update(s: Seq<(u64, u128)>, i: int, e: (u64, u128))
    requires
        0 <= i < s.len(),
    ensures
        sum_balances(s.update(i, e)) == sum_balances(s) - s[i].1 + e.1,
    decreases i,
{
    if i == 0 {
        assert(s.update(0, e).drop_first() =~= s.drop_first());
    } else {
        assert(s.update(i, e).drop_first() =~= s.drop_first().update(i - 1, e));
        lemma_sum_update(s.drop_first(), i - 1, e);
    }
}

proof fn lemma_sum_push(s: Seq<(u64, u128)>, e: (u64, u128))
    ensures
        sum_balances(s.push(e)) == sum_balances(s) + e.1,
    decreases s.len(),
{
    assert(s.push(e).len() == s.len() + 1);
    assert(sum_balances(s.push(e)) == s.push(e)[0].1 + sum_balances(s.push(e).drop_first()));
    if s.len() == 0 {
        assert(s.push(e)[0] == e);
        assert(s.push(e).drop_first() =~= Seq::<(u64, u128)>::empty());
        assert(sum_balances(Seq::<(u64, u128)>::empty()) == 0);
    } else {
        assert(s.push(e)[0] == s[0]);
        assert(s.push(e).drop_first() =~= s.drop_first().push(e));
        lemma_sum_push(s.drop_first(), e);
    }
}

proof fn lemma_balance_of_update(s: Seq<(u64, u128)>, i: int, e: (u64, u128), k: u64)
    requires
        balance_keys_unique(s),
        0 <= i < s.len(),
        s[i].0 == e.0,
    ensures
        balance_of(s.update(i, e), k) == if k == e.0 {
            e.1
        } else {
            balance_of(s, k)
        },
    decreases i,
{
    if i == 0 {
        assert(s.update(0, e).drop_first() =~= s.drop_first());
    } else {
        assert(s.update(i, e).drop_first() =~= s.drop_first().update(i - 1, e));
        assert(balance_keys_unique(s.drop_first())) by {
            assert(forall|a: int| 0 <= a < s.drop_first().len()
                ==> s.drop_first()[a] == s[a + 1]);
        }
        assert(s[0].0 != e.0);
        lemma_balance_of_update(s.drop_first(), i - 1, e, k);
    }
}

proof fn lemma_balance_of_push(s: Seq<(u64, u128)>, e: (u64, u128), k: u64)
    requires
        !has_balance_key(s, e.0),
    ensures
        balance_of(s.push(e), k) == if k == e.0 {
            e.1
        } else {
            balance_of(s, k)
        },
    decreases s.len(),
{
    assert(s.push(e).len() == s.len() + 1);
    assert(balance_of(s.push(e), k) == if s.push(e)[0].0 == k {
        s.push(e)[0].1
    } else {
        balance_of(s.push(e).drop_first(), k)
    });
    if s.len() == 0 {
        assert(s.push(e)[0] == e);
        assert(s.push(e).drop_first() =~= Seq::<(u64, u128)>::empty());
        assert(balance_of(Seq::<(u64, u128)>::empty(), k) == 0);
    } else {
        assert(s.push(e)[0] == s[0]);
        assert(s.push(e).drop_first() =~= s.drop_first().push(e));
        assert(s[0].0 != e.0);
        assert(!has_balance_key(s.drop_first(), e.0)) by {
            if has_balance_key(s.drop_first(), e.0) {
                let i = choose|i: int|
                    0 <= i < s.drop_first().len() && s.drop_first()[i].0 == e.0;
                assert(s[i + 1].0 == e.0);
            }
        }
        lemma_balance_of_push(s.drop_first(), e, k);
    }
}

pub(crate) proof fn lemma_balance_le_sum(s: Seq<(u64, u128)>, k: u64)
    ensures
        0 <= sum_balances(s),
        balance_of(s, k) <= sum_balances(s),
    decreases s.len(),
{
    if s.len() > 0 {
        lemma_balance_le_sum(s.drop_first(), k);
    }
}

proof fn lemma_two_balances_le_sum(s: Seq<(u64, u128)>, k1: u64, k2: u64)
    requires
        k1 != k2,
    ensures
        balance_of(s, k1) + balance_of(s, k2) <= sum_balances(s),
    decreases s.len(),
{
    if s.len() > 0 {
        if s[0].0 == k1 {
            lemma_balance_le_sum(s.drop_first(), k2);
        } else if s[0].0 == k2 {
            lemma_balance_le_sum(s.drop_first(), k1);
        } else {
            lemma_balance_le_sum(s.drop_first(), k1);
        }
        lemma_two_balances_le_sum(s.drop_first(), k1, k2);
    }
}

proof fn lemma_allowance_first_match(s: Seq<(u64, u64, u128)>, i: int, owner: u64, spender: u64)
    requires
        0 <= i < s.len(),
        s[i].0 == owner,
        s[i].1 == spender,
        forall|j: int| 0 <= j < i ==> !(s[j].0 == owner && s[j].1 == spender),
    ensures
        allowance_of(s, owner, spender) == s[i].2,
    decreases i,
{
    if i > 0 {
        lemma_allowance_first_match(s.drop_first(), i - 1, owner, spender);
    }
}

proof fn lemma_absent_allowance_zero(s: Seq<(u64, u64, u128)>, owner: u64, spender: u64)
    requires
        !has_allowance_key(s, owner, spender),
    ensures
        allowance_of(s, owner, spender) == 0,
    decreases s.len(),
{
    if s.len() > 0 {
        assert(!has_allowance_key(s.drop_first(), owner, spender)) by {
            if has_allowance_key(s.drop_first(), owner, spender) {
                let i = choose|i: int|
                    0 <= i < s.drop_first().len() && s.drop_first()[i].0 == owner
                        && s.drop_first()[i].1 == spender;
                assert(s[i + 1].0 == owner && s[i + 1].1 == spender);
            }
        }
        lemma_absent_allowance_zero(s.drop_first(), owner, spender);
    }
}

proof fn lemma_allowance_of_update(
    s: Seq<(u64, u64, u128)>,
    i: int,
    e: (u64, u64, u128),
    owner: u64,
    spender: u64,
)
    requires
        allowance_keys_unique(s),
        0 <= i < s.len(),
        s[i].0 == e.0,
        s[i].1 == e.1,
    ensures
        allowance_of(s.update(i, e), owner, spender) == if owner == e.0 && spender == e.1 {
            e.2
        } else {
            allowance_of(s, owner, spender)
        },
    decreases i,
{
    if i == 0 {
        assert(s.update(0, e).drop_first() =~= s.drop_first());
    } else {
        assert(s.update(i, e).drop_first() =~= s.drop_first().update(i - 1, e));
        assert(allowance_keys_unique(s.drop_first())) by {
            assert(forall|a: int| 0 <= a < s.drop_first().len()
                ==> s.drop_first()[a] == s[a + 1]);
        }
        assert(!(s[0].0 == e.0 && s[0].1 == e.1));
        lemma_allowance_of_update(s.drop_first(), i - 1, e, owner, spender);
    }
}

proof fn lemma_allowance_of_push(
    s: Seq<(u64, u64, u128)>,
    e: (u64, u64, u128),
    owner: u64,
    spender: u64,
)
    requires
        !has_allowance_key(s, e.0, e.1),
    ensures
        allowance_of(s.push(e), owner, spender) == if owner == e.0 && spender == e.1 {
            e.2
        } else {
            allowance_of(s, owner, spender)
        },
    decreases s.len(),
{
    assert(s.push(e).len() == s.len() + 1);
    assert(allowance_of(s.push(e), owner, spender) == if s.push(e)[0].0 == owner && s.push(e)[0].1
        == spender {
        s.push(e)[0].2
    } else {
        allowance_of(s.push(e).drop_first(), owner, spender)
    });
    if s.len() == 0 {
        assert(s.push(e)[0] == e);
        assert(s.push(e).drop_first() =~= Seq::<(u64, u64, u128)>::empty());
        assert(allowance_of(Seq::<(u64, u64, u128)>::empty(), owner, spender) == 0);
    } else {
        assert(s.push(e)[0] == s[0]);
        assert(s.push(e).drop_first() =~= s.drop_first().push(e));
        assert(!(s[0].0 == e.0 && s[0].1 == e.1));
        assert(!has_allowance_key(s.drop_first(), e.0, e.1)) by {
            if has_allowance_key(s.drop_first(), e.0, e.1) {
                let i = choose|i: int|
                    0 <= i < s.drop_first().len() && s.drop_first()[i].0 == e.0
                        && s.drop_first()[i].1 == e.1;
                assert(s[i + 1].0 == e.0 && s[i + 1].1 == e.1);
            }
        }
        lemma_allowance_of_push(s.drop_first(), e, owner, spender);
    }
}

/// The fungible-share ledger: who holds how many shares, and how many
/// shares each spender may move on an owner's behalf.
pub struct Ledger {
    /// One entry per account that was ever written.
    pub balances: Vec<(u64, u128)>,
    /// One entry per (owner, spender) pair that was ever written.
    pub allowances: Vec<(u64, u64, u128)>,
}

impl Ledger {
    /// Each account and each owner/spender pair has at most one entry.
    pub open spec fn keys_wf(self) -> bool {
        &&& balance_keys_unique(self.balances@)
        &&& allowance_keys_unique(self.allowances@)
    }

    /// Well-formed ledger: unique keys, and the share total fits the
    /// supply counter's width.
    pub open spec fn wf(self) -> bool {
        &&& self.keys_wf()
        &&& sum_balances(self.balances@) <= u128::MAX
    }

    /// An empty ledger: every balance and every allowance reads as zero.
    pub fn new() -> (r: Ledger)
        ensures
            r.wf(),
            sum_balances(r.balances@) == 0,
            forall|k: u64| balance_of(r.balances@, k) == 0,
            forall|o: u64, p: u64| allowance_of(r.allowances@, o, p) == 0,
    {
        Ledger { balances: Vec::new(), allowances: Vec::new() }
    }

    /// Shares held by an account; zero if it was never written.
    pub fn get_balance(&self, account: u64) -> (r: u128)
        ensures
            r == balance_of(self.balances@, account),
    {
        let mut i: usize = 0;
        while i < self.balances.len()
            invariant
                i <= self.balances.len(),
                forall|j: int| 0 <= j < i ==> self.balances@[j].0 != account,
            decreases self.balances.len() - i,
        {
            if self.balances[i].0 == account {
                proof {
                    lemma_balance_first_match(self.balances@, i as int, account);
                }
                return self.balances[i].1;
            }
            i += 1;
        }
        proof {
            lemma_absent_balance_zero(self.balances@, account);
        }
        0
    }

    /// Overwrite an account's balance, creating its entry on first write.
    pub fn set_balance(&mut self, account: u64, amount: u128)
        requires
            old(self).keys_wf(),
        ensures
            final(self).keys_wf(),
            balance_of(final(self).balances@, account) == amount,
            forall|k: u64|
                k != account ==> balance_of(final(self).balances@, k) == balance_of(
                    old(self).balances@,
                    k,
                ),
            sum_balances(final(self).balances@) == sum_balances(old(self).balances@) - balance_of(
                old(self).balances@,
                account,
            ) + amount,
            final(self).allowances@ == old(self).allowances@,
    {
        let ghost s = self.balances@;
        let mut i: usize = 0;
        while i < self.balances.len()
            invariant
                i <= self.balances.len(),
                forall|j: int| 0 <= j < i ==> self.balances@[j].0 != account,
                self.balances@ == s,
                s == old(self).balances@,
                old(self).keys_wf(),
                self.allowances@ == old(self).allowances@,
            decreases self.balances.len() - i,
        {
            if self.balances[i].0 == account {
                proof {
                    lemma_balance_first_match(s, i as int, account);
                    lemma_sum_update(s, i as int, (account, amount));
                    assert forall|k: u64| #![all_triggers] true implies balance_of(
                        s.update(i as int, (account, amount)),
                        k,
                    ) == if k == account {
                        amount
                    } else {
                        balance_of(s, k)
                    } by {
                        lemma_balance_of_update(s, i as int, (account, amount), k);
                    }
                    assert forall|a: int, b: int|
                        0 <= a < b < s.update(i as int, (account, amount)).len() implies s.update(
                        i as int,
                        (account, amount),
                    )[a].0 != s.update(i as int, (account, amount))[b].0 by {
                        assert(s.update(i as int, (account, amount))[a].0 == s[a].0);
                        assert(s.update(i as int, (account, amount))[b].0 == s[b].0);
                    }
                }
                self.balances[i] = (account, amount);
                return;
            }
            i += 1;
        }
        proof {
            assert(!has_balance_key(s, account));
            lemma_absent_balance_zero(s, account);
            lemma_sum_push(s, (account, amount));
            assert forall|k: u64| #![all_triggers] true implies balance_of(
                s.push((account, amount)),
                k,
            ) == if k == account {
                amount
            } else {
                balance_of(s, k)
            } by {
                lemma_balance_of_push(s, (account, amount), k);
            }
            assert forall|a: int, b: int|
                0 <= a < b < s.push((account, amount)).len() implies s.push(
                (account, amount),
            )[a].0 != s.push((account, amount))[b].0 by {
                if b < s.len() {
                    assert(s.push((account, amount))[a].0 == s[a].0);
                    assert(s.push((account, amount))[b].0 == s[b].0);
                } else {
                    assert(s.push((account, amount))[b] == (account, amount));
                    assert(s.push((account, amount))[a].0 == s[a].0);
                    assert(s[a].0 != account);
                }
            }
        }
        self.balances.push((account, amount));
    }

    /// Amount a spender may move from an owner; zero if never approved.
    pub fn get_allowance(&self, owner: u64, spender: u64) -> (r: u128)
        ensures
            r == allowance_of(self.allowances@, owner, spender),
    {
        let mut i: usize = 0;
        while i < self.allowances.len()
            invariant
                i <= self.allowances.len(),
                forall|j: int|
                    0 <= j < i ==> !(self.allowances@[j].0 == owner && self.allowances@[j].1
                        == spender),
            decreases self.allowances.len() - i,
        {
            if self.allowances[i].0 == owner && self.allowances[i].1 == spender {
                proof {
                    lemma_allowance_first_match(self.allowances@, i as int, owner, spender);
                }
                return self.allowances[i].2;
            }
            i += 1;
        }
        proof {
            lemma_absent_allowance_zero(self.allowances@, owner, spender);
        }
        0
    }

    /// Overwrite (not add to) an owner/spender allowance.
    pub fn set_allowance(&mut self, owner: u64, spender: u64, amount: u128)
        requires
            old(self).keys_wf(),
        ensures
            final(self).keys_wf(),
            allowance_of(final(self).allowances@, owner, spender) == amount,
            forall|o: u64, p: u64|
                !(o == owner && p == spender) ==> allowance_of(final(self).allowances@, o, p)
                    == allowance_of(old(self).allowances@, o, p),
            final(self).balances@ == old(self).balances@,
    {
        let ghost s = self.allowances@;
        let mut i: usize = 0;
        while i < self.allowances.len()
            invariant
                i <= self.allowances.len(),
                forall|j: int|
                    0 <= j < i ==> !(self.allowances@[j].0 == owner && self.allowances@[j].1
                        == spender),
                self.allowances@ == s,
                s == old(self).allowances@,
                old(self).keys_wf(),
                self.balances@ == old(self).balances@,
            decreases self.allowances.len() - i,
        {
            if self.allowances[i].0 == owner && self.allowances[i].1 == spender {
                proof {
                    let e = (owner, spender, amount);
                    assert forall|o: u64, p: u64| #![all_triggers] true implies allowance_of(
                        s.update(i as int, e),
                        o,
                        p,
                    ) == if o == owner && p == spender {
                        amount
                    } else {
                        allowance_of(s, o, p)
                    } by {
                        lemma_allowance_of_update(s, i as int, e, o, p);
                    }
                    assert forall|a: int, b: int|
                        0 <= a < b < s.update(i as int, e).len() implies !(s.update(i as int, e)[a].0
                        == s.update(i as int, e)[b].0 && s.update(i as int, e)[a].1 == s.update(
                        i as int,
                        e,
                    )[b].1) by {
                        assert(s.update(i as int, e)[a].0 == s[a].0 && s.update(i as int, e)[a].1
                            == s[a].1);
                        assert(s.update(i as int, e)[b].0 == s[b].0 && s.update(i as int, e)[b].1
                            == s[b].1);
                    }
                }
                self.allowances[i] = (owner, spender, amount);
                return;
            }
            i += 1;
        }
        proof {
            let e = (owner, spender, amount);
            assert(!has_allowance_key(s, owner, spender));
            assert forall|o: u64, p: u64| #![all_triggers] true implies allowance_of(
                s.push(e),
                o,
                p,
            ) == if o == owner && p == spender {
                amount
            } else {
                allowance_of(s, o, p)
            } by {
                lemma_allowance_of_push(s, e, o, p);
            }
            assert forall|a: int, b: int|
                0 <= a < b < s.push(e).len() implies !(s.push(e)[a].0 == s.push(e)[b].0 && s.push(
                e,
            )[a].1 == s.push(e)[b].1) by {
                if b < s.len() {
                    assert(s.push(e)[a] == s[a]);
                    assert(s.push(e)[b] == s[b]);
                } else {
                    assert(s.push(e)[b] == e);
                    assert(s.push(e)[a] == s[a]);
                    assert(!(s[a].0 == owner && s[a].1 == spender));
                }
            }
        }
        self.allowances.push((owner, spender, amount));
    }

    /// Move shares between two accounts; the share total is conserved.
    ///
    /// Fails, writing nothing, when the source holds fewer shares than the
    /// requested amount.
    pub fn perform_transfer(&mut self, from: u64, to: u64, amount: u128) -> (r: Result<
        (),
        MarketError,
    >)
        requires
            old(self).wf(),
        ensures
            final(self).wf(),
            final(self).allowances@ == old(self).allowances@,
            sum_balances(final(self).balances@) == sum_balances(old(self).balances@),
            r is Ok <==> balance_of(old(self).balances@, from) >= amount,
            r is Err ==> r == Result::<(), MarketError>::Err(MarketError::InsufficientBalance)
                && final(self).balances@ == old(self).balances@,
            r is Ok && from != to ==> balance_of(final(self).balances@, from) == balance_of(
                old(self).balances@,
                from,
            ) - amount && balance_of(final(self).balances@, to) == balance_of(
                old(self).balances@,
                to,
            ) + amount,
            from == to ==> forall|k: u64|
                balance_of(final(self).balances@, k) == balance_of(old(self).balances@, k),
            forall|k: u64|
                k != from && k != to ==> balance_of(final(self).balances@, k) == balance_of(
                    old(self).balances@,
                    k,
                ),
    {
        let from_balance = self.get_balance(from);
        if from_balance < amount {
            return Result::Err(MarketError::InsufficientBalance);
        }
        proof {
            lemma_balance_le_sum(self.balances@, from);
            if from != to {
                lemma_two_balances_le_sum(self.balances@, from, to);
            }
        }
        self.set_balance(from, from_balance - amount);
        let to_balance = self.get_balance(to);
        self.set_balance(to, to_balance + amount);
        Result::Ok(())
    }

    /// Transfer shares from a sender to a recipient.
    pub fn try_transfer(&mut self, from: u64, recipient: u64, amount: u128) -> (r: Result<
        (),
        MarketError,
    >)
        requires
            old(self).wf(),
        ensures
            final(self).wf(),
            final(self).allowances@ == old(self).allowances@,
            sum_balances(final(self).balances@) == sum_balances(old(self).balances@),
            r is Ok <==> balance_of(old(self).balances@, from) >= amount,
            r is Err ==> r == Result::<(), MarketError>::Err(MarketError::InsufficientBalance)
                && final(self).balances@ == old(self).balances@,
            r is Ok && from != recipient ==> balance_of(final(self).balances@, from) == balance_of(
                old(self).balances@,
                from,
            ) - amount && balance_of(final(self).balances@, recipient) == balance_of(
                old(self).balances@,
                recipient,
            ) + amount,
            from == recipient ==> forall|k: u64|
                balance_of(final(self).balances@, k) == balance_of(old(self).balances@, k),
            forall|k: u64|
                k != from && k != recipient ==> balance_of(final(self).balances@, k) == balance_of(
                    old(self).balances@,
                    k,
                ),
    {
        self.perform_transfer(from, recipient, amount)
    }

    /// Transfer shares from an owner on the strength of an allowance.
    ///
    /// Fails with nothing written when the spender's allowance, or then the
    /// owner's balance, is smaller than the amount; otherwise the allowance
    /// shrinks by the amount and the shares move.
    pub fn try_transfer_from(
        &mut self,
        spender: u64,
        owner: u64,
        recipient: u64,
        amount: u128,
    ) -> (r: Result<(), MarketError>)
        requires
            old(self).wf(),
        ensures
            final(self).wf(),
            sum_balances(final(self).balances@) == sum_balances(old(self).balances@),
            r is Ok <==> allowance_of(old(self).allowances@, owner, spender) >= amount
                && balance_of(old(self).balances@, owner) >= amount,
            allowance_of(old(self).allowances@, owner, spender) < amount ==> r == Result::<
                (),
                MarketError,
            >::Err(MarketError::InsufficientAllowance),
            allowance_of(old(self).allowances@, owner, spender) >= amount && balance_of(
                old(self).balances@,
                owner,
            ) < amount ==> r == Result::<(), MarketError>::Err(MarketError::InsufficientBalance),
            r is Err ==> final(self).balances@ == old(self).balances@ && final(self).allowances@
                == old(self).allowances@,
            r is Ok ==> allowance_of(final(self).allowances@, owner, spender) == allowance_of(
                old(self).allowances@,
                owner,
                spender,
            ) - amount,
            forall|o: u64, p: u64|
                !(o == owner && p == spender) ==> allowance_of(final(self).allowances@, o, p)
                    == allowance_of(old(self).allowances@, o, p),
            r is Ok && owner != recipient ==> balance_of(final(self).balances@, owner)
                == balance_of(old(self).balances@, owner) - amount && balance_of(
                final(self).balances@,
                recipient,
            ) == balance_of(old(self).balances@, recipient) + amount,
            owner == recipient ==> forall|k: u64|
                balance_of(final(self).balances@, k) == balance_of(old(self).balances@, k),
            forall|k: u64|
                k != owner && k != recipient ==> balance_of(final(self).balances@, k) == balance_of(
                    old(self).balances@,
                    k,
                ),
    {
        let allowance = self.get_allowance(owner, spender);
        if allowance < amount {
            return Result::Err(MarketError::InsufficientAllowance);
        }
        let owner_balance = self.get_balance(owner);
        if owner_balance < amount {
            return Result::Err(MarketError::InsufficientBalance);
        }
        self.set_allowance(owner, spender, allowance - amount);
        match self.perform_transfer(owner, recipient, amount) {
            Result::Ok(()) => Result::Ok(()),
            Result::Err(e) => Result::Err(e),
        }
    }

    /// Set (overwrite, not add to) a spender's allowance from an owner.
    pub fn try_approve(&mut self, owner: u64, spender: u64, amount: u128)
        requires
            old(self).wf(),
        ensures
            final(self).wf(),
            final(self).balances@ == old(self).balances@,
            allowance_of(final(self).allowances@, owner, spender) == amount,
            forall|o: u64, p: u64|
                !(o == owner && p == spender) ==> allowance_of(final(self).allowances@, o, p)
                    == allowance_of(old(self).allowances@, o, p),
    {
        self.set_allowance(owner, spender, amount);
    }

    /// Create shares in one account; used only by the market's mint.
    pub fn mint_tokens(&mut self, to: u64, amount: u128)
        requires
            old(self).wf(),
            sum_balances(old(self).balances@) + amount <= u128::MAX,
        ensures
            final(self).wf(),
            final(self).allowances@ == old(self).allowances@,
            sum_balances(final(self).balances@) == sum_balances(old(self).balances@) + amount,
            balance_of(final(self).balances@, to) == balance_of(old(self).balances@, to) + amount,
            forall|k: u64|
                k != to ==> balance_of(final(self).balances@, k) == balance_of(
                    old(self).balances@,
                    k,
                ),
    {
        proof {
            lemma_balance_le_sum(self.balances@, to);
        }
        let to_balance = self.get_balance(to);
        self.set_balance(to, to_balance + amount);
    }

    /// Destroy shares in one account; used only by the market's redeem.
    ///
    /// Fails, writing nothing, when the account holds fewer shares than the
    /// amount to burn.
    pub fn burn_tokens(&mut self, from: u64, amount: u128) -> (r: Result<(), MarketError>)
        requires
            old(self).wf(),
        ensures
            final(self).wf(),
            final(self).allowances@ == old(self).allowances@,
            r is Ok <==> balance_of(old(self).balances@, from) >= amount,
            r is Err ==> r == Result::<(), MarketError>::Err(MarketError::InsufficientBalance)
                && final(self).balances@ == old(self).balances@,
            r is Ok ==> sum_balances(final(self).balances@) == sum_balances(old(self).balances@)
                - amount && balance_of(final(self).balances@, from) == balance_of(
                old(self).balances@,
                from,
            ) - amount,
            forall|k: u64|
                k != from ==> balance_of(final(self).balances@, k) == balance_of(
                    old(self).balances@,
                    k,
                ),
    {
        let from_balance = self.get_balance(from);
        if from_balance < amount {
            return Result::Err(MarketError::InsufficientBalance);
        }
        self.set_balance(from, from_balance - amount);
        Result::Ok(())
    }
}

} // verus!
