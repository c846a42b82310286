use crate::errors::PaymentError;
use vstd::prelude::*;

verus! {

/// Identity of an account in the host's ledger of native currency.
///
/// The escrow logic only ever compares identities for equality, so the
/// identity is carried as a single machine word.
#[derive(Clone, Copy, Debug, PartialEq, Eq, Hash, Structural)]
pub struct AccountId(pub u64);

/// One account's entry in a [`Bank`]: its identity and its balance in
/// native currency units.
#[derive(Clone, Copy, Debug, PartialEq, Eq, Structural)]
pub struct AccountEntry {
    pub account: AccountId,
    pub balance: u64,
}

/// The balance a sequence of entries assigns to `a`: the balance of the
/// first entry for `a`, and 0 when no entry exists (an account that was
/// never credited is simply empty).
pub open spec fn seq_balance(s: Seq<AccountEntry>, a: AccountId) -> u64
    decreases s.len(),
{
    if s.len() == 0 {
        0u64
    } else if s[0].account == a {
        s[0].balance
    } else {
        seq_balance(s.drop_first(), a)
    }
}

/// The value-transfer service's state: every account's balance.
///
/// A [`Bank`] stands for the ambient balances the host keeps; the escrow
/// ledger and the direct transfer operation both move units through it.
pub struct Bank {
    pub accounts: Vec<AccountEntry>,
}

/// The outcome [`Bank::transfer`] is obliged to report: `None` when the
/// transfer of `amount` units from `from` to `to` must succeed, otherwise
/// the exact error. Moving units to oneself leaves every balance as it
/// was, so only the funding check applies then.
pub open spec fn spec_transfer_error(
    bank: Bank,
    from: AccountId,
    to: AccountId,
    amount: u64,
) -> Option<PaymentError> {
    if bank.spec_balance_of(from) < amount {
        Some(PaymentError::InsufficientFunds)
    } else if from != to && bank.spec_balance_of(to) + amount > u64::MAX {
        Some(PaymentError::BalanceOverflow)
    } else {
        None
    }
}

/// Relates a bank before and after a successful transfer: `amount` units
/// moved from `from` to `to` and no other balance was touched; a transfer
/// to oneself changed nothing at all.
pub open spec fn spec_moved(pre: Bank, post: Bank, from: AccountId, to: AccountId, amount: u64) -> bool {
    &&& (from != to ==> post.spec_balance_of(from) == pre.spec_balance_of(from) - amount
        && post.spec_balance_of(to) == pre.spec_balance_of(to) + amount)
    &&& (from == to ==> post == pre)
    &&& forall|b: AccountId|
        b != from && b != to ==> post.spec_balance_of(b) == pre.spec_balance_of(b)
}

proof fn lemma_seq_balance_first(s: Seq<AccountEntry>, a: AccountId, i: int)
    requires
        0 <= i < s.len(),
        s[i].account == a,
        forall|j: int| 0 <= j < i ==> s[j].account != a,
    ensures
        seq_balance(s, a) == s[i].balance,
    decreases i,
{
    if i == 0 {
    } else {
        assert(s[0].account != a);
        assert forall|j: int| 0 <= j < i - 1 implies s.drop_first()[j].account != a by {
            assert(s.drop_first()[j] == s[j + 1]);
        }
        assert(s.drop_first()[i - 1] == s[i]);
        lemma_seq_balance_first(s.drop_first(), a, i - 1);
    }
}

proof fn lemma_seq_balance_absent(s: Seq<AccountEntry>, a: AccountId)
    requires
        forall|j: int| 0 <= j < s.len() ==> s[j].account != a,
    ensures
        seq_balance(s, a) == 0,
    decreases s.len(),
{
    if s.len() == 0 {
    } else {
        assert forall|j: int| 0 <= j < s.drop_first().len() implies s.drop_first()[j].account != a by {
            assert(s.drop_first()[j] == s[j + 1]);
        }
        lemma_seq_balance_absent(s.drop_first(), a);
    }
}

proof fn lemma_seq_balance_update(s: Seq<AccountEntry>, i: int, e: AccountEntry, b: AccountId)
    requires
        0 <= i < s.len(),
        e.account == s[i].account,
        forall|p: int, q: int| 0 <= p < q < s.len() ==> s[p].account != s[q].account,
    ensures
        seq_balance(s.update(i, e), b) == if b == e.account {
            e.balance
        } else {
            seq_balance(s, b)
        },
    decreases i,
{
    let t = s.update(i, e);
    if i == 0 {
        assert(t[0] == e);
        if b != e.account {
            assert(t.drop_first() =~= s.drop_first());
        }
    } else {
        assert(t[0] == s[0]);
        assert(s[0].account != s[i].account);
        if b != s[0].account {
            assert(t.drop_first() =~= s.drop_first().update(i - 1, e));
            assert forall|p: int, q: int|
                0 <= p < q < s.drop_first().len() implies s.drop_first()[p].account
                != s.drop_first()[q].account by {
                assert(s.drop_first()[p] == s[p + 1]);
                assert(s.drop_first()[q] == s[q + 1]);
            }
            assert(s.drop_first()[i - 1] == s[i]);
            lemma_seq_balance_update(s.drop_first(), i - 1, e, b);
        }
    }
}

proof fn lemma_seq_balance_push(s: Seq<AccountEntry>, e: AccountEntry, b: AccountId)
    requires
        forall|j: int| 0 <= j < s.len() ==> s[j].account != e.account,
    ensures
        seq_balance(s.push(e), b) == if b == e.account {
            e.balance
        } else {
            seq_balance(s, b)
        },
    decreases s.len(),
{
    let t = s.push(e);
    if s.len() == 0 {
        assert(t[0] == e);
        if b != e.account {
            lemma_seq_balance_absent(t.drop_first(), b);
        }
    } else {
        assert(t[0] == s[0]);
        if b != s[0].account {
            assert(t.drop_first() =~= s.drop_first().push(e));
            assert forall|j: int|
                0 <= j < s.drop_first().len() implies s.drop_first()[j].account != e.account by {
                assert(s.drop_first()[j] == s[j + 1]);
            }
            lemma_seq_balance_push(s.drop_first(), e, b);
        }
    }
}

impl Bank {
    /// Each account holds at most one entry, so its balance is unambiguous.
    pub open spec fn wf(self) -> bool {
        forall|i: int, j: int|
            0 <= i < j < self.accounts@.len() ==> self.accounts@[i].account
                != self.accounts@[j].account
    }

    /// The balance of `a`: 0 for an account never credited.
    pub open spec fn spec_balance_of(self, a: AccountId) -> u64 {
        seq_balance(self.accounts@, a)
    }

    /// A bank in which every account is empty.
    pub fn new() -> (r: Bank)
        ensures
            r.wf(),
            forall|a: AccountId| r.spec_balance_of(a) == 0,
    {
        let r = Bank { accounts: Vec::new() };
        proof {
            assert forall|a: AccountId| r.spec_balance_of(a) == 0 by {
                assert(r.accounts@.len() == 0);
            }
        }
        r
    }

    /// The index of the entry for `a`, when one exists.
    fn find(&self, a: AccountId) -> (r: Option<usize>)
        ensures
            match r {
                Some(i) => i < self.accounts@.len() && self.accounts@[i as int].account == a
                    && forall|j: int| 0 <= j < i ==> self.accounts@[j].account != a,
                None => forall|j: int|
                    0 <= j < self.accounts@.len() ==> self.accounts@[j].account != a,
            },
    {
        let mut k: usize = 0;
        while k < self.accounts.len()
            invariant
                k <= self.accounts.len(),
                forall|j: int| 0 <= j < k ==> self.accounts@[j].account != a,
            decreases self.accounts.len() - k,
        {
            if self.accounts[k].account == a {
                return Some(k);
            }
            k = k + 1;
        }
        None
    }

    /// Reads the balance of `a`.
    pub fn balance_of(&self, a: AccountId) -> (r: u64)
        ensures
            r == self.spec_balance_of(a),
    {
        match self.find(a) {
            Some(i) => {
                proof {
                    lemma_seq_balance_first(self.accounts@, a, i as int);
                }
                self.accounts[i].balance
            },
            None => {
                proof {
                    lemma_seq_balance_absent(self.accounts@, a);
                }
                0
            },
        }
    }

    /// Adds `amount` units to `a`. Callers must have ruled overflow out.
    pub(crate) fn give_to(&mut self, a: AccountId, amount: u64)
        requires
            old(self).wf(),
            old(self).spec_balance_of(a) + amount <= u64::MAX,
        ensures
            final(self).wf(),
            final(self).spec_balance_of(a) == old(self).spec_balance_of(a) + amount,
            forall|b: AccountId|
                b != a ==> final(self).spec_balance_of(b) == old(self).spec_balance_of(b),
    {
        match self.find(a) {
            Some(i) => {
                proof {
                    lemma_seq_balance_first(self.accounts@, a, i as int);
                }
                let e = self.accounts.remove(i);
                let ne = AccountEntry { account: a, balance: e.balance + amount };
                self.accounts.insert(i, ne);
                proof {
                    assert(self.accounts@ =~= old(self).accounts@.update(i as int, ne));
                    lemma_seq_balance_update(old(self).accounts@, i as int, ne, a);
                    assert forall|b: AccountId|
                        b != a implies final(self).spec_balance_of(b) == old(
                        self,
                    ).spec_balance_of(b) by {
                        lemma_seq_balance_update(old(self).accounts@, i as int, ne, b);
                    }
                    assert forall|p: int, q: int|
                        0 <= p < q < self.accounts@.len() implies self.accounts@[p].account
                        != self.accounts@[q].account by {
                        assert(self.accounts@[p].account == old(self).accounts@[p].account);
                        assert(self.accounts@[q].account == old(self).accounts@[q].account);
                    }
                }
            },
            None => {
                proof {
                    lemma_seq_balance_absent(self.accounts@, a);
                }
                let ne = AccountEntry { account: a, balance: amount };
                self.accounts.push(ne);
                proof {
                    lemma_seq_balance_push(old(self).accounts@, ne, a);
                    assert forall|b: AccountId|
                        b != a implies final(self).spec_balance_of(b) == old(
                        self,
                    ).spec_balance_of(b) by {
                        lemma_seq_balance_push(old(self).accounts@, ne, b);
                    }
                    assert forall|p: int, q: int|
                        0 <= p < q < self.accounts@.len() implies self.accounts@[p].account
                        != self.accounts@[q].account by {
                        if q < old(self).accounts@.len() {
                            assert(self.accounts@[p] == old(self).accounts@[p]);
                            assert(self.accounts@[q] == old(self).accounts@[q]);
                        } else {
                            assert(self.accounts@[p] == old(self).accounts@[p]);
                            assert(self.accounts@[q] == ne);
                        }
                    }
                }
            },
        }
    }

    /// Removes `amount` units from `a`. Callers must have checked funding.
    pub(crate) fn take_from(&mut self, a: AccountId, amount: u64)
        requires
            old(self).wf(),
            amount <= old(self).spec_balance_of(a),
        ensures
            final(self).wf(),
            final(self).spec_balance_of(a) == old(self).spec_balance_of(a) - amount,
            forall|b: AccountId|
                b != a ==> final(self).spec_balance_of(b) == old(self).spec_balance_of(b),
    {
        match self.find(a) {
            Some(i) => {
                proof {
                    lemma_seq_balance_first(self.accounts@, a, i as int);
                }
                let e = self.accounts.remove(i);
                let ne = AccountEntry { account: a, balance: e.balance - amount };
                self.accounts.insert(i, ne);
                proof {
                    assert(self.accounts@ =~= old(self).accounts@.update(i as int, ne));
                    lemma_seq_balance_update(old(self).accounts@, i as int, ne, a);
                    assert forall|b: AccountId|
                        b != a implies final(self).spec_balance_of(b) == old(
                        self,
                    ).spec_balance_of(b) by {
                        lemma_seq_balance_update(old(self).accounts@, i as int, ne, b);
                    }
                    assert forall|p: int, q: int|
                        0 <= p < q < self.accounts@.len() implies self.accounts@[p].account
                        != self.accounts@[q].account by {
                        assert(self.accounts@[p].account == old(self).accounts@[p].account);
                        assert(self.accounts@[q].account == old(self).accounts@[q].account);
                    }
                }
            },
            None => {
                proof {
                    lemma_seq_balance_absent(self.accounts@, a);
                }
            },
        }
    }

    /// Credits `a` with `amount` fresh units, for putting balances in place
    /// before the escrow runs; fails only when the balance would overflow.
    pub fn deposit(&mut self, a: AccountId, amount: u64) -> (r: Result<(), PaymentError>)
        requires
            old(self).wf(),
        ensures
            final(self).wf(),
            r is Ok <==> old(self).spec_balance_of(a) + amount <= u64::MAX,
            r matches Err(e) ==> e == PaymentError::BalanceOverflow && *final(self) == *old(self),
            r is Ok ==> final(self).spec_balance_of(a) == old(self).spec_balance_of(a) + amount,
            forall|b: AccountId|
                b != a ==> final(self).spec_balance_of(b) == old(self).spec_balance_of(b),
    {
        let bal = self.balance_of(a);
        if amount > u64::MAX - bal {
            Err(PaymentError::BalanceOverflow)
        } else {
            self.give_to(a, amount);
            Ok(())
        }
    }

    /// Moves `amount` units from `from` to `to`, all or nothing.
    ///
    /// Succeeds exactly when [`spec_transfer_error`] allows it; on failure
    /// it reports that error and no balance moves. A transfer to oneself
    /// still requires funding but changes nothing.
    pub fn transfer(&mut self, from: AccountId, to: AccountId, amount: u64) -> (r: Result<
        (),
        PaymentError,
    >)
        requires
            old(self).wf(),
        ensures
            final(self).wf(),
            r is Ok <==> spec_transfer_error(*old(self), from, to, amount) is None,
            r matches Err(e) ==> spec_transfer_error(*old(self), from, to, amount) == Some(e),
            r is Err ==> *final(self) == *old(self),
            r is Ok ==> spec_moved(*old(self), *final(self), from, to, amount),
            forall|b: AccountId|
                b != from && b != to ==> final(self).spec_balance_of(b) == old(
                    self,
                ).spec_balance_of(b),
    {
        let funding = self.balance_of(from);
        if funding < amount {
            return Err(PaymentError::InsufficientFunds);
        }
        if from == to {
            return Ok(());
        }
        let receiving = self.balance_of(to);
        if amount > u64::MAX - receiving {
            return Err(PaymentError::BalanceOverflow);
        }
        self.take_from(from, amount);
        self.give_to(to, amount);
        Ok(())
    }
}

} // verus!
