use crate::account::{spec_moved, spec_transfer_error, AccountId, Bank};
use crate::errors::PaymentError;
use crate::payment::{
    stored_len, Payment, PaymentEntry, MAX_DESCRIPTION_BYTES, MAX_PAYMENT_ID_BYTES,
};
use vstd::prelude::*;

verus! {

/// The record the store holds under `id`: the first entry whose
/// `payment_id` reads `id`, which under [`unique_ids`] is the only one.
/// Record lookup is content-addressed: the identifier alone names the
/// record.
pub open spec fn seq_find(s: Seq<PaymentEntry>, id: Seq<char>) -> Option<PaymentEntry>
    decreases s.len(),
{
    if s.len() == 0 {
        None
    } else if s[0].record.payment_id@ == id {
        Some(s[0])
    } else {
        seq_find(s.drop_first(), id)
    }
}

/// No two entries share a `payment_id`: the create-only store never holds
/// two records for one identifier.
pub open spec fn unique_ids(s: Seq<PaymentEntry>) -> bool {
    forall|i: int, j: int|
        0 <= i < j < s.len() ==> s[i].record.payment_id@ != s[j].record.payment_id@
}

proof fn lemma_find_first(s: Seq<PaymentEntry>, id: Seq<char>, i: int)
    requires
        0 <= i < s.len(),
        s[i].record.payment_id@ == id,
        forall|j: int| 0 <= j < i ==> s[j].record.payment_id@ != id,
    ensures
        seq_find(s, id) == Some(s[i]),
    decreases i,
{
    if i == 0 {
    } else {
        assert(s[0].record.payment_id@ != id);
        assert forall|j: int|
            0 <= j < i - 1 implies s.drop_first()[j].record.payment_id@ != id by {
            assert(s.drop_first()[j] == s[j + 1]);
        }
        assert(s.drop_first()[i - 1] == s[i]);
        lemma_find_first(s.drop_first(), id, i - 1);
    }
}

proof fn lemma_find_absent(s: Seq<PaymentEntry>, id: Seq<char>)
    requires
        forall|j: int| 0 <= j < s.len() ==> s[j].record.payment_id@ != id,
    ensures
        seq_find(s, id) is None,
    decreases s.len(),
{
    if s.len() == 0 {
    } else {
        assert forall|j: int|
            0 <= j < s.drop_first().len() implies s.drop_first()[j].record.payment_id@ != id by {
            assert(s.drop_first()[j] == s[j + 1]);
        }
        lemma_find_absent(s.drop_first(), id);
    }
}

proof fn lemma_find_push(s: Seq<PaymentEntry>, e: PaymentEntry, id: Seq<char>)
    requires
        forall|j: int| 0 <= j < s.len() ==> s[j].record.payment_id@ != e.record.payment_id@,
    ensures
        seq_find(s.push(e), id) == if id == e.record.payment_id@ {
            Some(e)
        } else {
            seq_find(s, id)
        },
    decreases s.len(),
{
    let t = s.push(e);
    if s.len() == 0 {
        assert(t[0] == e);
        if id != e.record.payment_id@ {
            lemma_find_absent(t.drop_first(), id);
        }
    } else {
        assert(t[0] == s[0]);
        if id != s[0].record.payment_id@ {
            assert(t.drop_first() =~= s.drop_first().push(e));
            assert forall|j: int|
                0 <= j < s.drop_first().len() implies s.drop_first()[j].record.payment_id@
                != e.record.payment_id@ by {
                assert(s.drop_first()[j] == s[j + 1]);
            }
            lemma_find_push(s.drop_first(), e, id);
        }
    }
}

proof fn lemma_find_update(s: Seq<PaymentEntry>, i: int, e: PaymentEntry, id: Seq<char>)
    requires
        unique_ids(s),
        0 <= i < s.len(),
        e.record.payment_id@ == s[i].record.payment_id@,
    ensures
        seq_find(s.update(i, e), id) == if id == s[i].record.payment_id@ {
            Some(e)
        } else {
            seq_find(s, id)
        },
    decreases i,
{
    let t = s.update(i, e);
    if i == 0 {
        assert(t[0] == e);
        if id != s[0].record.payment_id@ {
            assert(t.drop_first() =~= s.drop_first());
        }
    } else {
        assert(t[0] == s[0]);
        assert(s[0].record.payment_id@ != s[i].record.payment_id@);
        if id != s[0].record.payment_id@ {
            assert(t.drop_first() =~= s.drop_first().update(i - 1, e));
            assert forall|p: int, q: int|
                0 <= p < q < s.drop_first().len() implies s.drop_first()[p].record.payment_id@
                != s.drop_first()[q].record.payment_id@ by {
                assert(s.drop_first()[p] == s[p + 1]);
                assert(s.drop_first()[q] == s[q + 1]);
            }
            assert(s.drop_first()[i - 1] == s[i]);
            lemma_find_update(s.drop_first(), i - 1, e, id);
        }
    }
}

proof fn lemma_find_remove(s: Seq<PaymentEntry>, i: int, id: Seq<char>)
    requires
        unique_ids(s),
        0 <= i < s.len(),
    ensures
        seq_find(s.remove(i), id) == if id == s[i].record.payment_id@ {
            None::<PaymentEntry>
        } else {
            seq_find(s, id)
        },
    decreases i,
{
    let t = s.remove(i);
    s.remove_ensures(i);
    if i == 0 {
        assert(t =~= s.drop_first());
        if id == s[0].record.payment_id@ {
            assert forall|j: int|
                0 <= j < t.len() implies t[j].record.payment_id@ != id by {
                assert(t[j] == s[j + 1]);
            }
            lemma_find_absent(t, id);
        }
    } else {
        assert(t[0] == s[0]);
        assert(s[0].record.payment_id@ != s[i].record.payment_id@);
        if id != s[0].record.payment_id@ {
            assert(t.drop_first() =~= s.drop_first().remove(i - 1));
            assert forall|p: int, q: int|
                0 <= p < q < s.drop_first().len() implies s.drop_first()[p].record.payment_id@
                != s.drop_first()[q].record.payment_id@ by {
                assert(s.drop_first()[p] == s[p + 1]);
                assert(s.drop_first()[q] == s[q + 1]);
            }
            assert(s.drop_first()[i - 1] == s[i]);
            lemma_find_remove(s.drop_first(), i - 1, id);
        } else {
            // The record at 0 answers the lookup before and after the removal.
        }
    }
}

/// How a successful `process_payment` at time `now` rewrites a record:
/// `e2` is `e` with `paid` set and `paid_at` stamped, every other field
/// untouched.
pub open spec fn spec_paid_copy(e: PaymentEntry, e2: PaymentEntry, now: i64) -> bool {
    &&& e2.lamports == e.lamports
    &&& e2.record.amount == e.record.amount
    &&& e2.record.payer == e.record.payer
    &&& e2.record.payee == e.record.payee
    &&& e2.record.paid == true
    &&& e2.record.payment_id@ == e.record.payment_id@
    &&& e2.record.description@ == e.record.description@
    &&& e2.record.timestamp == e.record.timestamp
    &&& e2.record.paid_at == Some(now)
}

/// The escrow ledger: the balances of the host's accounts together with
/// the persisted payment records, one per `payment_id`.
pub struct Ledger {
    /// The value-transfer service's balances.
    pub bank: Bank,
    /// The record store.
    pub records: Vec<PaymentEntry>,
}

impl Ledger {
    /// The ledger's invariant: balances are well formed, identifiers are
    /// unique, and every stored record obeys its own invariant.
    pub open spec fn wf(self) -> bool {
        &&& self.bank.wf()
        &&& unique_ids(self.records@)
        &&& forall|i: int| 0 <= i < self.records@.len() ==> self.records@[i].record.wf()
    }

    /// The record stored under `id`, if any.
    pub open spec fn spec_record(self, id: Seq<char>) -> Option<PaymentEntry> {
        seq_find(self.records@, id)
    }

    /// The outcome `initialize_payment` is obliged to report, `None` for
    /// success: over-long fields are refused first, then the create-only
    /// store refuses a taken identifier, then the payer must fund the
    /// record's allocation.
    pub open spec fn spec_initialize_error(
        self,
        payer: AccountId,
        payment_id: Seq<char>,
        description: Seq<char>,
        rent: u64,
    ) -> Option<PaymentError> {
        if stored_len(payment_id) > MAX_PAYMENT_ID_BYTES {
            Some(PaymentError::PaymentIdTooLong)
        } else if stored_len(description) > MAX_DESCRIPTION_BYTES {
            Some(PaymentError::DescriptionTooLong)
        } else if self.spec_record(payment_id) is Some {
            Some(PaymentError::DuplicatePayment)
        } else if self.bank.spec_balance_of(payer) < rent {
            Some(PaymentError::InsufficientFunds)
        } else {
            None
        }
    }

    /// The outcome `process_payment` is obliged to report, `None` for
    /// success. A missing record is reported first; a record already paid
    /// answers `AlreadyPaid` whoever asks; then the signer must be the
    /// payer and the receiving account the payee; what remains is the
    /// transfer service's own verdict on moving `amount` units.
    pub open spec fn spec_process_error(
        self,
        signer: AccountId,
        recipient: AccountId,
        payment_id: Seq<char>,
    ) -> Option<PaymentError> {
        match self.spec_record(payment_id) {
            None => Some(PaymentError::PaymentNotFound),
            Some(e) => if e.record.paid {
                Some(PaymentError::AlreadyPaid)
            } else if signer != e.record.payer || recipient != e.record.payee {
                Some(PaymentError::Unauthorized)
            } else {
                spec_transfer_error(self.bank, e.record.payer, e.record.payee, e.record.amount)
            },
        }
    }

    /// The outcome `cancel_payment` is obliged to report, `None` for
    /// success. A paid record can never be cancelled, whoever asks; an
    /// open one only by its payer, and only while refunding the
    /// allocation cannot overflow the payer's balance.
    pub open spec fn spec_cancel_error(
        self,
        signer: AccountId,
        payment_id: Seq<char>,
    ) -> Option<PaymentError> {
        match self.spec_record(payment_id) {
            None => Some(PaymentError::PaymentNotFound),
            Some(e) => if e.record.paid {
                Some(PaymentError::AlreadyPaid)
            } else if signer != e.record.payer {
                Some(PaymentError::Unauthorized)
            } else if self.bank.spec_balance_of(e.record.payer) + e.lamports > u64::MAX {
                Some(PaymentError::BalanceOverflow)
            } else {
                None
            },
        }
    }

    /// A ledger over the given balances, with no record stored yet.
    pub fn new(bank: Bank) -> (r: Ledger)
        requires
            bank.wf(),
        ensures
            r.wf(),
            r.bank == bank,
            forall|id: Seq<char>| r.spec_record(id) is None,
    {
        let r = Ledger { bank, records: Vec::new() };
        proof {
            assert forall|id: Seq<char>| r.spec_record(id) is None by {
                assert(r.records@.len() == 0);
            }
        }
        r
    }

    /// The index of the record for `payment_id`, when one exists.
    fn find_record(&self, payment_id: &String) -> (r: Option<usize>)
        ensures
            match r {
                Some(i) => i < self.records@.len() && self.records@[i as int].record.payment_id@
                    == payment_id@ && forall|j: int|
                    0 <= j < i ==> self.records@[j].record.payment_id@ != payment_id@,
                None => forall|j: int|
                    0 <= j < self.records@.len() ==> self.records@[j].record.payment_id@
                        != payment_id@,
            },
    {
        let mut k: usize = 0;
        while k < self.records.len()
            invariant
                k <= self.records.len(),
                forall|j: int| 0 <= j < k ==> self.records@[j].record.payment_id@ != payment_id@,
            decreases self.records.len() - k,
        {
            if self.records[k].record.payment_id == *payment_id {
                return Some(k);
            }
            k = k + 1;
        }
        None
    }

    /// Reads the record stored under `payment_id`, if any.
    pub fn get_payment(&self, payment_id: &String) -> (r: Option<&Payment>)
        ensures
            match r {
                Some(p) => self.spec_record(payment_id@) matches Some(e) && *p == e.record,
                None => self.spec_record(payment_id@) is None,
            },
    {
        match self.find_record(payment_id) {
            Some(i) => {
                proof {
                    lemma_find_first(self.records@, payment_id@, i as int);
                }
                Some(&self.records[i].record)
            },
            None => {
                proof {
                    lemma_find_absent(self.records@, payment_id@);
                }
                None
            },
        }
    }

    /// Creates the record for `payment_id` in the open state.
    ///
    /// No currency moves beyond the allocation cost `rent`, which the
    /// payer funds and the record's storage escrows. Succeeds exactly when
    /// [`Ledger::spec_initialize_error`] allows it; any failure leaves the
    /// ledger untouched.
    pub fn initialize_payment(
        &mut self,
        payer: AccountId,
        payee: AccountId,
        amount: u64,
        payment_id: String,
        description: String,
        rent: u64,
        now: i64,
    ) -> (r: Result<(), PaymentError>)
        requires
            old(self).wf(),
        ensures
            final(self).wf(),
            r is Ok <==> old(self).spec_initialize_error(payer, payment_id@, description@, rent)
                is None,
            r matches Err(e) ==> old(self).spec_initialize_error(
                payer,
                payment_id@,
                description@,
                rent,
            ) == Some(e),
            r is Err ==> *final(self) == *old(self),
            r is Ok ==> ({
                &&& final(self).spec_record(payment_id@) matches Some(e)
                &&& e.lamports == rent
                &&& e.record.amount == amount
                &&& e.record.payer == payer
                &&& e.record.payee == payee
                &&& e.record.paid == false
                &&& e.record.payment_id@ == payment_id@
                &&& e.record.description@ == description@
                &&& e.record.timestamp == now
                &&& e.record.paid_at is None
            }),
            r is Ok ==> final(self).bank.spec_balance_of(payer) == old(self).bank.spec_balance_of(
                payer,
            ) - rent,
            forall|b: AccountId|
                b != payer ==> final(self).bank.spec_balance_of(b) == old(
                    self,
                ).bank.spec_balance_of(b),
            forall|other: Seq<char>|
                other != payment_id@ ==> final(self).spec_record(other) == old(self).spec_record(
                    other,
                ),
    {
        if payment_id.as_str().len() > MAX_PAYMENT_ID_BYTES {
            return Err(PaymentError::PaymentIdTooLong);
        }
        if description.as_str().len() > MAX_DESCRIPTION_BYTES {
            return Err(PaymentError::DescriptionTooLong);
        }
        match self.find_record(&payment_id) {
            Some(i) => {
                proof {
                    lemma_find_first(self.records@, payment_id@, i as int);
                }
                Err(PaymentError::DuplicatePayment)
            },
            None => {
                proof {
                    lemma_find_absent(self.records@, payment_id@);
                }
                if self.bank.balance_of(payer) < rent {
                    return Err(PaymentError::InsufficientFunds);
                }
                self.bank.take_from(payer, rent);
                let entry = PaymentEntry {
                    lamports: rent,
                    record: Payment {
                        amount,
                        payer,
                        payee,
                        paid: false,
                        payment_id,
                        description,
                        timestamp: now,
                        paid_at: None,
                    },
                };
                self.records.push(entry);
                proof {
                    let s0 = old(self).records@;
                    let ne = self.records@[s0.len() as int];
                    lemma_find_push(s0, ne, ne.record.payment_id@);
                    assert forall|other: Seq<char>|
                        other != ne.record.payment_id@ implies final(self).spec_record(other)
                        == old(self).spec_record(other) by {
                        lemma_find_push(s0, ne, other);
                    }
                    assert forall|p: int, q: int|
                        0 <= p < q < self.records@.len() implies self.records@[p].record.payment_id@
                        != self.records@[q].record.payment_id@ by {
                        if q < s0.len() {
                            assert(self.records@[p] == s0[p]);
                            assert(self.records@[q] == s0[q]);
                        } else {
                            assert(self.records@[p] == s0[p]);
                            assert(self.records@[q] == ne);
                        }
                    }
                }
                Ok(())
            },
        }
    }

    /// Drives the record for `payment_id` from open to paid, moving
    /// exactly `amount` units from its payer to its payee.
    ///
    /// The transfer is the last step that can fail, so the transfer and
    /// the record's transition commit together or not at all. Succeeds
    /// exactly when [`Ledger::spec_process_error`] allows it; any failure
    /// leaves the ledger untouched.
    pub fn process_payment(
        &mut self,
        signer: AccountId,
        recipient: AccountId,
        payment_id: &String,
        now: i64,
    ) -> (r: Result<(), PaymentError>)
        requires
            old(self).wf(),
        ensures
            final(self).wf(),
            r is Ok <==> old(self).spec_process_error(signer, recipient, payment_id@) is None,
            r matches Err(e) ==> old(self).spec_process_error(signer, recipient, payment_id@)
                == Some(e),
            r is Err ==> *final(self) == *old(self),
            r is Ok ==> ({
                &&& old(self).spec_record(payment_id@) matches Some(e)
                &&& final(self).spec_record(payment_id@) matches Some(e2)
                &&& spec_paid_copy(e, e2, now)
                &&& spec_moved(old(self).bank, final(self).bank, e.record.payer, e.record.payee, e.record.amount)
            }),
            forall|other: Seq<char>|
                other != payment_id@ ==> final(self).spec_record(other) == old(self).spec_record(
                    other,
                ),
    {
        match self.find_record(payment_id) {
            None => {
                proof {
                    lemma_find_absent(self.records@, payment_id@);
                }
                Err(PaymentError::PaymentNotFound)
            },
            Some(i) => {
                proof {
                    lemma_find_first(self.records@, payment_id@, i as int);
                }
                if self.records[i].record.paid {
                    return Err(PaymentError::AlreadyPaid);
                }
                if signer != self.records[i].record.payer || recipient
                    != self.records[i].record.payee {
                    return Err(PaymentError::Unauthorized);
                }
                let payer = self.records[i].record.payer;
                let payee = self.records[i].record.payee;
                let amount = self.records[i].record.amount;
                match self.bank.transfer(payer, payee, amount) {
                    Err(e) => Err(e),
                    Ok(()) => {
                        let mut entry = self.records.remove(i);
                        entry.record.paid = true;
                        entry.record.paid_at = Some(now);
                        self.records.insert(i, entry);
                        proof {
                            let s0 = old(self).records@;
                            let ne = self.records@[i as int];
                            assert(self.records@ =~= s0.update(i as int, ne));
                            lemma_find_update(s0, i as int, ne, payment_id@);
                            assert forall|other: Seq<char>|
                                other != payment_id@ implies final(self).spec_record(other) == old(
                                self,
                            ).spec_record(other) by {
                                lemma_find_update(s0, i as int, ne, other);
                            }
                            assert forall|p: int, q: int|
                                0 <= p < q
                                    < self.records@.len() implies self.records@[p].record.payment_id@
                                != self.records@[q].record.payment_id@ by {
                                assert(self.records@[p].record.payment_id@
                                    == s0[p].record.payment_id@);
                                assert(self.records@[q].record.payment_id@
                                    == s0[q].record.payment_id@);
                            }
                        }
                        Ok(())
                    },
                }
            },
        }
    }

    /// Removes the open record for `payment_id`, refunding the escrowed
    /// allocation cost to its payer; the record then no longer exists.
    ///
    /// Succeeds exactly when [`Ledger::spec_cancel_error`] allows it; any
    /// failure leaves the ledger untouched. A paid record is terminal and
    /// is never removed.
    pub fn cancel_payment(&mut self, signer: AccountId, payment_id: &String) -> (r: Result<
        (),
        PaymentError,
    >)
        requires
            old(self).wf(),
        ensures
            final(self).wf(),
            r is Ok <==> old(self).spec_cancel_error(signer, payment_id@) is None,
            r matches Err(e) ==> old(self).spec_cancel_error(signer, payment_id@) == Some(e),
            r is Err ==> *final(self) == *old(self),
            r is Ok ==> ({
                &&& old(self).spec_record(payment_id@) matches Some(e)
                &&& final(self).spec_record(payment_id@) is None
                &&& final(self).bank.spec_balance_of(e.record.payer) == old(self).bank.spec_balance_of(e.record.payer) + e.lamports
                &&& forall|b: AccountId|
                    b != e.record.payer ==> final(self).bank.spec_balance_of(b) == old(self).bank.spec_balance_of(b)
            }),
            forall|other: Seq<char>|
                other != payment_id@ ==> final(self).spec_record(other) == old(self).spec_record(
                    other,
                ),
    {
        match self.find_record(payment_id) {
            None => {
                proof {
                    lemma_find_absent(self.records@, payment_id@);
                }
                Err(PaymentError::PaymentNotFound)
            },
            Some(i) => {
                proof {
                    lemma_find_first(self.records@, payment_id@, i as int);
                }
                if self.records[i].record.paid {
                    return Err(PaymentError::AlreadyPaid);
                }
                if signer != self.records[i].record.payer {
                    return Err(PaymentError::Unauthorized);
                }
                let payer = self.records[i].record.payer;
                let lamports = self.records[i].lamports;
                let balance = self.bank.balance_of(payer);
                if lamports > u64::MAX - balance {
                    return Err(PaymentError::BalanceOverflow);
                }
                self.bank.give_to(payer, lamports);
                self.records.remove(i);
                proof {
                    let s0 = old(self).records@;
                    s0.remove_ensures(i as int);
                    lemma_find_remove(s0, i as int, payment_id@);
                    assert forall|other: Seq<char>|
                        other != payment_id@ implies final(self).spec_record(other) == old(
                        self,
                    ).spec_record(other) by {
                        lemma_find_remove(s0, i as int, other);
                    }
                    assert forall|p: int, q: int|
                        0 <= p < q < self.records@.len() implies self.records@[p].record.payment_id@
                        != self.records@[q].record.payment_id@ by {
                        if p < i as int {
                            assert(self.records@[p] == s0[p]);
                        } else {
                            assert(self.records@[p] == s0[p + 1]);
                        }
                        if q < i as int {
                            assert(self.records@[q] == s0[q]);
                        } else {
                            assert(self.records@[q] == s0[q + 1]);
                        }
                    }
                    assert forall|k: int|
                        0 <= k < self.records@.len() implies self.records@[k].record.wf() by {
                        if k < i as int {
                            assert(self.records@[k] == s0[k]);
                        } else {
                            assert(self.records@[k] == s0[k + 1]);
                        }
                    }
                }
                Ok(())
            },
        }
    }
}

} // verus!
