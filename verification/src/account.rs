//! One client's account: the balance state machine.
//!
//! An account owns three balances (`available`, `held`, `total`), a permanent
//! lock flag, and the record of its deposits, which are the only transactions
//! that can be disputed. Amounts are fixed-precision decimals held as `i64`
//! values scaled by 10_000. Every operation validates first and mutates only
//! on success, so each call is atomic.

use vstd::prelude::*;
use crate::errors::BankError;
use crate::table::{
    keys_unique, lemma_lookup_at_index, lemma_lookup_exists, lemma_lookup_push,
    lemma_lookup_update, table_lookup,
};

verus! {

/// A recorded deposit: the credited amount and whether it is under dispute.
#[derive(Debug, Clone, Copy, PartialEq, Eq, Structural)]
pub struct Deposit {
    /// Deposited amount, scaled by 10_000. Never negative.
    pub amount: i64,
    /// True exactly between a successful dispute and its resolve or chargeback.
    pub disputed: bool,
}

/// The mathematical model of a deposit record.
pub struct DepositView {
    pub amount: int,
    pub disputed: bool,
}

impl View for Deposit {
    type V = DepositView;

    open spec fn view(&self) -> DepositView {
        DepositView { amount: self.amount as int, disputed: self.disputed }
    }
}

/// The mathematical model of an account: exact integer balances and a map
/// from transaction id to the deposit recorded under it.
#[verifier::ext_equal]
pub struct AccountView {
    pub available: int,
    pub held: int,
    pub total: int,
    pub locked: bool,
    pub deposits: Map<u32, DepositView>,
}

/// One client's balances and deposit history.
pub struct Account {
    /// Funds usable for withdrawal or as collateral for a dispute.
    pub available: i64,
    /// Funds frozen pending dispute resolution.
    pub held: i64,
    /// Always `available + held`; maintained, not recomputed.
    pub total: i64,
    /// Set permanently by a chargeback; a locked account refuses every operation.
    pub locked: bool,
    /// Deposit records keyed by transaction id; keys are unique.
    pub deposits: Vec<(u32, Deposit)>,
}

/// The map a deposit table denotes: each stored transaction id to its record.
pub open spec fn deposits_view(s: Seq<(u32, Deposit)>) -> Map<u32, DepositView> {
    Map::new(
        |tx: u32| table_lookup(s, tx) is Some,
        |tx: u32| table_lookup(s, tx)->Some_0@,
    )
}

impl View for Account {
    type V = AccountView;

    open spec fn view(&self) -> AccountView {
        AccountView {
            available: self.available as int,
            held: self.held as int,
            total: self.total as int,
            locked: self.locked,
            deposits: deposits_view(self.deposits@),
        }
    }
}

/// Sum of the amounts of all records currently under dispute.
pub open spec fn disputed_sum(s: Seq<(u32, Deposit)>) -> int
    decreases s.len(),
{
    if s.len() == 0 {
        0
    } else {
        disputed_sum(s.drop_last()) + (if s.last().1.disputed {
            s.last().1.amount as int
        } else {
            0
        })
    }
}

/// Every recorded amount is non-negative.
pub open spec fn amounts_nonneg(s: Seq<(u32, Deposit)>) -> bool {
    forall|i: int| 0 <= i < s.len() ==> s[i].1.amount >= 0
}

/// The model of an account with no history.
pub open spec fn empty_account_view() -> AccountView {
    AccountView { available: 0, held: 0, total: 0, locked: false, deposits: Map::empty() }
}

/// What a deposit does: credit `amount` to `available` and `total` and record
/// a fresh, undisputed deposit under `tx_id` (overwriting any record already
/// stored there). Rejected on a locked account or a negative amount.
pub open spec fn spec_deposit(a: AccountView, tx_id: u32, amount: int) -> (AccountView, Result<
    (),
    BankError,
>) {
    if a.locked {
        (a, Err(BankError::AccountIsLocked))
    } else if amount < 0 {
        (a, Err(BankError::NegativeAmount(tx_id)))
    } else {
        (
            AccountView {
                available: a.available + amount,
                total: a.total + amount,
                deposits: a.deposits.insert(tx_id, DepositView { amount, disputed: false }),
                ..a
            },
            Ok(()),
        )
    }
}

/// What a withdrawal does: debit `amount` from `available` and `total`.
/// Rejected on a locked account, a negative amount, or insufficient
/// available funds. Withdrawals are never recorded as disputable.
pub open spec fn spec_withdraw(a: AccountView, tx_id: u32, amount: int) -> (AccountView, Result<
    (),
    BankError,
>) {
    if a.locked {
        (a, Err(BankError::AccountIsLocked))
    } else if amount < 0 {
        (a, Err(BankError::NegativeAmount(tx_id)))
    } else if a.available >= amount {
        (AccountView { available: a.available - amount, total: a.total - amount, ..a }, Ok(()))
    } else {
        (a, Err(BankError::InsufficientAvailableFunds(tx_id)))
    }
}

/// What a dispute does: move the deposit's amount from `available` to `held`
/// and mark the record disputed; `total` is unchanged. Rejected on a locked
/// account, an unknown deposit, a deposit already disputed, or when the
/// amount is no longer available.
pub open spec fn spec_dispute(a: AccountView, tx_id: u32) -> (AccountView, Result<(), BankError>) {
    if a.locked {
        (a, Err(BankError::AccountIsLocked))
    } else if !a.deposits.contains_key(tx_id) {
        (a, Err(BankError::NoDepositTransaction(tx_id)))
    } else if a.deposits[tx_id].disputed {
        (a, Err(BankError::TransactionAlreadyDisputed(tx_id)))
    } else if a.available >= a.deposits[tx_id].amount {
        (
            AccountView {
                available: a.available - a.deposits[tx_id].amount,
                held: a.held + a.deposits[tx_id].amount,
                deposits: a.deposits.insert(
                    tx_id,
                    DepositView { amount: a.deposits[tx_id].amount, disputed: true },
                ),
                ..a
            },
            Ok(()),
        )
    } else {
        (a, Err(BankError::InsufficientAvailableFunds(tx_id)))
    }
}

/// What a resolve does: release the disputed amount from `held` back to
/// `available` and clear the dispute mark; `total` is unchanged. Rejected on
/// a locked account, an unknown deposit, or a deposit not under dispute.
pub open spec fn spec_resolve(a: AccountView, tx_id: u32) -> (AccountView, Result<(), BankError>) {
    if a.locked {
        (a, Err(BankError::AccountIsLocked))
    } else if !a.deposits.contains_key(tx_id) {
        (a, Err(BankError::NoDepositTransaction(tx_id)))
    } else if !a.deposits[tx_id].disputed {
        (a, Err(BankError::TransactionIsNotDisputed(tx_id)))
    } else {
        (
            AccountView {
                available: a.available + a.deposits[tx_id].amount,
                held: a.held - a.deposits[tx_id].amount,
                deposits: a.deposits.insert(
                    tx_id,
                    DepositView { amount: a.deposits[tx_id].amount, disputed: false },
                ),
                ..a
            },
            Ok(()),
        )
    }
}

/// What a chargeback does: withdraw the disputed amount from `held` and
/// `total`, clear the dispute mark, and lock the account permanently;
/// `available` is unchanged. Rejected on a locked account, an unknown
/// deposit, or a deposit not under dispute.
pub open spec fn spec_chargeback(a: AccountView, tx_id: u32) -> (AccountView, Result<
    (),
    BankError,
>) {
    if a.locked {
        (a, Err(BankError::AccountIsLocked))
    } else if !a.deposits.contains_key(tx_id) {
        (a, Err(BankError::NoDepositTransaction(tx_id)))
    } else if !a.deposits[tx_id].disputed {
        (a, Err(BankError::TransactionIsNotDisputed(tx_id)))
    } else {
        (
            AccountView {
                held: a.held - a.deposits[tx_id].amount,
                total: a.total - a.deposits[tx_id].amount,
                locked: true,
                deposits: a.deposits.insert(
                    tx_id,
                    DepositView { amount: a.deposits[tx_id].amount, disputed: false },
                ),
                ..a
            },
            Ok(()),
        )
    }
}

/// The sum of disputed amounts is non-negative when every amount is.
pub proof fn lemma_disputed_sum_nonneg(s: Seq<(u32, Deposit)>)
    requires
        amounts_nonneg(s),
    ensures
        disputed_sum(s) >= 0,
    decreases s.len(),
{
    if s.len() > 0 {
        assert(amounts_nonneg(s.drop_last()));
        lemma_disputed_sum_nonneg(s.drop_last());
    }
}

/// How the disputed sum changes when the entry at index `i` is replaced.
pub proof fn lemma_disputed_sum_update(s: Seq<(u32, Deposit)>, i: int, d: Deposit)
    requires
        0 <= i < s.len(),
    ensures
        disputed_sum(s.update(i, (s[i].0, d))) == disputed_sum(s) - (if s[i].1.disputed {
            s[i].1.amount as int
        } else {
            0
        }) + (if d.disputed {
            d.amount as int
        } else {
            0
        }),
    decreases s.len(),
{
    let t = s.update(i, (s[i].0, d));
    if i == s.len() - 1 {
        assert(t.drop_last() =~= s.drop_last());
    } else {
        assert(t.drop_last() =~= s.drop_last().update(i, (s[i].0, d)));
        assert(t.last() == s.last());
        lemma_disputed_sum_update(s.drop_last(), i, d);
    }
}

/// A disputed entry's amount is at most the disputed sum.
pub proof fn lemma_disputed_entry_le_sum(s: Seq<(u32, Deposit)>, i: int)
    requires
        amounts_nonneg(s),
        0 <= i < s.len(),
        s[i].1.disputed,
    ensures
        s[i].1.amount as int <= disputed_sum(s),
    decreases s.len(),
{
    assert(amounts_nonneg(s.drop_last()));
    if i == s.len() - 1 {
        lemma_disputed_sum_nonneg(s.drop_last());
    } else {
        lemma_disputed_entry_le_sum(s.drop_last(), i);
    }
}

/// Appending an entry adds its contribution to the disputed sum.
proof fn lemma_disputed_sum_push(s: Seq<(u32, Deposit)>, e: (u32, Deposit))
    ensures
        disputed_sum(s.push(e)) == disputed_sum(s) + (if e.1.disputed {
            e.1.amount as int
        } else {
            0
        }),
{
    assert(s.push(e).drop_last() =~= s);
}

/// A lookup-level characterization of a table change lifts to the map it denotes.
proof fn lemma_view_insert(s0: Seq<(u32, Deposit)>, s1: Seq<(u32, Deposit)>, tx: u32, d: Deposit)
    requires
        forall|k: u32| table_lookup(s1, k) == (if k == tx {
            Some(d)
        } else {
            table_lookup(s0, k)
        }),
    ensures
        deposits_view(s1) =~= deposits_view(s0).insert(tx, d@),
{
}

impl Account {
    /// The representation invariant: the balance equation, non-negative
    /// balances, unique deposit keys, non-negative recorded amounts, and
    /// enough headroom in `held` to cover every disputed deposit.
    pub open spec fn wf(self) -> bool {
        &&& self.total == self.available + self.held
        &&& self.available >= 0
        &&& disputed_sum(self.deposits@) <= self.held
        &&& amounts_nonneg(self.deposits@)
        &&& keys_unique(self.deposits@)
    }

    /// A fresh account: all balances zero, unlocked, no deposits.
    pub fn new() -> (r: Account)
        ensures
            r@ == empty_account_view(),
            r.wf(),
    {
        let a = Account { available: 0, held: 0, total: 0, locked: false, deposits: Vec::new() };
        proof {
            assert(a@.deposits =~= Map::<u32, DepositView>::empty());
            assert(a@ =~= empty_account_view());
        }
        a
    }

    /// Credit `amount` and record the deposit under `tx_id`, overwriting any
    /// record already stored there; the caller guarantees id uniqueness.
    pub fn deposit(&mut self, tx_id: u32, amount: i64) -> (r: Result<(), BankError>)
        requires
            old(self).wf(),
            !old(self).locked && amount >= 0 ==> old(self).total + amount <= i64::MAX,
        ensures
            final(self).wf(),
            (final(self)@, r) == spec_deposit(old(self)@, tx_id, amount as int),
    {
        if self.locked {
            return Err(BankError::AccountIsLocked);
        }
        if amount < 0 {
            return Err(BankError::NegativeAmount(tx_id));
        }
        proof {
            lemma_disputed_sum_nonneg(self.deposits@);
        }
        self.available = self.available + amount;
        self.total = self.total + amount;
        let dep = Deposit { amount, disputed: false };
        let found = find_deposit(&self.deposits, tx_id);
        match found {
            Some(i) => {
                let ghost s0 = self.deposits@;
                self.deposits[i] = (tx_id, dep);
                proof {
                    assert(self.deposits@ =~= s0.update(i as int, (s0[i as int].0, dep)));
                    lemma_disputed_sum_update(s0, i as int, dep);
                    assert forall|k: u32|
                        table_lookup(self.deposits@, k) == (if k == tx_id {
                            Some(dep)
                        } else {
                            table_lookup(s0, k)
                        }) by {
                        lemma_lookup_update(s0, i as int, dep, k);
                    }
                    lemma_view_insert(s0, self.deposits@, tx_id, dep);
                }
            },
            None => {
                let ghost s0 = self.deposits@;
                proof {
                    lemma_lookup_exists(s0, tx_id);
                }
                self.deposits.push((tx_id, dep));
                proof {
                    lemma_disputed_sum_push(s0, (tx_id, dep));
                    assert forall|k: u32|
                        table_lookup(self.deposits@, k) == (if k == tx_id {
                            Some(dep)
                        } else {
                            table_lookup(s0, k)
                        }) by {
                        lemma_lookup_push(s0, tx_id, dep, k);
                    }
                    lemma_view_insert(s0, self.deposits@, tx_id, dep);
                }
            },
        }
        Ok(())
    }

    /// Debit `amount` from the available and total balances.
    pub fn withdraw(&mut self, tx_id: u32, amount: i64) -> (r: Result<(), BankError>)
        requires
            old(self).wf(),
        ensures
            final(self).wf(),
            (final(self)@, r) == spec_withdraw(old(self)@, tx_id, amount as int),
    {
        if self.locked {
            return Err(BankError::AccountIsLocked);
        }
        if amount < 0 {
            return Err(BankError::NegativeAmount(tx_id));
        }
        if self.available >= amount {
            proof {
                lemma_disputed_sum_nonneg(self.deposits@);
            }
            self.available = self.available - amount;
            self.total = self.total - amount;
            Ok(())
        } else {
            Err(BankError::InsufficientAvailableFunds(tx_id))
        }
    }

    /// Freeze the deposit recorded under `tx_id`: move its amount from
    /// `available` to `held` and mark it disputed.
    pub fn dispute(&mut self, tx_id: u32) -> (r: Result<(), BankError>)
        requires
            old(self).wf(),
        ensures
            final(self).wf(),
            (final(self)@, r) == spec_dispute(old(self)@, tx_id),
    {
        if self.locked {
            return Err(BankError::AccountIsLocked);
        }
        let found = find_deposit(&self.deposits, tx_id);
        match found {
            None => {
                proof {
                    lemma_lookup_exists(self.deposits@, tx_id);
                }
                Err(BankError::NoDepositTransaction(tx_id))
            },
            Some(i) => {
                proof {
                    lemma_lookup_at_index(self.deposits@, i as int);
                }
                let dep = self.deposits[i].1;
                if dep.disputed {
                    Err(BankError::TransactionAlreadyDisputed(tx_id))
                } else if self.available >= dep.amount {
                    let ghost s0 = self.deposits@;
                    self.available = self.available - dep.amount;
                    self.held = self.held + dep.amount;
                    let marked = Deposit { amount: dep.amount, disputed: true };
                    self.deposits[i] = (tx_id, marked);
                    proof {
                        assert(self.deposits@ =~= s0.update(i as int, (s0[i as int].0, marked)));
                        lemma_disputed_sum_update(s0, i as int, marked);
                        assert forall|k: u32|
                            table_lookup(self.deposits@, k) == (if k == tx_id {
                                Some(marked)
                            } else {
                                table_lookup(s0, k)
                            }) by {
                            lemma_lookup_update(s0, i as int, marked, k);
                        }
                        lemma_view_insert(s0, self.deposits@, tx_id, marked);
                    }
                    Ok(())
                } else {
                    Err(BankError::InsufficientAvailableFunds(tx_id))
                }
            },
        }
    }

    /// Release the dispute on the deposit recorded under `tx_id`: move its
    /// amount from `held` back to `available` and clear the dispute mark.
    pub fn resolve(&mut self, tx_id: u32) -> (r: Result<(), BankError>)
        requires
            old(self).wf(),
        ensures
            final(self).wf(),
            (final(self)@, r) == spec_resolve(old(self)@, tx_id),
    {
        if self.locked {
            return Err(BankError::AccountIsLocked);
        }
        let found = find_deposit(&self.deposits, tx_id);
        match found {
            None => {
                proof {
                    lemma_lookup_exists(self.deposits@, tx_id);
                }
                Err(BankError::NoDepositTransaction(tx_id))
            },
            Some(i) => {
                proof {
                    lemma_lookup_at_index(self.deposits@, i as int);
                }
                let dep = self.deposits[i].1;
                if !dep.disputed {
                    Err(BankError::TransactionIsNotDisputed(tx_id))
                } else {
                    let ghost s0 = self.deposits@;
                    proof {
                        lemma_disputed_entry_le_sum(s0, i as int);
                    }
                    self.available = self.available + dep.amount;
                    self.held = self.held - dep.amount;
                    let cleared = Deposit { amount: dep.amount, disputed: false };
                    self.deposits[i] = (tx_id, cleared);
                    proof {
                        assert(self.deposits@ =~= s0.update(i as int, (s0[i as int].0, cleared)));
                        lemma_disputed_sum_update(s0, i as int, cleared);
                        assert forall|k: u32|
                            table_lookup(self.deposits@, k) == (if k == tx_id {
                                Some(cleared)
                            } else {
                                table_lookup(s0, k)
                            }) by {
                            lemma_lookup_update(s0, i as int, cleared, k);
                        }
                        lemma_view_insert(s0, self.deposits@, tx_id, cleared);
                    }
                    Ok(())
                }
            },
        }
    }

    /// Final reversal of the disputed deposit under `tx_id`: withdraw its
    /// amount from `held` and `total` and lock the account permanently.
    pub fn chargeback(&mut self, tx_id: u32) -> (r: Result<(), BankError>)
        requires
            old(self).wf(),
        ensures
            final(self).wf(),
            (final(self)@, r) == spec_chargeback(old(self)@, tx_id),
    {
        if self.locked {
            return Err(BankError::AccountIsLocked);
        }
        let found = find_deposit(&self.deposits, tx_id);
        match found {
            None => {
                proof {
                    lemma_lookup_exists(self.deposits@, tx_id);
                }
                Err(BankError::NoDepositTransaction(tx_id))
            },
            Some(i) => {
                proof {
                    lemma_lookup_at_index(self.deposits@, i as int);
                }
                let dep = self.deposits[i].1;
                if !dep.disputed {
                    Err(BankError::TransactionIsNotDisputed(tx_id))
                } else {
                    let ghost s0 = self.deposits@;
                    proof {
                        lemma_disputed_entry_le_sum(s0, i as int);
                    }
                    self.held = self.held - dep.amount;
                    self.total = self.total - dep.amount;
                    self.locked = true;
                    let cleared = Deposit { amount: dep.amount, disputed: false };
                    self.deposits[i] = (tx_id, cleared);
                    proof {
                        assert(self.deposits@ =~= s0.update(i as int, (s0[i as int].0, cleared)));
                        lemma_disputed_sum_update(s0, i as int, cleared);
                        assert forall|k: u32|
                            table_lookup(self.deposits@, k) == (if k == tx_id {
                                Some(cleared)
                            } else {
                                table_lookup(s0, k)
                            }) by {
                            lemma_lookup_update(s0, i as int, cleared, k);
                        }
                        lemma_view_insert(s0, self.deposits@, tx_id, cleared);
                    }
                    Ok(())
                }
            },
        }
    }

    /// The lock check that guards every operation.
    pub fn is_locked(&self) -> (r: Result<(), BankError>)
        ensures
            r == (if self.locked {
                Err::<(), BankError>(BankError::AccountIsLocked)
            } else {
                Ok::<(), BankError>(())
            }),
    {
        if self.locked {
            Err(BankError::AccountIsLocked)
        } else {
            Ok(())
        }
    }
}

impl Default for Account {
    /// Same as `Account::new`: a fresh, unlocked, empty account.
    fn default() -> (r: Account)
        ensures
            r@ == empty_account_view(),
            r.wf(),
    {
        Account::new()
    }
}

/// Index of the deposit record stored under `tx_id`, if any.
fn find_deposit(deposits: &Vec<(u32, Deposit)>, tx_id: u32) -> (r: Option<usize>)
    ensures
        match r {
            Some(i) => i < deposits.len() && deposits@[i as int].0 == tx_id,
            None => table_lookup(deposits@, tx_id) is None,
        },
{
    let mut i: usize = 0;
    while i < deposits.len()
        invariant
            i <= deposits.len(),
            forall|j: int| 0 <= j < i ==> deposits@[j].0 != tx_id,
        decreases deposits.len() - i,
    {
        if deposits[i].0 == tx_id {
            return Some(i);
        }
        i = i + 1;
    }
    proof {
        lemma_lookup_exists(deposits@, tx_id);
    }
    None
}

} // verus!
