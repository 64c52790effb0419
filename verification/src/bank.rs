//! The ledger registry: routes each transaction to its client's account.
//!
//! Accounts are created lazily on the first deposit or withdrawal for a
//! client id and live for the remainder of the run. Any other transaction
//! kind for an unknown client fails with `NoClientAccount` without creating
//! an account.

use vstd::prelude::*;
use crate::account::{
    empty_account_view, spec_chargeback, spec_deposit, spec_dispute, spec_resolve, spec_withdraw,
    Account, AccountView,
};
use crate::errors::BankError;
use crate::table::{
    keys_unique, lemma_lookup_at_index, lemma_lookup_exists, lemma_lookup_push,
    lemma_lookup_update, table_lookup,
};

verus! {

/// The kind of a transaction record.
#[derive(Debug, Clone, Copy, PartialEq, Eq, Structural)]
pub enum TxType {
    Deposit,
    Withdrawal,
    Dispute,
    Resolve,
    Chargeback,
}

/// One transaction record, as handed in by the record source. The amount is
/// present only for deposits and withdrawals; a missing amount on those is
/// treated as zero. Amounts are scaled by 10_000.
#[derive(Debug, Clone, Copy)]
pub struct Transaction {
    pub kind: TxType,
    pub client: u16,
    pub tx: u32,
    pub amount: Option<i64>,
}

/// The amount a transaction carries, with a missing amount read as zero.
pub open spec fn amount_of(t: Transaction) -> int {
    match t.amount {
        Some(v) => v as int,
        None => 0,
    }
}

/// Whether a transaction of this kind may create the client's account.
pub open spec fn creates_account(k: TxType) -> bool {
    k == TxType::Deposit || k == TxType::Withdrawal
}

/// What one transaction does to the account it addresses.
pub open spec fn spec_account_step(a: AccountView, t: Transaction) -> (AccountView, Result<
    (),
    BankError,
>) {
    match t.kind {
        TxType::Deposit => spec_deposit(a, t.tx, amount_of(t)),
        TxType::Withdrawal => spec_withdraw(a, t.tx, amount_of(t)),
        TxType::Dispute => spec_dispute(a, t.tx),
        TxType::Resolve => spec_resolve(a, t.tx),
        TxType::Chargeback => spec_chargeback(a, t.tx),
    }
}

/// What one transaction does to the whole registry: route to the client's
/// account, creating it first when a deposit or withdrawal addresses an
/// unknown client. Note that the account, once created, stays even when the
/// operation itself fails.
pub open spec fn spec_process(b: Map<u16, AccountView>, t: Transaction) -> (Map<
    u16,
    AccountView,
>, Result<(), BankError>) {
    if !b.contains_key(t.client) && !creates_account(t.kind) {
        (b, Err(BankError::NoClientAccount(t.client)))
    } else {
        let a = if b.contains_key(t.client) {
            b[t.client]
        } else {
            empty_account_view()
        };
        let step = spec_account_step(a, t);
        (b.insert(t.client, step.0), step.1)
    }
}

/// The map a registry table denotes: each known client id to its account model.
pub open spec fn accounts_view(s: Seq<(u16, Account)>) -> Map<u16, AccountView> {
    Map::new(
        |c: u16| table_lookup(s, c) is Some,
        |c: u16| table_lookup(s, c)->Some_0@,
    )
}

/// A lookup-level characterization of a table change lifts to the map it denotes.
proof fn lemma_accounts_view_insert(
    s0: Seq<(u16, Account)>,
    s1: Seq<(u16, Account)>,
    c: u16,
    a: Account,
)
    requires
        forall|k: u16| table_lookup(s1, k) == (if k == c {
            Some(a)
        } else {
            table_lookup(s0, k)
        }),
    ensures
        accounts_view(s1) =~= accounts_view(s0).insert(c, a@),
{
}

/// All client accounts, keyed by client id.
pub struct Bank {
    /// Accounts keyed by client id; keys are unique; insertion order is the
    /// order in which the accounts were first seen.
    pub accounts: Vec<(u16, Account)>,
}

impl View for Bank {
    type V = Map<u16, AccountView>;

    open spec fn view(&self) -> Map<u16, AccountView> {
        accounts_view(self.accounts@)
    }
}

impl Bank {
    /// The representation invariant: unique client ids, every account well-formed.
    pub open spec fn wf(self) -> bool {
        &&& keys_unique(self.accounts@)
        &&& forall|i: int|
            0 <= i < self.accounts@.len() ==> (#[trigger] self.accounts@[i]).1.wf()
    }

    /// Room for one more deposit: crediting the addressed account must not
    /// take its total past `i64::MAX`. This is a machine limit only; the
    /// rules themselves put no ceiling on a balance.
    pub open spec fn deposit_fits(b: Map<u16, AccountView>, t: Transaction) -> bool {
        (t.kind == TxType::Deposit && b.contains_key(t.client) && !b[t.client].locked
            && amount_of(t) >= 0) ==> b[t.client].total + amount_of(t) <= i64::MAX
    }

    /// A registry with no accounts.
    pub fn new() -> (r: Bank)
        ensures
            r@ == Map::<u16, AccountView>::empty(),
            r.wf(),
    {
        let b = Bank { accounts: Vec::new() };
        proof {
            assert(b@ =~= Map::<u16, AccountView>::empty());
        }
        b
    }

    /// Process a single transaction for its client.
    pub fn process(&mut self, transaction: Transaction) -> (r: Result<(), BankError>)
        requires
            old(self).wf(),
            Bank::deposit_fits(old(self)@, transaction),
        ensures
            final(self).wf(),
            (final(self)@, r) == spec_process(old(self)@, transaction),
    {
        let found = find_account(&self.accounts, transaction.client);
        let i: usize = match found {
            Some(i) => i,
            None => {
                proof {
                    lemma_lookup_exists(self.accounts@, transaction.client);
                }
                let create = match transaction.kind {
                    TxType::Deposit => true,
                    TxType::Withdrawal => true,
                    _ => false,
                };
                if !create {
                    return Err(BankError::NoClientAccount(transaction.client));
                }
                let ghost s0 = self.accounts@;
                self.accounts.push((transaction.client, Account::new()));
                proof {
                    assert forall|k: u16|
                        table_lookup(self.accounts@, k) == (if k == transaction.client {
                            Some(self.accounts@.last().1)
                        } else {
                            table_lookup(s0, k)
                        }) by {
                        lemma_lookup_push(s0, transaction.client, self.accounts@.last().1, k);
                    }
                    lemma_accounts_view_insert(
                        s0,
                        self.accounts@,
                        transaction.client,
                        self.accounts@.last().1,
                    );
                    assert(keys_unique(self.accounts@));
                }
                self.accounts.len() - 1
            },
        };
        let ghost s1 = self.accounts@;
        let ghost b1 = self@;
        proof {
            lemma_lookup_at_index(s1, i as int);
            assert(b1[transaction.client] == s1[i as int].1@);
        }
        let amount: i64 = match transaction.amount {
            Some(v) => v,
            None => 0,
        };
        let entry = &mut self.accounts[i].1;
        let r = match transaction.kind {
            TxType::Deposit => entry.deposit(transaction.tx, amount),
            TxType::Withdrawal => entry.withdraw(transaction.tx, amount),
            TxType::Dispute => entry.dispute(transaction.tx),
            TxType::Resolve => entry.resolve(transaction.tx),
            TxType::Chargeback => entry.chargeback(transaction.tx),
        };
        proof {
            let s2 = self.accounts@;
            assert(s2 =~= s1.update(i as int, (s1[i as int].0, s2[i as int].1)));
            assert forall|k: u16|
                table_lookup(s2, k) == (if k == transaction.client {
                    Some(s2[i as int].1)
                } else {
                    table_lookup(s1, k)
                }) by {
                lemma_lookup_update(s1, i as int, s2[i as int].1, k);
            }
            lemma_accounts_view_insert(s1, s2, transaction.client, s2[i as int].1);
            assert(self@ =~= spec_process(old(self)@, transaction).0);
            assert(keys_unique(s2));
        }
        r
    }

    /// The final state of every known account: one
    /// `(client, available, held, total, locked)` tuple per account, in
    /// account-creation order. Reading it changes nothing, so it can be
    /// taken any number of times.
    pub fn snapshot(&self) -> (r: Vec<(u16, i64, i64, i64, bool)>)
        ensures
            r@.len() == self.accounts@.len(),
            forall|i: int| 0 <= i < r@.len() ==> r@[i] == snapshot_row(self.accounts@[i]),
            self.wf() ==> forall|i: int|
                0 <= i < r@.len() ==> (#[trigger] r@[i]).3 == r@[i].1 + r@[i].2 && r@[i].1 >= 0
                    && r@[i].2 >= 0,
    {
        proof {
            if self.wf() {
                assert forall|i: int| 0 <= i < self.accounts@.len() implies (
                #[trigger] self.accounts@[i]).1.held >= 0 by {
                    crate::account::lemma_disputed_sum_nonneg(self.accounts@[i].1.deposits@);
                }
            }
        }
        let mut rows: Vec<(u16, i64, i64, i64, bool)> = Vec::new();
        let mut i: usize = 0;
        while i < self.accounts.len()
            invariant
                i <= self.accounts@.len(),
                rows@.len() == i,
                forall|j: int| 0 <= j < i ==> rows@[j] == snapshot_row(self.accounts@[j]),
            decreases self.accounts@.len() - i,
        {
            let entry = &self.accounts[i];
            rows.push((entry.0, entry.1.available, entry.1.held, entry.1.total, entry.1.locked));
            i = i + 1;
        }
        rows
    }
}

/// One line of the snapshot: the account's identity, balances and lock flag.
pub open spec fn snapshot_row(e: (u16, Account)) -> (u16, i64, i64, i64, bool) {
    (e.0, e.1.available, e.1.held, e.1.total, e.1.locked)
}

impl Default for Bank {
    /// Same as `Bank::new`: a registry with no accounts.
    fn default() -> (r: Bank)
        ensures
            r@ == Map::<u16, AccountView>::empty(),
            r.wf(),
    {
        Bank::new()
    }
}

/// Index of the account stored under `client`, if any.
fn find_account(accounts: &Vec<(u16, Account)>, client: u16) -> (r: Option<usize>)
    ensures
        match r {
            Some(i) => i < accounts.len() && accounts@[i as int].0 == client,
            None => table_lookup(accounts@, client) is None,
        },
{
    let mut i: usize = 0;
    while i < accounts.len()
        invariant
            i <= accounts.len(),
            forall|j: int| 0 <= j < i ==> accounts@[j].0 != client,
        decreases accounts.len() - i,
    {
        if accounts[i].0 == client {
            return Some(i);
        }
        i = i + 1;
    }
    proof {
        lemma_lookup_exists(accounts@, client);
    }
    None
}

} // verus!
