//! The laws of the account state machine, each proved from the spec
//! transitions in `account`.

use vstd::prelude::*;
use crate::account::{
    lemma_disputed_sum_nonneg, spec_chargeback, spec_deposit, spec_dispute, spec_resolve,
    spec_withdraw, Account, AccountView,
};
use crate::errors::BankError;

verus! {

/// Law: in every well-formed account state the balance equation holds and
/// both balances are non-negative. Every constructor and operation of
/// `Account` establishes or preserves well-formedness, so this holds of all
/// reachable states.
pub proof fn lemma_balances_consistent(a: Account)
    requires
        a.wf(),
    ensures
        a@.total == a@.available + a@.held,
        a@.available >= 0,
        a@.held >= 0,
{
    lemma_disputed_sum_nonneg(a.deposits@);
}

/// Law: a locked account refuses every operation with `AccountIsLocked` and
/// is left exactly as it was; in particular the lock never reverts and no
/// balance field ever changes again.
pub proof fn lemma_locked_account_is_frozen(a: AccountView, tx_id: u32, amount: int)
    requires
        a.locked,
    ensures
        spec_deposit(a, tx_id, amount) == (a, Err::<(), BankError>(BankError::AccountIsLocked)),
        spec_withdraw(a, tx_id, amount) == (a, Err::<(), BankError>(BankError::AccountIsLocked)),
        spec_dispute(a, tx_id) == (a, Err::<(), BankError>(BankError::AccountIsLocked)),
        spec_resolve(a, tx_id) == (a, Err::<(), BankError>(BankError::AccountIsLocked)),
        spec_chargeback(a, tx_id) == (a, Err::<(), BankError>(BankError::AccountIsLocked)),
{
}

/// Law: disputing the same deposit a second time fails with
/// `TransactionAlreadyDisputed` and changes nothing.
pub proof fn lemma_second_dispute_fails(a: AccountView, tx_id: u32)
    requires
        spec_dispute(a, tx_id).1 == Ok::<(), BankError>(()),
    ensures
        spec_dispute(spec_dispute(a, tx_id).0, tx_id) == (
            spec_dispute(a, tx_id).0,
            Err::<(), BankError>(BankError::TransactionAlreadyDisputed(tx_id)),
        ),
{
}

/// Law: resolving or charging back a deposit that is not under dispute fails
/// with `TransactionIsNotDisputed` and changes nothing.
pub proof fn lemma_undisputed_cannot_settle(a: AccountView, tx_id: u32)
    requires
        !a.locked,
        a.deposits.contains_key(tx_id),
        !a.deposits[tx_id].disputed,
    ensures
        spec_resolve(a, tx_id) == (
            a,
            Err::<(), BankError>(BankError::TransactionIsNotDisputed(tx_id)),
        ),
        spec_chargeback(a, tx_id) == (
            a,
            Err::<(), BankError>(BankError::TransactionIsNotDisputed(tx_id)),
        ),
{
}

/// Law: a resolve immediately after a successful dispute succeeds and
/// restores the account exactly, with `total` unchanged throughout.
pub proof fn lemma_dispute_resolve_round_trip(a: AccountView, tx_id: u32)
    requires
        spec_dispute(a, tx_id).1 == Ok::<(), BankError>(()),
    ensures
        spec_dispute(a, tx_id).0.total == a.total,
        spec_resolve(spec_dispute(a, tx_id).0, tx_id) == (a, Ok::<(), BankError>(())),
{
    let a1 = spec_dispute(a, tx_id).0;
    let a2 = spec_resolve(a1, tx_id).0;
    assert(a2.deposits =~= a.deposits);
    assert(a2 =~= a);
}

} // verus!
