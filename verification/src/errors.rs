//! The error taxonomy for transaction processing.

use vstd::prelude::*;

verus! {

/// Why a single transaction was rejected. Every failure is local to one
/// transaction: the account state is left exactly as it was.
#[derive(Debug, Clone, Copy, PartialEq, Eq, Structural)]
pub enum BankError {
    /// A dispute, resolve, chargeback or withdrawal named a client with no account.
    NoClientAccount(u16),
    /// The account was locked by an earlier chargeback; nothing further is allowed.
    AccountIsLocked,
    /// A deposit or withdrawal carried a negative amount.
    NegativeAmount(u32),
    /// A withdrawal or dispute asked for more than the available balance.
    InsufficientAvailableFunds(u32),
    /// A dispute, resolve or chargeback named a transaction that is not a known deposit.
    NoDepositTransaction(u32),
    /// A resolve or chargeback named a deposit that is not under dispute.
    TransactionIsNotDisputed(u32),
    /// A dispute named a deposit that is already under dispute.
    TransactionAlreadyDisputed(u32),
}

} // verus!
