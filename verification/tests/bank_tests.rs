use ledger::{Bank, BankError, Transaction, TxType};

fn tx(kind: TxType, client: u16, tx: u32, amount: Option<i64>) -> Transaction {
    Transaction { kind, client, tx, amount }
}

#[test]
fn scenario_single_deposit() {
    let mut bank = Bank::default();
    bank.process(tx(TxType::Deposit, 1, 1, Some(50000))).unwrap();

    let rows = bank.snapshot();
    assert_eq!(rows, vec![(1, 50000, 0, 50000, false)]);
}

#[test]
fn scenario_deposit_then_withdraw() {
    let mut bank = Bank::default();
    bank.process(tx(TxType::Deposit, 1, 1, Some(50000))).unwrap();
    bank.process(tx(TxType::Withdrawal, 1, 2, Some(30000))).unwrap();

    let rows = bank.snapshot();
    assert_eq!(rows, vec![(1, 20000, 0, 20000, false)]);
}

#[test]
fn scenario_overdraw_fails_and_changes_nothing() {
    let mut bank = Bank::default();
    bank.process(tx(TxType::Deposit, 1, 1, Some(50000))).unwrap();
    let error_res = bank.process(tx(TxType::Withdrawal, 1, 2, Some(100000))).unwrap_err();

    assert_eq!(error_res, BankError::InsufficientAvailableFunds(2));
    assert_eq!(bank.snapshot(), vec![(1, 50000, 0, 50000, false)]);
}

#[test]
fn scenario_dispute_chargeback_locks_account() {
    let mut bank = Bank::default();
    bank.process(tx(TxType::Deposit, 1, 1, Some(50000))).unwrap();

    bank.process(tx(TxType::Dispute, 1, 1, None)).unwrap();
    assert_eq!(bank.snapshot(), vec![(1, 0, 50000, 50000, false)]);

    bank.process(tx(TxType::Chargeback, 1, 1, None)).unwrap();
    assert_eq!(bank.snapshot(), vec![(1, 0, 0, 0, true)]);

    let error_res = bank.process(tx(TxType::Deposit, 1, 3, Some(10000))).unwrap_err();
    assert_eq!(error_res, BankError::AccountIsLocked);
    assert_eq!(bank.snapshot(), vec![(1, 0, 0, 0, true)]);
}

#[test]
fn scenario_dispute_unknown_transaction() {
    let mut bank = Bank::default();
    bank.process(tx(TxType::Deposit, 1, 1, Some(50000))).unwrap();
    let error_res = bank.process(tx(TxType::Dispute, 1, 99, None)).unwrap_err();
    assert_eq!(error_res, BankError::NoDepositTransaction(99));
}

#[test]
fn dispute_for_unknown_client_creates_no_account() {
    let mut bank = Bank::default();
    let error_res = bank.process(tx(TxType::Dispute, 7, 1, None)).unwrap_err();
    assert_eq!(error_res, BankError::NoClientAccount(7));
    assert!(bank.snapshot().is_empty());

    let error_res = bank.process(tx(TxType::Resolve, 7, 1, None)).unwrap_err();
    assert_eq!(error_res, BankError::NoClientAccount(7));
    let error_res = bank.process(tx(TxType::Chargeback, 7, 1, None)).unwrap_err();
    assert_eq!(error_res, BankError::NoClientAccount(7));
    assert!(bank.snapshot().is_empty());
}

#[test]
fn failed_withdrawal_still_creates_account() {
    let mut bank = Bank::default();
    let error_res = bank.process(tx(TxType::Withdrawal, 4, 1, Some(10000))).unwrap_err();
    assert_eq!(error_res, BankError::InsufficientAvailableFunds(1));
    assert_eq!(bank.snapshot(), vec![(4, 0, 0, 0, false)]);
}

#[test]
fn missing_amount_is_treated_as_zero() {
    let mut bank = Bank::default();
    bank.process(tx(TxType::Deposit, 1, 1, None)).unwrap();
    assert_eq!(bank.snapshot(), vec![(1, 0, 0, 0, false)]);
}

#[test]
fn resolve_not_disputed_via_registry() {
    let mut bank = Bank::default();
    bank.process(tx(TxType::Deposit, 1, 1, Some(50000))).unwrap();
    let error_res = bank.process(tx(TxType::Resolve, 1, 1, None)).unwrap_err();
    assert_eq!(error_res, BankError::TransactionIsNotDisputed(1));
    let error_res = bank.process(tx(TxType::Chargeback, 1, 1, None)).unwrap_err();
    assert_eq!(error_res, BankError::TransactionIsNotDisputed(1));
}

#[test]
fn snapshot_lists_accounts_in_creation_order() {
    let mut bank = Bank::default();
    bank.process(tx(TxType::Deposit, 5, 1, Some(10000))).unwrap();
    bank.process(tx(TxType::Deposit, 2, 2, Some(20000))).unwrap();
    bank.process(tx(TxType::Deposit, 9, 3, Some(30000))).unwrap();
    bank.process(tx(TxType::Deposit, 2, 4, Some(5000))).unwrap();

    let rows = bank.snapshot();
    assert_eq!(
        rows,
        vec![
            (5, 10000, 0, 10000, false),
            (2, 25000, 0, 25000, false),
            (9, 30000, 0, 30000, false),
        ]
    );
    assert_eq!(bank.snapshot(), rows);
}
