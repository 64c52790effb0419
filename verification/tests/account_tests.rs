use ledger::{Account, BankError, Deposit};

fn deposit_record(account: &Account, tx: u32) -> Option<Deposit> {
    account.deposits.iter().find(|e| e.0 == tx).map(|e| e.1)
}

#[test]
fn test_deposit() {
    let mut account = Account::default();

    account.deposit(1, 1205500).unwrap();
    account.deposit(3, 1306600).unwrap();

    assert_eq!(account.available, 1205500 + 1306600);
    assert_eq!(account.total, 1205500 + 1306600);
    assert_eq!(account.held, 0);
    assert!(!account.locked);
    assert!(deposit_record(&account, 1).is_some());
    assert!(deposit_record(&account, 2).is_none());
    assert!(deposit_record(&account, 3).is_some());
}

#[test]
fn test_deposit_if_amount_negative() {
    let mut account = Account::default();
    let error_res = account.deposit(1, -1205500).unwrap_err();
    assert_eq!(error_res, BankError::NegativeAmount(1));
}

#[test]
fn test_withdraw() {
    let mut account = Account::default();
    account.available = 2000000;
    account.total = 2000000;

    account.withdraw(2, 1286800).unwrap();

    assert_eq!(account.available, 2000000 - 1286800);
    assert_eq!(account.total, 2000000 - 1286800);
    assert_eq!(account.held, 0);
    assert!(!account.locked);
}

#[test]
fn test_withdraw_if_amount_negative() {
    let mut account = Account::default();
    let error_res = account.withdraw(3, -1205500).unwrap_err();
    assert_eq!(error_res, BankError::NegativeAmount(3));
}

#[test]
fn test_withdraw_if_insufficient_funds() {
    let mut account = Account::default();
    account.available = 2000000;
    account.total = 2000000;

    let error_res = account.withdraw(10, 2001000).unwrap_err();

    assert_eq!(error_res, BankError::InsufficientAvailableFunds(10));
}

#[test]
fn test_dispute() {
    let mut account = Account::default();
    account.available = 2000000;
    account.total = 2000000;
    account.deposits.push((111, Deposit { amount: 1000000, disputed: false }));

    account.dispute(111).unwrap();

    assert_eq!(account.available, 2000000 - 1000000);
    assert_eq!(account.total, 2000000);
    assert_eq!(account.held, 1000000);
    assert!(!account.locked);
    assert!(deposit_record(&account, 111).unwrap().disputed);
}

#[test]
fn test_double_dispute() {
    let mut account = Account::default();
    account.available = 3500000;
    account.total = 3500000;
    account.deposits.push((112, Deposit { amount: 1000000, disputed: false }));

    account.dispute(112).unwrap();
    let error_res = account.dispute(112).unwrap_err();
    assert_eq!(error_res, BankError::TransactionAlreadyDisputed(112));
}

#[test]
fn test_dispute_if_no_deposit_transaction() {
    let mut account = Account::default();
    let error_res = account.dispute(112).unwrap_err();
    assert_eq!(error_res, BankError::NoDepositTransaction(112));
}

#[test]
fn test_dispute_if_insufficient_funds() {
    let mut account = Account::default();
    account.available = 2000000;
    account.total = 2000000;
    account.deposits.push((1, Deposit { amount: 2010000, disputed: false }));

    let error_res = account.dispute(1).unwrap_err();

    assert_eq!(error_res, BankError::InsufficientAvailableFunds(1));
}

#[test]
fn test_resolve() {
    let mut account = Account::default();
    account.available = 1500000;
    account.total = 2000000;
    account.held = 500000;
    account.deposits.push((10, Deposit { amount: 500000, disputed: true }));

    account.resolve(10).unwrap();

    assert_eq!(account.available, 2000000);
    assert_eq!(account.total, 2000000);
    assert_eq!(account.held, 0);
    assert!(!account.locked);
    assert!(!deposit_record(&account, 10).unwrap().disputed);
}

#[test]
fn test_resolve_if_no_deposit_transaction() {
    let mut account = Account::default();
    let error_res = account.resolve(112).unwrap_err();
    assert_eq!(error_res, BankError::NoDepositTransaction(112));
}

#[test]
fn test_resolve_if_transaction_is_not_disputed() {
    let mut account = Account::default();
    account.available = 1500000;
    account.total = 1500000;
    account.held = 0;
    account.deposits.push((10, Deposit { amount: 1500000, disputed: false }));

    let error_res = account.resolve(10).unwrap_err();

    assert_eq!(error_res, BankError::TransactionIsNotDisputed(10));
}

#[test]
fn test_chargeback() {
    let mut account = Account::default();
    account.available = 1500000;
    account.total = 2000000;
    account.held = 500000;
    account.deposits.push((10, Deposit { amount: 500000, disputed: true }));

    account.chargeback(10).unwrap();

    assert_eq!(account.available, 1500000);
    assert_eq!(account.total, 1500000);
    assert_eq!(account.held, 0);
    assert!(account.locked);
    assert!(!deposit_record(&account, 10).unwrap().disputed);
}

#[test]
fn test_chargeback_if_no_deposit_transaction() {
    let mut account = Account::default();
    let error_res = account.chargeback(112).unwrap_err();
    assert_eq!(error_res, BankError::NoDepositTransaction(112));
}

#[test]
fn test_chargeback_if_transaction_is_not_disputed() {
    let mut account = Account::default();
    account.available = 1600000;
    account.total = 1600000;
    account.held = 0;
    account.deposits.push((100, Deposit { amount: 1600000, disputed: false }));

    let error_res = account.chargeback(100).unwrap_err();

    assert_eq!(error_res, BankError::TransactionIsNotDisputed(100));
}

#[test]
fn test_locked_account() {
    let mut account = Account::default();
    account.locked = true;

    let error_res = account.deposit(1, 100000).unwrap_err();
    assert_eq!(error_res, BankError::AccountIsLocked);
    let error_res = account.withdraw(2, 81500).unwrap_err();
    assert_eq!(error_res, BankError::AccountIsLocked);
    let error_res = account.dispute(1).unwrap_err();
    assert_eq!(error_res, BankError::AccountIsLocked);
    let error_res = account.resolve(1).unwrap_err();
    assert_eq!(error_res, BankError::AccountIsLocked);
    let error_res = account.chargeback(1).unwrap_err();
    assert_eq!(error_res, BankError::AccountIsLocked);
}

#[test]
fn deposit_overwrites_record_with_same_id() {
    let mut account = Account::default();
    account.deposit(7, 100000).unwrap();
    account.deposit(7, 25000).unwrap();

    assert_eq!(account.available, 125000);
    assert_eq!(account.total, 125000);
    let record = deposit_record(&account, 7).unwrap();
    assert_eq!(record.amount, 25000);
    assert!(!record.disputed);
    assert_eq!(account.deposits.iter().filter(|e| e.0 == 7).count(), 1);
}

#[test]
fn dispute_then_resolve_restores_balances() {
    let mut account = Account::default();
    account.deposit(1, 300000).unwrap();
    account.deposit(2, 120000).unwrap();

    account.dispute(1).unwrap();
    assert_eq!(account.total, 420000);
    account.resolve(1).unwrap();

    assert_eq!(account.available, 420000);
    assert_eq!(account.held, 0);
    assert_eq!(account.total, 420000);
    assert!(!deposit_record(&account, 1).unwrap().disputed);
}

#[test]
fn resolved_deposit_can_be_disputed_again() {
    let mut account = Account::default();
    account.deposit(1, 300000).unwrap();
    account.dispute(1).unwrap();
    account.resolve(1).unwrap();

    account.dispute(1).unwrap();
    assert_eq!(account.held, 300000);
    assert_eq!(account.available, 0);
}

#[test]
fn balances_stay_consistent_across_operations() {
    let mut account = Account::default();
    account.deposit(1, 500000).unwrap();
    account.deposit(2, 250000).unwrap();
    account.withdraw(3, 100000).unwrap();
    account.dispute(2).unwrap();
    let _ = account.withdraw(4, 600000);
    account.chargeback(2).unwrap();

    assert_eq!(account.total, account.available + account.held);
    assert!(account.available >= 0);
    assert!(account.held >= 0);
    assert!(account.locked);
}

#[test]
fn is_locked_reports_lock_state() {
    let mut account = Account::default();
    assert_eq!(account.is_locked(), Ok(()));
    account.locked = true;
    assert_eq!(account.is_locked(), Err(BankError::AccountIsLocked));
}
