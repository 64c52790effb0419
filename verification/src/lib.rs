//! A per-client transaction ledger.
//!
//! Replays a stream of deposit, withdrawal, dispute, resolve and chargeback
//! transactions against per-account balance state. Balances are fixed-precision
//! decimals held as integers scaled by 10_000 (four fractional digits), so all
//! arithmetic is exact.

pub mod account;
pub mod bank;
pub mod errors;
pub mod laws;
pub mod table;
pub mod text;

pub use account::{Account, AccountView, Deposit, DepositView};
pub use bank::{Bank, Transaction, TxType};
pub use errors::BankError;
pub use text::format_amount;
