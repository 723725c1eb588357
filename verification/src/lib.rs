//! An in-memory wallet ledger: deposits and withdrawals recorded against
//! wallet addresses, replayed on demand.
//!
//! * `transaction`: the records of the ledger and the errors of a replay.
//! * `balance`: the validated balance of a wallet.
//! * `history`: the running balances of a wallet, nothing validated.
//! * `journal`: what a replay reports on its way.
//! * `terminal`: the ledger of one session and the rules by which it grows.
//! * `input`: reading menu choices and amounts from typed lines.
//! * `decimal`: the decimal text of integers.

pub mod balance;
pub mod decimal;
pub mod history;
pub mod input;
pub mod journal;
pub mod terminal;
pub mod transaction;

pub use crate::balance::{calculate_wallet_balance, checked_wallet_balance};
pub use crate::history::transaction_history;
pub use crate::journal::{log_section_header, wallet_balance_events, ReplayEvent, ReplayEventView};
pub use crate::transaction::{
    Transaction, TransactionType, TransactionView, WalletError, WalletErrorView,
};
