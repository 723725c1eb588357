//! The records of the ledger and the errors of a balance replay.

use vstd::prelude::*;
use vstd::string::*;
use crate::decimal::{decimal_string, decimal_text};

verus! {

/// What a transaction does to a wallet.
#[derive(Debug, Clone, Copy, PartialEq, Eq)]
pub enum TransactionType {
    /// Funds are added to the wallet.
    Deposit,
    /// Funds are taken out of the wallet.
    Withdrawal,
}

/// One entry of the ledger. Any string is a wallet address, and any amount can
/// be stored: a negative one is found when the balance is computed.
#[derive(Debug)]
pub struct Transaction {
    pub transaction_type: TransactionType,
    pub wallet_address: String,
    pub amount: i64,
}

/// A transaction as contracts see it.
pub struct TransactionView {
    pub kind: TransactionType,
    pub wallet: Seq<char>,
    pub amount: int,
}

impl View for Transaction {
    type V = TransactionView;

    open spec fn view(&self) -> TransactionView {
        TransactionView {
            kind: self.transaction_type,
            wallet: self.wallet_address@,
            amount: self.amount as int,
        }
    }
}

impl DeepView for Transaction {
    type V = TransactionView;

    open spec fn deep_view(&self) -> TransactionView {
        self@
    }
}

/// Why a balance replay stopped.
#[derive(Debug, Clone, Copy, PartialEq, Eq)]
pub enum WalletError {
    /// A stored transaction has a negative amount.
    InvalidAmount(i64),
    /// A withdrawal asks for more than the wallet held at that point.
    InsufficientFunds { requested: i64, available: i64 },
}

/// A replay error as contracts see it.
pub enum WalletErrorView {
    InvalidAmount(int),
    InsufficientFunds { requested: int, available: int },
}

impl View for WalletError {
    type V = WalletErrorView;

    open spec fn view(&self) -> WalletErrorView {
        match *self {
            WalletError::InvalidAmount(amount) => WalletErrorView::InvalidAmount(amount as int),
            WalletError::InsufficientFunds { requested, available } => {
                WalletErrorView::InsufficientFunds {
                    requested: requested as int,
                    available: available as int,
                }
            },
        }
    }
}

/// The word for a kind of transaction.
pub open spec fn kind_text(kind: TransactionType) -> Seq<char> {
    match kind {
        TransactionType::Deposit => "Deposit"@,
        TransactionType::Withdrawal => "Withdrawal"@,
    }
}

/// The display text of a transaction: kind, amount and wallet, as in
/// `Deposit of 100 to wallet_1`.
pub open spec fn transaction_text(tx: TransactionView) -> Seq<char> {
    kind_text(tx.kind) + " of "@ + decimal_text(tx.amount) + " to "@ + tx.wallet
}

impl TransactionType {
    /// `Deposit` or `Withdrawal`.
    pub fn to_string(&self) -> (text: String)
        ensures
            text@ == kind_text(*self),
    {
        match self {
            TransactionType::Deposit => String::from_str("Deposit"),
            TransactionType::Withdrawal => String::from_str("Withdrawal"),
        }
    }
}

impl Transaction {
    /// The display text of the transaction.
    pub fn to_string(&self) -> (text: String)
        ensures
            text@ == transaction_text(self@),
    {
        let mut text = self.transaction_type.to_string();
        text.append(" of ");
        let amount = decimal_string(self.amount);
        text.append(amount.as_str());
        text.append(" to ");
        text.append(self.wallet_address.as_str());
        text
    }
}

} // verus!
