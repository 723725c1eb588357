//! The state of one session at the wallet terminal: the ledger that the
//! session has built, and the rules by which it grows.

use vstd::prelude::*;
use vstd::pervasive::unreached;
use crate::balance::{
    balance_representable, calculate_wallet_balance, checked_wallet_balance, result_view,
    wallet_balance,
};
use crate::history::{line_view, transaction_history, wallet_history};
use crate::transaction::{
    Transaction, TransactionType, TransactionView, WalletError, WalletErrorView,
};

verus! {

/// What the ledger of a session always satisfies: every amount is positive,
/// and the replay of every wallet is accepted to the end.
pub open spec fn ledger_is_sound(ledger: Seq<TransactionView>) -> bool {
    &&& forall|i: int| 0 <= i < ledger.len() ==> (#[trigger] ledger[i]).amount > 0
    &&& forall|wallet: Seq<char>| (#[trigger] wallet_balance(ledger, wallet)) is Ok
}

/// A sound ledger stays sound when a deposit of a positive amount is added.
pub proof fn lemma_deposit_keeps_ledger_sound(ledger: Seq<TransactionView>, tx: TransactionView)
    requires
        ledger_is_sound(ledger),
        tx.kind == TransactionType::Deposit,
        tx.amount > 0,
    ensures
        ledger_is_sound(ledger.push(tx)),
{
    let longer = ledger.push(tx);
    assert(longer.drop_last() =~= ledger);
    assert forall|wallet: Seq<char>| (#[trigger] wallet_balance(longer, wallet)) is Ok by {
        assert(wallet_balance(ledger, wallet) is Ok);
    }
}

/// A sound ledger stays sound when a withdrawal of a positive amount is
/// added that the balance of its wallet covers.
pub proof fn lemma_withdrawal_keeps_ledger_sound(ledger: Seq<TransactionView>, tx: TransactionView)
    requires
        ledger_is_sound(ledger),
        tx.kind == TransactionType::Withdrawal,
        tx.amount > 0,
        wallet_balance(ledger, tx.wallet) matches Ok(balance) && balance >= tx.amount,
    ensures
        ledger_is_sound(ledger.push(tx)),
        wallet_balance(ledger.push(tx), tx.wallet) == Ok::<int, WalletErrorView>(
            wallet_balance(ledger, tx.wallet)->Ok_0 - tx.amount,
        ),
{
    let longer = ledger.push(tx);
    assert(longer.drop_last() =~= ledger);
    assert forall|wallet: Seq<char>| (#[trigger] wallet_balance(longer, wallet)) is Ok by {
        assert(wallet_balance(ledger, wallet) is Ok);
    }
}

/// How a request to withdraw ended.
#[derive(Debug, Clone, Copy, PartialEq, Eq)]
pub enum WithdrawOutcome {
    /// The withdrawal was added to the ledger.
    Withdrawn,
    /// The amount was zero or negative; the ledger is unchanged.
    AmountNotPositive,
    /// The wallet holds `available`, less than was asked for; the ledger is
    /// unchanged.
    InsufficientFunds { available: i64 },
}

/// The ledger of one session. It starts empty and grows by the deposits and
/// withdrawals that the session accepts.
pub struct WalletTerminal {
    transactions: Vec<Transaction>,
}

impl View for WalletTerminal {
    type V = Seq<TransactionView>;

    closed spec fn view(&self) -> Seq<TransactionView> {
        self.transactions.deep_view()
    }
}

impl WalletTerminal {
    /// The ledger holds only what a session can have accepted.
    pub open spec fn well_formed(&self) -> bool {
        ledger_is_sound(self@)
    }

    /// A terminal with an empty ledger.
    pub fn new() -> (terminal: Self)
        ensures
            terminal.well_formed(),
            terminal@ == Seq::<TransactionView>::empty(),
    {
        let terminal = WalletTerminal { transactions: Vec::new() };
        assert(terminal@ =~= Seq::<TransactionView>::empty());
        terminal
    }

    /// The ledger, oldest transaction first.
    pub fn transactions(&self) -> (transactions: &[Transaction])
        ensures
            transactions.deep_view() == self@,
    {
        let transactions = self.transactions.as_slice();
        assert(transactions.deep_view() =~= self.transactions.deep_view());
        transactions
    }

    /// Whether the balance of `wallet_address` can be computed in an `i64`.
    pub fn balance_is_representable(&self, wallet_address: &str) -> (representable: bool)
        ensures
            representable == balance_representable(self@, wallet_address@),
    {
        checked_wallet_balance(self.transactions(), wallet_address).is_some()
    }

    /// The balance of `wallet_address`. The ledger of a session holds only
    /// what the session accepted, so the replay never meets an error.
    pub fn check_balance(&self, wallet_address: &str) -> (result: Result<i64, WalletError>)
        requires
            self.well_formed(),
            balance_representable(self@, wallet_address@),
        ensures
            result_view(result) == wallet_balance(self@, wallet_address@),
            result is Ok,
    {
        calculate_wallet_balance(self.transactions(), wallet_address)
    }

    /// Records a deposit of `amount` to `wallet_address` if `amount` is
    /// positive, and says whether it did.
    pub fn deposit(&mut self, wallet_address: &str, amount: i64) -> (accepted: bool)
        requires
            old(self).well_formed(),
        ensures
            final(self).well_formed(),
            accepted == (amount > 0),
            accepted ==> final(self)@ == old(self)@.push(
                (TransactionView {
                    kind: TransactionType::Deposit,
                    wallet: wallet_address@,
                    amount: amount as int,
                }),
            ),
            !accepted ==> final(self)@ == old(self)@,
    {
        if amount <= 0 {
            return false;
        }
        let tx = Transaction {
            transaction_type: TransactionType::Deposit,
            wallet_address: wallet_address.to_owned(),
            amount,
        };
        proof {
            lemma_deposit_keeps_ledger_sound(self@, tx@);
        }
        self.transactions.push(tx);
        assert(self@ =~= old(self)@.push(tx@));
        true
    }

    /// Records a withdrawal of `amount` from `wallet_address` if `amount` is
    /// positive and the balance of the wallet covers it.
    pub fn withdraw(&mut self, wallet_address: &str, amount: i64) -> (outcome: WithdrawOutcome)
        requires
            old(self).well_formed(),
            amount > 0 ==> balance_representable(old(self)@, wallet_address@),
        ensures
            final(self).well_formed(),
            (match outcome {
                WithdrawOutcome::AmountNotPositive => amount <= 0 && final(self)@ == old(self)@,
                WithdrawOutcome::InsufficientFunds { available } => {
                    &&& amount > 0
                    &&& available < amount
                    &&& wallet_balance(old(self)@, wallet_address@) == Ok::<int, WalletErrorView>(
                        available as int,
                    )
                    &&& final(self)@ == old(self)@
                },
                WithdrawOutcome::Withdrawn => {
                    &&& amount > 0
                    &&& wallet_balance(old(self)@, wallet_address@) matches Ok(balance) && balance
                        >= amount
                    &&& final(self)@ == old(self)@.push(
                        (TransactionView {
                            kind: TransactionType::Withdrawal,
                            wallet: wallet_address@,
                            amount: amount as int,
                        }),
                    )
                },
            }),
    {
        if amount <= 0 {
            return WithdrawOutcome::AmountNotPositive;
        }
        let balance = match calculate_wallet_balance(self.transactions(), wallet_address) {
            Ok(balance) => balance,
            Err(_) => unreached(),
        };
        if balance < amount {
            return WithdrawOutcome::InsufficientFunds { available: balance };
        }
        let tx = Transaction {
            transaction_type: TransactionType::Withdrawal,
            wallet_address: wallet_address.to_owned(),
            amount,
        };
        proof {
            lemma_withdrawal_keeps_ledger_sound(self@, tx@);
        }
        self.transactions.push(tx);
        assert(self@ =~= old(self)@.push(tx@));
        WithdrawOutcome::Withdrawn
    }

    /// The history of `wallet_address`: its transactions in ledger order,
    /// each with the running balance after it.
    pub fn view_history(&self, wallet_address: &str) -> (history: Vec<(&Transaction, i128)>)
        ensures
            history@.len() == wallet_history(self@, wallet_address@).len(),
            forall|k: int|
                0 <= k < history@.len() ==> line_view(#[trigger] history@[k]) == wallet_history(
                    self@,
                    wallet_address@,
                )[k],
    {
        transaction_history(self.transactions(), wallet_address)
    }
}

} // verus!
