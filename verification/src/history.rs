//! The history of a wallet: each of its transactions with the running balance
//! after it. Nothing is validated here: a negative amount and a withdrawal
//! that overdraws the wallet are applied like any other entry, so the
//! history of a wallet and its balance part ways at the first transaction
//! that the balance computation refuses.

use vstd::prelude::*;
use crate::balance::{wallet_balance, wallet_entries};
use crate::transaction::{Transaction, TransactionType, TransactionView, WalletErrorView};

verus! {

/// What `tx` makes of `balance` when nothing is checked: a deposit adds its
/// amount, a withdrawal subtracts it.
pub open spec fn apply_unchecked(balance: int, tx: TransactionView) -> int {
    match tx.kind {
        TransactionType::Deposit => balance + tx.amount,
        TransactionType::Withdrawal => balance - tx.amount,
    }
}

/// The running balance of `wallet` at the end of the ledger: its entries
/// applied in ledger order from zero, nothing checked.
pub open spec fn running_balance(ledger: Seq<TransactionView>, wallet: Seq<char>) -> int
    decreases ledger.len(),
{
    if ledger.len() == 0 {
        0
    } else if ledger.last().wallet == wallet {
        apply_unchecked(running_balance(ledger.drop_last(), wallet), ledger.last())
    } else {
        running_balance(ledger.drop_last(), wallet)
    }
}

/// The history of `wallet`: its transactions in ledger order, each with the
/// running balance after it.
pub open spec fn wallet_history(ledger: Seq<TransactionView>, wallet: Seq<char>) -> Seq<
    (TransactionView, int),
>
    decreases ledger.len(),
{
    if ledger.len() == 0 {
        Seq::empty()
    } else if ledger.last().wallet == wallet {
        wallet_history(ledger.drop_last(), wallet).push(
            (ledger.last(), running_balance(ledger, wallet)),
        )
    } else {
        wallet_history(ledger.drop_last(), wallet)
    }
}

/// A line of a computed history as contracts see it.
pub open spec fn line_view(line: (&Transaction, i128)) -> (TransactionView, int) {
    (line.0@, line.1 as int)
}

/// The history of `wallet_address`: each of its transactions, in ledger
/// order, with the running balance after it. Deposits add and withdrawals
/// subtract, whatever the amount and whatever the balance. The balances are
/// exact: an `i128` holds the sum of as many `i64` amounts as a slice can
/// have.
pub fn transaction_history<'a>(transactions: &'a [Transaction], wallet_address: &str) -> (history:
    Vec<(&'a Transaction, i128)>)
    ensures
        history@.len() == wallet_history(transactions.deep_view(), wallet_address@).len(),
        forall|k: int|
            0 <= k < history@.len() ==> line_view(#[trigger] history@[k]) == wallet_history(
                transactions.deep_view(),
                wallet_address@,
            )[k],
{
    let ghost ledger = transactions.deep_view();
    let ghost wallet = wallet_address@;
    let wanted = wallet_address.to_owned();
    let mut history: Vec<(&'a Transaction, i128)> = Vec::new();
    let mut balance: i128 = 0;
    let mut i: usize = 0;
    while i < transactions.len()
        invariant
            i <= transactions.len(),
            ledger == transactions.deep_view(),
            wallet == wallet_address@,
            wanted@ == wallet,
            balance as int == running_balance(ledger.take(i as int), wallet),
            -(i as int) * 0x8000_0000_0000_0000 <= balance as int <= (i as int)
                * 0x8000_0000_0000_0000,
            history@.len() == wallet_history(ledger.take(i as int), wallet).len(),
            forall|k: int|
                0 <= k < history@.len() ==> line_view(#[trigger] history@[k]) == wallet_history(
                    ledger.take(i as int),
                    wallet,
                )[k],
        decreases transactions.len() - i,
    {
        let tx = &transactions[i];
        proof {
            assert(ledger.take(i + 1).drop_last() =~= ledger.take(i as int));
            assert(ledger.take(i + 1).last() == tx@);
        }
        if tx.wallet_address == wanted {
            match tx.transaction_type {
                TransactionType::Deposit => {
                    balance = balance + tx.amount as i128;
                },
                TransactionType::Withdrawal => {
                    balance = balance - tx.amount as i128;
                },
            }
            history.push((tx, balance));
        }
        i = i + 1;
    }
    assert(ledger.take(i as int) =~= ledger);
    history
}

/// The history of a wallet has one line for each of its transactions, in
/// ledger order: the transactions of the other wallets leave no trace in it.
pub proof fn lemma_history_lists_own_entries(ledger: Seq<TransactionView>, wallet: Seq<char>)
    ensures
        wallet_history(ledger, wallet).len() == wallet_entries(ledger, wallet).len(),
        forall|k: int|
            0 <= k < wallet_entries(ledger, wallet).len() ==> (#[trigger] wallet_history(
                ledger,
                wallet,
            )[k]).0 == wallet_entries(ledger, wallet)[k],
    decreases ledger.len(),
{
    reveal(Seq::filter);
    if ledger.len() > 0 {
        lemma_history_lists_own_entries(ledger.drop_last(), wallet);
    }
}

/// As long as the balance computation accepts the transactions of a wallet,
/// it reaches the running balance: the two differ only from the first
/// refused transaction on.
pub proof fn lemma_accepted_balance_is_running_balance(
    ledger: Seq<TransactionView>,
    wallet: Seq<char>,
)
    requires
        wallet_balance(ledger, wallet) is Ok,
    ensures
        wallet_balance(ledger, wallet) == Ok::<int, WalletErrorView>(
            running_balance(ledger, wallet),
        ),
    decreases ledger.len(),
{
    if ledger.len() > 0 {
        lemma_accepted_balance_is_running_balance(ledger.drop_last(), wallet);
    }
}

/// The last line of a history carries the running balance of the wallet.
pub proof fn lemma_history_ends_on_running_balance(
    ledger: Seq<TransactionView>,
    wallet: Seq<char>,
)
    requires
        wallet_history(ledger, wallet).len() > 0,
    ensures
        wallet_history(ledger, wallet).last().1 == running_balance(ledger, wallet),
    decreases ledger.len(),
{
    if ledger.len() > 0 && ledger.last().wallet != wallet {
        lemma_history_ends_on_running_balance(ledger.drop_last(), wallet);
    }
}

} // verus!
