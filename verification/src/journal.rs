//! What a replay has to report: one event for each transaction it looks at
//! and one for the balance it ends on. The caller decides where they go.

use vstd::prelude::*;
use vstd::string::*;
use crate::balance::{
    apply_transaction, balance_representable, lemma_beginning_is_representable,
    lemma_error_is_final, wallet_balance,
};
use crate::transaction::{Transaction, TransactionType, TransactionView, WalletError, WalletErrorView};

verus! {

/// One report of the replay of a wallet.
#[derive(Debug)]
pub enum ReplayEvent<'a> {
    /// The transaction was accepted and applied to the balance.
    Applied(&'a Transaction),
    /// The transaction was refused for the given reason; the replay ends.
    Refused(&'a Transaction, WalletError),
    /// The replay reached the end of the ledger with this balance.
    Balance(i64),
}

/// A report as contracts see it.
pub enum ReplayEventView {
    Applied(TransactionView),
    Refused(TransactionView, WalletErrorView),
    Balance(int),
}

impl<'a> View for ReplayEvent<'a> {
    type V = ReplayEventView;

    open spec fn view(&self) -> ReplayEventView {
        match *self {
            ReplayEvent::Applied(tx) => ReplayEventView::Applied(tx@),
            ReplayEvent::Refused(tx, error) => ReplayEventView::Refused(tx@, error@),
            ReplayEvent::Balance(balance) => ReplayEventView::Balance(balance as int),
        }
    }
}

/// The report on `tx`, met with `balance` in the wallet.
pub open spec fn entry_event(balance: int, tx: TransactionView) -> ReplayEventView {
    match apply_transaction(balance, tx) {
        Ok(_) => ReplayEventView::Applied(tx),
        Err(error) => ReplayEventView::Refused(tx, error),
    }
}

/// The reports on the entries of `wallet`: one for each of them up to and
/// including the first that is refused, none for what follows it.
pub open spec fn entry_events(ledger: Seq<TransactionView>, wallet: Seq<char>) -> Seq<
    ReplayEventView,
>
    decreases ledger.len(),
{
    if ledger.len() == 0 {
        Seq::empty()
    } else {
        let earlier = entry_events(ledger.drop_last(), wallet);
        match wallet_balance(ledger.drop_last(), wallet) {
            Ok(balance) => if ledger.last().wallet == wallet {
                earlier.push(entry_event(balance, ledger.last()))
            } else {
                earlier
            },
            Err(_) => earlier,
        }
    }
}

/// All that the replay of `wallet` reports: the reports on its entries, and
/// after them the balance if no entry was refused.
pub open spec fn wallet_events(ledger: Seq<TransactionView>, wallet: Seq<char>) -> Seq<
    ReplayEventView,
> {
    match wallet_balance(ledger, wallet) {
        Ok(balance) => entry_events(ledger, wallet).push(ReplayEventView::Balance(balance)),
        Err(_) => entry_events(ledger, wallet),
    }
}

/// Once the replay has stopped, more ledger entries add no report.
pub proof fn lemma_events_are_final(ledger: Seq<TransactionView>, wallet: Seq<char>, n: int)
    requires
        0 <= n <= ledger.len(),
        wallet_balance(ledger.take(n), wallet) is Err,
    ensures
        entry_events(ledger, wallet) == entry_events(ledger.take(n), wallet),
    decreases ledger.len(),
{
    if n == ledger.len() {
        assert(ledger.take(n) =~= ledger);
    } else {
        assert(ledger.drop_last().take(n) =~= ledger.take(n));
        lemma_events_are_final(ledger.drop_last(), wallet, n);
        lemma_error_is_final(ledger.drop_last(), wallet, n);
    }
}

/// The last report tells how the replay ended: on the balance, or on the
/// refusal that stopped it.
pub proof fn lemma_last_event_is_the_result(ledger: Seq<TransactionView>, wallet: Seq<char>)
    ensures
        wallet_events(ledger, wallet).len() > 0,
        (match wallet_balance(ledger, wallet) {
            Ok(balance) => wallet_events(ledger, wallet).last() == ReplayEventView::Balance(
                balance,
            ),
            Err(error) => wallet_events(ledger, wallet).last() matches ReplayEventView::Refused(
                _,
                reason,
            ) && reason == error,
        }),
{
    lemma_refusal_is_reported(ledger, wallet);
}

proof fn lemma_refusal_is_reported(ledger: Seq<TransactionView>, wallet: Seq<char>)
    ensures
        wallet_balance(ledger, wallet) matches Err(error) ==> entry_events(ledger, wallet).len()
            > 0 && (entry_events(ledger, wallet).last() matches ReplayEventView::Refused(
            _,
            reason,
        ) && reason == error),
    decreases ledger.len(),
{
    if ledger.len() > 0 {
        lemma_refusal_is_reported(ledger.drop_last(), wallet);
    }
}

/// Replays the transactions of `wallet_address` as the balance computation
/// does and returns what it reports on the way: `Applied` for each
/// transaction it accepts, then either `Refused` for the one that stops it
/// or `Balance` at the end of the ledger.
pub fn wallet_balance_events<'a>(transactions: &'a [Transaction], wallet_address: &str) -> (events:
    Vec<ReplayEvent<'a>>)
    requires
        balance_representable(transactions.deep_view(), wallet_address@),
    ensures
        events@.len() == wallet_events(transactions.deep_view(), wallet_address@).len(),
        forall|k: int|
            0 <= k < events@.len() ==> (#[trigger] events@[k])@ == wallet_events(
                transactions.deep_view(),
                wallet_address@,
            )[k],
{
    let ghost ledger = transactions.deep_view();
    let ghost wallet = wallet_address@;
    let wanted = wallet_address.to_owned();
    let mut events: Vec<ReplayEvent<'a>> = Vec::new();
    let mut balance: i64 = 0;
    let mut i: usize = 0;
    while i < transactions.len()
        invariant
            i <= transactions.len(),
            ledger == transactions.deep_view(),
            wallet == wallet_address@,
            wanted@ == wallet,
            balance_representable(ledger, wallet),
            wallet_balance(ledger.take(i as int), wallet) == Ok::<int, WalletErrorView>(
                balance as int,
            ),
            events@.len() == entry_events(ledger.take(i as int), wallet).len(),
            forall|k: int|
                0 <= k < events@.len() ==> (#[trigger] events@[k])@ == entry_events(
                    ledger.take(i as int),
                    wallet,
                )[k],
        decreases transactions.len() - i,
    {
        let tx = &transactions[i];
        proof {
            assert(ledger.take(i + 1).drop_last() =~= ledger.take(i as int));
            assert(ledger.take(i + 1).last() == tx@);
            lemma_beginning_is_representable(ledger, wallet, i + 1);
        }
        if tx.wallet_address == wanted {
            if tx.amount < 0 {
                events.push(ReplayEvent::Refused(tx, WalletError::InvalidAmount(tx.amount)));
                proof {
                    lemma_error_is_final(ledger, wallet, i + 1);
                    lemma_events_are_final(ledger, wallet, i + 1);
                }
                return events;
            }
            match tx.transaction_type {
                TransactionType::Deposit => {
                    balance = balance + tx.amount;
                },
                TransactionType::Withdrawal => {
                    if balance < tx.amount {
                        events.push(
                            ReplayEvent::Refused(
                                tx,
                                WalletError::InsufficientFunds {
                                    requested: tx.amount,
                                    available: balance,
                                },
                            ),
                        );
                        proof {
                            lemma_error_is_final(ledger, wallet, i + 1);
                            lemma_events_are_final(ledger, wallet, i + 1);
                        }
                        return events;
                    }
                    balance = balance - tx.amount;
                },
            }
            events.push(ReplayEvent::Applied(tx));
        }
        i = i + 1;
    }
    assert(ledger.take(i as int) =~= ledger);
    events.push(ReplayEvent::Balance(balance));
    events
}

/// The line that opens or closes a section of the session log: the name of
/// the section between two rows of ten equals signs.
pub open spec fn section_header(section: Seq<char>) -> Seq<char> {
    "========== "@ + section + " =========="@
}

/// The header line for `section`.
pub fn log_section_header(section: &str) -> (line: String)
    ensures
        line@ == section_header(section@),
{
    let mut line = String::from_str("========== ");
    line.append(section);
    line.append(" ==========");
    line
}

} // verus!
