//! The balance of a wallet: its transactions replayed in ledger order, every
//! amount and every withdrawal checked on the way.

use vstd::prelude::*;
use vstd::pervasive::unreached;
use crate::transaction::{
    Transaction, TransactionType, TransactionView, WalletError, WalletErrorView,
};

verus! {

/// One step of the replay: what `tx` makes of a wallet that holds `balance`.
/// A negative amount is refused before anything else; a withdrawal is refused
/// when it asks for more than `balance`.
pub open spec fn apply_transaction(balance: int, tx: TransactionView) -> Result<
    int,
    WalletErrorView,
> {
    if tx.amount < 0 {
        Err(WalletErrorView::InvalidAmount(tx.amount))
    } else {
        match tx.kind {
            TransactionType::Deposit => Ok(balance + tx.amount),
            TransactionType::Withdrawal => if balance < tx.amount {
                Err(WalletErrorView::InsufficientFunds { requested: tx.amount, available: balance })
            } else {
                Ok(balance - tx.amount)
            },
        }
    }
}

/// The balance of `wallet`, or the error that stops its replay. The ledger
/// is gone through from its first entry to its last, from a balance of zero:
/// an entry of another wallet is passed over, an entry of `wallet` is
/// applied, and the first one that is refused decides the result.
pub open spec fn wallet_balance(ledger: Seq<TransactionView>, wallet: Seq<char>) -> Result<
    int,
    WalletErrorView,
>
    decreases ledger.len(),
{
    if ledger.len() == 0 {
        Ok(0)
    } else {
        match wallet_balance(ledger.drop_last(), wallet) {
            Ok(balance) => if ledger.last().wallet == wallet {
                apply_transaction(balance, ledger.last())
            } else {
                Ok(balance)
            },
            Err(error) => Err(error),
        }
    }
}

/// No running balance that the replay of `wallet` reaches exceeds `i64::MAX`.
/// What follows the entry that stops the replay does not count.
pub open spec fn balance_representable(ledger: Seq<TransactionView>, wallet: Seq<char>) -> bool
    decreases ledger.len(),
{
    if ledger.len() == 0 {
        true
    } else {
        &&& balance_representable(ledger.drop_last(), wallet)
        &&& wallet_balance(ledger, wallet) matches Ok(balance) ==> balance <= i64::MAX
    }
}

/// A computed result as contracts see it.
pub open spec fn result_view(result: Result<i64, WalletError>) -> Result<int, WalletErrorView> {
    match result {
        Ok(balance) => Ok(balance as int),
        Err(error) => Err(error@),
    }
}

/// Once the replay has stopped, more ledger entries do not change the error.
pub proof fn lemma_error_is_final(ledger: Seq<TransactionView>, wallet: Seq<char>, n: int)
    requires
        0 <= n <= ledger.len(),
        wallet_balance(ledger.take(n), wallet) is Err,
    ensures
        wallet_balance(ledger, wallet) == wallet_balance(ledger.take(n), wallet),
    decreases ledger.len(),
{
    if n == ledger.len() {
        assert(ledger.take(n) =~= ledger);
    } else {
        assert(ledger.drop_last().take(n) =~= ledger.take(n));
        lemma_error_is_final(ledger.drop_last(), wallet, n);
    }
}

/// What can be computed for a ledger can be computed for each of its
/// beginnings.
pub proof fn lemma_beginning_is_representable(
    ledger: Seq<TransactionView>,
    wallet: Seq<char>,
    n: int,
)
    requires
        0 <= n <= ledger.len(),
        balance_representable(ledger, wallet),
    ensures
        balance_representable(ledger.take(n), wallet),
    decreases ledger.len(),
{
    if n == ledger.len() {
        assert(ledger.take(n) =~= ledger);
    } else {
        assert(ledger.drop_last().take(n) =~= ledger.take(n));
        lemma_beginning_is_representable(ledger.drop_last(), wallet, n);
    }
}

/// A replay that has stopped within the first `n` entries stays in range
/// whatever follows them.
proof fn lemma_stopped_replay_is_representable(
    ledger: Seq<TransactionView>,
    wallet: Seq<char>,
    n: int,
)
    requires
        0 <= n <= ledger.len(),
        wallet_balance(ledger.take(n), wallet) is Err,
        balance_representable(ledger.take(n), wallet),
    ensures
        balance_representable(ledger, wallet),
    decreases ledger.len(),
{
    if n == ledger.len() {
        assert(ledger.take(n) =~= ledger);
    } else {
        assert(ledger.drop_last().take(n) =~= ledger.take(n));
        lemma_stopped_replay_is_representable(ledger.drop_last(), wallet, n);
        lemma_error_is_final(ledger, wallet, n);
    }
}

/// While the replay goes on, the balance is never negative.
pub proof fn lemma_balance_is_not_negative(ledger: Seq<TransactionView>, wallet: Seq<char>)
    ensures
        wallet_balance(ledger, wallet) matches Ok(balance) ==> balance >= 0,
    decreases ledger.len(),
{
    if ledger.len() > 0 {
        lemma_balance_is_not_negative(ledger.drop_last(), wallet);
    }
}

/// A ledger of `n` entries of at most `bound` each leaves no wallet with more
/// than `n * bound`: where that product fits in an `i64`, every balance can
/// be computed.
pub proof fn lemma_bounded_amounts_are_representable(
    ledger: Seq<TransactionView>,
    wallet: Seq<char>,
    bound: int,
)
    requires
        bound >= 0,
        forall|i: int| 0 <= i < ledger.len() ==> (#[trigger] ledger[i]).amount <= bound,
        ledger.len() * bound <= i64::MAX,
    ensures
        wallet_balance(ledger, wallet) matches Ok(balance) ==> balance <= ledger.len() * bound,
        balance_representable(ledger, wallet),
    decreases ledger.len(),
{
    if ledger.len() > 0 {
        let shorter = ledger.drop_last();
        assert(shorter.len() * bound + bound == ledger.len() * bound) by (nonlinear_arith)
            requires
                shorter.len() + 1 == ledger.len(),
        ;
        assert forall|i: int| 0 <= i < shorter.len() implies (#[trigger] shorter[i]).amount
            <= bound by {
            assert(shorter[i] == ledger[i]);
        }
        lemma_bounded_amounts_are_representable(shorter, wallet, bound);
        lemma_balance_is_not_negative(shorter, wallet);
        assert(ledger.last() == ledger[ledger.len() - 1]);
    }
}

/// Replays the transactions of `wallet_address` and watches the range of
/// `i64`: `None` when a running balance would leave it, else the balance or
/// the error of the first transaction that is refused.
pub fn checked_wallet_balance(transactions: &[Transaction], wallet_address: &str) -> (result:
    Option<Result<i64, WalletError>>)
    ensures
        result is Some <==> balance_representable(transactions.deep_view(), wallet_address@),
        result matches Some(outcome) ==> result_view(outcome) == wallet_balance(
            transactions.deep_view(),
            wallet_address@,
        ),
{
    let ghost ledger = transactions.deep_view();
    let ghost wallet = wallet_address@;
    let wanted = wallet_address.to_owned();
    let mut balance: i64 = 0;
    let mut i: usize = 0;
    while i < transactions.len()
        invariant
            i <= transactions.len(),
            ledger == transactions.deep_view(),
            wallet == wallet_address@,
            wanted@ == wallet,
            wallet_balance(ledger.take(i as int), wallet) == Ok::<int, WalletErrorView>(
                balance as int,
            ),
            balance_representable(ledger.take(i as int), wallet),
        decreases transactions.len() - i,
    {
        let tx = &transactions[i];
        proof {
            assert(ledger.take(i + 1).drop_last() =~= ledger.take(i as int));
            assert(ledger.take(i + 1).last() == tx@);
        }
        if tx.wallet_address == wanted {
            if tx.amount < 0 {
                proof {
                    lemma_error_is_final(ledger, wallet, i + 1);
                    lemma_stopped_replay_is_representable(ledger, wallet, i + 1);
                }
                return Some(Err(WalletError::InvalidAmount(tx.amount)));
            }
            match tx.transaction_type {
                TransactionType::Deposit => {
                    match balance.checked_add(tx.amount) {
                        Some(sum) => {
                            balance = sum;
                        },
                        None => {
                            proof {
                                if balance_representable(ledger, wallet) {
                                    lemma_beginning_is_representable(ledger, wallet, i + 1);
                                }
                            }
                            return None;
                        },
                    }
                },
                TransactionType::Withdrawal => {
                    if balance < tx.amount {
                        proof {
                            lemma_error_is_final(ledger, wallet, i + 1);
                            lemma_stopped_replay_is_representable(ledger, wallet, i + 1);
                        }
                        return Some(
                            Err(
                                WalletError::InsufficientFunds {
                                    requested: tx.amount,
                                    available: balance,
                                },
                            ),
                        );
                    }
                    balance = balance - tx.amount;
                },
            }
        }
        i = i + 1;
    }
    assert(ledger.take(i as int) =~= ledger);
    Some(Ok(balance))
}

/// The balance of `wallet_address`: its transactions replayed in ledger
/// order from zero. The first transaction with a negative amount, or the
/// first withdrawal that exceeds the balance reached before it, ends the
/// replay with its error. Transactions of other wallets are passed over.
pub fn calculate_wallet_balance(transactions: &[Transaction], wallet_address: &str) -> (result:
    Result<i64, WalletError>)
    requires
        balance_representable(transactions.deep_view(), wallet_address@),
    ensures
        result_view(result) == wallet_balance(transactions.deep_view(), wallet_address@),
        result matches Ok(balance) ==> balance >= 0,
{
    proof {
        lemma_balance_is_not_negative(transactions.deep_view(), wallet_address@);
    }
    match checked_wallet_balance(transactions, wallet_address) {
        Some(outcome) => outcome,
        None => unreached(),
    }
}

/// The entries applied one after the other, from the first to the last and
/// from a balance of zero, up to the first that is refused.
pub open spec fn replay(entries: Seq<TransactionView>) -> Result<int, WalletErrorView>
    decreases entries.len(),
{
    if entries.len() == 0 {
        Ok(0)
    } else {
        match replay(entries.drop_last()) {
            Ok(balance) => apply_transaction(balance, entries.last()),
            Err(error) => Err(error),
        }
    }
}

/// No balance that the replay of the entries reaches exceeds `i64::MAX`.
pub open spec fn replay_representable(entries: Seq<TransactionView>) -> bool
    decreases entries.len(),
{
    if entries.len() == 0 {
        true
    } else {
        &&& replay_representable(entries.drop_last())
        &&& replay(entries) matches Ok(balance) ==> balance <= i64::MAX
    }
}

/// The test that picks the transactions of `wallet`.
pub open spec fn belongs_to(wallet: Seq<char>) -> spec_fn(TransactionView) -> bool {
    |tx: TransactionView| tx.wallet == wallet
}

/// The transactions of `wallet`, in ledger order.
pub open spec fn wallet_entries(ledger: Seq<TransactionView>, wallet: Seq<char>) -> Seq<
    TransactionView,
> {
    ledger.filter(belongs_to(wallet))
}

/// The balance of a wallet is the replay of its own transactions, in the
/// order in which the ledger holds them: it depends on nothing else, and so
/// does the question whether it can be computed in an `i64`.
pub proof fn lemma_balance_is_replay_of_own_entries(
    ledger: Seq<TransactionView>,
    wallet: Seq<char>,
)
    ensures
        wallet_balance(ledger, wallet) == replay(wallet_entries(ledger, wallet)),
        balance_representable(ledger, wallet) == replay_representable(
            wallet_entries(ledger, wallet),
        ),
    decreases ledger.len(),
{
    reveal(Seq::filter);
    if ledger.len() > 0 {
        lemma_balance_is_replay_of_own_entries(ledger.drop_last(), wallet);
        if ledger.last().wallet == wallet {
            let before = wallet_entries(ledger.drop_last(), wallet);
            assert(before.push(ledger.last()).drop_last() =~= before);
        }
    }
}

/// A transaction of another wallet, put anywhere into the ledger, leaves the
/// transactions of `wallet` as they are.
pub proof fn lemma_entries_without_other_wallet(
    ledger: Seq<TransactionView>,
    wallet: Seq<char>,
    position: int,
    other: TransactionView,
)
    requires
        0 <= position <= ledger.len(),
        other.wallet != wallet,
    ensures
        wallet_entries(ledger.insert(position, other), wallet) == wallet_entries(ledger, wallet),
    decreases ledger.len() - position,
{
    let longer = ledger.insert(position, other);
    if position == ledger.len() {
        assert(longer =~= ledger.push(other));
        ledger.lemma_filter_push(other, belongs_to(wallet));
    } else {
        let shorter = ledger.drop_last();
        lemma_entries_without_other_wallet(shorter, wallet, position, other);
        assert(longer =~= shorter.insert(position, other).push(ledger.last()));
        assert(ledger =~= shorter.push(ledger.last()));
        shorter.insert(position, other).lemma_filter_push(ledger.last(), belongs_to(wallet));
        shorter.lemma_filter_push(ledger.last(), belongs_to(wallet));
    }
}

/// Wallets do not touch each other: a transaction of another wallet, put
/// anywhere into the ledger, changes neither the balance of `wallet` nor
/// whether that balance can be computed in an `i64`.
pub proof fn lemma_other_wallet_is_ignored(
    ledger: Seq<TransactionView>,
    wallet: Seq<char>,
    position: int,
    other: TransactionView,
)
    requires
        0 <= position <= ledger.len(),
        other.wallet != wallet,
    ensures
        wallet_balance(ledger.insert(position, other), wallet) == wallet_balance(ledger, wallet),
        balance_representable(ledger.insert(position, other), wallet) == balance_representable(
            ledger,
            wallet,
        ),
{
    lemma_entries_without_other_wallet(ledger, wallet, position, other);
    lemma_balance_is_replay_of_own_entries(ledger, wallet);
    lemma_balance_is_replay_of_own_entries(ledger.insert(position, other), wallet);
}

/// A wallet that no transaction names has a balance of zero; the empty
/// ledger is one such case.
pub proof fn lemma_unknown_wallet_has_zero_balance(ledger: Seq<TransactionView>, wallet: Seq<char>)
    requires
        forall|i: int| 0 <= i < ledger.len() ==> (#[trigger] ledger[i]).wallet != wallet,
    ensures
        wallet_balance(ledger, wallet) == Ok::<int, WalletErrorView>(0),
        balance_representable(ledger, wallet),
    decreases ledger.len(),
{
    if ledger.len() > 0 {
        lemma_unknown_wallet_has_zero_balance(ledger.drop_last(), wallet);
    }
}

/// The sum of the amounts of the entries.
pub open spec fn total_amount(entries: Seq<TransactionView>) -> int
    decreases entries.len(),
{
    if entries.len() == 0 {
        0
    } else {
        total_amount(entries.drop_last()) + entries.last().amount
    }
}

/// Every entry is a deposit of an amount that is not negative.
pub open spec fn only_valid_deposits(entries: Seq<TransactionView>) -> bool {
    forall|k: int|
        0 <= k < entries.len() ==> (#[trigger] entries[k]).kind == TransactionType::Deposit
            && entries[k].amount >= 0
}

/// Deposits of amounts that are not negative add up: their replay gives the
/// sum of the amounts, and it stays in range if that sum is in range.
pub proof fn lemma_deposits_add_up(entries: Seq<TransactionView>)
    requires
        only_valid_deposits(entries),
    ensures
        replay(entries) == Ok::<int, WalletErrorView>(total_amount(entries)),
        total_amount(entries) >= 0,
        total_amount(entries) <= i64::MAX ==> replay_representable(entries),
    decreases entries.len(),
{
    if entries.len() > 0 {
        let shorter = entries.drop_last();
        assert forall|k: int| 0 <= k < shorter.len() implies (#[trigger] shorter[k]).kind
            == TransactionType::Deposit && shorter[k].amount >= 0 by {
            assert(shorter[k] == entries[k]);
        }
        lemma_deposits_add_up(shorter);
        assert(entries.last() == entries[entries.len() - 1]);
    }
}

/// When every transaction of a wallet is a deposit of an amount that is not
/// negative, the balance of the wallet is the sum of these amounts, and it
/// can be computed in an `i64` if that sum fits in one.
pub proof fn lemma_wallet_of_deposits(ledger: Seq<TransactionView>, wallet: Seq<char>)
    requires
        only_valid_deposits(wallet_entries(ledger, wallet)),
    ensures
        wallet_balance(ledger, wallet) == Ok::<int, WalletErrorView>(
            total_amount(wallet_entries(ledger, wallet)),
        ),
        total_amount(wallet_entries(ledger, wallet)) <= i64::MAX ==> balance_representable(
            ledger,
            wallet,
        ),
{
    lemma_balance_is_replay_of_own_entries(ledger, wallet);
    lemma_deposits_add_up(wallet_entries(ledger, wallet));
}

/// A transaction of the wallet with a negative amount stops the replay with
/// `InvalidAmount` of that amount, whatever was accepted before it and
/// whatever follows.
pub proof fn lemma_negative_amount_is_refused(
    ledger: Seq<TransactionView>,
    wallet: Seq<char>,
    i: int,
)
    requires
        0 <= i < ledger.len(),
        ledger[i].wallet == wallet,
        ledger[i].amount < 0,
        wallet_balance(ledger.take(i), wallet) is Ok,
    ensures
        wallet_balance(ledger, wallet) == Err::<int, WalletErrorView>(
            WalletErrorView::InvalidAmount(ledger[i].amount),
        ),
{
    assert(ledger.take(i + 1).drop_last() =~= ledger.take(i));
    lemma_error_is_final(ledger, wallet, i + 1);
}

/// A withdrawal of more than the wallet holds when its turn comes stops the
/// replay with `InsufficientFunds`: `requested` is its amount, `available`
/// the balance that the transactions before it have built up.
pub proof fn lemma_overdraft_is_refused(ledger: Seq<TransactionView>, wallet: Seq<char>, i: int)
    requires
        0 <= i < ledger.len(),
        ledger[i].wallet == wallet,
        ledger[i].kind == TransactionType::Withdrawal,
        ledger[i].amount >= 0,
        wallet_balance(ledger.take(i), wallet) matches Ok(available) && available
            < ledger[i].amount,
    ensures
        wallet_balance(ledger, wallet) == Err::<int, WalletErrorView>(
            (WalletErrorView::InsufficientFunds {
                requested: ledger[i].amount,
                available: wallet_balance(ledger.take(i), wallet)->Ok_0,
            }),
        ),
{
    assert(ledger.take(i + 1).drop_last() =~= ledger.take(i));
    lemma_error_is_final(ledger, wallet, i + 1);
}

} // verus!
