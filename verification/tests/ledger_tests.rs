use ryz_labs::decimal::decimal_string;
use ryz_labs::terminal::{WalletTerminal, WithdrawOutcome};
use ryz_labs::{
    calculate_wallet_balance, checked_wallet_balance, log_section_header, transaction_history,
    wallet_balance_events, ReplayEvent, Transaction, TransactionType, WalletError,
};

fn deposit(wallet: &str, amount: i64) -> Transaction {
    Transaction {
        transaction_type: TransactionType::Deposit,
        wallet_address: wallet.to_string(),
        amount,
    }
}

fn withdrawal(wallet: &str, amount: i64) -> Transaction {
    Transaction {
        transaction_type: TransactionType::Withdrawal,
        wallet_address: wallet.to_string(),
        amount,
    }
}

#[test]
fn balance_of_unknown_wallet_is_zero() {
    let ledger = vec![deposit("a", 5), withdrawal("a", 2), deposit("b", 9)];
    assert_eq!(calculate_wallet_balance(&ledger, "c"), Ok(0));
    assert_eq!(calculate_wallet_balance(&ledger, ""), Ok(0));
    assert_eq!(calculate_wallet_balance(&[], ""), Ok(0));
    assert_eq!(checked_wallet_balance(&[], "c"), Some(Ok(0)));
}

#[test]
fn deposits_add_up() {
    let ledger = vec![deposit("w", 1), deposit("w", 20), deposit("w", 300), deposit("w", 0)];
    assert_eq!(calculate_wallet_balance(&ledger, "w"), Ok(321));
}

#[test]
fn order_of_transactions_matters() {
    let forward = vec![deposit("W", 100), withdrawal("W", 30)];
    assert_eq!(calculate_wallet_balance(&forward, "W"), Ok(70));
    let backward = vec![withdrawal("W", 30), deposit("W", 100)];
    assert_eq!(
        calculate_wallet_balance(&backward, "W"),
        Err(WalletError::InsufficientFunds { requested: 30, available: 0 })
    );
}

#[test]
fn other_wallets_do_not_change_a_balance() {
    let alone = vec![deposit("B", 40), withdrawal("B", 15), deposit("B", 1)];
    let mixed = vec![
        withdrawal("A", 7),
        deposit("B", 40),
        deposit("A", -3),
        withdrawal("B", 15),
        deposit("A", 1000),
        deposit("B", 1),
        withdrawal("A", 1),
    ];
    assert_eq!(calculate_wallet_balance(&alone, "B"), Ok(26));
    assert_eq!(calculate_wallet_balance(&mixed, "B"), Ok(26));
    assert_eq!(
        calculate_wallet_balance(&mixed, "A"),
        Err(WalletError::InsufficientFunds { requested: 7, available: 0 })
    );
}

#[test]
fn wallet_addresses_are_compared_exactly() {
    let ledger = vec![deposit("wallet", 10), deposit("Wallet", 20), deposit("wallet ", 40)];
    assert_eq!(calculate_wallet_balance(&ledger, "wallet"), Ok(10));
    assert_eq!(calculate_wallet_balance(&ledger, "Wallet"), Ok(20));
    assert_eq!(calculate_wallet_balance(&ledger, "wallet "), Ok(40));
    assert_eq!(calculate_wallet_balance(&ledger, "wall"), Ok(0));
}

#[test]
fn negative_amount_stops_the_replay() {
    let ledger = vec![deposit("w", 500), withdrawal("w", 20), deposit("w", -100), deposit("w", 7)];
    assert_eq!(calculate_wallet_balance(&ledger, "w"), Err(WalletError::InvalidAmount(-100)));
    let ledger = vec![deposit("w", 500), withdrawal("w", -1)];
    assert_eq!(calculate_wallet_balance(&ledger, "w"), Err(WalletError::InvalidAmount(-1)));
}

#[test]
fn negative_amount_is_checked_before_the_funds() {
    let ledger = vec![withdrawal("w", -5)];
    assert_eq!(calculate_wallet_balance(&ledger, "w"), Err(WalletError::InvalidAmount(-5)));
}

#[test]
fn first_refusal_wins() {
    let ledger = vec![withdrawal("w", 1), deposit("w", -2)];
    assert_eq!(
        calculate_wallet_balance(&ledger, "w"),
        Err(WalletError::InsufficientFunds { requested: 1, available: 0 })
    );
    let ledger = vec![deposit("w", -2), withdrawal("w", 1)];
    assert_eq!(calculate_wallet_balance(&ledger, "w"), Err(WalletError::InvalidAmount(-2)));
}

#[test]
fn later_deposit_does_not_cover_an_earlier_withdrawal() {
    let ledger = vec![deposit("w", 50), withdrawal("w", 100), deposit("w", 1000)];
    assert_eq!(
        calculate_wallet_balance(&ledger, "w"),
        Err(WalletError::InsufficientFunds { requested: 100, available: 50 })
    );
}

#[test]
fn zero_amounts_are_accepted() {
    let ledger = vec![withdrawal("w", 0), deposit("w", 0), deposit("w", 3), withdrawal("w", 0)];
    assert_eq!(calculate_wallet_balance(&ledger, "w"), Ok(3));
}

#[test]
fn withdrawal_of_the_whole_balance_is_accepted() {
    let ledger = vec![deposit("w", 3), withdrawal("w", 3)];
    assert_eq!(calculate_wallet_balance(&ledger, "w"), Ok(0));
}

#[test]
fn checked_balance_matches_the_balance() {
    let ledger = vec![deposit("w", 100), withdrawal("w", 30), deposit("v", 1)];
    assert_eq!(checked_wallet_balance(&ledger, "w"), Some(Ok(70)));
    let ledger = vec![deposit("w", 50), withdrawal("w", 100)];
    assert_eq!(
        checked_wallet_balance(&ledger, "w"),
        Some(Err(WalletError::InsufficientFunds { requested: 100, available: 50 }))
    );
}

#[test]
fn checked_balance_reports_a_balance_out_of_range() {
    let ledger = vec![deposit("w", i64::MAX), deposit("w", 1)];
    assert_eq!(checked_wallet_balance(&ledger, "w"), None);
    let ledger = vec![deposit("w", i64::MAX), withdrawal("w", 1), deposit("w", 1)];
    assert_eq!(checked_wallet_balance(&ledger, "w"), Some(Ok(i64::MAX)));
    let ledger = vec![deposit("w", i64::MAX), deposit("v", 1)];
    assert_eq!(checked_wallet_balance(&ledger, "w"), Some(Ok(i64::MAX)));
    assert_eq!(checked_wallet_balance(&ledger, "v"), Some(Ok(1)));
}

#[test]
fn nothing_after_a_refusal_can_leave_the_range() {
    let ledger = vec![withdrawal("w", 1), deposit("w", i64::MAX), deposit("w", i64::MAX)];
    assert_eq!(
        checked_wallet_balance(&ledger, "w"),
        Some(Err(WalletError::InsufficientFunds { requested: 1, available: 0 }))
    );
}

#[test]
fn history_lists_running_balances() {
    let ledger = vec![
        deposit("w", 100),
        deposit("other", 5),
        withdrawal("w", 30),
        deposit("w", 50),
    ];
    let history = transaction_history(&ledger, "w");
    assert_eq!(history.len(), 3);
    assert_eq!(history[0].0.to_string(), "Deposit of 100 to w");
    assert_eq!(history[0].1, 100);
    assert_eq!(history[1].0.to_string(), "Withdrawal of 30 to w");
    assert_eq!(history[1].1, 70);
    assert_eq!(history[2].0.to_string(), "Deposit of 50 to w");
    assert_eq!(history[2].1, 120);
    assert!(std::ptr::eq(history[1].0, &ledger[2]));
}

#[test]
fn history_of_unknown_wallet_is_empty() {
    let ledger = vec![deposit("w", 100)];
    assert!(transaction_history(&ledger, "v").is_empty());
    assert!(transaction_history(&[], "w").is_empty());
}

#[test]
fn history_does_not_validate() {
    let ledger = vec![deposit("w", 50), withdrawal("w", 100), deposit("w", -10), withdrawal("w", -5)];
    assert_eq!(
        calculate_wallet_balance(&ledger, "w"),
        Err(WalletError::InsufficientFunds { requested: 100, available: 50 })
    );
    let history = transaction_history(&ledger, "w");
    let totals: Vec<i128> = history.iter().map(|entry| entry.1).collect();
    assert_eq!(totals, vec![50, -50, -60, -55]);
    assert_eq!(history[1].0.to_string(), "Withdrawal of 100 to w");
}

#[test]
fn history_ends_on_the_balance_of_a_valid_wallet() {
    let ledger = vec![deposit("w", 10), withdrawal("w", 4), deposit("w", 1)];
    let history = transaction_history(&ledger, "w");
    assert_eq!(history[2].1, 7);
    assert_eq!(calculate_wallet_balance(&ledger, "w"), Ok(7));
}

#[test]
fn history_totals_are_exact_beyond_the_range_of_amounts() {
    let ledger = vec![deposit("w", i64::MAX), deposit("w", i64::MAX), deposit("w", 2)];
    let history = transaction_history(&ledger, "w");
    assert_eq!(history[2].1, 18446744073709551616);
    let ledger = vec![withdrawal("w", i64::MAX), deposit("w", i64::MIN), withdrawal("w", 1)];
    let history = transaction_history(&ledger, "w");
    assert_eq!(history[0].1, -9223372036854775807);
    assert_eq!(history[1].1, -18446744073709551615);
    assert_eq!(history[2].1, -18446744073709551616);
    let ledger = vec![withdrawal("w", i64::MIN)];
    assert_eq!(transaction_history(&ledger, "w")[0].1, 9223372036854775808);
}

#[test]
fn transaction_text_has_kind_amount_and_wallet() {
    assert_eq!(deposit("wallet_1", 100).to_string(), "Deposit of 100 to wallet_1");
    assert_eq!(withdrawal("b", -7).to_string(), "Withdrawal of -7 to b");
    assert_eq!(deposit("", 0).to_string(), "Deposit of 0 to ");
    assert_eq!(withdrawal("größe ✓", 12).to_string(), "Withdrawal of 12 to größe ✓");
    assert_eq!(TransactionType::Deposit.to_string(), "Deposit");
    assert_eq!(TransactionType::Withdrawal.to_string(), "Withdrawal");
}

#[test]
fn decimal_text_of_integers() {
    assert_eq!(decimal_string(0), "0");
    assert_eq!(decimal_string(7), "7");
    assert_eq!(decimal_string(10), "10");
    assert_eq!(decimal_string(1234567890), "1234567890");
    assert_eq!(decimal_string(-1), "-1");
    assert_eq!(decimal_string(-100), "-100");
    assert_eq!(decimal_string(i64::MAX), "9223372036854775807");
    assert_eq!(decimal_string(i64::MIN), "-9223372036854775808");
    for n in [-1005i64, -99, -10, -9, 9, 11, 99, 100, 101, 65536, 4000000000] {
        assert_eq!(decimal_string(n), format!("{}", n));
    }
}

#[test]
fn section_header_frames_the_name() {
    assert_eq!(log_section_header("Start"), "========== Start ==========");
    assert_eq!(log_section_header(""), "==========  ==========");
}

#[test]
fn events_of_an_accepted_replay() {
    let ledger = vec![deposit("w", 100), deposit("v", 1), withdrawal("w", 30)];
    let events = wallet_balance_events(&ledger, "w");
    assert_eq!(events.len(), 3);
    assert!(matches!(events[0], ReplayEvent::Applied(tx) if std::ptr::eq(tx, &ledger[0])));
    assert!(matches!(events[1], ReplayEvent::Applied(tx) if std::ptr::eq(tx, &ledger[2])));
    assert!(matches!(events[2], ReplayEvent::Balance(70)));
}

#[test]
fn events_of_a_refused_replay() {
    let ledger = vec![deposit("w", 50), withdrawal("w", 100), deposit("w", 5)];
    let events = wallet_balance_events(&ledger, "w");
    assert_eq!(events.len(), 2);
    assert!(matches!(events[0], ReplayEvent::Applied(tx) if tx.amount == 50));
    assert!(matches!(
        events[1],
        ReplayEvent::Refused(tx, WalletError::InsufficientFunds { requested: 100, available: 50 })
            if std::ptr::eq(tx, &ledger[1])
    ));
    let ledger = vec![deposit("w", -100)];
    let events = wallet_balance_events(&ledger, "w");
    assert_eq!(events.len(), 1);
    assert!(matches!(events[0], ReplayEvent::Refused(_, WalletError::InvalidAmount(-100))));
}

#[test]
fn events_of_an_unknown_wallet() {
    let events = wallet_balance_events(&[], "w");
    assert_eq!(events.len(), 1);
    assert!(matches!(events[0], ReplayEvent::Balance(0)));
}

#[test]
fn terminal_accepts_positive_deposits_only() {
    let mut terminal = WalletTerminal::new();
    assert!(!terminal.deposit("w", 0));
    assert!(!terminal.deposit("w", -5));
    assert!(terminal.transactions().is_empty());
    assert!(terminal.deposit("w", 5));
    assert_eq!(terminal.transactions().len(), 1);
    assert_eq!(terminal.transactions()[0].to_string(), "Deposit of 5 to w");
    assert_eq!(terminal.check_balance("w"), Ok(5));
    assert_eq!(terminal.check_balance("v"), Ok(0));
}

#[test]
fn terminal_withdraws_what_the_wallet_covers() {
    let mut terminal = WalletTerminal::new();
    assert!(terminal.deposit("w", 100));
    assert!(terminal.deposit("v", 1000));
    assert_eq!(terminal.withdraw("w", 0), WithdrawOutcome::AmountNotPositive);
    assert_eq!(terminal.withdraw("w", -1), WithdrawOutcome::AmountNotPositive);
    assert_eq!(terminal.withdraw("w", 101), WithdrawOutcome::InsufficientFunds { available: 100 });
    assert_eq!(terminal.withdraw("x", 1), WithdrawOutcome::InsufficientFunds { available: 0 });
    assert_eq!(terminal.transactions().len(), 2);
    assert_eq!(terminal.withdraw("w", 30), WithdrawOutcome::Withdrawn);
    assert_eq!(terminal.transactions().len(), 3);
    assert_eq!(terminal.transactions()[2].to_string(), "Withdrawal of 30 to w");
    assert_eq!(terminal.check_balance("w"), Ok(70));
    assert_eq!(terminal.withdraw("w", 70), WithdrawOutcome::Withdrawn);
    assert_eq!(terminal.check_balance("w"), Ok(0));
    assert_eq!(terminal.check_balance("v"), Ok(1000));
}

#[test]
fn terminal_history_follows_the_ledger() {
    let mut terminal = WalletTerminal::new();
    terminal.deposit("w", 100);
    terminal.deposit("v", 7);
    terminal.withdraw("w", 30);
    terminal.deposit("w", 50);
    let history = terminal.view_history("w");
    let lines: Vec<String> = history
        .iter()
        .map(|entry| format!("{} | Running balance: {}", entry.0.to_string(), entry.1))
        .collect();
    assert_eq!(
        lines,
        vec![
            "Deposit of 100 to w | Running balance: 100",
            "Withdrawal of 30 to w | Running balance: 70",
            "Deposit of 50 to w | Running balance: 120",
        ]
    );
}

#[test]
fn terminal_knows_when_a_balance_leaves_the_range() {
    let mut terminal = WalletTerminal::new();
    terminal.deposit("w", i64::MAX);
    assert!(terminal.balance_is_representable("w"));
    terminal.deposit("w", 1);
    assert!(!terminal.balance_is_representable("w"));
    assert!(terminal.balance_is_representable("v"));
}

#[test]
fn terminal_ledger_is_always_accepted() {
    let mut terminal = WalletTerminal::new();
    let wallets = ["a", "b", "c"];
    let mut step: i64 = 7;
    for round in 0..60 {
        let wallet = wallets[round % 3];
        step = (step * 31 + 11) % 97;
        if round % 2 == 0 {
            terminal.deposit(wallet, step - 20);
        } else {
            terminal.withdraw(wallet, step - 20);
        }
        for w in wallets {
            assert!(calculate_wallet_balance(terminal.transactions(), w).is_ok());
        }
        for tx in terminal.transactions() {
            assert!(tx.amount > 0);
        }
    }
    assert!(terminal.transactions().len() > 10);
}

#[test]
fn terminal_history_agrees_with_the_balance() {
    let mut terminal = WalletTerminal::new();
    terminal.deposit("w", 10);
    terminal.withdraw("w", 4);
    terminal.withdraw("w", 100);
    terminal.deposit("w", 1);
    let history = terminal.view_history("w");
    assert_eq!(history.len(), 3);
    assert_eq!(history[2].1, 7);
    assert_eq!(terminal.check_balance("w"), Ok(7));
}
