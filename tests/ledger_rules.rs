use payments_engine::client_account_state::ClientAccountState;
use payments_engine::decimal::Decimal;
use payments_engine::engine::{Engine, Output, Transaction};
use payments_engine::error::TxError;
use payments_engine::parse::parse_decimal;
use payments_engine::transaction_type::TransactionType;

fn dec(s: &str) -> Decimal {
    parse_decimal(s.as_bytes()).unwrap()
}

fn record(kind: TransactionType, client: u16, tx: u32, amount: Option<&str>) -> Transaction {
    Transaction { kind, client, tx, amount: amount.map(dec) }
}

fn row(rows: &[Output], client: u16) -> Output {
    *rows.iter().find(|r| r.client == client).unwrap()
}

#[test]
fn rounding_keeps_four_digits() {
    assert_eq!(dec("1.23456").normalize(), 12346);
    assert_eq!(dec("1.23454").normalize(), 12345);
    assert_eq!(dec("0.00005").normalize(), 1);
    assert_eq!(dec("-0.00005").normalize(), -1);
    assert_eq!(dec("-1.23456").normalize(), -12346);
    assert_eq!(dec("60").normalize(), 600000);
    assert_eq!(dec("2.5").normalize(), 25000);
    assert_eq!(Decimal { mantissa: 7, scale: 40 }.normalize(), 0);
}

#[test]
fn sub_unit_deposit_is_rejected() {
    let mut state = ClientAccountState::default();
    assert_eq!(state.deposit(1, dec("0.00001")), Err(TxError::InvalidAmount));
    assert_eq!(state.available, 0);
    assert!(state.txs.is_empty());
    assert_eq!(state.deposit(2, dec("-5")), Err(TxError::InvalidAmount));
    assert!(state.txs.is_empty());
}

#[test]
fn withdraw_all_leaves_zero() {
    let mut state = ClientAccountState::default();
    state.deposit(1, dec("12.3456")).unwrap();
    assert_eq!(state.withdraw(2, dec("12.34561")), Err(TxError::InsufficientFunds));
    assert_eq!(state.available, 123456);
    assert_eq!(state.withdraw(2, dec("12.3456")), Ok(()));
    assert_eq!(state.available, 0);
    assert_eq!(state.txs.get(&2).unwrap().amount, 123456);
}

#[test]
fn withdraw_compares_unrounded_amount() {
    let mut state = ClientAccountState::default();
    state.deposit(1, dec("0.0001")).unwrap();
    // 0.00012 rounds to 0.0001 but exceeds the available 0.0001.
    assert_eq!(state.withdraw(2, dec("0.00012")), Err(TxError::InsufficientFunds));
    assert_eq!(state.available, 1);
    // 0.00008 rounds up to 0.0001 and does not exceed it.
    assert_eq!(state.withdraw(3, dec("0.00008")), Ok(()));
    assert_eq!(state.available, 0);
}

#[test]
fn dispute_moves_funds_to_held() {
    let mut state = ClientAccountState::default();
    state.deposit(7, dec("20.5")).unwrap();
    assert_eq!(state.dispute(8), Err(TxError::TransactionNotFound));
    assert_eq!((state.available, state.held), (205000, 0));
    assert_eq!(state.dispute(7), Ok(()));
    assert_eq!((state.available, state.held), (0, 205000));
    // A second dispute shifts the amount again.
    assert_eq!(state.dispute(7), Ok(()));
    assert_eq!((state.available, state.held), (-205000, 410000));
}

#[test]
fn resolve_restores_balances_and_keeps_mark() {
    let mut state = ClientAccountState::default();
    state.deposit(1, dec("3")).unwrap();
    assert_eq!(state.resolve(1), Err(TxError::NotDisputed));
    assert_eq!(state.resolve(9), Err(TxError::TransactionNotFound));
    state.dispute(1).unwrap();
    assert_eq!(state.resolve(1), Ok(()));
    assert_eq!((state.available, state.held), (30000, 0));
    assert!(state.txs.get(&1).unwrap().under_dispute);
}

#[test]
fn chargeback_writes_off_held_funds() {
    let mut state = ClientAccountState::default();
    state.deposit(1, dec("3")).unwrap();
    state.deposit(2, dec("1")).unwrap();
    assert_eq!(state.chargeback(1), Err(TxError::NotDisputed));
    assert_eq!(state.chargeback(5), Err(TxError::TransactionNotFound));
    assert!(!state.locked);
    state.dispute(1).unwrap();
    assert_eq!(state.chargeback(1), Ok(()));
    assert_eq!((state.available, state.held), (10000, 0));
    assert!(state.locked);
    assert!(!state.txs.get(&1).unwrap().under_dispute);
}

#[test]
fn balance_overflow_is_rejected() {
    let mut state = ClientAccountState::default();
    assert_eq!(state.deposit(1, dec("900000000000000")), Ok(()));
    assert_eq!(state.deposit(2, dec("900000000000000")), Err(TxError::Overflow));
    assert_eq!(state.available, 9_000_000_000_000_000_000);
    assert!(state.txs.get(&2).is_none());
}

#[test]
fn scenario_dispute_then_resolve() {
    let mut engine = Engine::new();
    assert_eq!(engine.apply(&record(TransactionType::DEPOSIT, 1, 1, Some("60.0"))), Ok(()));
    assert_eq!(engine.apply(&record(TransactionType::DISPUTE, 1, 1, None)), Ok(()));
    assert_eq!(engine.apply(&record(TransactionType::RESOLVE, 1, 1, None)), Ok(()));
    let out = row(&engine.summary(), 1);
    assert_eq!((out.available, out.held, out.total, out.locked), (600000, 0, 600000, false));
}

#[test]
fn scenario_dispute_of_unknown_tx() {
    let mut engine = Engine::new();
    engine.apply(&record(TransactionType::DEPOSIT, 1, 2, Some("50.0"))).unwrap();
    engine.apply(&record(TransactionType::WITHDRAW, 1, 3, Some("50.0"))).unwrap();
    assert_eq!(
        engine.apply(&record(TransactionType::DISPUTE, 1, 4, None)),
        Err(TxError::TransactionNotFound)
    );
    let out = row(&engine.summary(), 1);
    assert_eq!((out.available, out.held, out.total), (0, 0, 0));
}

#[test]
fn scenario_chargeback_locks_account() {
    let mut engine = Engine::new();
    engine.apply(&record(TransactionType::DEPOSIT, 1, 1, Some("50.0"))).unwrap();
    engine.apply(&record(TransactionType::DISPUTE, 1, 1, None)).unwrap();
    engine.apply(&record(TransactionType::CHARGEBACK, 1, 1, None)).unwrap();
    assert_eq!(
        engine.apply(&record(TransactionType::DEPOSIT, 1, 2, Some("10.0"))),
        Err(TxError::AccountLocked)
    );
    let out = row(&engine.summary(), 1);
    assert_eq!((out.available, out.held, out.total, out.locked), (0, 0, 0, true));
}

#[test]
fn summary_has_one_row_per_client() {
    let mut engine = Engine::new();
    engine.apply(&record(TransactionType::DEPOSIT, 2, 1, Some("1.5"))).unwrap();
    engine.apply(&record(TransactionType::DEPOSIT, 1, 2, Some("2.25"))).unwrap();
    engine.apply(&record(TransactionType::DEPOSIT, 2, 3, Some("1"))).unwrap();
    engine.apply(&record(TransactionType::DISPUTE, 2, 3, None)).unwrap();
    // A rejected record still opens the client's account.
    assert_eq!(
        engine.apply(&record(TransactionType::WITHDRAW, 3, 4, Some("1"))),
        Err(TxError::InsufficientFunds)
    );
    assert_eq!(
        engine.apply(&record(TransactionType::DEPOSIT, 3, 5, None)),
        Err(TxError::MissingAmount)
    );
    let rows = engine.summary();
    assert_eq!(rows.len(), 3);
    assert_eq!(rows.iter().map(|r| r.client).collect::<Vec<_>>(), vec![2, 1, 3]);
    for r in &rows {
        assert_eq!(r.total, r.available as i128 + r.held as i128);
    }
    let two = row(&rows, 2);
    assert_eq!((two.available, two.held, two.total), (15000, 10000, 25000));
    assert_eq!(row(&rows, 1).available, 22500);
    assert_eq!(row(&rows, 3).total, 0);
}

#[test]
fn parses_amounts() {
    assert_eq!(parse_decimal(b"12.5"), Some(Decimal { mantissa: 125, scale: 1 }));
    assert_eq!(parse_decimal(b"-0.001"), Some(Decimal { mantissa: -1, scale: 3 }));
    assert_eq!(parse_decimal(b"+7"), Some(Decimal { mantissa: 7, scale: 0 }));
    assert_eq!(parse_decimal(b".5"), Some(Decimal { mantissa: 5, scale: 1 }));
    assert_eq!(parse_decimal(b"3."), Some(Decimal { mantissa: 3, scale: 0 }));
    assert_eq!(parse_decimal(b""), None);
    assert_eq!(parse_decimal(b"-"), None);
    assert_eq!(parse_decimal(b"."), None);
    assert_eq!(parse_decimal(b"1.2.3"), None);
    assert_eq!(parse_decimal(b"1e3"), None);
    assert_eq!(
        parse_decimal(b"123456789012345678"),
        Some(Decimal { mantissa: 123456789012345678, scale: 0 })
    );
    assert_eq!(parse_decimal(b"1234567890123456789"), None);
}

#[test]
fn parses_type_names() {
    assert_eq!(TransactionType::from_name(b"deposit"), Some(TransactionType::DEPOSIT));
    assert_eq!(TransactionType::from_name(b"DEPOSIT"), Some(TransactionType::DEPOSIT));
    assert_eq!(TransactionType::from_name(b"withdrawal"), Some(TransactionType::WITHDRAW));
    assert_eq!(TransactionType::from_name(b"WITHDRAW"), Some(TransactionType::WITHDRAW));
    assert_eq!(TransactionType::from_name(b"dispute"), Some(TransactionType::DISPUTE));
    assert_eq!(TransactionType::from_name(b"resolve"), Some(TransactionType::RESOLVE));
    assert_eq!(TransactionType::from_name(b"chargeback"), Some(TransactionType::CHARGEBACK));
    assert_eq!(TransactionType::from_name(b"CHARGEBACK"), Some(TransactionType::CHARGEBACK));
    assert_eq!(TransactionType::from_name(b"withdraw"), None);
    assert_eq!(TransactionType::from_name(b"Deposit"), None);
    assert_eq!(TransactionType::from_name(b""), None);
}
