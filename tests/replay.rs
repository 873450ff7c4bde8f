use ledger_replay::decode::DecodeError;
use ledger_replay::ledger::{Account, Ledger, Outcome, Policy, Rejection, Transaction};

fn run(rows: &[(&str, &str, &str, &str)]) -> (Ledger, Vec<Result<Outcome, DecodeError>>) {
    let mut ledger = Ledger::new();
    let mut outcomes = Vec::new();
    for (kind, client, tx, amount) in rows {
        outcomes.push(ledger.apply_row(kind, client, tx, amount));
    }
    (ledger, outcomes)
}

fn account(client: u16, available: i64, held: i64, total: i64, locked: bool) -> Account {
    Account { client, available, held, total, locked }
}

#[test]
fn test_base() {
    let (ledger, outcomes) = run(&[
        ("deposit", "1", "1", "5.0"),
        ("deposit", "2", "2", "7.0"),
        ("withdrawal", "1", "3", "2.0"),
    ]);
    assert!(outcomes.iter().all(|o| *o == Ok(Outcome::Applied)));
    assert_eq!(ledger.account(1), Some(account(1, 30000, 0, 30000, false)));
    assert_eq!(ledger.account(2), Some(account(2, 70000, 0, 70000, false)));
    assert_eq!(ledger.len(), 2);
}

#[test]
fn test_dispute() {
    let (ledger, outcomes) = run(&[("deposit", "1", "1", "10.0"), ("dispute", "1", "1", "")]);
    assert_eq!(outcomes[1], Ok(Outcome::Applied));
    assert_eq!(ledger.account(1), Some(account(1, 0, 100000, 100000, false)));
    assert!(ledger.is_disputed(1));
}

#[test]
fn test_resolve() {
    let (ledger, outcomes) = run(&[
        ("deposit", "1", "1", "10.0"),
        ("dispute", "1", "1", ""),
        ("resolve", "1", "1", ""),
    ]);
    assert_eq!(outcomes[2], Ok(Outcome::Applied));
    assert_eq!(ledger.account(1), Some(account(1, 100000, 0, 100000, false)));
    assert!(!ledger.is_disputed(1));
}

#[test]
fn test_resolve_no_dispute() {
    let (ledger, outcomes) = run(&[("deposit", "1", "1", "10.0"), ("resolve", "1", "1", "")]);
    assert_eq!(outcomes[1], Ok(Outcome::Rejected(Rejection::NotDisputed)));
    assert_eq!(ledger.account(1), Some(account(1, 100000, 0, 100000, false)));
}

#[test]
fn test_chargeback() {
    let (ledger, outcomes) = run(&[
        ("deposit", "1", "1", "10.0"),
        ("dispute", "1", "1", ""),
        ("chargeback", "1", "1", ""),
    ]);
    assert_eq!(outcomes[2], Ok(Outcome::Applied));
    assert_eq!(ledger.account(1), Some(account(1, 0, 0, 0, true)));
    assert!(!ledger.is_disputed(1));
}

#[test]
fn totals_stay_sums_over_a_mixed_replay() {
    let (ledger, _) = run(&[
        ("deposit", "1", "1", "10.5"),
        ("deposit", "2", "2", "3"),
        ("withdrawal", "1", "3", "0.5"),
        ("dispute", "1", "1", ""),
        ("deposit", "1", "4", "1.25"),
        ("chargeback", "1", "1", ""),
        ("dispute", "2", "2", ""),
        ("resolve", "2", "2", ""),
    ]);
    for a in ledger.snapshot() {
        assert_eq!(a.total, a.available + a.held);
    }
    assert_eq!(ledger.account(1), Some(account(1, 7500, 0, 7500, true)));
}

#[test]
fn rejected_record_twice_changes_nothing() {
    let (mut ledger, _) = run(&[("deposit", "1", "1", "4.0")]);
    let before = ledger.snapshot();
    let bad = Transaction::Dispute { client: 2, tx: 1 };
    assert_eq!(ledger.apply(bad), Outcome::Rejected(Rejection::ClientMismatch));
    assert_eq!(ledger.snapshot(), before);
    assert_eq!(ledger.apply(bad), Outcome::Rejected(Rejection::ClientMismatch));
    assert_eq!(ledger.snapshot(), before);
    assert_eq!(ledger.apply_row("deposit", "1", "9", ""), Err(DecodeError::MissingAmount));
    assert_eq!(ledger.apply_row("deposit", "1", "9", ""), Err(DecodeError::MissingAmount));
    assert_eq!(ledger.snapshot(), before);
}

#[test]
fn second_dispute_is_rejected() {
    let (ledger, outcomes) = run(&[
        ("deposit", "3", "7", "2.0"),
        ("dispute", "3", "7", ""),
        ("dispute", "3", "7", ""),
    ]);
    assert_eq!(outcomes[2], Ok(Outcome::Rejected(Rejection::AlreadyDisputed)));
    assert_eq!(ledger.account(3), Some(account(3, 0, 20000, 20000, false)));
}

#[test]
fn withdrawal_to_exactly_zero_is_rejected() {
    let (ledger, outcomes) = run(&[("deposit", "1", "1", "2.0"), ("withdrawal", "1", "2", "2.0")]);
    assert_eq!(outcomes[1], Ok(Outcome::Rejected(Rejection::InsufficientFunds)));
    assert_eq!(ledger.account(1), Some(account(1, 20000, 0, 20000, false)));
}

#[test]
fn withdrawal_leaving_a_positive_balance_succeeds() {
    let (ledger, outcomes) =
        run(&[("deposit", "1", "1", "2.0"), ("withdrawal", "1", "2", "1.9999")]);
    assert_eq!(outcomes[1], Ok(Outcome::Applied));
    assert_eq!(ledger.account(1), Some(account(1, 1, 0, 1, false)));
}

#[test]
fn withdrawal_beyond_balance_is_rejected() {
    let (_, outcomes) = run(&[("deposit", "1", "1", "2.0"), ("withdrawal", "1", "2", "3.0")]);
    assert_eq!(outcomes[1], Ok(Outcome::Rejected(Rejection::InsufficientFunds)));
}

#[test]
fn zero_balance_policy_accepts_withdrawal_to_zero() {
    let mut ledger = Ledger::with_policy(Policy { locked_blocks_transfers: false, allow_zero_available: true });
    assert_eq!(ledger.apply_row("deposit", "1", "1", "2.0"), Ok(Outcome::Applied));
    assert_eq!(ledger.apply_row("withdrawal", "1", "2", "2.0"), Ok(Outcome::Applied));
    assert_eq!(ledger.account(1), Some(account(1, 0, 0, 0, false)));
}

#[test]
fn locked_policy_blocks_transfers_after_chargeback() {
    let mut ledger = Ledger::with_policy(Policy { locked_blocks_transfers: true, allow_zero_available: false });
    for (k, tx, a) in [("deposit", "1", "5"), ("dispute", "1", ""), ("chargeback", "1", "")] {
        assert_eq!(ledger.apply_row(k, "1", tx, a), Ok(Outcome::Applied));
    }
    let r = ledger.apply_row("deposit", "1", "2", "1");
    assert_eq!(r, Ok(Outcome::Rejected(Rejection::AccountLocked)));
    assert!(Rejection::AccountLocked.is_routine());
}

#[test]
fn locked_account_still_takes_deposits_by_default() {
    let (ledger, outcomes) = run(&[
        ("deposit", "1", "1", "5"),
        ("dispute", "1", "1", ""),
        ("chargeback", "1", "1", ""),
        ("deposit", "1", "2", "1"),
    ]);
    assert_eq!(outcomes[3], Ok(Outcome::Applied));
    assert_eq!(ledger.account(1), Some(account(1, 10000, 0, 10000, true)));
}

#[test]
fn unknown_kind_is_dropped() {
    let (ledger, outcomes) = run(&[
        ("deposit", "1", "1", "5.0"),
        ("transfer", "1", "2", "3.0"),
        ("Deposit", "1", "3", "3.0"),
    ]);
    assert_eq!(outcomes[1], Err(DecodeError::UnknownKind));
    assert_eq!(outcomes[2], Err(DecodeError::UnknownKind));
    assert_eq!(ledger.snapshot(), vec![account(1, 50000, 0, 50000, false)]);
}

#[test]
fn protocol_violations_are_reported() {
    let (ledger, outcomes) = run(&[
        ("deposit", "1", "1", "5.0"),
        ("dispute", "1", "99", ""),
        ("chargeback", "1", "1", ""),
        ("dispute", "2", "1", ""),
    ]);
    assert_eq!(outcomes[1], Ok(Outcome::Rejected(Rejection::UnknownTransaction)));
    assert_eq!(outcomes[2], Ok(Outcome::Rejected(Rejection::NotDisputed)));
    assert_eq!(outcomes[3], Ok(Outcome::Rejected(Rejection::ClientMismatch)));
    assert!(!Rejection::ClientMismatch.is_routine());
    assert!(Rejection::InsufficientFunds.is_routine());
    assert_eq!(ledger.len(), 1);
}

#[test]
fn disputed_withdrawal_moves_its_amount() {
    let (ledger, outcomes) = run(&[
        ("deposit", "1", "1", "5.0"),
        ("withdrawal", "1", "2", "1.0"),
        ("dispute", "1", "2", ""),
    ]);
    assert_eq!(outcomes[2], Ok(Outcome::Applied));
    assert_eq!(ledger.account(1), Some(account(1, 30000, 10000, 40000, false)));
}

#[test]
fn deposit_overflow_is_rejected() {
    let mut ledger = Ledger::new();
    let max = i64::MAX as u64;
    assert_eq!(ledger.apply(Transaction::Deposit { client: 1, tx: 1, amount: max }), Outcome::Applied);
    assert_eq!(
        ledger.apply(Transaction::Deposit { client: 1, tx: 2, amount: 1 }),
        Outcome::Rejected(Rejection::Overflow)
    );
    assert_eq!(ledger.account(1), Some(account(1, i64::MAX, 0, i64::MAX, false)));
}

#[test]
fn snapshot_lists_clients_in_creation_order() {
    let mut ledger = Ledger::new();
    let ts = vec![
        Transaction::Deposit { client: 9, tx: 1, amount: 10 },
        Transaction::Withdrawal { client: 4, tx: 2, amount: 1 },
        Transaction::Deposit { client: 4, tx: 3, amount: 20 },
        Transaction::Deposit { client: 9, tx: 4, amount: 5 },
    ];
    let outcomes = ledger.apply_all(&ts);
    assert_eq!(outcomes[1], Outcome::Rejected(Rejection::InsufficientFunds));
    assert_eq!(
        ledger.snapshot(),
        vec![account(9, 15, 0, 15, false), account(4, 20, 0, 20, false)]
    );
    assert_eq!(ledger.policy(), Policy::standard());
}
