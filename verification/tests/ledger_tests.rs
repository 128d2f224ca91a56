use transaction_engine::{AccountStatus, Amount, Client, Engine, Input, Operation, Transaction};

const UNIT: i128 = 1_000_000_000_000;

fn deposit(client_id: u16, tx: u32, units: i128) -> Input {
    Input {
        operation: Operation::Deposit,
        client_id,
        transaction_id: tx,
        amount: Some(Amount::from_units(units)),
    }
}

fn withdrawal(client_id: u16, tx: u32, units: i128) -> Input {
    Input {
        operation: Operation::Withdrawal,
        client_id,
        transaction_id: tx,
        amount: Some(Amount::from_units(units)),
    }
}

fn refer(operation: Operation, client_id: u16, tx: u32) -> Input {
    Input { operation, client_id, transaction_id: tx, amount: None }
}

fn status_of(statuses: &[AccountStatus], client_id: u16) -> &AccountStatus {
    statuses
        .iter()
        .find(|s| s.client_id == client_id)
        .expect("client missing from output")
}

fn assert_balances(s: &AccountStatus, available: i128, held: i128, total: i128, locked: bool) {
    assert_eq!(s.available.to_units(), available);
    assert_eq!(s.held.to_units(), held);
    assert_eq!(s.total.to_units(), total);
    assert_eq!(s.locked, locked);
    assert_eq!(
        s.total.to_units(),
        s.available.to_units() + s.held.to_units()
    );
}

#[test]
fn scenario_two_deposits_one_withdrawal() {
    let mut engine = Engine::new();
    engine.process(deposit(1, 1, 10 * UNIT));
    engine.process(deposit(2, 2, 20 * UNIT));
    engine.process(withdrawal(1, 3, 5 * UNIT));
    let out = engine.into_account_statuses();
    assert_eq!(out.len(), 2);
    assert_balances(status_of(&out, 1), 5 * UNIT, 0, 5 * UNIT, false);
    assert_balances(status_of(&out, 2), 20 * UNIT, 0, 20 * UNIT, false);
}

#[test]
fn scenario_dispute_then_resolve() {
    let mut engine = Engine::new();
    engine.process(deposit(1, 1, 10 * UNIT));
    engine.process(refer(Operation::Dispute, 1, 1));
    let mid = engine.account_of(1).unwrap();
    assert_balances(&mid, 0, 10 * UNIT, 10 * UNIT, false);
    engine.process(refer(Operation::Resolve, 1, 1));
    let out = engine.into_account_statuses();
    assert_balances(status_of(&out, 1), 10 * UNIT, 0, 10 * UNIT, false);
}

#[test]
fn scenario_dispute_then_chargeback() {
    let mut engine = Engine::new();
    engine.process(deposit(1, 1, 10 * UNIT));
    engine.process(refer(Operation::Dispute, 1, 1));
    engine.process(refer(Operation::Chargeback, 1, 1));
    let out = engine.into_account_statuses();
    assert_balances(status_of(&out, 1), 0, 0, 0, true);
}

#[test]
fn withdrawal_of_exact_available_is_rejected() {
    let mut client = Client::new(1);
    client.deposit(Transaction {
        transaction_id: 1,
        operation: Operation::Deposit,
        amount: Some(Amount::from_units(10 * UNIT)),
        is_disputed: false,
    });
    client.withdrawal(Transaction {
        transaction_id: 2,
        operation: Operation::Withdrawal,
        amount: Some(Amount::from_units(10 * UNIT)),
        is_disputed: false,
    });
    assert_eq!(client.account_status.available.to_units(), 10 * UNIT);
    assert_eq!(client.account_status.total.to_units(), 10 * UNIT);
    client.withdrawal(Transaction {
        transaction_id: 3,
        operation: Operation::Withdrawal,
        amount: Some(Amount::from_units(10 * UNIT - 1)),
        is_disputed: false,
    });
    assert_eq!(client.account_status.available.to_units(), 1);
    assert_eq!(client.account_status.total.to_units(), 1);
}

#[test]
fn unknown_reference_changes_nothing() {
    let mut engine = Engine::new();
    engine.process(deposit(1, 1, 10 * UNIT));
    engine.process(refer(Operation::Dispute, 1, 99));
    engine.process(refer(Operation::Resolve, 1, 99));
    engine.process(refer(Operation::Chargeback, 1, 99));
    let out = engine.into_account_statuses();
    assert_balances(status_of(&out, 1), 10 * UNIT, 0, 10 * UNIT, false);
}

#[test]
fn resolve_and_chargeback_without_dispute_change_nothing() {
    let mut engine = Engine::new();
    engine.process(deposit(1, 1, 10 * UNIT));
    engine.process(refer(Operation::Resolve, 1, 1));
    engine.process(refer(Operation::Chargeback, 1, 1));
    let out = engine.into_account_statuses();
    assert_balances(status_of(&out, 1), 10 * UNIT, 0, 10 * UNIT, false);
}

#[test]
fn lock_is_one_way() {
    let mut engine = Engine::new();
    engine.process(deposit(1, 1, 10 * UNIT));
    engine.process(refer(Operation::Dispute, 1, 1));
    engine.process(refer(Operation::Chargeback, 1, 1));
    engine.process(deposit(1, 2, 3 * UNIT));
    engine.process(withdrawal(1, 3, UNIT));
    engine.process(refer(Operation::Dispute, 1, 2));
    engine.process(refer(Operation::Resolve, 1, 2));
    let out = engine.into_account_statuses();
    let s = status_of(&out, 1);
    assert!(s.locked);
}

#[test]
fn disputed_withdrawal_restores_held_funds() {
    let mut engine = Engine::new();
    engine.process(deposit(1, 1, 10 * UNIT));
    engine.process(withdrawal(1, 2, 4 * UNIT));
    engine.process(refer(Operation::Dispute, 1, 2));
    let out = engine.into_account_statuses();
    assert_balances(status_of(&out, 1), 6 * UNIT, 4 * UNIT, 10 * UNIT, false);
}

#[test]
fn chargeback_of_disputed_withdrawal_returns_funds() {
    let mut engine = Engine::new();
    engine.process(deposit(1, 1, 10 * UNIT));
    engine.process(withdrawal(1, 2, 4 * UNIT));
    engine.process(refer(Operation::Dispute, 1, 2));
    engine.process(refer(Operation::Chargeback, 1, 2));
    let out = engine.into_account_statuses();
    assert_balances(status_of(&out, 1), 10 * UNIT, 0, 10 * UNIT, true);
}

#[test]
fn deposit_without_amount_is_skipped() {
    let mut engine = Engine::new();
    engine.process(Input {
        operation: Operation::Deposit,
        client_id: 1,
        transaction_id: 1,
        amount: None,
    });
    let out = engine.into_account_statuses();
    assert_balances(status_of(&out, 1), 0, 0, 0, false);
}

#[test]
fn process_all_matches_step_by_step_processing() {
    let inputs = vec![
        deposit(1, 1, 10 * UNIT),
        deposit(2, 2, 20 * UNIT),
        withdrawal(1, 3, 5 * UNIT),
        refer(Operation::Dispute, 2, 2),
    ];
    let mut batch = Engine::new();
    batch.process_all(&inputs);
    let mut single = Engine::new();
    for input in inputs.iter() {
        single.process(*input);
    }
    let a = batch.into_account_statuses();
    let b = single.into_account_statuses();
    for id in [1u16, 2u16] {
        let x = status_of(&a, id);
        let y = status_of(&b, id);
        assert_eq!(x.available, y.available);
        assert_eq!(x.held, y.held);
        assert_eq!(x.total, y.total);
        assert_eq!(x.locked, y.locked);
    }
    assert_balances(status_of(&a, 2), 0, 20 * UNIT, 20 * UNIT, false);
}

#[test]
fn resolve_does_not_clear_the_dispute_mark() {
    // A second resolve after the first still applies: the mark is not reset.
    let mut engine = Engine::new();
    engine.process(deposit(1, 1, 10 * UNIT));
    engine.process(refer(Operation::Dispute, 1, 1));
    engine.process(refer(Operation::Resolve, 1, 1));
    engine.process(refer(Operation::Resolve, 1, 1));
    let out = engine.into_account_statuses();
    assert_balances(status_of(&out, 1), 20 * UNIT, -10 * UNIT, 10 * UNIT, false);
}
