use ledger::amount::Amount;
use ledger::processor::{Error, Operation, Processor, Transaction};

fn deposit(client: u16, tx: u32, mantissa: i64, scale: u32) -> Transaction {
    Transaction { kind: Operation::Deposit, client, tx, amount: Some(Amount::new(mantissa, scale)) }
}

fn withdrawal(client: u16, tx: u32, mantissa: i64, scale: u32) -> Transaction {
    Transaction {
        kind: Operation::Withdrawal,
        client,
        tx,
        amount: Some(Amount::new(mantissa, scale)),
    }
}

fn without_amount(kind: Operation, client: u16, tx: u32) -> Transaction {
    Transaction { kind, client, tx, amount: None }
}

/// Checks one account's snapshot: available, held, total (as mantissa and
/// scale) and the locked flag.
fn assert_account(
    processor: &Processor,
    client: u16,
    available: (i64, u32),
    held: (i64, u32),
    total: (i64, u32),
    locked: bool,
) {
    let account = processor.clients().get(&client).unwrap();
    assert_eq!(account.available, Amount::new(available.0, available.1));
    assert_eq!(account.held, Amount::new(held.0, held.1));
    assert_eq!(account.total, Amount::new(total.0, total.1));
    assert_eq!(account.locked, locked);
}

#[test]
fn deposits() {
    let processor = Processor::from_iter(vec![
        deposit(1, 1, 10050, 2),
        deposit(1, 2, 20005, 2),
        deposit(2, 1, 30001, 2),
        deposit(2, 2, 4000001, 4),
    ]);
    assert_eq!(processor.clients().len(), 2);
    assert_account(&processor, 1, (30055, 2), (0, 0), (30055, 2), false);
    assert_account(&processor, 2, (7000101, 4), (0, 0), (7000101, 4), false);
}

#[test]
fn deposits_and_withdrawals() {
    let processor = Processor::from_iter(vec![
        deposit(1, 1, 10000, 2),
        withdrawal(1, 2, 20000, 2),
        deposit(2, 1, 30000, 2),
        withdrawal(2, 2, 20000, 2),
    ]);
    assert_eq!(processor.clients().len(), 2);
    assert_account(&processor, 1, (100, 0), (0, 0), (100, 0), false);
    assert_account(&processor, 2, (100, 0), (0, 0), (100, 0), false);
}

#[test]
fn dispute() {
    let processor = Processor::from_iter(vec![
        deposit(1, 1, 10000, 2),
        without_amount(Operation::Dispute, 1, 1),
    ]);
    assert_eq!(processor.clients().len(), 1);
    assert_account(&processor, 1, (0, 0), (100, 0), (100, 0), false);
}

#[test]
fn dispute_no_id() {
    let processor = Processor::from_iter(vec![
        deposit(1, 1, 10000, 2),
        without_amount(Operation::Dispute, 1, 2),
    ]);
    assert_eq!(processor.clients().len(), 1);
    assert_account(&processor, 1, (100, 0), (0, 0), (100, 0), false);
}

#[test]
fn dispute_and_resolve() {
    let processor = Processor::from_iter(vec![
        deposit(1, 1, 10000, 2),
        without_amount(Operation::Dispute, 1, 1),
        without_amount(Operation::Resolve, 1, 1),
    ]);
    assert_eq!(processor.clients().len(), 1);
    assert_account(&processor, 1, (100, 0), (0, 0), (100, 0), false);
}

#[test]
fn dispute_and_chargeback() {
    let processor = Processor::from_iter(vec![
        deposit(1, 1, 10000, 2),
        deposit(1, 2, 20000, 2),
        without_amount(Operation::Dispute, 1, 2),
        without_amount(Operation::Chargeback, 1, 2),
    ]);
    assert_eq!(processor.clients().len(), 1);
    assert_account(&processor, 1, (100, 0), (0, 0), (100, 0), true);
}

#[test]
fn chargeback_wrong_state() {
    let processor = Processor::from_iter(vec![
        deposit(1, 1, 10000, 2),
        deposit(1, 2, 20000, 2),
        without_amount(Operation::Chargeback, 1, 2),
    ]);
    assert_eq!(processor.clients().len(), 1);
    assert_account(&processor, 1, (300, 0), (0, 0), (300, 0), false);
}
