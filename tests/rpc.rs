use ledger::amount::Amount;
use ledger::processor::Operation;
use ledger::rpc::{
    amount_text, decode, operation_from_code, parse_amount, MyProcessor, RpcError, RpcTransaction,
};

fn record(kind: i32, client: u32, tx: u32, amount: &str) -> RpcTransaction {
    RpcTransaction { kind, client, tx, amount: amount.to_string() }
}

#[test]
fn operation_codes() {
    assert_eq!(operation_from_code(0), Some(Operation::Deposit));
    assert_eq!(operation_from_code(1), Some(Operation::Withdrawal));
    assert_eq!(operation_from_code(2), Some(Operation::Dispute));
    assert_eq!(operation_from_code(3), Some(Operation::Resolve));
    assert_eq!(operation_from_code(4), Some(Operation::Chargeback));
    assert_eq!(operation_from_code(5), None);
    assert_eq!(operation_from_code(-1), None);
}

#[test]
fn amounts_from_text() {
    assert_eq!(parse_amount(""), Ok(None));
    assert_eq!(parse_amount("100.50"), Ok(Some(Amount::new(10050, 2))));
    assert_eq!(parse_amount("400.0001"), Ok(Some(Amount::new(4000001, 4))));
    assert_eq!(parse_amount("-3"), Ok(Some(Amount::new(-3, 0))));
    assert_eq!(parse_amount("0.00000001"), Ok(Some(Amount::new(1, 8))));
    assert_eq!(parse_amount("0.000000001"), Err(RpcError::InvalidAmount));
    assert_eq!(parse_amount("ten"), Err(RpcError::InvalidAmount));
}

#[test]
fn amounts_to_text() {
    assert_eq!(amount_text(Amount::new(10050, 2)), Some("100.5".to_string()));
    assert_eq!(amount_text(Amount::new(10000, 2)), Some("100".to_string()));
    assert_eq!(amount_text(Amount::new(7000101, 4)), Some("700.0101".to_string()));
    assert_eq!(amount_text(Amount::zero()), Some("0".to_string()));
    assert_eq!(amount_text(Amount::new(-25, 1)), Some("-2.5".to_string()));
    assert_eq!(amount_text(Amount::new(1, 8)), Some("0.00000001".to_string()));
    assert_eq!(amount_text(Amount { units: i128::MAX }), None);
}

#[test]
fn decode_keeps_low_client_bits() {
    let t = decode(&record(0, 65537, 9, "1.5")).unwrap();
    assert_eq!(t.kind, Operation::Deposit);
    assert_eq!(t.client, 1);
    assert_eq!(t.tx, 9);
    assert_eq!(t.amount, Some(Amount::new(15, 1)));
}

#[test]
fn batch_with_unknown_kind_is_refused() {
    let records = vec![record(0, 1, 1, "100.00"), record(7, 1, 2, "")];
    assert_eq!(MyProcessor::default().process(&records).unwrap_err(), RpcError::InvalidOperation);
}

#[test]
fn batch_with_bad_amount_is_refused() {
    let records = vec![record(0, 1, 1, "1..0")];
    assert_eq!(MyProcessor::default().process(&records).unwrap_err(), RpcError::InvalidAmount);
}

#[test]
fn batch_returns_each_account_once() {
    let records = vec![
        record(0, 2, 1, "300.00"),
        record(0, 1, 1, "100.00"),
        record(0, 1, 2, "200.00"),
        record(2, 1, 2, ""),
        record(4, 1, 2, ""),
        record(1, 2, 2, "500"),
        record(2, 3, 1, ""),
    ];
    let accounts = MyProcessor::default().process(&records).unwrap();
    assert_eq!(accounts.len(), 3);
    assert_eq!(accounts[0].client, 2);
    assert_eq!(accounts[0].available, "300");
    assert_eq!(accounts[0].held, "0");
    assert_eq!(accounts[0].total, "300");
    assert!(!accounts[0].locked);
    assert_eq!(accounts[1].client, 1);
    assert_eq!(accounts[1].available, "100");
    assert_eq!(accounts[1].held, "0");
    assert_eq!(accounts[1].total, "100");
    assert!(accounts[1].locked);
    assert_eq!(accounts[2].client, 3);
    assert_eq!(accounts[2].available, "0");
    assert_eq!(accounts[2].total, "0");
}

#[test]
fn batch_with_unwritable_balance_is_refused() {
    let big = "79228162514264337593543950335";
    let records = vec![record(0, 1, 1, big), record(0, 1, 2, big)];
    assert_eq!(
        MyProcessor::default().process(&records).unwrap_err(),
        RpcError::AmountOutOfRange
    );
}
