use payments_engine::input::parse_csv;
use payments_engine::model::{ClientState, RawTxnInput, TxnType};
use payments_engine::transaction_processor::TransactionProcessor;

fn units(x: f64) -> i64 {
    (x * 10000.0).round() as i64
}

fn run(csv: &str) -> TransactionProcessor {
    let mut tp = TransactionProcessor::new().unwrap();
    for txn in parse_csv(csv) {
        tp.process(txn).unwrap();
    }
    tp
}

fn client(tp: &TransactionProcessor, id: u16) -> ClientState {
    tp.db().get_client_state(id).unwrap().unwrap()
}

fn raw(kind: TxnType, client_id: u16, txn_id: u32, amount: Option<i64>) -> RawTxnInput {
    RawTxnInput { txn_type: kind, client_id, txn_id, amount }
}

#[test]
fn scenario_single_deposit() {
    let tp = run("type,client,tx,amount\ndeposit,1,1,1.0\n");
    let c = client(&tp, 1);
    assert_eq!((c.available, c.held, c.total), (units(1.0), 0, units(1.0)));
    assert!(!c.is_locked());
}

#[test]
fn scenario_deposit_then_withdrawal() {
    let tp = run("type,client,tx,amount\ndeposit,1,1,1.0\nwithdrawal,1,2,1.0\n");
    let c = client(&tp, 1);
    assert_eq!((c.available, c.held, c.total), (0, 0, 0));
    assert!(!c.is_locked());
}

#[test]
fn scenario_dispute_of_deposit() {
    let tp = run("type,client,tx,amount\ndeposit,1,10,1.0\ndispute,1,10,\n");
    let c = client(&tp, 1);
    assert_eq!((c.available, c.held, c.total), (0, units(1.0), units(1.0)));
    assert!(!c.is_locked());
}

#[test]
fn scenario_chargeback_of_deposit_locks() {
    let tp = run(
        "type,client,tx,amount\ndeposit,1,10,1.0\ndispute,1,10,\nchargeback,1,10,\ndeposit,1,20,5.0\n",
    );
    let c = client(&tp, 1);
    assert_eq!((c.available, c.held, c.total), (0, 0, 0));
    assert!(c.is_locked());
    assert_eq!(tp.num_processed(), 3);
    assert!(tp.db().get_balance_transfer(1, 20).unwrap().is_none());
}

#[test]
fn scenario_chargeback_of_withdrawal() {
    let tp = run(
        "type,client,tx,amount\ndeposit,1,10,1.0\nwithdrawal,1,11,1.0\ndispute,1,11,\nchargeback,1,11,\n",
    );
    let c = client(&tp, 1);
    assert_eq!((c.available, c.held, c.total), (units(1.0), 0, units(1.0)));
    assert!(c.is_locked());
}

#[test]
fn locked_account_ignores_everything() {
    let tp = run(
        "type,client,tx,amount\ndeposit,1,10,3.0\ndeposit,1,12,2.0\ndispute,1,10,\nchargeback,1,10,\nwithdrawal,1,13,1.0\ndispute,1,12,\n",
    );
    let c = client(&tp, 1);
    assert_eq!((c.available, c.held, c.total), (units(2.0), 0, units(2.0)));
    assert!(c.is_locked());
    assert_eq!(tp.num_processed(), 4);
}

#[test]
fn reused_txn_id_changes_no_balance() {
    let tp = run("type,client,tx,amount\ndeposit,1,10,1.0\ndeposit,1,10,4.0\nwithdrawal,2,10,1.0\n");
    let c1 = client(&tp, 1);
    let c2 = client(&tp, 2);
    assert_eq!((c1.available, c1.total), (units(1.0), units(1.0)));
    assert_eq!((c2.available, c2.held, c2.total), (0, 0, 0));
    assert_eq!(tp.num_processed(), 1);
}

#[test]
fn dispute_then_resolve_restores_balances() {
    let mut tp = TransactionProcessor::new().unwrap();
    tp.process(raw(TxnType::Deposit, 1, 1, Some(units(3.0)))).unwrap();
    tp.process(raw(TxnType::Withdrawal, 1, 2, Some(units(1.0)))).unwrap();
    let before = client(&tp, 1);
    tp.process(raw(TxnType::Dispute, 1, 1, None)).unwrap();
    let during = client(&tp, 1);
    assert_eq!(during.total, before.total);
    assert_eq!((during.available, during.held), (units(-1.0), units(3.0)));
    tp.process(raw(TxnType::Resolve, 1, 1, None)).unwrap();
    let after = client(&tp, 1);
    assert_eq!(after, before);
}

#[test]
fn withdrawal_dispute_then_resolve_restores_balances() {
    let tp = run(
        "type,client,tx,amount\ndeposit,1,1,3.0\nwithdrawal,1,2,1.0\ndispute,1,2,\nresolve,1,2,\n",
    );
    let c = client(&tp, 1);
    assert_eq!((c.available, c.held, c.total), (units(2.0), 0, units(2.0)));
}

#[test]
fn overdraft_is_refused() {
    let tp = run("type,client,tx,amount\ndeposit,1,1,1.0\nwithdrawal,1,2,1.5\nwithdrawal,3,4,0.5\n");
    let c = client(&tp, 1);
    assert_eq!((c.available, c.held, c.total), (units(1.0), 0, units(1.0)));
    let c3 = client(&tp, 3);
    assert_eq!((c3.available, c3.held, c3.total), (0, 0, 0));
    assert_eq!(tp.num_processed(), 1);
}

#[test]
fn claims_without_transfer_are_ignored() {
    let tp = run(
        "type,client,tx,amount\ndeposit,1,1,1.0\ndispute,1,2,\nresolve,1,2,\nchargeback,1,2,\ndispute,2,1,\n",
    );
    let c = client(&tp, 1);
    assert_eq!((c.available, c.held, c.total), (units(1.0), 0, units(1.0)));
    assert!(!c.is_locked());
    let c2 = client(&tp, 2);
    assert_eq!((c2.available, c2.held, c2.total), (0, 0, 0));
    assert_eq!(tp.num_processed(), 1);
}

#[test]
fn invalid_records_create_no_account() {
    let mut tp = TransactionProcessor::new().unwrap();
    tp.process(raw(TxnType::Deposit, 5, 1, Some(0))).unwrap();
    tp.process(raw(TxnType::Deposit, 5, 2, None)).unwrap();
    tp.process(raw(TxnType::Dispute, 5, 3, Some(1))).unwrap();
    tp.process(raw(TxnType::Invalid, 5, 4, Some(1))).unwrap();
    assert!(tp.db().get_client_state(5).unwrap().is_none());
    assert_eq!(tp.num_processed(), 0);
}

#[test]
fn balance_beyond_range_is_refused() {
    let mut tp = TransactionProcessor::new().unwrap();
    let big = 9_000_000_000_000_000_000i64;
    tp.process(raw(TxnType::Deposit, 1, 1, Some(big))).unwrap();
    tp.process(raw(TxnType::Deposit, 1, 2, Some(big))).unwrap();
    let c = client(&tp, 1);
    assert_eq!((c.available, c.total), (big, big));
    assert_eq!(tp.num_processed(), 1);
}

#[test]
fn validation_negates_withdrawals() {
    let tp = TransactionProcessor::new().unwrap();
    let cmd = tp.validate_raw_input(&raw(TxnType::Withdrawal, 1, 2, Some(500)));
    match cmd {
        Some(payments_engine::model::Txn::BalanceTransfer(b)) => assert_eq!(b.amount, -500),
        other => panic!("unexpected {:?}", other),
    }
    assert!(tp.validate_raw_input(&raw(TxnType::Resolve, 1, 2, Some(500))).is_none());
    assert!(tp.validate_raw_input(&raw(TxnType::Withdrawal, 1, 2, Some(-500))).is_none());
}

#[test]
fn process_all_applies_records_in_order() {
    let mut tp = TransactionProcessor::new().unwrap();
    let records = parse_csv(
        "type,client,tx,amount\nwithdrawal,2,1,1.0\ndeposit,2,2,2.5\nwithdrawal,2,3,1.0\ndeposit,1,4,0.75\n",
    );
    tp.process_all(&records).unwrap();
    let c2 = client(&tp, 2);
    assert_eq!((c2.available, c2.total), (units(1.5), units(1.5)));
    assert_eq!(tp.num_processed(), 3);
    assert_eq!(
        tp.report_lines(),
        vec![
            "client,available,held,total,locked".to_string(),
            "1.5,0,1.5,false".to_string(),
            "0.75,0,0.75,false".to_string(),
        ]
    );
}

#[test]
fn report_of_empty_ledger_is_the_header() {
    let tp = TransactionProcessor::new().unwrap();
    assert_eq!(tp.report_lines(), vec!["client,available,held,total,locked".to_string()]);
}

#[test]
fn report_shows_locks_and_negative_balances() {
    let tp = run(
        "type,client,tx,amount\ndeposit,1,10,1.0\nwithdrawal,1,11,1.0\ndispute,1,10,\nchargeback,1,10,\n",
    );
    assert_eq!(tp.report_lines()[1], "-1,0,-1,true");
}
