use payments_engine::db::TxnDb;
use payments_engine::errors::MyError;
use payments_engine::model::{BalanceTransfer, ClientState, DisputeStatus};

fn init() -> TxnDb {
    TxnDb::new()
}

fn units(x: f64) -> i64 {
    (x * 10000.0).round() as i64
}

#[test]
fn test_create_client() {
    let mut db = init();
    let client = match db.create_client_state(123) {
        Ok(c) => c,
        Err(e) => panic!("{:?}", e),
    };

    let retrieved = match db.get_client_state(client.client_id) {
        Ok(c) => c,
        Err(e) => panic!("{:?}", e),
    };

    assert!(retrieved.is_some());
    let retrieved = retrieved.unwrap();
    assert_eq!(retrieved.client_id, client.client_id);
}

#[test]
fn test_update_client() {
    let mut db = init();
    let mut client = match db.create_client_state(123) {
        Ok(c) => c,
        Err(e) => panic!("{:?}", e),
    };
    assert_eq!(client.available, units(0.0));

    client.available = units(1.0);
    if let Err(e) = db.update_client_state(&client) {
        panic!("{:?}", e);
    };

    let retrieved = match db.get_client_state(client.client_id) {
        Ok(c) => c,
        Err(e) => panic!("{:?}", e),
    };

    assert!(retrieved.is_some());
    let retrieved = retrieved.unwrap();
    assert_eq!(retrieved.available, units(1.0));
}

#[test]
fn test_get_client_negative() {
    let db = init();
    let retrieved = match db.get_client_state(123) {
        Ok(c) => c,
        Err(e) => panic!("{:?}", e),
    };
    assert!(retrieved.is_none());
}

#[test]
fn test_balance_transfer_without_client() {
    let mut db = init();
    let xfer = BalanceTransfer {
        client_id: 123,
        txn_id: 1,
        amount: units(1.0),
    };

    let res = db.try_insert_balance_transfer(xfer).unwrap();
    assert!(!res);
}

#[test]
fn test_duplicate_balance_transfer() {
    let mut db = init();
    let _ = db.create_client_state(123);
    let xfer = BalanceTransfer {
        client_id: 123,
        txn_id: 1,
        amount: units(1.0),
    };

    let mut res = db.try_insert_balance_transfer(xfer).unwrap();
    assert!(res);

    res = db.try_insert_balance_transfer(xfer).unwrap();
    assert!(!res);
}

#[test]
fn test_get_balance_transfer() {
    let mut db = init();
    let _ = db.create_client_state(123);
    let xfer = BalanceTransfer {
        client_id: 123,
        txn_id: 1,
        amount: units(1.0),
    };

    let res = db.try_insert_balance_transfer(xfer).unwrap();
    assert!(res);

    let res = db.get_balance_transfer(xfer.client_id, xfer.txn_id).unwrap();
    assert!(res.is_some());
    let res = res.unwrap();
    assert_eq!(res.amount, units(1.0));
}

#[test]
fn test_dispute() {
    let mut db = init();
    let _ = db.create_client_state(123);
    let xfer = BalanceTransfer {
        client_id: 123,
        txn_id: 1,
        amount: units(1.0),
    };

    let mut res = db.try_insert_balance_transfer(xfer).unwrap();
    assert!(res);

    res = db.try_insert_dispute(xfer.client_id, xfer.txn_id).unwrap();
    assert!(res);

    res = db.try_insert_dispute(xfer.client_id, xfer.txn_id).unwrap();
    assert!(!res);
}

#[test]
fn test_dispute_without_client() {
    let mut db = init();
    let xfer = BalanceTransfer {
        client_id: 123,
        txn_id: 1,
        amount: units(1.0),
    };

    let res = db.try_insert_dispute(xfer.client_id, xfer.txn_id).unwrap();
    assert!(!res);
}

#[test]
fn test_chargeback_dispute() {
    let mut db = init();
    let _ = db.create_client_state(123);
    let xfer = BalanceTransfer {
        client_id: 123,
        txn_id: 1,
        amount: units(1.0),
    };

    let mut res = db.try_insert_balance_transfer(xfer).unwrap();
    assert!(res);

    res = db.try_insert_dispute(xfer.client_id, xfer.txn_id).unwrap();
    assert!(res);

    res = db.try_chargeback_dispute(xfer.client_id, xfer.txn_id).unwrap();
    assert!(res);

    res = db.try_resolve_dispute(xfer.client_id, xfer.txn_id).unwrap();
    assert!(!res);

    res = db.try_insert_dispute(xfer.client_id, xfer.txn_id).unwrap();
    assert!(!res);
}

#[test]
fn test_resolve_dispute() {
    let mut db = init();
    let _ = db.create_client_state(123);
    let xfer = BalanceTransfer {
        client_id: 123,
        txn_id: 1,
        amount: units(1.0),
    };

    let mut res = db.try_insert_balance_transfer(xfer).unwrap();
    assert!(res);

    res = db.try_insert_dispute(xfer.client_id, xfer.txn_id).unwrap();
    assert!(res);

    res = db.try_resolve_dispute(xfer.client_id, xfer.txn_id).unwrap();
    assert!(res);

    // duplicate dispute
    res = db.try_insert_dispute(xfer.client_id, xfer.txn_id).unwrap();
    assert!(!res);

    res = db.try_chargeback_dispute(xfer.client_id, xfer.txn_id).unwrap();
    assert!(!res);
}

#[test]
fn create_existing_client_is_a_db_error() {
    let mut db = init();
    assert!(db.create_client_state(7).is_ok());
    assert!(matches!(db.create_client_state(7), Err(MyError::Db)));
}

#[test]
fn new_client_starts_empty_and_unlocked() {
    let mut db = init();
    let c = db.create_client_state(9).unwrap();
    assert_eq!(c, ClientState::init(9));
    assert_eq!(c.total, 0);
    assert!(!c.is_locked());
}

#[test]
fn update_of_unknown_client_creates_nothing() {
    let mut db = init();
    let c = ClientState::init(5);
    assert!(db.update_client_state(&c).is_ok());
    assert!(db.get_client_state(5).unwrap().is_none());
}

#[test]
fn dispute_of_other_clients_transfer_is_refused() {
    let mut db = init();
    let _ = db.create_client_state(1);
    let _ = db.create_client_state(2);
    let xfer = BalanceTransfer { client_id: 1, txn_id: 4, amount: units(2.0) };
    assert!(db.try_insert_balance_transfer(xfer).unwrap());
    assert!(!db.try_insert_dispute(2, 4).unwrap());
    assert!(db.get_balance_transfer(2, 4).unwrap().is_none());
}

#[test]
fn transition_needs_the_from_status() {
    let mut db = init();
    let _ = db.create_client_state(1);
    let xfer = BalanceTransfer { client_id: 1, txn_id: 4, amount: units(2.0) };
    assert!(db.try_insert_balance_transfer(xfer).unwrap());
    assert!(!db.try_transition_dispute(1, 4, DisputeStatus::Open, DisputeStatus::Resolved).unwrap());
    assert!(db.try_insert_dispute(1, 4).unwrap());
    assert!(!db.try_transition_dispute(1, 4, DisputeStatus::Resolved, DisputeStatus::Chargeback).unwrap());
    assert!(db.try_transition_dispute(1, 4, DisputeStatus::Open, DisputeStatus::Resolved).unwrap());
}

#[test]
fn clients_come_in_creation_order() {
    let mut db = init();
    let _ = db.create_client_state(3);
    let _ = db.create_client_state(1);
    let _ = db.create_client_state(2);
    let ids: Vec<u16> = db.all_clients().iter().map(|c| c.client_id).collect();
    assert_eq!(ids, vec![3, 1, 2]);
    let seen = std::cell::RefCell::new(Vec::new());
    db.process_all_clients(|c| seen.borrow_mut().push(c.client_id)).unwrap();
    assert_eq!(seen.into_inner(), vec![3, 1, 2]);
}
