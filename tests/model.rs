use payments_engine::errors::MyError;
use payments_engine::input::{
    columns_from_header, parse_amount, parse_csv, parse_record, parse_rows, parse_unsigned,
};
use payments_engine::model::{format_amount, DisputeStatus, LockedState, RawTxnInput, TxnType};

#[test]
fn parse_csv_test1() {
    let csv = "type,      client,      tx, amount
              deposit,     1,    1,     1.0
              deposit,   2,    2,  2.0";

    let txns = parse_csv(csv);
    println!("{:?}", txns);
    assert_eq!(txns.len(), 2);
}

#[test]
fn parse_csv_test2() {
    let csv = "type,client,tx,amount
              deposit,1,1,1.0
              deposit,2,2,2.0";

    let txns = parse_csv(csv);
    println!("{:?}", txns);
    assert_eq!(txns.len(), 2);
}

#[test]
fn parse_csv_trims_and_reads_every_field() {
    let csv = "type, client, tx, amount\n  withdrawal ,  7 , 42 ,  2.5  \n";
    let txns = parse_csv(csv);
    assert_eq!(
        txns,
        vec![RawTxnInput {
            txn_type: TxnType::Withdrawal,
            client_id: 7,
            txn_id: 42,
            amount: Some(25000),
        }]
    );
}

#[test]
fn parse_csv_follows_the_header_order() {
    let csv = "amount,tx,type,client\n,9,dispute,3\n1.25,10,deposit,4\n";
    let txns = parse_csv(csv);
    assert_eq!(
        txns,
        vec![
            RawTxnInput { txn_type: TxnType::Dispute, client_id: 3, txn_id: 9, amount: None },
            RawTxnInput {
                txn_type: TxnType::Deposit,
                client_id: 4,
                txn_id: 10,
                amount: Some(12500),
            },
        ]
    );
}

#[test]
fn parse_csv_drops_malformed_rows() {
    let csv = "type,client,tx,amount\nabc\ndeposit,70000,1,1.0\ndeposit,1,-2,1.0\ndeposit,1,3,x\nDeposit,1,4,1.0\ndeposit,1,5,1.0\n";
    let txns = parse_csv(csv);
    assert_eq!(txns.len(), 1);
    assert_eq!(txns[0].txn_id, 5);
}

#[test]
fn parse_csv_without_full_header_reads_nothing() {
    assert!(parse_csv("type,client,amount\ndeposit,1,1.0\n").is_empty());
    assert!(parse_csv("").is_empty());
}

#[test]
fn parse_rows_skips_refused_rows() {
    let header: Vec<String> = vec!["type".into(), "client".into(), "tx".into(), "amount".into()];
    let row: Vec<String> = vec!["resolve".into(), "2".into(), "8".into(), "".into()];
    let rows = vec![Some(header.clone()), None, Some(row.clone())];
    let txns = parse_rows(&rows);
    assert_eq!(txns.len(), 1);
    assert_eq!(txns[0].txn_type, TxnType::Resolve);
    let cols = columns_from_header(&header).unwrap();
    assert_eq!(parse_record(&cols, &row), Some(txns[0]));
    let short: Vec<String> = vec!["resolve".into(), "2".into()];
    assert_eq!(parse_record(&cols, &short), None);
}

#[test]
fn amounts_are_fixed_point() {
    assert_eq!(parse_amount("1.5"), Some(15000));
    assert_eq!(parse_amount("100"), Some(1000000));
    assert_eq!(parse_amount("3.0000"), Some(30000));
    assert_eq!(parse_amount(".5"), Some(5000));
    assert_eq!(parse_amount("5."), Some(50000));
    assert_eq!(parse_amount("+2"), Some(20000));
    assert_eq!(parse_amount("-1.0"), Some(-10000));
    assert_eq!(parse_amount("0.0001"), Some(1));
    assert_eq!(parse_amount("900000000000000.9999"), Some(9000000000000009999));
    assert_eq!(parse_amount("900000000000001"), None);
    assert_eq!(parse_amount("1.23456"), None);
    assert_eq!(parse_amount("."), None);
    assert_eq!(parse_amount(""), None);
    assert_eq!(parse_amount("1e3"), None);
    assert_eq!(parse_amount("1.2.3"), None);
    assert_eq!(parse_amount("abc"), None);
}

#[test]
fn unsigned_ids_respect_their_bound() {
    assert_eq!(parse_unsigned("65535", 0xffff), Some(65535));
    assert_eq!(parse_unsigned("65536", 0xffff), None);
    assert_eq!(parse_unsigned("+12", 0xffff), Some(12));
    assert_eq!(parse_unsigned("007", 0xffff), Some(7));
    assert_eq!(parse_unsigned("", 0xffff), None);
    assert_eq!(parse_unsigned("+", 0xffff), None);
    assert_eq!(parse_unsigned("-1", 0xffff), None);
    assert_eq!(parse_unsigned("4294967295", 0xffff_ffff), Some(4294967295));
}

#[test]
fn txn_type_names_are_exact() {
    assert_eq!(TxnType::parse("deposit").unwrap(), TxnType::Deposit);
    assert_eq!(TxnType::parse("withdrawal").unwrap(), TxnType::Withdrawal);
    assert_eq!(TxnType::parse("dispute").unwrap(), TxnType::Dispute);
    assert_eq!(TxnType::parse("resolve").unwrap(), TxnType::Resolve);
    assert_eq!(TxnType::parse("chargeback").unwrap(), TxnType::Chargeback);
    match TxnType::parse("Deposit") {
        Err(MyError::Conversion(s)) => assert_eq!(s, "Deposit"),
        other => panic!("unexpected {:?}", other),
    }
}

#[test]
fn codes_round_trip() {
    for v in 0u8..6 {
        let t = TxnType::from(v);
        assert_eq!(t.to_u8(), v);
    }
    assert_eq!(TxnType::from(9), TxnType::Invalid);
    for v in 0u8..4 {
        assert_eq!(DisputeStatus::from(v).to_u8(), v);
    }
    assert_eq!(DisputeStatus::from(7), DisputeStatus::Invalid);
    for v in 0u8..3 {
        assert_eq!(LockedState::from(v).to_u8(), v);
    }
    assert_eq!(LockedState::from(1), LockedState::Locked);
    assert_eq!(LockedState::from(2), LockedState::Unlocked);
    assert_eq!(LockedState::from(200), LockedState::Invalid);
    assert_eq!(LockedState::Locked.as_text(), "true");
    assert_eq!(LockedState::Unlocked.as_text(), "false");
}

#[test]
fn print_client_state() {
    let state = payments_engine::model::ClientState {
        client_id: 1,
        available: units(2.0),
        held: units(1.7),
        total: units(3.7),
        locked: LockedState::Unlocked,
    };

    let s = state.display_text();
    assert_eq!("2,1.7,3.7,false", s.as_str());
}

#[test]
fn amounts_print_without_trailing_zeros() {
    assert_eq!(format_amount(0), "0");
    assert_eq!(format_amount(10000), "1");
    assert_eq!(format_amount(12500), "1.25");
    assert_eq!(format_amount(-5000), "-0.5");
    assert_eq!(format_amount(1), "0.0001");
    assert_eq!(format_amount(1230), "0.123");
    assert_eq!(format_amount(-10000), "-1");
    assert_eq!(format_amount(i64::MIN), "-922337203685477.5808");
    assert_eq!(format_amount(i64::MAX), "922337203685477.5807");
}

fn units(x: f64) -> i64 {
    (x * 10000.0).round() as i64
}

#[test]
fn txn_type_from_str() {
    assert_eq!("chargeback".parse::<TxnType>().unwrap(), TxnType::Chargeback);
    assert!(" deposit".parse::<TxnType>().is_err());
}
