// The sequential and sharded processors, the record parsing, and the
// snapshot formatting, end to end on concrete streams.

use toy_processor::amount::{format_amount, parse_amount, parse_uint};
use toy_processor::client::Client;
use toy_processor::error::{p_error, ProcessorError};
use toy_processor::processor::{header_record, Processor};
use toy_processor::processor_async::{route_index, ProcessorAsync, TASKS_COUNT};
use toy_processor::transaction::{parse_record, parse_tx_type, Transaction, TxType};

fn tx(tx_type: TxType, client: u16, tx: u32, amount: u64) -> Transaction {
    Transaction {
        tx_type,
        client,
        tx,
        amount,
    }
}

#[test]
fn empty_stream_empty_snapshot() {
    let mut p = Processor::new();
    let errors = p.process_transactions(&Vec::new());
    assert!(errors.is_empty());
    assert!(p.snapshot_records().is_empty());
}

#[test]
fn scenario_single_deposit() {
    let mut p = Processor::new();
    p.process_transaction(tx(TxType::Deposit, 1, 1, 20000)).unwrap();
    let rows = p.snapshot_records();
    assert_eq!(rows.len(), 1);
    assert_eq!(rows[0], vec!["1", "2.0000", "0.0000", "2.0000", "false"]);
}

#[test]
fn scenario_deposit_then_withdrawal() {
    let mut p = Processor::new();
    p.process_transaction(tx(TxType::Deposit, 1, 1, 50000)).unwrap();
    p.process_transaction(tx(TxType::Withdrawal, 1, 2, 30000)).unwrap();
    let rows = p.snapshot_records();
    assert_eq!(rows[0], vec!["1", "2.0000", "0.0000", "2.0000", "false"]);
}

#[test]
fn scenario_dispute_holds_deposit() {
    let mut p = Processor::new();
    p.process_transaction(tx(TxType::Deposit, 1, 1, 50000)).unwrap();
    p.process_transaction(tx(TxType::Dispute, 1, 1, 0)).unwrap();
    let rows = p.snapshot_records();
    assert_eq!(rows[0], vec!["1", "0.0000", "5.0000", "5.0000", "false"]);
}

#[test]
fn scenario_chargeback_locks() {
    let mut p = Processor::new();
    p.process_transaction(tx(TxType::Deposit, 1, 1, 50000)).unwrap();
    p.process_transaction(tx(TxType::Dispute, 1, 1, 0)).unwrap();
    p.process_transaction(tx(TxType::Chargeback, 1, 1, 0)).unwrap();
    let rows = p.snapshot_records();
    assert_eq!(rows[0], vec!["1", "0.0000", "0.0000", "0.0000", "true"]);
}

#[test]
fn scenario_overdraft_rejected() {
    let mut p = Processor::new();
    p.process_transaction(tx(TxType::Deposit, 1, 1, 10000)).unwrap();
    let r = p.process_transaction(tx(TxType::Withdrawal, 1, 2, 30000));
    assert_eq!(r, Err(ProcessorError::InsufficientFunds { tx: 2 }));
    let rows = p.snapshot_records();
    assert_eq!(rows[0], vec!["1", "1.0000", "0.0000", "1.0000", "false"]);
}

#[test]
fn locked_account_still_accepts_deposits() {
    let mut p = Processor::new();
    p.process_transaction(tx(TxType::Deposit, 1, 1, 50000)).unwrap();
    p.process_transaction(tx(TxType::Dispute, 1, 1, 0)).unwrap();
    p.process_transaction(tx(TxType::Chargeback, 1, 1, 0)).unwrap();
    // locked now: withdrawals rejected, deposits accepted
    let r = p.process_transaction(tx(TxType::Withdrawal, 1, 2, 10000));
    assert_eq!(r, Err(ProcessorError::AccountLocked));
    p.process_transaction(tx(TxType::Deposit, 1, 3, 20000)).unwrap();
    let rows = p.snapshot_records();
    assert_eq!(rows[0], vec!["1", "2.0000", "0.0000", "2.0000", "true"]);
}

#[test]
fn process_transactions_reports_errors_and_continues() {
    let mut p = Processor::new();
    let stream = vec![
        tx(TxType::Deposit, 1, 1, 15000),
        tx(TxType::Deposit, 1, 1, 15000),  // duplicate id: rejected
        tx(TxType::Deposit, 2, 2, 20000),
        tx(TxType::Withdrawal, 2, 3, 90000),  // overdraft: rejected
        tx(TxType::Deposit, 1, 4, 0),  // zero amount: rejected
    ];
    let errors = p.process_transactions(&stream);
    assert_eq!(
        errors,
        vec![
            ProcessorError::DuplicateTransaction { tx: 1 },
            ProcessorError::InsufficientFunds { tx: 3 },
            ProcessorError::InvalidAmount { tx: 4 },
        ]
    );
    let rows = p.snapshot_records();
    assert_eq!(rows.len(), 2);
    assert_eq!(rows[0], vec!["1", "1.5000", "0.0000", "1.5000", "false"]);
    assert_eq!(rows[1], vec!["2", "2.0000", "0.0000", "2.0000", "false"]);
}

#[test]
fn kind_mismatch_is_rejected() {
    let mut client = Client::new(1);
    let r = client.consume_deposit(tx(TxType::Withdrawal, 1, 1, 10000));
    assert_eq!(
        r,
        Err(ProcessorError::KindMismatch {
            expected: TxType::Deposit
        })
    );
    assert_eq!(
        "PROCESSOR ERROR: Deposit consumer accepts only DEPOSIT type transactions.",
        r.unwrap_err().message()
    );
}

#[test]
fn dispute_of_unknown_transaction_is_rejected() {
    let mut client = Client::new(7);
    let r = client.consume_dispute(tx(TxType::Dispute, 7, 42, 0));
    assert_eq!(
        r,
        Err(ProcessorError::UnknownTransaction { tx: 42, client: 7 })
    );
    assert_eq!(
        "PROCESSOR ERROR: Transaction 42 isn't registered for client 7.",
        r.unwrap_err().message()
    );
}

#[test]
fn p_error_wraps_rejections() {
    let e = ProcessorError::NotDisputed { tx: 9 };
    assert_eq!(p_error(e), Err(e));
}

#[test]
fn sharded_matches_sequential() {
    let stream = vec![
        tx(TxType::Deposit, 1, 1, 20000),
        tx(TxType::Deposit, 2, 1, 20000),  // same tx id, other account
        tx(TxType::Deposit, 3, 2, 70000),
        tx(TxType::Withdrawal, 2, 2, 5000),
        tx(TxType::Dispute, 1, 1, 0),
        tx(TxType::Deposit, 4, 3, 12345),
        tx(TxType::Chargeback, 1, 1, 0),
        tx(TxType::Withdrawal, 3, 3, 10000),
        tx(TxType::Deposit, 14, 4, 30000),  // routes like account 4 with 10 workers
        tx(TxType::Resolve, 3, 2, 0),  // not disputed: rejected either way
    ];
    let mut seq = Processor::new();
    let mut sharded = ProcessorAsync::new(TASKS_COUNT);
    for t in &stream {
        let a = seq.process_transaction(*t);
        let b = sharded.process_transaction(*t);
        assert_eq!(a, b);
    }
    let mut seq_rows = seq.snapshot_records();
    let mut sharded_rows = sharded.snapshot_records();
    seq_rows.sort();
    sharded_rows.sort();
    assert_eq!(seq_rows, sharded_rows);
}

#[test]
fn sharded_reports_same_errors_as_sequential() {
    let stream = vec![
        tx(TxType::Deposit, 5, 1, 10000),
        tx(TxType::Withdrawal, 5, 2, 90000), // overdraft
        tx(TxType::Dispute, 6, 9, 0),        // unknown id
        tx(TxType::Deposit, 5, 1, 10000),    // duplicate id
        tx(TxType::Deposit, 6, 1, 30000),
    ];
    let mut seq = Processor::new();
    let mut sharded = ProcessorAsync::new(3);
    let seq_errors = seq.process_transactions(&stream);
    let sharded_errors = sharded.process_transactions(&stream);
    assert_eq!(seq_errors, sharded_errors);
    assert_eq!(
        seq_errors,
        vec![
            ProcessorError::InsufficientFunds { tx: 2 },
            ProcessorError::UnknownTransaction { tx: 9, client: 6 },
            ProcessorError::DuplicateTransaction { tx: 1 },
        ]
    );
}

#[test]
fn route_keeps_an_account_on_one_worker() {
    assert_eq!(route_index(14, 10), 4);
    assert_eq!(route_index(10, 10), 0);
    assert_eq!(route_index(3, 1), 0);
    for n in 1..8usize {
        for c in 0..100u16 {
            assert!(route_index(c, n) < n);
            assert_eq!(route_index(c, n), route_index(c, n));
        }
    }
}

#[test]
fn parse_amount_fixed_point() {
    assert_eq!(parse_amount(b"2.0"), Some(20000));
    assert_eq!(parse_amount(b"1.5"), Some(15000));
    assert_eq!(parse_amount(b"2"), Some(20000));
    assert_eq!(parse_amount(b"0"), Some(0));
    assert_eq!(parse_amount(b"0.0001"), Some(1));
    assert_eq!(parse_amount(b"10.0456"), Some(100456));
    assert_eq!(parse_amount(b"1."), Some(10000));
    assert_eq!(parse_amount(b"10000005.0"), Some(100000050000));
    assert_eq!(parse_amount(b""), None);
    assert_eq!(parse_amount(b"."), None);
    assert_eq!(parse_amount(b".5"), None);
    assert_eq!(parse_amount(b"-3"), None);
    assert_eq!(parse_amount(b"abc"), None);
    assert_eq!(parse_amount(b"1.23456"), None);
    assert_eq!(parse_amount(b"1.2.3"), None);
    assert_eq!(parse_amount(b"99999999999999999999999"), None);
}

#[test]
fn parse_uint_bounds() {
    assert_eq!(parse_uint(b"0"), Some(0));
    assert_eq!(parse_uint(b"65535"), Some(65535));
    assert_eq!(parse_uint(b"18446744073709551615"), Some(u64::MAX));
    assert_eq!(parse_uint(b"18446744073709551616"), None);
    assert_eq!(parse_uint(b""), None);
    assert_eq!(parse_uint(b"12a"), None);
}

#[test]
fn parse_tx_type_is_case_insensitive() {
    assert_eq!(parse_tx_type(b"deposit"), Some(TxType::Deposit));
    assert_eq!(parse_tx_type(b"DePoSiT"), Some(TxType::Deposit));
    assert_eq!(parse_tx_type(b"WITHDRAWAL"), Some(TxType::Withdrawal));
    assert_eq!(parse_tx_type(b"dispute"), Some(TxType::Dispute));
    assert_eq!(parse_tx_type(b"Resolve"), Some(TxType::Resolve));
    assert_eq!(parse_tx_type(b"chargeback"), Some(TxType::Chargeback));
    assert_eq!(parse_tx_type(b"transfer"), None);
    assert_eq!(parse_tx_type(b""), None);
}

#[test]
fn parse_record_shapes() {
    let ok4 = vec![
        b"deposit".to_vec(),
        b"1".to_vec(),
        b"7".to_vec(),
        b"2.5".to_vec(),
    ];
    assert_eq!(parse_record(&ok4), Ok(tx(TxType::Deposit, 1, 7, 25000)));

    let ok3 = vec![b"dispute".to_vec(), b"1".to_vec(), b"7".to_vec()];
    assert_eq!(parse_record(&ok3), Ok(tx(TxType::Dispute, 1, 7, 0)));

    let wrong_count = vec![b"deposit".to_vec(), b"1".to_vec()];
    assert_eq!(parse_record(&wrong_count), Err(ProcessorError::MalformedRecord));

    let bad_kind = vec![b"transfer".to_vec(), b"1".to_vec(), b"7".to_vec()];
    assert_eq!(parse_record(&bad_kind), Err(ProcessorError::MalformedRecord));

    let bad_client = vec![
        b"deposit".to_vec(),
        b"70000".to_vec(),  // above u16::MAX
        b"7".to_vec(),
        b"1.0".to_vec(),
    ];
    assert_eq!(parse_record(&bad_client), Err(ProcessorError::MalformedRecord));

    let bad_amount = vec![
        b"deposit".to_vec(),
        b"1".to_vec(),
        b"7".to_vec(),
        b"x".to_vec(),
    ];
    assert_eq!(parse_record(&bad_amount), Err(ProcessorError::MalformedRecord));
}

#[test]
fn format_amount_four_places() {
    assert_eq!(format_amount(0), "0.0000");
    assert_eq!(format_amount(15000), "1.5000");
    assert_eq!(format_amount(100456), "10.0456");
    assert_eq!(format_amount(1), "0.0001");
    assert_eq!(format_amount(-25000), "-2.5000");
    assert_eq!(format_amount(100000050000), "10000005.0000");
}

#[test]
fn header_row_matches_sink_format() {
    let h = header_record();
    assert_eq!(h, vec!["client", "available", "held", "total", "locked"]);
}
