use parser::input::InputBuffer;
use parser::report::Report;
use parser::transaction::{Transaction, TransactionStatus, TransactionType};
use vstd::hash_map::StringHashMap;

fn input(s: &str) -> InputBuffer {
    InputBuffer::from_string(s.to_string())
}

#[test]
fn parse_u64_with_warning_falls_back() {
    assert_eq!(Report::parse_u64_with_warning("42", 0), 42);
    assert_eq!(Report::parse_u64_with_warning("4x", 7), 7);
    assert_eq!(Report::parse_u64_with_warning("", 3), 3);
}

#[test]
fn lenient_names() {
    assert_eq!(Report::parse_transaction_type("WITHDRAWAL"), Ok(TransactionType::Withdrawal));
    assert_eq!(Report::parse_transaction_type("UNKNOWN"), Ok(TransactionType::Unknown));
    assert_eq!(Report::parse_transaction_type("deposit"), Ok(TransactionType::Unknown));
    assert_eq!(Report::parse_transaction_status("PENDING"), Ok(TransactionStatus::Pending));
    assert_eq!(Report::parse_transaction_status("?"), Ok(TransactionStatus::Unknown));
}

#[test]
fn csv_file_reader_is_lenient() {
    let text = "header\n1,GIFT,x,3,4,5,WEIRD,desc\n";
    let r = Report::new_from_csv_file(&mut input(text)).unwrap();
    let t = &r.get_transactions()[0];
    assert_eq!(t.tx_type, TransactionType::Unknown);
    assert_eq!(t.from_user_id, 0);
    assert_eq!(t.status, TransactionStatus::Unknown);
    assert_eq!(t.description, "desc");
    assert_eq!(
        Report::new_from_csv_file(&mut input("h\n\n")).unwrap_err(),
        parser::error::ParserError::CsvWrongTransactionFormat("".to_string())
    );
    assert_eq!(Report::new_from_csv_file(&mut InputBuffer::new(b"\xFF\n".to_vec())).unwrap().len(), 0);
}

#[test]
fn csv_file_writer_writes_no_header() {
    let mut r = Report::new();
    r.add_transaction(Transaction::new(1, TransactionType::Deposit, 2, 3, 4, 5, TransactionStatus::Success, "d".to_string()));
    let mut out = Vec::new();
    r.write_to_csv_file(&mut out).unwrap();
    assert_eq!(String::from_utf8(out).unwrap(), "1,DEPOSIT,2,3,4,5,SUCCESS,d\n");
}

#[test]
fn text_file_reader_keeps_complete_records() {
    let text = "# c\nTX_ID: 1\nTX_TYPE: DEPOSIT\nFROM_USER_ID: 2\nTO_USER_ID: 3\nAMOUNT: 4\nTIMESTAMP: 5\nSTATUS: SUCCESS\nDESCRIPTION: d\n\nTX_ID: 9\n\nTX_ID: 7\n";
    let r = Report::new_from_text_file(&mut input(text)).unwrap();
    assert_eq!(r.len(), 1);
    assert_eq!(r.get_transactions()[0].tx_id, 1);
}

#[test]
fn text_file_write_then_read() {
    let mut r = Report::new();
    r.add_transaction(Transaction::new(1, TransactionType::Transfer, 2, 3, 4, 5, TransactionStatus::Failure, "dd".to_string()));
    let mut out = Vec::new();
    r.write_to_text_file(&mut out).unwrap();
    let back = Report::new_from_text_file(&mut InputBuffer::new(out)).unwrap();
    assert_eq!(r.compare_full(&back), Ok(()));
}

#[test]
fn bin_file_write_then_read() {
    let mut r = Report::new();
    r.add_transaction(Transaction::new(1, TransactionType::Transfer, 2, 3, 4, 5, TransactionStatus::Failure, "dd".to_string()));
    let mut out = Vec::new();
    r.write_to_bin_file(&mut out).unwrap();
    let back = Report::new_from_bin_file(&mut InputBuffer::new(out)).unwrap();
    assert_eq!(r.compare_full(&back), Ok(()));
}

#[test]
fn field_map_checks() {
    let mut m: StringHashMap<String> = StringHashMap::new();
    for (k, v) in [
        ("TX_ID", "1"),
        ("TX_TYPE", "DEPOSIT"),
        ("FROM_USER_ID", "2"),
        ("TO_USER_ID", "3"),
        ("AMOUNT", "4"),
        ("TIMESTAMP", "5"),
        ("STATUS", "SUCCESS"),
    ] {
        m.insert(k.to_string(), v.to_string());
    }
    assert!(!Report::tx_has_all_fields(&m));
    assert_eq!(
        Report::tx_from_tx_hashmap(&m).unwrap_err(),
        "Отсутствует поле DESCRIPTION в записи".to_string()
    );
    m.insert("DESCRIPTION".to_string(), "d".to_string());
    assert!(Report::tx_has_all_fields(&m));
    assert_eq!(Report::tx_from_tx_hashmap(&m).unwrap().amount, 4);
    m.insert("AMOUNT".to_string(), "x".to_string());
    assert_eq!(
        Report::tx_from_tx_hashmap(&m).unwrap_err(),
        "Не распарсился AMOUNT: invalid digit found in string".to_string()
    );
}

fn full_map(pairs: &[(&str, &str)]) -> StringHashMap<String> {
    let mut m: StringHashMap<String> = StringHashMap::new();
    for (k, v) in pairs {
        m.insert(k.to_string(), v.to_string());
    }
    m
}

#[test]
fn unparsed_field_names_the_parse_error() {
    let m = full_map(&[
        ("TX_ID", "7"),
        ("TX_TYPE", "deposit"),
        ("FROM_USER_ID", "1"),
        ("TO_USER_ID", "2"),
        ("AMOUNT", "-5"),
        ("TIMESTAMP", "9"),
        ("STATUS", "DONE"),
        ("DESCRIPTION", "x"),
    ]);
    assert_eq!(
        Report::tx_from_tx_hashmap(&m),
        Err("Не распарсился AMOUNT: invalid digit found in string".to_string())
    );
}

#[test]
fn parse_error_text_agrees_with_std() {
    let values = [
        "", "x", "-5", "+", "-", "++5", " 5", "5 ", "12a", "18446744073709551616",
        "99999999999999999999x", "1844674407370955161x", "+18446744073709551616", "0x10",
    ];
    for v in values {
        let m = full_map(&[
            ("TX_ID", v),
            ("TX_TYPE", "DEPOSIT"),
            ("FROM_USER_ID", "1"),
            ("TO_USER_ID", "2"),
            ("AMOUNT", "3"),
            ("TIMESTAMP", "4"),
            ("STATUS", "SUCCESS"),
            ("DESCRIPTION", "d"),
        ]);
        let e = v.parse::<u64>().unwrap_err();
        assert_eq!(
            Report::tx_from_tx_hashmap(&m),
            Err(format!("Не распарсился TX_ID: {}", e)),
            "value {:?}",
            v
        );
    }
}

#[test]
fn parse_u64_noting_default_says_when_default_taken() {
    assert_eq!(Report::parse_u64_noting_default("42", 0), (42, false));
    assert_eq!(Report::parse_u64_noting_default("+5", 0), (5, false));
    assert_eq!(Report::parse_u64_noting_default(" 5", 9), (9, true));
    assert_eq!(Report::parse_u64_noting_default("-1", 3), (3, true));
}

#[test]
fn text_file_round_trip_keeps_leading_space_and_order() {
    let mut r = Report::new();
    r.add_transaction(Transaction::new(1, TransactionType::Deposit, 2, 3, 4, 5, TransactionStatus::Success, " spaced:out".to_string()));
    r.add_transaction(Transaction::new(u64::MAX, TransactionType::Unknown, 0, 0, 0, 0, TransactionStatus::Unknown, "second".to_string()));
    let mut out = Vec::new();
    r.write_to_text_file(&mut out).unwrap();
    let back = Report::new_from_text_file(&mut InputBuffer::new(out)).unwrap();
    assert_eq!(back.len(), 2);
    assert_eq!(back.get_transactions()[0].description, " spaced:out");
    assert_eq!(r.compare_full(&back), Ok(()));
}

#[test]
fn text_file_drops_description_with_colon_space() {
    let mut r = Report::new();
    r.add_transaction(Transaction::new(1, TransactionType::Deposit, 2, 3, 4, 5, TransactionStatus::Success, "a: b".to_string()));
    let mut out = Vec::new();
    r.write_to_text_file(&mut out).unwrap();
    let back = Report::new_from_text_file(&mut InputBuffer::new(out)).unwrap();
    assert_eq!(back.len(), 0);
}

#[test]
fn added_transactions_come_back_in_order() {
    let mut r = Report::new();
    for i in 0..5u64 {
        r.add_transaction(Transaction::new(i, TransactionType::Deposit, 1, 2, 3, 4, TransactionStatus::Pending, format!("t{}", i)));
    }
    let ids: Vec<u64> = r.get_transactions().iter().map(|t| t.tx_id).collect();
    assert_eq!(ids, vec![0, 1, 2, 3, 4]);
}
