use parser::bin_format::BinFormatIO;
use parser::comparator::{read_report, validate_format};
use parser::csv_format::CsvFormatIO;
use parser::error::ParserError;
use parser::input::InputBuffer;
use parser::report::Report;
use parser::text_format::TextFormatIO;
use parser::transaction::{Transaction, TransactionStatus, TransactionType};

fn tx(id: u64, kind: TransactionType, status: TransactionStatus, desc: &str) -> Transaction {
    Transaction::new(id, kind, 7, 9, 250, 1_700_000_000, status, desc.to_string())
}

fn sample_report() -> Report {
    let mut r = Report::new();
    r.add_transaction(tx(1, TransactionType::Deposit, TransactionStatus::Success, "Зарплата"));
    r.add_transaction(tx(u64::MAX, TransactionType::Withdrawal, TransactionStatus::Pending, ""));
    r.add_transaction(tx(3, TransactionType::Unknown, TransactionStatus::Unknown, "a: b"));
    r
}

fn input(s: &str) -> InputBuffer {
    InputBuffer::from_string(s.to_string())
}

#[test]
fn bin_record_layout_is_big_endian() {
    let t = Transaction::new(
        0x0102030405060708,
        TransactionType::Transfer,
        1,
        2,
        3,
        4,
        TransactionStatus::Failure,
        "ab".to_string(),
    );
    let mut out = Vec::new();
    t.write_as_bin_to_writer(&mut out).unwrap();
    assert_eq!(&out[0..4], b"YPBN");
    assert_eq!(&out[4..8], &[0, 0, 0, 48]);
    assert_eq!(&out[8..16], &[1, 2, 3, 4, 5, 6, 7, 8]);
    assert_eq!(out[16], 1);
    assert_eq!(out[49], 1);
    assert_eq!(&out[50..54], &[0, 0, 0, 2]);
    assert_eq!(&out[54..], b"ab");
    assert_eq!(out.len(), 56);
}

#[test]
fn bin_write_then_read_gives_same_report() {
    let r = sample_report();
    let mut out = Vec::new();
    r.write_as_bin_to_writer(&mut out).unwrap();
    let back = Report::new_from_bin_reader(&mut InputBuffer::new(out)).unwrap();
    assert_eq!(r.compare_full(&back), Ok(()));
    assert_eq!(back.get_transactions()[1].tx_id, u64::MAX);
}

#[test]
fn bin_empty_and_short_input_read_as_empty_report() {
    assert_eq!(Report::new_from_bin_reader(&mut InputBuffer::new(vec![])).unwrap().len(), 0);
    let r = Report::new_from_bin_reader(&mut InputBuffer::new(vec![0x59, 0x50, 0x42])).unwrap();
    assert_eq!(r.len(), 0);
    assert_eq!(
        Transaction::new_from_bin_reader(&mut InputBuffer::new(vec![])),
        Err(ParserError::EOFEncountered)
    );
}

#[test]
fn bin_errors() {
    let mut short_body = b"YPBN".to_vec();
    short_body.extend_from_slice(&[0, 0, 0, 10, 1, 2]);
    assert_eq!(
        Report::new_from_bin_reader(&mut InputBuffer::new(short_body)).unwrap_err(),
        ParserError::BinTxReadError
    );

    let mut small = b"YPBN".to_vec();
    small.extend_from_slice(&[0, 0, 0, 2, 1, 2]);
    assert_eq!(
        Report::new_from_bin_reader(&mut InputBuffer::new(small)).unwrap_err(),
        ParserError::BinReadLessThanBody
    );

    let t = tx(5, TransactionType::Deposit, TransactionStatus::Success, "xy");
    let mut good = Vec::new();
    t.write_as_bin_to_writer(&mut good).unwrap();
    let mut excessive = good.clone();
    excessive[53] = 9;
    assert_eq!(
        Report::new_from_bin_reader(&mut InputBuffer::new(excessive)).unwrap_err(),
        ParserError::BinReadDescLenIsExcessive
    );
    let mut bad_utf8 = good.clone();
    bad_utf8[54] = 0xFF;
    assert_eq!(
        Report::new_from_bin_reader(&mut InputBuffer::new(bad_utf8)).unwrap_err(),
        ParserError::BinReadNonUtf8Symbols
    );
}

#[test]
fn bin_unknown_codes_read_as_unknown() {
    let t = tx(5, TransactionType::Deposit, TransactionStatus::Success, "");
    let mut bytes = Vec::new();
    t.write_as_bin_to_writer(&mut bytes).unwrap();
    bytes[16] = 17;
    bytes[49] = 200;
    let back = Transaction::new_from_bin_reader(&mut InputBuffer::new(bytes)).unwrap();
    assert_eq!(back.tx_type, TransactionType::Unknown);
    assert_eq!(back.status, TransactionStatus::Unknown);
}

#[test]
fn csv_line_format() {
    let t = tx(12, TransactionType::Transfer, TransactionStatus::Failure, "note");
    assert_eq!(t.as_str(), "12,TRANSFER,7,9,250,1700000000,FAILURE,note");
    let mut out = Vec::new();
    Report::new().write_as_csv_to_writer(&mut out).unwrap();
    assert_eq!(
        String::from_utf8(out).unwrap(),
        "TX_ID,TX_TYPE,FROM_USER_ID,TO_USER_ID,AMOUNT,TIMESTAMP,STATUS,DESCRIPTION\n"
    );
}

#[test]
fn csv_write_then_read_gives_same_report() {
    let r = sample_report();
    let mut out = Vec::new();
    r.write_as_csv_to_writer(&mut out).unwrap();
    let back = Report::new_from_csv_reader(&mut InputBuffer::new(out)).unwrap();
    assert_eq!(r.compare_full(&back), Ok(()));
}

#[test]
fn csv_reader_skips_blank_lines_and_trims() {
    let text = "header\n\n  1,DEPOSIT,2,3,4,5,SUCCESS,x  \r\n\n";
    let r = Report::new_from_csv_reader(&mut input(text)).unwrap();
    assert_eq!(r.len(), 1);
    assert_eq!(r.get_transactions()[0].description, "x");
    assert_eq!(Report::new_from_csv_reader(&mut input("")).unwrap().len(), 0);
}

#[test]
fn csv_errors() {
    assert_eq!(
        Report::new_from_csv_reader(&mut input("h\n1,DEPOSIT,2\n")).unwrap_err(),
        ParserError::CsvWrongTransactionFormat("1,DEPOSIT,2".to_string())
    );
    assert_eq!(
        Report::new_from_csv_reader(&mut input("h\nx,DEPOSIT,2,3,4,5,SUCCESS,d\n")).unwrap_err(),
        ParserError::CsvWrongFieldValue("x".to_string())
    );
    assert_eq!(
        Report::new_from_csv_reader(&mut input("h\n1,DEPOSIT,2,3,-4,5,SUCCESS,d\n")).unwrap_err(),
        ParserError::CsvWrongFieldValue("-4".to_string())
    );
    assert_eq!(
        Report::new_from_csv_reader(&mut input("h\n1,DEPOSIT,2,3,4,5,DONE,d\n")).unwrap_err(),
        ParserError::CsvUnknownTxStatus("DONE".to_string())
    );
    assert_eq!(
        Report::new_from_csv_reader(&mut InputBuffer::new(b"h\n\xFF\n".to_vec())).unwrap_err(),
        ParserError::CsvLineReadError
    );
    assert_eq!(
        Report::new_from_csv_reader(&mut InputBuffer::new(b"\xFF\n".to_vec())).unwrap_err(),
        ParserError::CsvLineReadError
    );
    assert_eq!(
        Transaction::new_from_csv_reader(&mut input("\n\n")),
        Err(ParserError::EOFEncountered)
    );
}

#[test]
fn csv_numbers_follow_u64_from_str() {
    let r = Report::new_from_csv_reader(&mut input(
        "h\n+18446744073709551615,UNKNOWN,0,0,0,0,UNKNOWN,\n",
    ))
    .unwrap();
    assert_eq!(r.get_transactions()[0].tx_id, u64::MAX);
    assert_eq!(r.get_transactions()[0].description, "");
    assert_eq!(
        Report::new_from_csv_reader(&mut input("h\n18446744073709551616,DEPOSIT,0,0,0,0,SUCCESS,\n"))
            .unwrap_err(),
        ParserError::CsvWrongFieldValue("18446744073709551616".to_string())
    );
    assert_eq!(
        Report::new_from_csv_reader(&mut input("h\n+,DEPOSIT,0,0,0,0,SUCCESS,\n")).unwrap_err(),
        ParserError::CsvWrongFieldValue("+".to_string())
    );
}

#[test]
fn text_write_then_read_gives_same_report() {
    let mut r = sample_report();
    let mut out = Vec::new();
    r.write_as_text_to_writer(&mut out).unwrap();
    let back = Report::new_from_text_reader(&mut InputBuffer::new(out)).unwrap();
    assert_eq!(r.compare_full(&back), Ok(()));
}

#[test]
fn text_record_format() {
    let mut t = tx(4, TransactionType::Deposit, TransactionStatus::Pending, "d");
    let mut out = Vec::new();
    t.write_as_text_to_writer(&mut out).unwrap();
    assert_eq!(
        String::from_utf8(out).unwrap(),
        "# Запись о транзакции\nTX_ID: 4\nTX_TYPE: DEPOSIT\nFROM_USER_ID: 7\nTO_USER_ID: 9\nAMOUNT: 250\nTIMESTAMP: 1700000000\nSTATUS: PENDING\nDESCRIPTION: d\n\n"
    );
}

#[test]
fn text_errors() {
    let full = "TX_ID: 1\nTX_TYPE: DEPOSIT\nFROM_USER_ID: 2\nTO_USER_ID: 3\nAMOUNT: 4\nTIMESTAMP: 5\nSTATUS: SUCCESS\nDESCRIPTION: d\n";
    let r = Report::new_from_text_reader(&mut input(full)).unwrap();
    assert_eq!(r.len(), 1);
    assert_eq!(
        Report::new_from_text_reader(&mut input("TX_ID: 1\n\n")).unwrap_err(),
        ParserError::TextMissingField("TX_TYPE".to_string())
    );
    assert_eq!(
        Report::new_from_text_reader(&mut input("no colon here\n")).unwrap_err(),
        ParserError::TextWrongFieldFormat("no colon here".to_string())
    );
    assert_eq!(
        Report::new_from_text_reader(&mut input("TX_ID: 1\nTX_ID: 2\n")).unwrap_err(),
        ParserError::TextDuplicateField("TX_ID".to_string())
    );
    let bad_number = full.replace("AMOUNT: 4", "AMOUNT: four");
    assert_eq!(
        Report::new_from_text_reader(&mut input(&bad_number)).unwrap_err(),
        ParserError::TextWrongFieldValue("four".to_string())
    );
    let bad_kind = full.replace("TX_TYPE: DEPOSIT", "TX_TYPE: GIFT");
    assert_eq!(
        Report::new_from_text_reader(&mut input(&bad_kind)).unwrap_err(),
        ParserError::TextUnknownTxType("GIFT".to_string())
    );
    let bad_status = full.replace("STATUS: SUCCESS", "STATUS: OK");
    assert_eq!(
        Report::new_from_text_reader(&mut input(&bad_status)).unwrap_err(),
        ParserError::TextUnknownTxStatus("OK".to_string())
    );
    assert_eq!(
        Report::new_from_text_reader(&mut InputBuffer::new(b"\xC3\n".to_vec())).unwrap_err(),
        ParserError::TextLineReadError
    );
    assert_eq!(
        Transaction::new_from_text_reader(&mut input("# only a comment\n\n")),
        Err(ParserError::EOFEncountered)
    );
}

#[test]
fn compare_reports_of_different_content() {
    let a = sample_report();
    let mut b = Report::new();
    for t in a.get_transactions() {
        b.add_transaction(t.clone());
    }
    assert_eq!(a.compare_full(&b), Ok(()));
    b.get_transactions_mut()[2].amount = 1;
    assert_eq!(
        a.compare_full(&b),
        Err(ParserError::NonEqualTransactionFound(
            a.get_transactions()[2].as_str(),
            b.get_transactions()[2].as_str()
        ))
    );
    assert_eq!(b.compare_full(&b), Ok(()));
}

#[test]
fn error_messages() {
    assert_eq!(
        ParserError::BinWrongMagicEncountered.message(),
        "Встретилось неверное Magic, конец обработки"
    );
    assert_eq!(
        ParserError::CsvWrongTransactionFormat("x".to_string()).message(),
        "Встречена транзакция с неверным форматом x"
    );
    assert_eq!(
        ParserError::ReportLengthsAreNotEqual(2, 13).message(),
        "Отчёты разной длины: 2 и 13"
    );
}

#[test]
fn format_names_in_any_case() {
    assert_eq!(validate_format("CSV", "format1"), Ok(()));
    assert_eq!(validate_format("Txt", "format1"), Ok(()));
    assert_eq!(validate_format("bin", "format2"), Ok(()));
    assert_eq!(
        validate_format("json", "format2"),
        Err("Неверный формат 'json' для format2. Поддерживаемые форматы: csv, txt, bin".to_string())
    );
}

#[test]
fn read_report_by_format_name() {
    let r = read_report("CSV", &mut input("h\n1,DEPOSIT,2,3,4,5,SUCCESS,d\n")).unwrap();
    assert_eq!(r.len(), 1);
    assert_eq!(
        read_report("BIN", &mut InputBuffer::new(b"XXXXYYYY".to_vec())).unwrap_err(),
        "Встретилось неверное Magic, конец обработки".to_string()
    );
    assert_eq!(
        read_report("xml", &mut input("")).unwrap_err(),
        "Неверный формат: xml".to_string()
    );
}
