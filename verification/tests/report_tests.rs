use parser::bin_format::BinFormatIO;
use parser::csv_format::CsvFormatIO;
use parser::error::ParserError;
use parser::input::InputBuffer;
use parser::report::Report;
use parser::text_format::TextFormatIO;
use parser::transaction::{Transaction, TransactionStatus, TransactionType};

const CSV_CONTENT_STR: &str = "TX_ID,TX_TYPE,FROM_USER_ID,TO_USER_ID,AMOUNT,TIMESTAMP,STATUS,DESCRIPTION
1,DEPOSIT,100,200,1000,123456789,SUCCESS,Test transaction
2,TRANSFER,100,0,500,123456790,FAILURE,Withdrawal";

const CSV_CONTENT_STR_BAD: &str = "TX_ID,TX_TYPE,FROM_USER_ID,TO_USER_ID,AMOUNT,TIMESTAMP,STATUS,DESCRIPTION
1,DEPOSIT,100,200,1000,123456789,SUCCESS,Test transaction
2,NON-EXISTING OPERATION,100,0,500,123456790,FAILURE,Withdrawal";

const TEXT_CONTENT_STR: &str = "
# Record 1 (DEPOSIT)
TX_TYPE: DEPOSIT
TO_USER_ID: 9223372036854775807
FROM_USER_ID: 0
TIMESTAMP: 1633036860000
DESCRIPTION: \"Record number 1\"
TX_ID: 1000000000000000
AMOUNT: 100
STATUS: FAILURE

# Record 2 (TRANSFER)
DESCRIPTION: \"Record number 2\"
TIMESTAMP: 1633036920000
STATUS: PENDING
AMOUNT: 200
TX_ID: 1000000000000001
TX_TYPE: TRANSFER
FROM_USER_ID: 9223372036854775807
TO_USER_ID: 9223372036854775807\n\n";

const TEXT_CONTENT_STR_BAD: &str = " 
WRONG FIELD NAME: \"Record number 2\"
TIMESTAMP: 1633036920000
STATUS: PENDING
AMOUNT: 200
TX_ID: 1000000000000001
TX_TYPE: TRANSFER
FROM_USER_ID: 9223372036854775807
TO_USER_ID: 9223372036854775807";

fn source_tx_1() -> Transaction {
    Transaction::new(
        1,
        TransactionType::Deposit,
        3,
        5,
        100,
        1579303033,
        TransactionStatus::Failure,
        "\"TX 1\"".to_string(),
    )
}

fn source_tx_2() -> Transaction {
    Transaction::new(
        2,
        TransactionType::Transfer,
        3,
        5,
        100,
        1579303033,
        TransactionStatus::Success,
        "\"TX 2\"".to_string(),
    )
}

#[test]
fn test_text_report_ok() -> Result<(), ParserError> {
    let source_transactions_txt = TEXT_CONTENT_STR.to_string();
    let mut source_tx_cursor = InputBuffer::from_string(source_transactions_txt);

    let mut report_from_txt = Report::new_from_text_reader(&mut source_tx_cursor)?;

    let mut buffer = Vec::new();
    report_from_txt.write_as_text_to_writer(&mut buffer)?;

    let mut buf_cursor = InputBuffer::new(buffer);
    let report_from_txt_after_write = Report::new_from_text_reader(&mut buf_cursor)?;

    println!(
        "Исходный и прочитанный отчёты: \n{:?} \n {:?}",
        report_from_txt, report_from_txt_after_write
    );
    report_from_txt.compare_full(&report_from_txt_after_write)?;

    Ok(())
}

#[test]
fn test_csv_report_ok() -> Result<(), ParserError> {
    let source_transactions_csv = CSV_CONTENT_STR.to_string();
    let mut source_tx_cursor = InputBuffer::from_string(source_transactions_csv);

    let report_from_csv = Report::new_from_csv_reader(&mut source_tx_cursor)?;

    let mut buffer = Vec::new();
    report_from_csv.write_as_csv_to_writer(&mut buffer)?;

    let mut buf_cursor = InputBuffer::new(buffer);

    let report_from_csv_after_write = Report::new_from_csv_reader(&mut buf_cursor)?;

    println!(
        "Исходный и прочитанный отчёты: \n{:?} \n {:?}",
        report_from_csv, report_from_csv_after_write
    );
    report_from_csv.compare_full(&report_from_csv_after_write)?;

    Ok(())
}

#[test]
fn test_bin_report_ok() -> Result<(), ParserError> {
    let mut source_report = Report::new();
    source_report.add_transaction(source_tx_1());
    source_report.add_transaction(source_tx_2());

    let mut buffer = Vec::new();
    source_report.write_as_bin_to_writer(&mut buffer)?;

    let mut buf_cursor = InputBuffer::new(buffer);
    let mut report_from_bin = Report::new_from_bin_reader(&mut buf_cursor)?;

    println!(
        "Исходный и прочитанный отчёты: \n{:?} \n {:?}",
        source_report, report_from_bin
    );
    source_report.compare_full(&report_from_bin)?;

    report_from_bin.add_transaction(source_tx_1());
    assert_eq!(
        source_report.compare_full(&report_from_bin),
        Err(ParserError::ReportLengthsAreNotEqual(2, 3))
    );

    Ok(())
}

#[test]
fn test_csv_report_error() -> Result<(), ParserError> {
    let source_transactions_csv = CSV_CONTENT_STR_BAD.to_string();
    let mut source_tx_cursor = InputBuffer::from_string(source_transactions_csv);

    match Report::new_from_csv_reader(&mut source_tx_cursor) {
        Ok(_) => panic!("Error is expected"),
        Err(error) => assert_eq!(
            error,
            ParserError::CsvUnknownTxType("NON-EXISTING OPERATION".to_string())
        ),
    }

    Ok(())
}

#[test]
fn test_text_report_error() -> Result<(), ParserError> {
    let source_transactions_txt = TEXT_CONTENT_STR_BAD.to_string();
    let mut source_tx_cursor = InputBuffer::from_string(source_transactions_txt);

    match Report::new_from_text_reader(&mut source_tx_cursor) {
        Ok(_) => panic!("Error is expected"),
        Err(error) => assert_eq!(
            error,
            ParserError::TextWrongFieldName("WRONG FIELD NAME".to_string())
        ),
    }

    Ok(())
}

#[test]
fn test_bin_bad_magic() -> Result<(), ParserError> {
    let mut source_report = Report::new();
    source_report.add_transaction(source_tx_1());
    source_report.add_transaction(source_tx_2());

    let mut buffer = Vec::new();
    source_report.write_as_bin_to_writer(&mut buffer)?;

    buffer[0] = 0x40;

    let mut buf_cursor = InputBuffer::new(buffer);
    assert_eq!(
        Transaction::new_from_bin_reader(&mut buf_cursor),
        Err(ParserError::BinWrongMagicEncountered)
    );

    Ok(())
}

#[test]
fn test_report_compare_len() -> Result<(), ParserError> {
    let mut report_1 = Report::new();
    report_1.add_transaction(source_tx_1());
    report_1.add_transaction(source_tx_2());

    let mut report_2 = Report::new();
    report_2.add_transaction(source_tx_1());
    report_2.add_transaction(source_tx_2());
    report_2.add_transaction(source_tx_1());

    assert_eq!(
        report_1.compare_full(&report_2),
        Err(ParserError::ReportLengthsAreNotEqual(2, 3))
    );

    report_1.add_transaction(source_tx_1());
    assert_eq!(report_1.compare_full(&report_2), Ok(()));

    Ok(())
}

#[test]
fn test_report_compare_content() -> Result<(), ParserError> {
    let mut report_1 = Report::new();
    report_1.add_transaction(source_tx_1());
    report_1.add_transaction(source_tx_2());

    let mut report_2 = Report::new();
    report_2.add_transaction(source_tx_1());
    report_2.add_transaction(source_tx_2());

    assert_eq!(report_1.compare_full(&report_2), Ok(()));

    report_1.add_transaction(source_tx_1());
    report_2.add_transaction(source_tx_2());
    assert_eq!(
        report_1.compare_full(&report_2),
        Err(ParserError::NonEqualTransactionFound(
            source_tx_1().as_str(),
            source_tx_2().as_str()
        ))
    );

    Ok(())
}
