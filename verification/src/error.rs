//! What reading, writing and comparing reports can fail with.

use crate::lexical::{decimal, push_decimal};
use vstd::prelude::*;
use vstd::string::*;

verus! {

/// Errors of the readers, writers and the report comparison.
#[derive(Debug, Clone, PartialEq, Eq)]
pub enum ParserError {
    CsvLineReadError,
    CsvWrongTransactionFormat(String),
    CsvTxWriteError,
    BinTxWriteError,
    BinTxReadError,
    BinWrongMagicEncountered,
    BinReadLessThanBody,
    BinReadDescLenIsExcessive,
    BinReadNonUtf8Symbols,
    TextLineReadError,
    TextTxWriteError,
    EOFEncountered,
    ReportLengthsAreNotEqual(usize, usize),
    NonEqualTransactionFound(String, String),
    CsvUnknownTxType(String),
    CsvUnknownTxStatus(String),
    CsvWrongFieldValue(String),
    TextWrongFieldName(String),
    TextWrongFieldFormat(String),
    TextDuplicateField(String),
    TextMissingField(String),
    TextWrongFieldValue(String),
    TextUnknownTxType(String),
    TextUnknownTxStatus(String),
}

/// A `ParserError` with its texts taken as character sequences.
pub enum ParserErrorView {
    CsvLineReadError,
    CsvWrongTransactionFormat(Seq<char>),
    CsvTxWriteError,
    BinTxWriteError,
    BinTxReadError,
    BinWrongMagicEncountered,
    BinReadLessThanBody,
    BinReadDescLenIsExcessive,
    BinReadNonUtf8Symbols,
    TextLineReadError,
    TextTxWriteError,
    EOFEncountered,
    ReportLengthsAreNotEqual(usize, usize),
    NonEqualTransactionFound(Seq<char>, Seq<char>),
    CsvUnknownTxType(Seq<char>),
    CsvUnknownTxStatus(Seq<char>),
    CsvWrongFieldValue(Seq<char>),
    TextWrongFieldName(Seq<char>),
    TextWrongFieldFormat(Seq<char>),
    TextDuplicateField(Seq<char>),
    TextMissingField(Seq<char>),
    TextWrongFieldValue(Seq<char>),
    TextUnknownTxType(Seq<char>),
    TextUnknownTxStatus(Seq<char>),
}

impl View for ParserError {
    type V = ParserErrorView;

    open spec fn view(&self) -> ParserErrorView {
        match self {
            ParserError::CsvLineReadError => ParserErrorView::CsvLineReadError,
            ParserError::CsvWrongTransactionFormat(s) => ParserErrorView::CsvWrongTransactionFormat(
                s@,
            ),
            ParserError::CsvTxWriteError => ParserErrorView::CsvTxWriteError,
            ParserError::BinTxWriteError => ParserErrorView::BinTxWriteError,
            ParserError::BinTxReadError => ParserErrorView::BinTxReadError,
            ParserError::BinWrongMagicEncountered => ParserErrorView::BinWrongMagicEncountered,
            ParserError::BinReadLessThanBody => ParserErrorView::BinReadLessThanBody,
            ParserError::BinReadDescLenIsExcessive => ParserErrorView::BinReadDescLenIsExcessive,
            ParserError::BinReadNonUtf8Symbols => ParserErrorView::BinReadNonUtf8Symbols,
            ParserError::TextLineReadError => ParserErrorView::TextLineReadError,
            ParserError::TextTxWriteError => ParserErrorView::TextTxWriteError,
            ParserError::EOFEncountered => ParserErrorView::EOFEncountered,
            ParserError::ReportLengthsAreNotEqual(a, b) => ParserErrorView::ReportLengthsAreNotEqual(
                *a,
                *b,
            ),
            ParserError::NonEqualTransactionFound(a, b) => ParserErrorView::NonEqualTransactionFound(
                a@,
                b@,
            ),
            ParserError::CsvUnknownTxType(s) => ParserErrorView::CsvUnknownTxType(s@),
            ParserError::CsvUnknownTxStatus(s) => ParserErrorView::CsvUnknownTxStatus(s@),
            ParserError::CsvWrongFieldValue(s) => ParserErrorView::CsvWrongFieldValue(s@),
            ParserError::TextWrongFieldName(s) => ParserErrorView::TextWrongFieldName(s@),
            ParserError::TextWrongFieldFormat(s) => ParserErrorView::TextWrongFieldFormat(s@),
            ParserError::TextDuplicateField(s) => ParserErrorView::TextDuplicateField(s@),
            ParserError::TextMissingField(s) => ParserErrorView::TextMissingField(s@),
            ParserError::TextWrongFieldValue(s) => ParserErrorView::TextWrongFieldValue(s@),
            ParserError::TextUnknownTxType(s) => ParserErrorView::TextUnknownTxType(s@),
            ParserError::TextUnknownTxStatus(s) => ParserErrorView::TextUnknownTxStatus(s@),
        }
    }
}

/// The text that describes an error to a person.
pub open spec fn error_message(e: ParserErrorView) -> Seq<char> {
    match e {
        ParserErrorView::CsvLineReadError => "Ошибка чтения csv-строки"@,
        ParserErrorView::CsvWrongTransactionFormat(s) => "Встречена транзакция с неверным форматом "@
            + s,
        ParserErrorView::CsvTxWriteError => "Ошибка записи csv-строки"@,
        ParserErrorView::BinTxWriteError => "Ошибка записи bin-данных"@,
        ParserErrorView::BinTxReadError => "Ошибка чтения bin-данных"@,
        ParserErrorView::BinWrongMagicEncountered => "Встретилось неверное Magic, конец обработки"@,
        ParserErrorView::BinReadLessThanBody => "Прочитано меньше данных, чем указанная длина Body"@,
        ParserErrorView::BinReadDescLenIsExcessive =>
            "Указана слишком большая длина Description, выходящая за рамки Body"@,
        ParserErrorView::BinReadNonUtf8Symbols => "Встречены не UTF-8 символы"@,
        ParserErrorView::TextLineReadError => "Ошибка чтения текстовой строки"@,
        ParserErrorView::TextTxWriteError => "Ошибка записи текстовой строки"@,
        ParserErrorView::EOFEncountered => "Достигнут конец входных данных"@,
        ParserErrorView::ReportLengthsAreNotEqual(a, b) => "Отчёты разной длины: "@ + decimal(
            a as nat,
        ) + " и "@ + decimal(b as nat),
        ParserErrorView::NonEqualTransactionFound(a, b) => "Найдены различающиеся транзакции: "@
            + a + " и "@ + b,
        ParserErrorView::CsvUnknownTxType(s) => "Неизвестный тип транзакции в csv: "@ + s,
        ParserErrorView::CsvUnknownTxStatus(s) => "Неизвестный статус транзакции в csv: "@ + s,
        ParserErrorView::CsvWrongFieldValue(s) => "Неверное значение поля в csv: "@ + s,
        ParserErrorView::TextWrongFieldName(s) => "Неверное имя поля: "@ + s,
        ParserErrorView::TextWrongFieldFormat(s) => "Строка не в формате ПОЛЕ: значение: "@ + s,
        ParserErrorView::TextDuplicateField(s) => "Поле встречено повторно: "@ + s,
        ParserErrorView::TextMissingField(s) => "В записи нет поля "@ + s,
        ParserErrorView::TextWrongFieldValue(s) => "Неверное значение поля: "@ + s,
        ParserErrorView::TextUnknownTxType(s) => "Неизвестный тип транзакции: "@ + s,
        ParserErrorView::TextUnknownTxStatus(s) => "Неизвестный статус транзакции: "@ + s,
    }
}

fn prefixed(prefix: &str, s: &String) -> (r: String)
    ensures
        r@ == prefix@ + s@,
{
    let mut r = prefix.to_owned();
    r.append(s.as_str());
    r
}

impl ParserError {
    /// The text that describes the error to a person.
    pub fn message(&self) -> (r: String)
        ensures
            r@ == error_message(self@),
    {
        match self {
            ParserError::CsvLineReadError => "Ошибка чтения csv-строки".to_owned(),
            ParserError::CsvWrongTransactionFormat(s) => prefixed(
                "Встречена транзакция с неверным форматом ",
                s,
            ),
            ParserError::CsvTxWriteError => "Ошибка записи csv-строки".to_owned(),
            ParserError::BinTxWriteError => "Ошибка записи bin-данных".to_owned(),
            ParserError::BinTxReadError => "Ошибка чтения bin-данных".to_owned(),
            ParserError::BinWrongMagicEncountered => "Встретилось неверное Magic, конец обработки".to_owned(),
            ParserError::BinReadLessThanBody => "Прочитано меньше данных, чем указанная длина Body".to_owned(),
            ParserError::BinReadDescLenIsExcessive =>
                "Указана слишком большая длина Description, выходящая за рамки Body".to_owned(),
            ParserError::BinReadNonUtf8Symbols => "Встречены не UTF-8 символы".to_owned(),
            ParserError::TextLineReadError => "Ошибка чтения текстовой строки".to_owned(),
            ParserError::TextTxWriteError => "Ошибка записи текстовой строки".to_owned(),
            ParserError::EOFEncountered => "Достигнут конец входных данных".to_owned(),
            ParserError::ReportLengthsAreNotEqual(a, b) => {
                let mut r = "Отчёты разной длины: ".to_owned();
                push_decimal(&mut r, *a as u64);
                r.append(" и ");
                push_decimal(&mut r, *b as u64);
                r
            },
            ParserError::NonEqualTransactionFound(a, b) => {
                let mut r = prefixed("Найдены различающиеся транзакции: ", a);
                r.append(" и ");
                r.append(b.as_str());
                r
            },
            ParserError::CsvUnknownTxType(s) => prefixed("Неизвестный тип транзакции в csv: ", s),
            ParserError::CsvUnknownTxStatus(s) => prefixed(
                "Неизвестный статус транзакции в csv: ",
                s,
            ),
            ParserError::CsvWrongFieldValue(s) => prefixed("Неверное значение поля в csv: ", s),
            ParserError::TextWrongFieldName(s) => prefixed("Неверное имя поля: ", s),
            ParserError::TextWrongFieldFormat(s) => prefixed(
                "Строка не в формате ПОЛЕ: значение: ",
                s,
            ),
            ParserError::TextDuplicateField(s) => prefixed("Поле встречено повторно: ", s),
            ParserError::TextMissingField(s) => prefixed("В записи нет поля ", s),
            ParserError::TextWrongFieldValue(s) => prefixed("Неверное значение поля: ", s),
            ParserError::TextUnknownTxType(s) => prefixed("Неизвестный тип транзакции: ", s),
            ParserError::TextUnknownTxStatus(s) => prefixed("Неизвестный статус транзакции: ", s),
        }
    }
}

} // verus!
