//! Choosing the reader of a report by the name of its format, as the
//! comparison of two reports does.

use crate::bin_format::{bin_encodable, bin_records, parse_bin_all, BinFormatIO};
use crate::csv_format::{csv_output, csv_report, csv_safe, law_csv_write_then_read, CsvFormatIO};
use crate::error::error_message;
use crate::input::InputBuffer;
use crate::report::{law_bin_write_then_read, report_result_view, Report};
use crate::text_format::{law_text_write_then_read, text_all, text_records, text_safe, TextFormatIO};
use crate::transaction::TransactionView;
use vstd::prelude::*;
use vstd::string::*;

verus! {

/// What `str::to_lowercase` gives for `s`.
pub uninterp spec fn lowercase_of(s: Seq<char>) -> Seq<char>;

/// `str::to_lowercase` of std: `s` with every character in lower case, as
/// Unicode defines it; what that is, character by character, is left to the
/// name.
#[verifier::external_body]
fn to_lowercase(s: &str) -> (r: String)
    ensures
        r@ == lowercase_of(s@),
{
    s.to_lowercase()
}

/// The formats that a report can be read in.
#[derive(Debug, Clone, Copy, PartialEq, Eq, Structural)]
pub enum ReportFormat {
    Csv,
    Txt,
    Bin,
}

/// The format that a lower-case name names.
pub open spec fn format_of_name(s: Seq<char>) -> Option<ReportFormat> {
    if s == "csv"@ {
        Some(ReportFormat::Csv)
    } else if s == "txt"@ {
        Some(ReportFormat::Txt)
    } else if s == "bin"@ {
        Some(ReportFormat::Bin)
    } else {
        None
    }
}

/// The message for a format name that names no format.
pub open spec fn bad_format_message(format: Seq<char>, in_or_out_type: Seq<char>) -> Seq<char> {
    "Неверный формат '"@ + format + "' для "@ + in_or_out_type
        + ". Поддерживаемые форматы: csv, txt, bin"@
}

/// The format that the lower-cased name `lowered` names.
pub fn format_from_lowercase(lowered: &str) -> (r: Option<ReportFormat>)
    ensures
        r == format_of_name(lowered@),
{
    let v = crate::lexical::chars_of(lowered);
    let n = v.len();
    if crate::lexical::range_is(&v, 0, n, "csv") {
        assert(v@.subrange(0, n as int) =~= v@);
        Some(ReportFormat::Csv)
    } else if crate::lexical::range_is(&v, 0, n, "txt") {
        assert(v@.subrange(0, n as int) =~= v@);
        Some(ReportFormat::Txt)
    } else if crate::lexical::range_is(&v, 0, n, "bin") {
        assert(v@.subrange(0, n as int) =~= v@);
        Some(ReportFormat::Bin)
    } else {
        assert(v@.subrange(0, n as int) =~= v@);
        None
    }
}

/// Checks a format name once lower-cased: `csv`, `txt` and `bin` are known;
/// any other name is the error that says so for the argument
/// `in_or_out_type`.
pub fn check_lowered_format(lowered: &str, format: &str, in_or_out_type: &str) -> (r: Result<
    (),
    String,
>)
    ensures
        format_of_name(lowered@) is Some ==> r is Ok,
        format_of_name(lowered@) is None ==> (r matches Err(m) && m@ == bad_format_message(
            format@,
            in_or_out_type@,
        )),
{
    match format_from_lowercase(lowered) {
        Some(_) => Ok(()),
        None => {
            let mut m = "Неверный формат '".to_owned();
            m.append(format);
            m.append("' для ");
            m.append(in_or_out_type);
            m.append(". Поддерживаемые форматы: csv, txt, bin");
            Err(m)
        },
    }
}

/// Checks a format name: it must be `csv`, `txt` or `bin` in any case.
pub fn validate_format(format: &str, in_or_out_type: &str) -> (r: Result<(), String>)
    ensures
        format_of_name(lowercase_of(format@)) is Some ==> r is Ok,
        format_of_name(lowercase_of(format@)) is None ==> (r matches Err(m) && m@
            == bad_format_message(format@, in_or_out_type@)),
{
    let lowered = to_lowercase(format);
    check_lowered_format(lowered.as_str(), format, in_or_out_type)
}

/// What reading a report in the given format gives, with errors as their
/// messages.
pub open spec fn report_in_format(f: ReportFormat, s: Seq<u8>) -> Result<
    Seq<TransactionView>,
    Seq<char>,
> {
    let r = match f {
        ReportFormat::Csv => csv_report(s),
        ReportFormat::Txt => text_all(s),
        ReportFormat::Bin => parse_bin_all(s),
    };
    match r {
        Ok(ts) => Ok(ts),
        Err(e) => Err(error_message(e)),
    }
}

/// The message for a format that names no reader.
pub open spec fn wrong_format_message(format: Seq<char>) -> Seq<char> {
    "Неверный формат: "@ + format
}

/// Reads a report in the format that the lower-cased name `lowered` names;
/// an unknown name is an error that quotes `format`, and the reader's error is
/// given as its message.
pub fn read_report_lowered(lowered: &str, format: &str, input: &mut InputBuffer) -> (r: Result<
    Report,
    String,
>)
    ensures
        match format_of_name(lowered@) {
            Some(f) => match report_in_format(f, old(input)@) {
                Ok(ts) => r matches Ok(rep) && rep@ == ts,
                Err(m) => r matches Err(x) && x@ == m,
            },
            None => r matches Err(x) && x@ == wrong_format_message(format@),
        },
{
    let read = match format_from_lowercase(lowered) {
        Some(ReportFormat::Csv) => <Report as CsvFormatIO<Report>>::new_from_csv_reader(input),
        Some(ReportFormat::Txt) => <Report as TextFormatIO<Report>>::new_from_text_reader(input),
        Some(ReportFormat::Bin) => <Report as BinFormatIO<Report>>::new_from_bin_reader(input),
        None => {
            let mut m = "Неверный формат: ".to_owned();
            m.append(format);
            return Err(m);
        },
    };
    match read {
        Ok(rep) => Ok(rep),
        Err(e) => Err(e.message()),
    }
}

/// Reads a report in the format named `format`, in any case.
pub fn read_report(format: &str, input: &mut InputBuffer) -> (r: Result<Report, String>)
    ensures
        match format_of_name(lowercase_of(format@)) {
            Some(f) => match report_in_format(f, old(input)@) {
                Ok(ts) => r matches Ok(rep) && rep@ == ts,
                Err(m) => r matches Err(x) && x@ == m,
            },
            None => r matches Err(x) && x@ == wrong_format_message(format@),
        },
{
    let lowered = to_lowercase(format);
    read_report_lowered(lowered.as_str(), format, input)
}

/// Law: a name that reads `csv`, `txt` or `bin` once lower-cased picks the
/// reader of that format: what the writer of that format writes for a report
/// (with descriptions that the format carries back, and records that fit in
/// the binary case), reading by that name, in any case, gives back the
/// report's transactions.
pub proof fn law_format_name_picks_its_reader(name: Seq<char>, ts: Seq<TransactionView>)
    ensures
        lowercase_of(name) == "txt"@ && (forall|i: int|
            0 <= i < ts.len() ==> text_safe((#[trigger] ts[i]).description)) ==> (format_of_name(
            lowercase_of(name),
        ) matches Some(f) && report_in_format(f, text_records(ts)) == Ok::<
            Seq<TransactionView>,
            Seq<char>,
        >(ts)),
        lowercase_of(name) == "csv"@ && (forall|i: int|
            0 <= i < ts.len() ==> csv_safe((#[trigger] ts[i]).description)) ==> (format_of_name(
            lowercase_of(name),
        ) matches Some(f) && report_in_format(f, csv_output(ts)) == Ok::<
            Seq<TransactionView>,
            Seq<char>,
        >(ts)),
        lowercase_of(name) == "bin"@ && (forall|i: int|
            0 <= i < ts.len() ==> bin_encodable(#[trigger] ts[i])) ==> (format_of_name(
            lowercase_of(name),
        ) matches Some(f) && report_in_format(f, bin_records(ts)) == Ok::<
            Seq<TransactionView>,
            Seq<char>,
        >(ts)),
{
    reveal_strlit("csv");
    reveal_strlit("txt");
    reveal_strlit("bin");
    assert("txt"@ != "csv"@) by {
        assert("txt"@[0] != "csv"@[0]);
    }
    assert("bin"@ != "csv"@) by {
        assert("bin"@[0] != "csv"@[0]);
    }
    assert("bin"@ != "txt"@) by {
        assert("bin"@[0] != "txt"@[0]);
    }
    if lowercase_of(name) == "txt"@ && (forall|i: int|
        0 <= i < ts.len() ==> text_safe((#[trigger] ts[i]).description)) {
        law_text_write_then_read(ts);
    }
    if lowercase_of(name) == "csv"@ && (forall|i: int|
        0 <= i < ts.len() ==> csv_safe((#[trigger] ts[i]).description)) {
        law_csv_write_then_read(ts);
    }
    if lowercase_of(name) == "bin"@ && (forall|i: int|
        0 <= i < ts.len() ==> bin_encodable(#[trigger] ts[i])) {
        law_bin_write_then_read(ts);
        assert(ts.take(ts.len() as int) =~= ts);
    }
}

} // verus!
