//! The `*_file` readers and writers of a report: a lenient CSV reader that
//! puts zero in place of numbers that do not read and `Unknown` in place of
//! names it does not know, a text reader that collects `KEY: value` pairs in
//! a map and keeps only complete records, and the binary reader and writer.

use crate::bin_format::{bin_records, parse_bin_all};
use crate::csv_format::{csv_record, csv_records, lemma_csv_records_push, text_range};
use crate::error::{ParserError, ParserErrorView};
use crate::input::{
    lemma_encode_utf8_concat, lemma_encode_utf8_single, lemma_newline_index_facts,
    newline_index, lemma_encode_utf8_last, lemma_encode_utf8_without_ascii, lemma_line_of_terminated,
    lemma_newline_index, after_line, append_str, lemma_after_line_shorter, line_of, str_from_utf8, InputBuffer,
};
use crate::lexical::{
    decimal, is_ws, lemma_decimal, lemma_find_pair, lemma_parse_decimal, trim_end, trim_start,
    chars_of, parse_u64_in, parse_u64_spec, u64_error_text, u64_error_text_in, push_decimal, range_is, split_bounds,
    split_on, split_on_pair, split_pair_bounds, trim, trim_bounds,
};
use crate::report::{first_unencodable, prepend, report_result_view, txs_view, Report};
use crate::csv_format::{
    csv_line, csv_parse_fields, csv_safe, kind_of_name, lemma_csv_line_reads_back,
    lemma_digits_without, lemma_names, status_of_name,
};
use crate::text_format::{
    enc_line, field_key, lemma_field_keys, lemma_field_prefixes, lemma_read_line_back,
    lemma_text_records_push, text_comment, text_lines, text_record, text_records,
};
use crate::transaction::{
    kind_name, status_name, Transaction, TransactionStatus, TransactionType, TransactionView,
};
use vstd::hash_map::StringHashMap;
use vstd::prelude::*;
use vstd::string::*;
use vstd::utf8::*;

verus! {

/// The number that `s` writes, or `default` where it does not read.
pub open spec fn u64_or(s: Seq<char>, default: u64) -> u64 {
    match parse_u64_spec(s) {
        Some(v) => v,
        None => default,
    }
}

/// The kind that `s` names; any other text is `Unknown`.
pub open spec fn lenient_kind(s: Seq<char>) -> TransactionType {
    if s == "DEPOSIT"@ {
        TransactionType::Deposit
    } else if s == "WITHDRAWAL"@ {
        TransactionType::Withdrawal
    } else if s == "TRANSFER"@ {
        TransactionType::Transfer
    } else {
        TransactionType::Unknown
    }
}

/// The status that `s` names; any other text is `Unknown`.
pub open spec fn lenient_status(s: Seq<char>) -> TransactionStatus {
    if s == "SUCCESS"@ {
        TransactionStatus::Success
    } else if s == "FAILURE"@ {
        TransactionStatus::Failure
    } else if s == "PENDING"@ {
        TransactionStatus::Pending
    } else {
        TransactionStatus::Unknown
    }
}

/// The transaction of eight CSV columns, read leniently.
pub open spec fn lenient_csv_tx(cols: Seq<Seq<char>>) -> TransactionView {
    TransactionView {
        tx_id: u64_or(cols[0], 0),
        tx_type: lenient_kind(cols[1]),
        from_user_id: u64_or(cols[2], 0),
        to_user_id: u64_or(cols[3], 0),
        amount: u64_or(cols[4], 0),
        timestamp: u64_or(cols[5], 0),
        status: lenient_status(cols[6]),
        description: cols[7],
    }
}

/// Reading CSV lines leniently until none is left; a line that is not UTF-8
/// or does not have eight columns fails.
pub open spec fn lenient_csv_lines(s: Seq<u8>) -> Result<Seq<TransactionView>, ParserErrorView>
    decreases s.len(),
{
    if s.len() == 0 {
        Ok(Seq::empty())
    } else {
        let l = line_of(s);
        let rest = after_line(s);
        proof {
            lemma_after_line_shorter(s);
        }
        if !valid_utf8(l) {
            Err(ParserErrorView::CsvLineReadError)
        } else {
            let c = decode_utf8(l);
            let cols = split_on(trim(c), ',');
            if cols.len() == 8 {
                prepend(seq![lenient_csv_tx(cols)], lenient_csv_lines(rest))
            } else {
                Err(ParserErrorView::CsvWrongTransactionFormat(c))
            }
        }
    }
}

/// Reading a CSV report leniently: the first line is skipped, whatever it
/// holds.
pub open spec fn lenient_csv(s: Seq<u8>) -> Result<Seq<TransactionView>, ParserErrorView> {
    if s.len() == 0 {
        Ok(Seq::empty())
    } else {
        lenient_csv_lines(after_line(s))
    }
}

/// The keys of the fields that a text record must have.
pub open spec fn required_keys() -> Seq<Seq<char>> {
    seq![
        "TX_ID"@,
        "TX_TYPE"@,
        "FROM_USER_ID"@,
        "TO_USER_ID"@,
        "AMOUNT"@,
        "TIMESTAMP"@,
        "STATUS"@,
        "DESCRIPTION"@,
    ]
}

/// Whether the map has every required key.
pub open spec fn has_all_fields(m: Map<Seq<char>, Seq<char>>) -> bool {
    forall|i: int| 0 <= i < 8 ==> m.contains_key(#[trigger] required_keys()[i])
}

/// The message for a field whose value `u64::from_str` refuses: the field's
/// name and the error's text.
pub open spec fn parse_failure_text(field: Seq<char>, value: Seq<char>) -> Seq<char> {
    "Не распарсился "@ + field + ": "@ + u64_error_text(value)
}

/// The transaction of the fields `m`, or the message of the first field
/// that is missing or does not read.
pub open spec fn map_tx(m: Map<Seq<char>, Seq<char>>) -> Result<TransactionView, Seq<char>> {
    if !m.contains_key("TX_ID"@) {
        Err("Отсутствует поле TX_ID в записи"@)
    } else if parse_u64_spec(m["TX_ID"@]) is None {
        Err(parse_failure_text("TX_ID"@, m["TX_ID"@]))
    } else if !m.contains_key("TX_TYPE"@) {
        Err("Отсутствует поле TX_TYPE в записи"@)
    } else if !m.contains_key("FROM_USER_ID"@) {
        Err("Отсутствует поле FROM_USER_ID в записи"@)
    } else if parse_u64_spec(m["FROM_USER_ID"@]) is None {
        Err(parse_failure_text("FROM_USER_ID"@, m["FROM_USER_ID"@]))
    } else if !m.contains_key("TO_USER_ID"@) {
        Err("Отсутствует поле TO_USER_ID в записи"@)
    } else if parse_u64_spec(m["TO_USER_ID"@]) is None {
        Err(parse_failure_text("TO_USER_ID"@, m["TO_USER_ID"@]))
    } else if !m.contains_key("AMOUNT"@) {
        Err("Отсутствует поле AMOUNT в записи"@)
    } else if parse_u64_spec(m["AMOUNT"@]) is None {
        Err(parse_failure_text("AMOUNT"@, m["AMOUNT"@]))
    } else if !m.contains_key("TIMESTAMP"@) {
        Err("Отсутствует поле TIMESTAMP в записи"@)
    } else if parse_u64_spec(m["TIMESTAMP"@]) is None {
        Err(parse_failure_text("TIMESTAMP"@, m["TIMESTAMP"@]))
    } else if !m.contains_key("STATUS"@) {
        Err("Отсутствует поле STATUS в записи"@)
    } else if !m.contains_key("DESCRIPTION"@) {
        Err("Отсутствует поле DESCRIPTION в записи"@)
    } else {
        Ok(
            TransactionView {
                tx_id: parse_u64_spec(m["TX_ID"@])->0,
                tx_type: lenient_kind(m["TX_TYPE"@]),
                from_user_id: parse_u64_spec(m["FROM_USER_ID"@])->0,
                to_user_id: parse_u64_spec(m["TO_USER_ID"@])->0,
                amount: parse_u64_spec(m["AMOUNT"@])->0,
                timestamp: parse_u64_spec(m["TIMESTAMP"@])->0,
                status: lenient_status(m["STATUS"@]),
                description: m["DESCRIPTION"@],
            },
        )
    }
}

/// Reading text lines into the field map `m`: comment lines are skipped, a
/// `KEY: value` line sets a field, other lines are skipped, and an empty line
/// closes the record, which is kept where it is complete and reads; the
/// fields of a record that no empty line closes are dropped.
pub open spec fn map_text_lines(s: Seq<u8>, m: Map<Seq<char>, Seq<char>>) -> Result<
    Seq<TransactionView>,
    ParserErrorView,
>
    decreases s.len(),
{
    if s.len() == 0 {
        Ok(Seq::empty())
    } else {
        let l = line_of(s);
        let rest = after_line(s);
        proof {
            lemma_after_line_shorter(s);
        }
        if !valid_utf8(l) {
            Err(ParserErrorView::TextLineReadError)
        } else {
            let c = decode_utf8(l);
            if c.len() > 0 && c[0] == '#' {
                map_text_lines(rest, m)
            } else if c.len() == 0 {
                if has_all_fields(m) && map_tx(m) is Ok {
                    prepend(seq![map_tx(m)->Ok_0], map_text_lines(rest, Map::empty()))
                } else {
                    map_text_lines(rest, Map::empty())
                }
            } else {
                let toks = split_on_pair(trim(c), ':', ' ');
                if toks.len() != 2 {
                    map_text_lines(rest, m)
                } else {
                    map_text_lines(rest, m.insert(toks[0], toks[1]))
                }
            }
        }
    }
}

/// The views of the values of a field map.
pub open spec fn fields_view(m: Map<Seq<char>, String>) -> Map<Seq<char>, Seq<char>> {
    m.map_values(|v: String| v@)
}

/// The kind that the characters `v[lo..hi]` name, `Unknown` for any other.
fn lenient_kind_in(v: &Vec<char>, lo: usize, hi: usize) -> (r: TransactionType)
    requires
        lo <= hi <= v@.len(),
    ensures
        r == lenient_kind(v@.subrange(lo as int, hi as int)),
{
    if range_is(v, lo, hi, "DEPOSIT") {
        TransactionType::Deposit
    } else if range_is(v, lo, hi, "WITHDRAWAL") {
        TransactionType::Withdrawal
    } else if range_is(v, lo, hi, "TRANSFER") {
        TransactionType::Transfer
    } else {
        TransactionType::Unknown
    }
}

/// The status that the characters `v[lo..hi]` name, `Unknown` for any other.
fn lenient_status_in(v: &Vec<char>, lo: usize, hi: usize) -> (r: TransactionStatus)
    requires
        lo <= hi <= v@.len(),
    ensures
        r == lenient_status(v@.subrange(lo as int, hi as int)),
{
    if range_is(v, lo, hi, "SUCCESS") {
        TransactionStatus::Success
    } else if range_is(v, lo, hi, "FAILURE") {
        TransactionStatus::Failure
    } else if range_is(v, lo, hi, "PENDING") {
        TransactionStatus::Pending
    } else {
        TransactionStatus::Unknown
    }
}

/// The number that the characters `v[lo..hi]` write, or `default`.
fn u64_or_in(v: &Vec<char>, lo: usize, hi: usize, default: u64) -> (r: u64)
    requires
        lo <= hi <= v@.len(),
    ensures
        r == u64_or(v@.subrange(lo as int, hi as int), default),
{
    match parse_u64_in(v, lo, hi) {
        Some(x) => x,
        None => default,
    }
}

fn whole(v: &Vec<char>) -> (r: usize)
    ensures
        r == v@.len(),
        v@.subrange(0, r as int) == v@,
{
    assert(v@.subrange(0, v@.len() as int) =~= v@);
    v.len()
}

impl Report {
    /// The number that `in_str` writes, or `default_value` where it does not
    /// read as a `u64`.
    pub fn parse_u64_with_warning(in_str: &str, default_value: u64) -> (r: u64)
        ensures
            r == u64_or(in_str@, default_value),
    {
        Report::parse_u64_noting_default(in_str, default_value).0
    }

    /// The number that `in_str` writes, or `default_value` where it does not
    /// read as a `u64`, together with whether the default was taken, which is
    /// when a warning naming both is due.
    pub fn parse_u64_noting_default(in_str: &str, default_value: u64) -> (r: (u64, bool))
        ensures
            r.0 == u64_or(in_str@, default_value),
            r.1 == (parse_u64_spec(in_str@) is None),
    {
        let v = chars_of(in_str);
        let n = whole(&v);
        match parse_u64_in(&v, 0, n) {
            Some(x) => (x, false),
            None => (default_value, true),
        }
    }

    /// The kind that `type_str` names; any other text is `Unknown`.
    pub fn parse_transaction_type(type_str: &str) -> (r: Result<TransactionType, String>)
        ensures
            r == Ok::<TransactionType, String>(lenient_kind(type_str@)),
    {
        let v = chars_of(type_str);
        let n = whole(&v);
        Ok(lenient_kind_in(&v, 0, n))
    }

    /// The status that `status_str` names; any other text is `Unknown`.
    pub fn parse_transaction_status(status_str: &str) -> (r: Result<TransactionStatus, String>)
        ensures
            r == Ok::<TransactionStatus, String>(lenient_status(status_str@)),
    {
        let v = chars_of(status_str);
        let n = whole(&v);
        Ok(lenient_status_in(&v, 0, n))
    }

    /// Whether the map has every field of a transaction.
    pub fn tx_has_all_fields(tx_hash_map: &StringHashMap<String>) -> (r: bool)
        ensures
            r == has_all_fields(fields_view(tx_hash_map@)),
    {
        let required_fields: [&str; 8] = [
            "TX_ID",
            "TX_TYPE",
            "FROM_USER_ID",
            "TO_USER_ID",
            "AMOUNT",
            "TIMESTAMP",
            "STATUS",
            "DESCRIPTION",
        ];
        assert(required_fields@ =~= seq![
            "TX_ID",
            "TX_TYPE",
            "FROM_USER_ID",
            "TO_USER_ID",
            "AMOUNT",
            "TIMESTAMP",
            "STATUS",
            "DESCRIPTION",
        ]);
        let mut i: usize = 0;
        while i < 8
            invariant
                i <= 8,
                required_fields@.len() == 8,
                forall|j: int| 0 <= j < 8 ==> (#[trigger] required_fields@[j])@ == required_keys()[j],
                forall|j: int| 0 <= j < i ==> fields_view(tx_hash_map@).contains_key(
                    #[trigger] required_keys()[j],
                ),
            decreases 8 - i,
        {
            if !tx_hash_map.contains_key(required_fields[i]) {
                return false;
            }
            i = i + 1;
        }
        true
    }

    /// The transaction of a field map, or the message of the first field
    /// that is missing or does not read.
    pub fn tx_from_tx_hashmap(tx_hashmap: &StringHashMap<String>) -> (r: Result<Transaction, String>)
        ensures
            match map_tx(fields_view(tx_hashmap@)) {
                Ok(t) => r matches Ok(tx) && tx@ == t,
                Err(msg) => r matches Err(s) && s@ == msg,
            },
    {
        let ghost m = fields_view(tx_hashmap@);
        let tx_id = match tx_hashmap.get("TX_ID") {
            None => {
                return Err("Отсутствует поле TX_ID в записи".to_owned());
            },
            Some(s) => match Report::parse_opt(s) {
                Some(x) => x,
                None => {
                    return Err(Report::parse_failure("TX_ID", s));
                },
            },
        };
        let tx_type = match tx_hashmap.get("TX_TYPE") {
            None => {
                return Err("Отсутствует поле TX_TYPE в записи".to_owned());
            },
            Some(s) => match Report::parse_transaction_type(s.as_str()) {
                Ok(x) => x,
                Err(e) => {
                    return Err(e);
                },
            },
        };
        let from_user_id = match tx_hashmap.get("FROM_USER_ID") {
            None => {
                return Err("Отсутствует поле FROM_USER_ID в записи".to_owned());
            },
            Some(s) => match Report::parse_opt(s) {
                Some(x) => x,
                None => {
                    return Err(Report::parse_failure("FROM_USER_ID", s));
                },
            },
        };
        let to_user_id = match tx_hashmap.get("TO_USER_ID") {
            None => {
                return Err("Отсутствует поле TO_USER_ID в записи".to_owned());
            },
            Some(s) => match Report::parse_opt(s) {
                Some(x) => x,
                None => {
                    return Err(Report::parse_failure("TO_USER_ID", s));
                },
            },
        };
        let amount = match tx_hashmap.get("AMOUNT") {
            None => {
                return Err("Отсутствует поле AMOUNT в записи".to_owned());
            },
            Some(s) => match Report::parse_opt(s) {
                Some(x) => x,
                None => {
                    return Err(Report::parse_failure("AMOUNT", s));
                },
            },
        };
        let timestamp = match tx_hashmap.get("TIMESTAMP") {
            None => {
                return Err("Отсутствует поле TIMESTAMP в записи".to_owned());
            },
            Some(s) => match Report::parse_opt(s) {
                Some(x) => x,
                None => {
                    return Err(Report::parse_failure("TIMESTAMP", s));
                },
            },
        };
        let status = match tx_hashmap.get("STATUS") {
            None => {
                return Err("Отсутствует поле STATUS в записи".to_owned());
            },
            Some(s) => match Report::parse_transaction_status(s.as_str()) {
                Ok(x) => x,
                Err(e) => {
                    return Err(e);
                },
            },
        };
        let description = match tx_hashmap.get("DESCRIPTION") {
            None => {
                return Err("Отсутствует поле DESCRIPTION в записи".to_owned());
            },
            Some(s) => s.clone(),
        };
        Ok(
            Transaction::new(
                tx_id,
                tx_type,
                from_user_id,
                to_user_id,
                amount,
                timestamp,
                status,
                description,
            ),
        )
    }

    /// The message for the field `field` whose value `value` does not read.
    fn parse_failure(field: &str, value: &String) -> (r: String)
        ensures
            r@ == parse_failure_text(field@, value@),
    {
        let v = chars_of(value.as_str());
        let n = whole(&v);
        let text = u64_error_text_in(&v, 0, n);
        let mut r = "Не распарсился ".to_owned();
        r.append(field);
        r.append(": ");
        r.append(text.as_str());
        r
    }

    /// `u64::from_str` on a string.
    fn parse_opt(s: &String) -> (r: Option<u64>)
        ensures
            r == parse_u64_spec(s@),
    {
        let v = chars_of(s.as_str());
        let n = whole(&v);
        parse_u64_in(&v, 0, n)
    }

    /// Skips the first line, then reads every line as a transaction of eight
    /// comma-separated columns, leniently; a line that is not UTF-8 or does
    /// not have eight columns fails.
    pub fn new_from_csv_file(reader: &mut InputBuffer) -> (r: Result<Report, ParserError>)
        ensures
            report_result_view(r) == lenient_csv(old(reader)@),
            r is Ok ==> final(reader)@.len() == 0,
    {
        let mut new_report = Report::new();
        let _header = reader.next_line();
        assert forall|ts: Seq<TransactionView>| #![auto] Seq::<TransactionView>::empty() + ts =~= ts by {}
        loop
            invariant
                lenient_csv(old(reader)@) == prepend(new_report@, lenient_csv_lines(reader@)),
            decreases reader@.len(),
        {
            let ghost before = reader@;
            let line = match reader.next_line() {
                Some(l) => l,
                None => {
                    assert(new_report@ + Seq::<TransactionView>::empty() =~= new_report@);
                    return Ok(new_report);
                },
            };
            proof {
                lemma_after_line_shorter(before);
            }
            let text = match str_from_utf8(line.as_slice()) {
                Some(t) => t,
                None => {
                    return Err(ParserError::CsvLineReadError);
                },
            };
            let v = chars_of(text);
            let n = whole(&v);
            let (a, b) = trim_bounds(&v, 0, n);
            let cols = split_bounds(&v, a, b, ',');
            if cols.len() != 8 {
                return Err(ParserError::CsvWrongTransactionFormat(text.to_owned()));
            }
            let tx = Transaction::new(
                u64_or_in(&v, cols[0].0, cols[0].1, 0),
                lenient_kind_in(&v, cols[1].0, cols[1].1),
                u64_or_in(&v, cols[2].0, cols[2].1, 0),
                u64_or_in(&v, cols[3].0, cols[3].1, 0),
                u64_or_in(&v, cols[4].0, cols[4].1, 0),
                u64_or_in(&v, cols[5].0, cols[5].1, 0),
                lenient_status_in(&v, cols[6].0, cols[6].1),
                text_range(text, cols[7].0, cols[7].1),
            );
            proof {
                let c = v@;
                let cs = split_on(trim(c), ',');
                assert(forall|i: int| 0 <= i < 8 ==> v@.subrange(cols@[i].0 as int, cols@[i].1 as int) == cs[i]);
                assert(tx@ == lenient_csv_tx(cs));
                assert forall|ts: Seq<TransactionView>| #![auto] new_report@ + (seq![tx@] + ts)
                    =~= new_report@.push(tx@) + ts by {}
            }
            new_report.add_transaction(tx);
        }
    }

    /// Appends each transaction's CSV line, with no header line.
    pub fn write_to_csv_file(&mut self, writer: &mut Vec<u8>) -> (r: Result<(), ParserError>)
        ensures
            r is Ok,
            final(self)@ == old(self)@,
            final(writer)@ == old(writer)@ + csv_records(old(self)@),
    {
        let txs = self.get_transactions();
        let mut i: usize = 0;
        assert(csv_records(self@.take(0)) =~= Seq::<u8>::empty());
        while i < txs.len()
            invariant
                txs_view(txs@) == self@,
                i <= txs@.len(),
                writer@ == old(writer)@ + csv_records(self@.take(i as int)),
            decreases txs@.len() - i,
        {
            txs[i].write_csv_line(writer);
            proof {
                assert(txs@[i as int]@ == self@[i as int]);
                lemma_csv_records_push(self@.take(i as int), self@[i as int]);
                assert(self@.take(i as int).push(self@[i as int]) =~= self@.take(i + 1));
            }
            i = i + 1;
        }
        assert(self@.take(txs@.len() as int) =~= self@);
        Ok(())
    }

    /// Reads records until the input is over; the first failing record ends
    /// the reading with its error.
    pub fn new_from_bin_file(reader: &mut InputBuffer) -> (r: Result<Report, ParserError>)
        ensures
            report_result_view(r) == parse_bin_all(old(reader)@),
            r is Ok ==> final(reader)@.len() == 0,
    {
        <Report as crate::bin_format::BinFormatIO<Report>>::new_from_bin_reader(reader)
    }

    /// Appends the records of the transactions; stops at the first one whose
    /// body would not fit the size field, with `BinTxWriteError`.
    pub fn write_to_bin_file(&mut self, writer: &mut Vec<u8>) -> (r: Result<(), ParserError>)
        ensures
            final(self)@ == old(self)@,
            final(writer)@ == old(writer)@ + bin_records(old(self)@.take(first_unencodable(old(self)@))),
            r is Ok <==> first_unencodable(old(self)@) == old(self)@.len(),
            r matches Err(e) ==> e@ == ParserErrorView::BinTxWriteError,
    {
        <Report as crate::bin_format::BinFormatIO<Report>>::write_as_bin_to_writer(self, writer)
    }

    /// Reads text lines into a field map: comment lines are skipped, a
    /// `KEY: value` line sets a field, other lines are skipped, and an empty
    /// line closes the record, which is kept where it is complete and reads.
    pub fn new_from_text_file(reader: &mut InputBuffer) -> (r: Result<Report, ParserError>)
        ensures
            report_result_view(r) == map_text_lines(old(reader)@, Map::empty()),
            r is Ok ==> final(reader)@.len() == 0,
    {
        let mut new_report = Report::new();
        let mut cur_tx_hashmap: StringHashMap<String> = StringHashMap::new();
        assert(fields_view(cur_tx_hashmap@) =~= Map::<Seq<char>, Seq<char>>::empty());
        assert forall|ts: Seq<TransactionView>| #![auto] Seq::<TransactionView>::empty() + ts =~= ts by {}
        loop
            invariant
                map_text_lines(old(reader)@, Map::empty()) == prepend(
                    new_report@,
                    map_text_lines(reader@, fields_view(cur_tx_hashmap@)),
                ),
            decreases reader@.len(),
        {
            let ghost before = reader@;
            let ghost m = fields_view(cur_tx_hashmap@);
            let line = match reader.next_line() {
                Some(l) => l,
                None => {
                    assert(new_report@ + Seq::<TransactionView>::empty() =~= new_report@);
                    return Ok(new_report);
                },
            };
            proof {
                lemma_after_line_shorter(before);
            }
            let text = match str_from_utf8(line.as_slice()) {
                Some(t) => t,
                None => {
                    return Err(ParserError::TextLineReadError);
                },
            };
            let v = chars_of(text);
            let n = whole(&v);
            if n > 0 && v[0] == '#' {
                continue;
            } else if n == 0 {
                if Report::tx_has_all_fields(&cur_tx_hashmap) {
                    match Report::tx_from_tx_hashmap(&cur_tx_hashmap) {
                        Ok(transaction) => {
                            proof {
                                assert forall|ts: Seq<TransactionView>| #![auto] new_report@ + (
                                seq![transaction@] + ts) =~= new_report@.push(transaction@) + ts by {}
                            }
                            new_report.add_transaction(transaction);
                        },
                        Err(_) => {},
                    }
                }
                cur_tx_hashmap.clear();
                assert(fields_view(cur_tx_hashmap@) =~= Map::<Seq<char>, Seq<char>>::empty());
                continue;
            } else {
                let (a, b) = trim_bounds(&v, 0, n);
                let toks = split_pair_bounds(&v, a, b, ':', ' ');
                if toks.len() != 2 {
                    continue;
                }
                let key = text_range(text, toks[0].0, toks[0].1);
                let value = text_range(text, toks[1].0, toks[1].1);
                proof {
                    let ts = split_on_pair(trim(v@), ':', ' ');
                    assert(key@ == ts[0]);
                    assert(value@ == ts[1]);
                }
                cur_tx_hashmap.insert(key, value);
                proof {
                    let ts = split_on_pair(trim(v@), ':', ' ');
                    assert(fields_view(cur_tx_hashmap@) =~= m.insert(ts[0], ts[1]));
                }
            }
        }
    }

    /// Appends each transaction's text record.
    pub fn write_to_text_file(&mut self, writer: &mut Vec<u8>) -> (r: Result<(), ParserError>)
        ensures
            r is Ok,
            final(self)@ == old(self)@,
            final(writer)@ == old(writer)@ + text_records(old(self)@),
    {
        <Report as crate::text_format::TextFormatIO<Report>>::write_as_text_to_writer(self, writer)
    }
}

/// Whether `s` holds no `a` directly followed by `b`.
pub open spec fn no_pair(s: Seq<char>, a: char, b: char) -> bool {
    forall|j: int| 0 <= j && j + 1 < s.len() ==> !(#[trigger] s[j] == a && s[j + 1] == b)
}

/// A value that a field line of a text file carries back as written: not
/// empty, no line end, not ending in whitespace, which the reader trims off,
/// and no `: `, on which the reader splits the line.
pub open spec fn text_file_safe(d: Seq<char>) -> bool {
    &&& d.len() > 0
    &&& !d.contains('\n')
    &&& !is_ws(d.last())
    &&& no_pair(d, ':', ' ')
}

/// A text without `a` holds no `a` followed by anything.
pub proof fn lemma_no_pair_without(s: Seq<char>, a: char, b: char)
    requires
        !s.contains(a),
    ensures
        no_pair(s, a, b),
{
    assert forall|j: int| 0 <= j && j + 1 < s.len() implies !(#[trigger] s[j] == a && s[j + 1] == b) by {
        if s[j] == a {
            assert(s.contains(a));
        }
    }
}

/// The written numbers and names are values that read back.
pub proof fn lemma_text_file_safe_values(n: u64, k: TransactionType, st: TransactionStatus)
    ensures
        text_file_safe(decimal(n as nat)),
        text_file_safe(kind_name(k)),
        text_file_safe(status_name(st)),
        lenient_kind(kind_name(k)) == k,
        lenient_status(status_name(st)) == st,
{
    let d = decimal(n as nat);
    lemma_decimal(n as nat);
    lemma_parse_decimal(n);
    lemma_digits_without(d, '\n');
    lemma_digits_without(d, ':');
    lemma_no_pair_without(d, ':', ' ');
    reveal_strlit("DEPOSIT");
    reveal_strlit("TRANSFER");
    reveal_strlit("WITHDRAWAL");
    reveal_strlit("UNKNOWN");
    reveal_strlit("SUCCESS");
    reveal_strlit("FAILURE");
    reveal_strlit("PENDING");
    lemma_names(k, st);
    let kn = kind_name(k);
    let sn = status_name(st);
    assert(!kn.contains(':')) by {
        if kn.contains(':') {
            let j = choose|j: int| 0 <= j < kn.len() && kn[j] == ':';
            assert(kn[j] != ':');
        }
    }
    assert(!sn.contains(':')) by {
        if sn.contains(':') {
            let j = choose|j: int| 0 <= j < sn.len() && sn[j] == ':';
            assert(sn[j] != ':');
        }
    }
    lemma_no_pair_without(kn, ':', ' ');
    lemma_no_pair_without(sn, ':', ' ');
}

/// A field line `KEY: value`, read by the text file reader, sets the field.
pub proof fn lemma_text_file_field_line(
    i: int,
    v: Seq<char>,
    rest: Seq<u8>,
    m: Map<Seq<char>, Seq<char>>,
)
    requires
        0 <= i < 8,
        text_file_safe(v),
    ensures
        map_text_lines(enc_line(field_key(i) + seq![':', ' '] + v) + rest, m) == map_text_lines(
            rest,
            m.insert(field_key(i), v),
        ),
{
    let key = field_key(i);
    let line = key + seq![':', ' '] + v;
    lemma_field_keys(i);
    assert(!line.contains('\n')) by {
        if line.contains('\n') {
            let j = choose|j: int| 0 <= j < line.len() && line[j] == '\n';
            if j < key.len() {
                assert(key[j] == '\n');
            } else if j >= key.len() + 2 {
                assert(v[j - key.len() - 2] == '\n');
            }
        }
    }
    assert(line.last() == v.last());
    lemma_read_line_back(line, rest);
    let s = enc_line(line) + rest;
    assert(line[0] == key[0]);
    assert(line[0] != '#') by {
        reveal_strlit("TX_ID");
        reveal_strlit("TX_TYPE");
        reveal_strlit("FROM_USER_ID");
        reveal_strlit("TO_USER_ID");
        reveal_strlit("AMOUNT");
        reveal_strlit("TIMESTAMP");
        reveal_strlit("STATUS");
        reveal_strlit("DESCRIPTION");
    }
    assert(trim_start(line) == line);
    assert(trim_end(line) == line);
    assert(trim(line) == line);
    let k = key.len() as int;
    assert forall|j: int| 0 <= j < k && j + 1 < line.len() implies !(#[trigger] line[j] == ':'
        && line[j + 1] == ' ') by {
        assert(line[j] == key[j]);
        assert(!key.contains(':'));
        if key[j] == ':' {
            assert(key.contains(':'));
        }
    }
    lemma_find_pair(line, ':', ' ', k);
    assert(line.take(k) =~= key);
    assert(line.skip(k + 2) =~= v);
    assert(is_ws(' '));
    lemma_find_pair(v, ':', ' ', v.len() as int);
    assert(split_on_pair(v, ':', ' ') =~= seq![v]);
    assert(split_on_pair(line, ':', ' ') =~= seq![key, v]);
}

/// A written record, read by the text file reader, gives its transaction;
/// what follows is read with no fields.
#[verifier::rlimit(60)]
pub proof fn lemma_text_file_record(t: TransactionView, rest: Seq<u8>)
    requires
        text_file_safe(t.description),
    ensures
        map_text_lines(text_record(t) + rest, Map::empty()) == prepend(
            seq![t],
            map_text_lines(rest, Map::empty()),
        ),
{
    let ls = text_lines(t);
    lemma_field_prefixes();
    lemma_text_file_safe_values(t.tx_id, t.tx_type, t.status);
    lemma_text_file_safe_values(t.from_user_id, t.tx_type, t.status);
    lemma_text_file_safe_values(t.to_user_id, t.tx_type, t.status);
    lemma_text_file_safe_values(t.amount, t.tx_type, t.status);
    lemma_text_file_safe_values(t.timestamp, t.tx_type, t.status);
    lemma_parse_decimal(t.tx_id);
    lemma_parse_decimal(t.from_user_id);
    lemma_parse_decimal(t.to_user_id);
    lemma_parse_decimal(t.amount);
    lemma_parse_decimal(t.timestamp);
    let r9 = enc_line(ls[9]) + rest;
    let r8 = enc_line(ls[8]) + r9;
    let r7 = enc_line(ls[7]) + r8;
    let r6 = enc_line(ls[6]) + r7;
    let r5 = enc_line(ls[5]) + r6;
    let r4 = enc_line(ls[4]) + r5;
    let r3 = enc_line(ls[3]) + r4;
    let r2 = enc_line(ls[2]) + r3;
    let r1 = enc_line(ls[1]) + r2;
    let r0 = enc_line(ls[0]) + r1;
    assert(text_record(t) + rest =~= r0);
    reveal_strlit("# Запись о транзакции");
    let cm = text_comment();
    assert(!cm.contains('\n')) by {
        if cm.contains('\n') {
            let j = choose|j: int| 0 <= j < cm.len() && cm[j] == '\n';
            assert(cm[j] != '\n');
        }
    }
    lemma_read_line_back(cm, r1);
    let m0 = Map::<Seq<char>, Seq<char>>::empty();
    assert(map_text_lines(r0, m0) == map_text_lines(r1, m0));
    let m1 = m0.insert(field_key(0), decimal(t.tx_id as nat));
    lemma_text_file_field_line(0, decimal(t.tx_id as nat), r2, m0);
    let m2 = m1.insert(field_key(1), kind_name(t.tx_type));
    lemma_text_file_field_line(1, kind_name(t.tx_type), r3, m1);
    let m3 = m2.insert(field_key(2), decimal(t.from_user_id as nat));
    lemma_text_file_field_line(2, decimal(t.from_user_id as nat), r4, m2);
    let m4 = m3.insert(field_key(3), decimal(t.to_user_id as nat));
    lemma_text_file_field_line(3, decimal(t.to_user_id as nat), r5, m3);
    let m5 = m4.insert(field_key(4), decimal(t.amount as nat));
    lemma_text_file_field_line(4, decimal(t.amount as nat), r6, m4);
    let m6 = m5.insert(field_key(5), decimal(t.timestamp as nat));
    lemma_text_file_field_line(5, decimal(t.timestamp as nat), r7, m5);
    let m7 = m6.insert(field_key(6), status_name(t.status));
    lemma_text_file_field_line(6, status_name(t.status), r8, m6);
    let m8 = m7.insert(field_key(7), t.description);
    lemma_text_file_field_line(7, t.description, r9, m7);
    assert(map_text_lines(r0, m0) == map_text_lines(r9, m8));
    // the keys differ from each other
    assert forall|i: int, j: int| 0 <= i < j < 8 implies field_key(i) != field_key(j) by {
        lemma_field_keys(i);
        lemma_field_keys(j);
    }
    assert(has_all_fields(m8)) by {
        assert forall|i: int| 0 <= i < 8 implies m8.contains_key(#[trigger] required_keys()[i]) by {
            assert(required_keys()[i] == field_key(i));
        }
    }
    assert(m8["TX_ID"@] == decimal(t.tx_id as nat));
    assert(m8["TX_TYPE"@] == kind_name(t.tx_type));
    assert(m8["FROM_USER_ID"@] == decimal(t.from_user_id as nat));
    assert(m8["TO_USER_ID"@] == decimal(t.to_user_id as nat));
    assert(m8["AMOUNT"@] == decimal(t.amount as nat));
    assert(m8["TIMESTAMP"@] == decimal(t.timestamp as nat));
    assert(m8["STATUS"@] == status_name(t.status));
    assert(m8["DESCRIPTION"@] == t.description);
    assert(map_tx(m8) == Ok::<TransactionView, Seq<char>>(t));
    // the blank line ends the record
    lemma_read_line_back(Seq::<char>::empty(), rest);
    assert(decode_utf8(encode_utf8(Seq::<char>::empty())) =~= Seq::<char>::empty());
    assert(map_text_lines(r9, m8) == prepend(seq![t], map_text_lines(rest, Map::empty())));
}

/// The records of transactions with values that read back give the
/// transactions to the text file reader.
pub proof fn lemma_text_file_records(ts: Seq<TransactionView>)
    requires
        forall|i: int| 0 <= i < ts.len() ==> text_file_safe((#[trigger] ts[i]).description),
    ensures
        map_text_lines(text_records(ts), Map::empty()) == Ok::<
            Seq<TransactionView>,
            ParserErrorView,
        >(ts),
    decreases ts.len(),
{
    if ts.len() == 0 {
        assert(text_records(ts) =~= Seq::<u8>::empty());
        assert(ts =~= Seq::<TransactionView>::empty());
    } else {
        let rest = text_records(ts.drop_first());
        assert(text_file_safe(ts[0].description));
        lemma_text_file_record(ts[0], rest);
        lemma_text_file_records(ts.drop_first());
        assert(text_records(ts) == text_record(ts[0]) + rest);
        assert(seq![ts[0]] + ts.drop_first() =~= ts);
    }
}

/// Law: what `write_to_text_file` writes for a report whose descriptions are
/// not empty, hold no line end and no `: `, and do not end in whitespace,
/// `new_from_text_file` reads back as the same transactions, in order.
pub proof fn law_text_file_write_then_read(ts: Seq<TransactionView>)
    requires
        forall|i: int| 0 <= i < ts.len() ==> text_file_safe((#[trigger] ts[i]).description),
    ensures
        map_text_lines(text_records(ts), Map::empty()) == Ok::<
            Seq<TransactionView>,
            ParserErrorView,
        >(ts),
{
    lemma_text_file_records(ts);
}

/// A name that the strict CSV reader knows, the lenient reader reads as the
/// same kind or status.
pub proof fn lemma_lenient_names_agree(s: Seq<char>)
    ensures
        kind_of_name(s) matches Some(k) ==> lenient_kind(s) == k,
        status_of_name(s) matches Some(st) ==> lenient_status(s) == st,
{
    reveal_strlit("DEPOSIT");
    reveal_strlit("TRANSFER");
    reveal_strlit("WITHDRAWAL");
    reveal_strlit("UNKNOWN");
    reveal_strlit("SUCCESS");
    reveal_strlit("FAILURE");
    reveal_strlit("PENDING");
    if s == "TRANSFER"@ {
        assert(s != "WITHDRAWAL"@) by {
            assert(s.len() != "WITHDRAWAL"@.len());
        }
    }
}

/// A written CSV line, read by the lenient reader, gives its transaction;
/// what follows is read on.
pub proof fn lemma_lenient_csv_record(t: TransactionView, rest: Seq<u8>)
    requires
        csv_safe(t.description),
    ensures
        lenient_csv_lines(csv_record(t) + rest) == prepend(seq![t], lenient_csv_lines(rest)),
{
    let l = csv_line(t);
    lemma_csv_line_reads_back(t);
    lemma_encode_utf8_without_ascii(l, '\n');
    lemma_encode_utf8_last(l);
    let e = encode_utf8(l);
    assert(('\n' as u32) as u8 == 10u8);
    lemma_line_of_terminated(e, rest);
    encode_utf8_valid_utf8(l);
    encode_utf8_decode_utf8(l);
    let s = csv_record(t) + rest;
    assert(s.len() > 0);
    let f = split_on(l, ',');
    assert(csv_parse_fields(f, l) == Ok::<TransactionView, ParserErrorView>(t));
    lemma_lenient_names_agree(f[1]);
    lemma_lenient_names_agree(f[6]);
    assert(lenient_csv_tx(f) == t);
}

/// The written lines of transactions with safe descriptions give the
/// transactions to the lenient reader.
pub proof fn lemma_lenient_csv_records(ts: Seq<TransactionView>)
    requires
        forall|i: int| 0 <= i < ts.len() ==> csv_safe((#[trigger] ts[i]).description),
    ensures
        lenient_csv_lines(csv_records(ts)) == Ok::<Seq<TransactionView>, ParserErrorView>(ts),
    decreases ts.len(),
{
    if ts.len() == 0 {
        assert(csv_records(ts) =~= Seq::<u8>::empty());
        assert(ts =~= Seq::<TransactionView>::empty());
    } else {
        let rest = csv_records(ts.drop_first());
        assert(csv_safe(ts[0].description));
        lemma_lenient_csv_record(ts[0], rest);
        lemma_lenient_csv_records(ts.drop_first());
        assert(csv_records(ts) == csv_record(ts[0]) + rest);
        assert(seq![ts[0]] + ts.drop_first() =~= ts);
    }
}

/// Law: after a first line of any bytes, the lines that the CSV writer writes
/// for transactions whose descriptions hold no comma and no line end and do
/// not end in whitespace are read by `new_from_csv_file` as the same
/// transactions, in order, each column as the writer wrote it: the first
/// line is never read as a transaction.
pub proof fn law_csv_file_reads_written_lines(h: Seq<u8>, ts: Seq<TransactionView>)
    requires
        !h.contains(10u8),
        forall|i: int| 0 <= i < ts.len() ==> csv_safe((#[trigger] ts[i]).description),
    ensures
        lenient_csv(h.push(10u8) + csv_records(ts)) == Ok::<Seq<TransactionView>, ParserErrorView>(
            ts,
        ),
{
    let s = h.push(10u8) + csv_records(ts);
    assert forall|j: int| 0 <= j < h.len() implies s[j] != 10u8 by {
        assert(s[j] == h[j]);
        if h[j] == 10u8 {
            assert(h.contains(10u8));
        }
    }
    lemma_newline_index(s, h.len() as int);
    assert(s.skip(h.len() as int + 1) =~= csv_records(ts));
    lemma_lenient_csv_records(ts);
}

/// Whether `a` is made of whole lines: empty, or ending with a line end.
pub open spec fn whole_lines(a: Seq<u8>) -> bool {
    a.len() == 0 || a.last() == 10u8
}

/// A comment line, read by the text file reader, is passed over with the
/// fields read so far kept, whether or not it ends in `\r`.
pub proof fn lemma_text_file_comment_line(c: Seq<char>, b: Seq<u8>, m: Map<Seq<char>, Seq<char>>)
    requires
        c.len() > 0,
        c[0] == '#',
        !c.contains('\n'),
    ensures
        map_text_lines(enc_line(c) + b, m) == map_text_lines(b, m),
{
    if c.last() != '\r' {
        lemma_read_line_back(c, b);
    } else {
        let c1 = c.drop_last();
        assert(c.len() >= 2);
        assert(c1[0] == '#');
        lemma_encode_utf8_concat(c1, seq!['\r']);
        assert(c1 + seq!['\r'] =~= c);
        lemma_encode_utf8_single('\r');
        assert(('\r' as u32) == 13u32);
        assert((13u32 & 0x7Fu32) as u8 == 13u8) by (bit_vector);
        assert(encode_scalar('\r' as u32) =~= seq![13u8]);
        let e = encode_utf8(c);
        assert(e =~= encode_utf8(c1).push(13u8));
        lemma_encode_utf8_without_ascii(c, '\n');
        assert(('\n' as u32) as u8 == 10u8);
        let s = enc_line(c) + b;
        assert forall|j: int| 0 <= j < e.len() implies s[j] != 10u8 by {
            assert(s[j] == e[j]);
            if e[j] == 10u8 {
                assert(e.contains(10u8));
            }
        }
        lemma_newline_index(s, e.len() as int);
        assert(s.take(e.len() as int) =~= e);
        assert(e.drop_last() =~= encode_utf8(c1));
        assert(line_of(s) == encode_utf8(c1));
        assert(after_line(s) =~= b);
        encode_utf8_valid_utf8(c1);
        encode_utf8_decode_utf8(c1);
    }
}

/// Law: the text file reader passes over comment lines, lines whose text
/// starts with `#`, wherever they stand: putting one between two lines of any
/// input, with any fields read so far, changes nothing of what
/// `new_from_text_file` gives.
pub proof fn law_text_file_comment_lines_ignored(
    a: Seq<u8>,
    c: Seq<char>,
    b: Seq<u8>,
    m: Map<Seq<char>, Seq<char>>,
)
    requires
        whole_lines(a),
        c.len() > 0,
        c[0] == '#',
        !c.contains('\n'),
    ensures
        map_text_lines(a + enc_line(c) + b, m) == map_text_lines(a + b, m),
    decreases a.len(),
{
    if a.len() == 0 {
        assert(a + enc_line(c) + b =~= enc_line(c) + b);
        assert(a + b =~= b);
        lemma_text_file_comment_line(c, b, m);
    } else {
        lemma_newline_index_facts(a);
        let i = newline_index(a);
        if i == a.len() {
            assert(a[a.len() - 1] != 10u8);
        }
        assert(i < a.len());
        assert(a[i] == 10u8);
        let x = a + enc_line(c) + b;
        let y = a + b;
        assert forall|j: int| 0 <= j < i implies x[j] != 10u8 && y[j] != 10u8 by {
            assert(x[j] == a[j]);
            assert(y[j] == a[j]);
        }
        lemma_newline_index(x, i);
        lemma_newline_index(y, i);
        assert(x.take(i) =~= a.take(i));
        assert(y.take(i) =~= a.take(i));
        let a2 = a.skip(i + 1);
        assert(after_line(x) =~= a2 + enc_line(c) + b);
        assert(after_line(y) =~= a2 + b);
        assert(whole_lines(a2));
        assert(line_of(x) == line_of(y));
        let l = line_of(x);
        if valid_utf8(l) {
            let cc = decode_utf8(l);
            if cc.len() > 0 && cc[0] == '#' {
                law_text_file_comment_lines_ignored(a2, c, b, m);
            } else if cc.len() == 0 {
                law_text_file_comment_lines_ignored(a2, c, b, Map::empty());
            } else {
                let toks = split_on_pair(trim(cc), ':', ' ');
                if toks.len() != 2 {
                    law_text_file_comment_lines_ignored(a2, c, b, m);
                } else {
                    law_text_file_comment_lines_ignored(a2, c, b, m.insert(toks[0], toks[1]));
                }
            }
        }
    }
}

} // verus!
