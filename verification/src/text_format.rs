//! The text format: one record per transaction, a `KEY: value` line for each
//! of its eight fields in any order, comment lines starting with `#`, and a
//! blank line after each record.

use crate::csv_format::{
    kind_of_name, lemma_digits_without, lemma_names, line_read_agrees, status_of_name,
    text_range, LineStep,
};
use crate::error::{ParserError, ParserErrorView};
use crate::input::{
    after_line, append_str, lemma_after_line_shorter, lemma_encode_utf8_last,
    lemma_line_text_no_newline,
    lemma_encode_utf8_without_ascii, lemma_line_of_terminated, line_of, str_from_utf8,
    InputBuffer,
};
use crate::lexical::{
    chars_of, decimal, find_char, find_char_in, is_trimmed, is_ws, lemma_decimal,
    lemma_find_char, lemma_find_char_bounds, lemma_parse_decimal, lemma_subrange_within,
    lemma_trim_facts, lemma_within_lacks, lemma_within_trans, parse_u64_in, parse_u64_spec, push_decimal, range_is,
    trim, trim_bounds, trim_end, trim_start,
};
use crate::report::{prepend, report_result_view, txs_view, Report};
use crate::transaction::{
    kind_name, status_name, Transaction, TransactionStatus, TransactionType, TransactionView,
};
use vstd::prelude::*;
use vstd::string::*;
use vstd::utf8::*;

verus! {

/// Reading and writing a value in the text format.
pub trait TextFormatIO<InternalType> {
    /// Reads a value from the lines of `reader`.
    fn new_from_text_reader(reader: &mut InputBuffer) -> Result<InternalType, ParserError>;

    /// Appends the value's records to `writer`.
    fn write_as_text_to_writer(&mut self, writer: &mut Vec<u8>) -> Result<(), ParserError>;
}

/// The key of the field at position `i`: the positions are those of the
/// fields of a transaction, in order.
pub open spec fn field_key(i: int) -> Seq<char> {
    if i == 0 {
        "TX_ID"@
    } else if i == 1 {
        "TX_TYPE"@
    } else if i == 2 {
        "FROM_USER_ID"@
    } else if i == 3 {
        "TO_USER_ID"@
    } else if i == 4 {
        "AMOUNT"@
    } else if i == 5 {
        "TIMESTAMP"@
    } else if i == 6 {
        "STATUS"@
    } else {
        "DESCRIPTION"@
    }
}

/// The position of the field that `key` names.
pub open spec fn field_index(key: Seq<char>) -> Option<int> {
    if key == "TX_ID"@ {
        Some(0)
    } else if key == "TX_TYPE"@ {
        Some(1)
    } else if key == "FROM_USER_ID"@ {
        Some(2)
    } else if key == "TO_USER_ID"@ {
        Some(3)
    } else if key == "AMOUNT"@ {
        Some(4)
    } else if key == "TIMESTAMP"@ {
        Some(5)
    } else if key == "STATUS"@ {
        Some(6)
    } else if key == "DESCRIPTION"@ {
        Some(7)
    } else {
        None
    }
}

/// No field of a record read so far.
pub open spec fn no_fields() -> Seq<Option<Seq<char>>> {
    Seq::new(8, |i: int| None::<Seq<char>>)
}

pub open spec fn all_absent(acc: Seq<Option<Seq<char>>>) -> bool {
    forall|i: int| 0 <= i < 8 ==> (#[trigger] acc[i]) is None
}

/// The position of the first field missing from `acc`, or 8.
pub open spec fn first_missing(acc: Seq<Option<Seq<char>>>) -> int
    decreases 8 - 0,
{
    if acc[0] is None {
        0
    } else if acc[1] is None {
        1
    } else if acc[2] is None {
        2
    } else if acc[3] is None {
        3
    } else if acc[4] is None {
        4
    } else if acc[5] is None {
        5
    } else if acc[6] is None {
        6
    } else if acc[7] is None {
        7
    } else {
        8
    }
}

/// The transaction of a finished record; the first missing field, then the
/// first field in order whose value does not read, fails.
pub open spec fn text_finish(acc: Seq<Option<Seq<char>>>) -> LineStep {
    let m = first_missing(acc);
    if m < 8 {
        LineStep::Fail(ParserErrorView::TextMissingField(field_key(m)))
    } else if parse_u64_spec(acc[0]->0) is None {
        LineStep::Fail(ParserErrorView::TextWrongFieldValue(acc[0]->0))
    } else if kind_of_name(acc[1]->0) is None {
        LineStep::Fail(ParserErrorView::TextUnknownTxType(acc[1]->0))
    } else if parse_u64_spec(acc[2]->0) is None {
        LineStep::Fail(ParserErrorView::TextWrongFieldValue(acc[2]->0))
    } else if parse_u64_spec(acc[3]->0) is None {
        LineStep::Fail(ParserErrorView::TextWrongFieldValue(acc[3]->0))
    } else if parse_u64_spec(acc[4]->0) is None {
        LineStep::Fail(ParserErrorView::TextWrongFieldValue(acc[4]->0))
    } else if parse_u64_spec(acc[5]->0) is None {
        LineStep::Fail(ParserErrorView::TextWrongFieldValue(acc[5]->0))
    } else if status_of_name(acc[6]->0) is None {
        LineStep::Fail(ParserErrorView::TextUnknownTxStatus(acc[6]->0))
    } else {
        LineStep::Record(
            TransactionView {
                tx_id: parse_u64_spec(acc[0]->0)->0,
                tx_type: kind_of_name(acc[1]->0)->0,
                from_user_id: parse_u64_spec(acc[2]->0)->0,
                to_user_id: parse_u64_spec(acc[3]->0)->0,
                amount: parse_u64_spec(acc[4]->0)->0,
                timestamp: parse_u64_spec(acc[5]->0)->0,
                status: status_of_name(acc[6]->0)->0,
                description: acc[7]->0,
            },
        )
    }
}

/// Reading the rest of a record from the front of `s`, with the fields `acc`
/// read so far: what it comes to and what is left.
pub open spec fn text_scan(s: Seq<u8>, acc: Seq<Option<Seq<char>>>) -> (LineStep, Seq<u8>)
    decreases s.len(),
{
    if s.len() == 0 {
        if all_absent(acc) {
            (LineStep::End, s)
        } else {
            (text_finish(acc), s)
        }
    } else {
        let l = line_of(s);
        let rest = after_line(s);
        proof {
            lemma_after_line_shorter(s);
        }
        if !valid_utf8(l) {
            (LineStep::Fail(ParserErrorView::TextLineReadError), rest)
        } else {
            let c = trim(decode_utf8(l));
            if c.len() == 0 {
                if all_absent(acc) {
                    text_scan(rest, acc)
                } else {
                    (text_finish(acc), rest)
                }
            } else if c[0] == '#' {
                text_scan(rest, acc)
            } else {
                let k = find_char(c, ':');
                if k >= c.len() {
                    (LineStep::Fail(ParserErrorView::TextWrongFieldFormat(c)), rest)
                } else {
                    let key = trim(c.take(k));
                    let val = trim(c.skip(k + 1));
                    match field_index(key) {
                        None => (LineStep::Fail(ParserErrorView::TextWrongFieldName(key)), rest),
                        Some(i) => if acc[i] is Some {
                            (LineStep::Fail(ParserErrorView::TextDuplicateField(key)), rest)
                        } else {
                            text_scan(rest, acc.update(i, Some(val)))
                        },
                    }
                }
            }
        }
    }
}

/// A scan that finds no record leaves nothing.
pub proof fn lemma_text_scan_end(s: Seq<u8>, acc: Seq<Option<Seq<char>>>)
    ensures
        text_scan(s, acc).0 is End ==> text_scan(s, acc).1.len() == 0,
    decreases s.len(),
{
    if s.len() > 0 {
        lemma_after_line_shorter(s);
        let l = line_of(s);
        let rest = after_line(s);
        if valid_utf8(l) {
            let c = trim(decode_utf8(l));
            if c.len() == 0 || c[0] == '#' {
                lemma_text_scan_end(rest, acc);
            } else {
                let k = find_char(c, ':');
                if k < c.len() {
                    let key = trim(c.take(k));
                    let val = trim(c.skip(k + 1));
                    if let Some(i) = field_index(key) {
                        if acc[i] is None {
                            lemma_text_scan_end(rest, acc.update(i, Some(val)));
                        }
                    }
                }
            }
        }
    }
}

/// Reading one record from the front of `s`.
pub open spec fn text_step(s: Seq<u8>) -> (LineStep, Seq<u8>) {
    text_scan(s, no_fields())
}

pub proof fn lemma_text_scan_shorter(s: Seq<u8>, acc: Seq<Option<Seq<char>>>)
    ensures
        text_scan(s, acc).1.len() <= s.len(),
        !(text_scan(s, acc).0 is End) && all_absent(acc) ==> text_scan(s, acc).1.len() < s.len()
            || s.len() == 0,
    decreases s.len(),
{
    if s.len() > 0 {
        lemma_after_line_shorter(s);
        let l = line_of(s);
        let rest = after_line(s);
        if valid_utf8(l) {
            let c = trim(decode_utf8(l));
            if c.len() == 0 {
                lemma_text_scan_shorter(rest, acc);
            } else if c[0] == '#' {
                lemma_text_scan_shorter(rest, acc);
            } else {
                let k = find_char(c, ':');
                if k < c.len() {
                    let key = trim(c.take(k));
                    let val = trim(c.skip(k + 1));
                    if let Some(i) = field_index(key) {
                        if acc[i] is None {
                            lemma_text_scan_shorter(rest, acc.update(i, Some(val)));
                        }
                    }
                }
            }
        }
    }
}

/// A step that does not end the input moves forward.
pub proof fn lemma_text_step_shorter(s: Seq<u8>)
    ensures
        text_step(s).1.len() <= s.len(),
        !(text_step(s).0 is End) ==> text_step(s).1.len() < s.len(),
{
    lemma_text_scan_shorter(s, no_fields());
    assert(all_absent(no_fields()));
    if s.len() == 0 {
        assert(text_step(s).0 is End);
    }
}

/// Reading records until none is left or one fails.
pub open spec fn text_all(s: Seq<u8>) -> Result<Seq<TransactionView>, ParserErrorView>
    decreases s.len(),
{
    let (st, rest) = text_step(s);
    proof {
        lemma_text_step_shorter(s);
    }
    match st {
        LineStep::End => Ok(Seq::empty()),
        LineStep::Fail(e) => Err(e),
        LineStep::Record(t) => prepend(seq![t], text_all(rest)),
    }
}

/// The fields read so far, as views.
pub open spec fn slots_view(v: Seq<Option<String>>) -> Seq<Option<Seq<char>>> {
    v.map_values(
        |o: Option<String>|
            match o {
                Some(s) => Some(s@),
                None => None,
            },
    )
}

/// The position of the field whose key the characters `v[lo..hi]` are.
fn field_index_in(v: &Vec<char>, lo: usize, hi: usize) -> (r: Option<usize>)
    requires
        lo <= hi <= v@.len(),
    ensures
        match field_index(v@.subrange(lo as int, hi as int)) {
            Some(i) => r == Some(i as usize),
            None => r is None,
        },
{
    if range_is(v, lo, hi, "TX_ID") {
        Some(0)
    } else if range_is(v, lo, hi, "TX_TYPE") {
        Some(1)
    } else if range_is(v, lo, hi, "FROM_USER_ID") {
        Some(2)
    } else if range_is(v, lo, hi, "TO_USER_ID") {
        Some(3)
    } else if range_is(v, lo, hi, "AMOUNT") {
        Some(4)
    } else if range_is(v, lo, hi, "TIMESTAMP") {
        Some(5)
    } else if range_is(v, lo, hi, "STATUS") {
        Some(6)
    } else if range_is(v, lo, hi, "DESCRIPTION") {
        Some(7)
    } else {
        None
    }
}

/// The key of the field at position `i`.
fn field_key_str(i: usize) -> (r: &'static str)
    requires
        i < 8,
    ensures
        r@ == field_key(i as int),
{
    if i == 0 {
        "TX_ID"
    } else if i == 1 {
        "TX_TYPE"
    } else if i == 2 {
        "FROM_USER_ID"
    } else if i == 3 {
        "TO_USER_ID"
    } else if i == 4 {
        "AMOUNT"
    } else if i == 5 {
        "TIMESTAMP"
    } else if i == 6 {
        "STATUS"
    } else {
        "DESCRIPTION"
    }
}

/// `u64::from_str` on a string.
fn parse_u64_str(s: &String) -> (r: Option<u64>)
    ensures
        r == parse_u64_spec(s@),
{
    let v = chars_of(s.as_str());
    assert(v@.subrange(0, v@.len() as int) =~= v@);
    parse_u64_in(&v, 0, v.len())
}

/// The kind that a string names.
fn kind_of_str(s: &String) -> (r: Option<TransactionType>)
    ensures
        r == kind_of_name(s@),
{
    let v = chars_of(s.as_str());
    assert(v@.subrange(0, v@.len() as int) =~= v@);
    if range_is(&v, 0, v.len(), "DEPOSIT") {
        Some(TransactionType::Deposit)
    } else if range_is(&v, 0, v.len(), "TRANSFER") {
        Some(TransactionType::Transfer)
    } else if range_is(&v, 0, v.len(), "WITHDRAWAL") {
        Some(TransactionType::Withdrawal)
    } else if range_is(&v, 0, v.len(), "UNKNOWN") {
        Some(TransactionType::Unknown)
    } else {
        None
    }
}

/// The status that a string names.
fn status_of_str(s: &String) -> (r: Option<TransactionStatus>)
    ensures
        r == status_of_name(s@),
{
    let v = chars_of(s.as_str());
    assert(v@.subrange(0, v@.len() as int) =~= v@);
    if range_is(&v, 0, v.len(), "SUCCESS") {
        Some(TransactionStatus::Success)
    } else if range_is(&v, 0, v.len(), "FAILURE") {
        Some(TransactionStatus::Failure)
    } else if range_is(&v, 0, v.len(), "PENDING") {
        Some(TransactionStatus::Pending)
    } else if range_is(&v, 0, v.len(), "UNKNOWN") {
        Some(TransactionStatus::Unknown)
    } else {
        None
    }
}

/// The value read for field `i`, where there is one.
fn slot(slots: &Vec<Option<String>>, i: usize) -> (r: &String)
    requires
        i < slots@.len(),
        slots@[i as int] is Some,
    ensures
        r@ == slots_view(slots@)[i as int]->0,
{
    slots[i].as_ref().unwrap()
}

/// Whether no field has been read.
fn none_read(slots: &Vec<Option<String>>) -> (r: bool)
    requires
        slots@.len() == 8,
    ensures
        r == all_absent(slots_view(slots@)),
{
    let mut i: usize = 0;
    while i < 8
        invariant
            slots@.len() == 8,
            i <= 8,
            forall|j: int| 0 <= j < i ==> (#[trigger] slots_view(slots@)[j]) is None,
        decreases 8 - i,
    {
        if slots[i].is_some() {
            assert(slots_view(slots@)[i as int] is Some);
            return false;
        }
        i = i + 1;
    }
    true
}

/// The transaction of the finished record `slots`.
fn finish_text_record(slots: &Vec<Option<String>>) -> (r: Result<Transaction, ParserError>)
    requires
        slots@.len() == 8,
    ensures
        match text_finish(slots_view(slots@)) {
            LineStep::Fail(e) => r matches Err(x) && x@ == e,
            LineStep::Record(t) => r matches Ok(tx) && tx@ == t,
            LineStep::End => false,
        },
{
    let ghost acc = slots_view(slots@);
    let mut i: usize = 0;
    while i < 8
        invariant
            slots@.len() == 8,
            acc == slots_view(slots@),
            i <= 8,
            forall|j: int| 0 <= j < i ==> (#[trigger] acc[j]) is Some,
        decreases 8 - i,
    {
        if slots[i].is_none() {
            assert(first_missing(acc) == i);
            return Err(ParserError::TextMissingField(field_key_str(i).to_owned()));
        }
        i = i + 1;
    }
    assert(first_missing(acc) == 8);
    let tx_id = match parse_u64_str(slot(slots, 0)) {
        Some(x) => x,
        None => {
            return Err(ParserError::TextWrongFieldValue(slot(slots, 0).clone()));
        },
    };
    let tx_type = match kind_of_str(slot(slots, 1)) {
        Some(x) => x,
        None => {
            return Err(ParserError::TextUnknownTxType(slot(slots, 1).clone()));
        },
    };
    let from_user_id = match parse_u64_str(slot(slots, 2)) {
        Some(x) => x,
        None => {
            return Err(ParserError::TextWrongFieldValue(slot(slots, 2).clone()));
        },
    };
    let to_user_id = match parse_u64_str(slot(slots, 3)) {
        Some(x) => x,
        None => {
            return Err(ParserError::TextWrongFieldValue(slot(slots, 3).clone()));
        },
    };
    let amount = match parse_u64_str(slot(slots, 4)) {
        Some(x) => x,
        None => {
            return Err(ParserError::TextWrongFieldValue(slot(slots, 4).clone()));
        },
    };
    let timestamp = match parse_u64_str(slot(slots, 5)) {
        Some(x) => x,
        None => {
            return Err(ParserError::TextWrongFieldValue(slot(slots, 5).clone()));
        },
    };
    let status = match status_of_str(slot(slots, 6)) {
        Some(x) => x,
        None => {
            return Err(ParserError::TextUnknownTxStatus(slot(slots, 6).clone()));
        },
    };
    let description = slot(slots, 7).clone();
    Ok(
        Transaction::new(
            tx_id,
            tx_type,
            from_user_id,
            to_user_id,
            amount,
            timestamp,
            status,
            description,
        ),
    )
}

impl Transaction {
    /// Reads the next record; `None` where the input ends before any field.
    fn read_text_transaction(reader: &mut InputBuffer) -> (r: Result<Option<Transaction>, ParserError>)
        ensures
            final(reader)@ == text_step(old(reader)@).1,
            line_read_agrees(text_step(old(reader)@).0, r),
    {
        let mut slots: Vec<Option<String>> = Vec::new();
        let mut n: usize = 0;
        while n < 8
            invariant
                n <= 8,
                slots@.len() == n,
                forall|j: int| 0 <= j < n ==> (#[trigger] slots@[j]) is None,
            decreases 8 - n,
        {
            slots.push(None);
            n = n + 1;
        }
        assert(slots_view(slots@) =~= no_fields());
        loop
            invariant
                slots@.len() == 8,
                text_step(old(reader)@) == text_scan(reader@, slots_view(slots@)),
            decreases reader@.len(),
        {
            let ghost before = reader@;
            let ghost acc = slots_view(slots@);
            let line = match reader.next_line() {
                Some(l) => l,
                None => {
                    if none_read(&slots) {
                        return Ok(None);
                    }
                    return match finish_text_record(&slots) {
                        Ok(t) => Ok(Some(t)),
                        Err(e) => Err(e),
                    };
                },
            };
            proof {
                lemma_after_line_shorter(before);
            }
            let text = match str_from_utf8(line.as_slice()) {
                Some(t) => t,
                None => {
                    return Err(ParserError::TextLineReadError);
                },
            };
            let chars = chars_of(text);
            let (a, b) = trim_bounds(&chars, 0, chars.len());
            assert(chars@.subrange(0, chars@.len() as int) =~= chars@);
            let ghost c = chars@.subrange(a as int, b as int);
            if a == b {
                if !none_read(&slots) {
                    return match finish_text_record(&slots) {
                        Ok(t) => Ok(Some(t)),
                        Err(e) => Err(e),
                    };
                }
            } else if chars[a] == '#' {
            } else {
                let k = find_char_in(&chars, a, b, ':');
                if k == b {
                    return Err(ParserError::TextWrongFieldFormat(text_range(text, a, b)));
                }
                let (ka, kb) = trim_bounds(&chars, a, k);
                let (va, vb) = trim_bounds(&chars, k + 1, b);
                proof {
                    assert(c.take(k - a) =~= chars@.subrange(a as int, k as int));
                    assert(c.skip(k - a + 1) =~= chars@.subrange(k + 1, b as int));
                }
                let i = match field_index_in(&chars, ka, kb) {
                    Some(i) => i,
                    None => {
                        return Err(ParserError::TextWrongFieldName(text_range(text, ka, kb)));
                    },
                };
                if slots[i].is_some() {
                    return Err(ParserError::TextDuplicateField(text_range(text, ka, kb)));
                }
                let val = text_range(text, va, vb);
                slots.set(i, Some(val));
                proof {
                    assert(slots_view(slots@) =~= acc.update(i as int, Some(val@)));
                }
            }
        }
    }

    /// Appends the transaction's record: a comment line, its eight field
    /// lines and a blank line.
    pub fn write_text_record(&self, writer: &mut Vec<u8>)
        ensures
            final(writer)@ == old(writer)@ + text_record(self@),
    {
        let ghost w0 = writer@;
        write_line(writer, "# Запись о транзакции");
        let mut l = "TX_ID: ".to_owned();
        push_decimal(&mut l, self.tx_id);
        write_line(writer, l.as_str());
        let mut l = "TX_TYPE: ".to_owned();
        l.append(self.tx_type.name());
        write_line(writer, l.as_str());
        let mut l = "FROM_USER_ID: ".to_owned();
        push_decimal(&mut l, self.from_user_id);
        write_line(writer, l.as_str());
        let mut l = "TO_USER_ID: ".to_owned();
        push_decimal(&mut l, self.to_user_id);
        write_line(writer, l.as_str());
        let mut l = "AMOUNT: ".to_owned();
        push_decimal(&mut l, self.amount);
        write_line(writer, l.as_str());
        let mut l = "TIMESTAMP: ".to_owned();
        push_decimal(&mut l, self.timestamp);
        write_line(writer, l.as_str());
        let mut l = "STATUS: ".to_owned();
        l.append(self.status.name());
        write_line(writer, l.as_str());
        let mut l = "DESCRIPTION: ".to_owned();
        l.append(self.description.as_str());
        write_line(writer, l.as_str());
        writer.push(10u8);
        proof {
            let t = self@;
            assert(encode_utf8(Seq::<char>::empty()) =~= Seq::<u8>::empty());
            assert(writer@ =~= w0 + text_record(t));
        }
    }
}

/// The bytes of a line with its line end.
pub open spec fn enc_line(c: Seq<char>) -> Seq<u8> {
    encode_utf8(c).push(10u8)
}

/// Appends `s` and a line end.
fn write_line(writer: &mut Vec<u8>, s: &str)
    ensures
        final(writer)@ == old(writer)@ + enc_line(s@),
{
    append_str(writer, s);
    writer.push(10u8);
    assert(writer@ =~= old(writer)@ + enc_line(s@));
}

/// The comment line that opens each written record.
pub open spec fn text_comment() -> Seq<char> {
    "# Запись о транзакции"@
}

/// The lines of a transaction's record, blank line included.
pub open spec fn text_lines(t: TransactionView) -> Seq<Seq<char>> {
    seq![
        text_comment(),
        "TX_ID: "@ + decimal(t.tx_id as nat),
        "TX_TYPE: "@ + kind_name(t.tx_type),
        "FROM_USER_ID: "@ + decimal(t.from_user_id as nat),
        "TO_USER_ID: "@ + decimal(t.to_user_id as nat),
        "AMOUNT: "@ + decimal(t.amount as nat),
        "TIMESTAMP: "@ + decimal(t.timestamp as nat),
        "STATUS: "@ + status_name(t.status),
        "DESCRIPTION: "@ + t.description,
        Seq::<char>::empty(),
    ]
}

/// The bytes of a transaction's record.
pub open spec fn text_record(t: TransactionView) -> Seq<u8> {
    let ls = text_lines(t);
    enc_line(ls[0]) + enc_line(ls[1]) + enc_line(ls[2]) + enc_line(ls[3]) + enc_line(ls[4])
        + enc_line(ls[5]) + enc_line(ls[6]) + enc_line(ls[7]) + enc_line(ls[8]) + enc_line(ls[9])
}

/// The records of the transactions one after the other.
pub open spec fn text_records(ts: Seq<TransactionView>) -> Seq<u8>
    decreases ts.len(),
{
    if ts.len() == 0 {
        Seq::empty()
    } else {
        text_record(ts[0]) + text_records(ts.drop_first())
    }
}

pub proof fn lemma_text_records_push(ts: Seq<TransactionView>, t: TransactionView)
    ensures
        text_records(ts.push(t)) == text_records(ts) + text_record(t),
    decreases ts.len(),
{
    if ts.len() == 0 {
        assert(ts.push(t).drop_first() =~= Seq::<TransactionView>::empty());
        assert(text_records(Seq::<TransactionView>::empty()) =~= Seq::<u8>::empty());
        assert(text_records(ts) =~= Seq::<u8>::empty());
        assert(text_records(ts.push(t)) =~= text_record(t));
    } else {
        lemma_text_records_push(ts.drop_first(), t);
        assert(ts.push(t).drop_first() =~= ts.drop_first().push(t));
        assert(text_records(ts.push(t)) =~= text_records(ts) + text_record(t));
    }
}

impl TextFormatIO<Transaction> for Transaction {
    /// Reads the next record; the input ending before any field is the error
    /// `EOFEncountered`.
    fn new_from_text_reader(reader: &mut InputBuffer) -> (r: Result<Transaction, ParserError>)
        ensures
            final(reader)@ == text_step(old(reader)@).1,
            match text_step(old(reader)@).0 {
                LineStep::End => r matches Err(e) && e@ == ParserErrorView::EOFEncountered,
                LineStep::Fail(e) => r matches Err(x) && x@ == e,
                LineStep::Record(t) => r matches Ok(tx) && tx@ == t,
            },
    {
        match Transaction::read_text_transaction(reader) {
            Ok(Some(t)) => Ok(t),
            Ok(None) => Err(ParserError::EOFEncountered),
            Err(e) => Err(e),
        }
    }

    /// Appends the transaction's record.
    fn write_as_text_to_writer(&mut self, writer: &mut Vec<u8>) -> (r: Result<(), ParserError>)
        ensures
            r is Ok,
            final(self)@ == old(self)@,
            final(writer)@ == old(writer)@ + text_record(old(self)@),
    {
        self.write_text_record(writer);
        Ok(())
    }
}

impl TextFormatIO<Report> for Report {
    /// Reads records until none is left; the first failing record ends the
    /// reading with its error.
    fn new_from_text_reader(reader: &mut InputBuffer) -> (r: Result<Report, ParserError>)
        ensures
            report_result_view(r) == text_all(old(reader)@),
            r is Ok ==> final(reader)@.len() == 0,
    {
        let mut report = Report::new();
        assert forall|ts: Seq<TransactionView>| #![auto] Seq::<TransactionView>::empty() + ts =~= ts by {}
        loop
            invariant
                text_all(old(reader)@) == prepend(report@, text_all(reader@)),
            decreases reader@.len(),
        {
            let ghost before = reader@;
            proof {
                lemma_text_step_shorter(before);
            }
            let r = Transaction::read_text_transaction(reader);
            assert(text_all(before) == match text_step(before).0 {
                LineStep::End => Ok(Seq::empty()),
                LineStep::Fail(e) => Err(e),
                LineStep::Record(t) => prepend(seq![t], text_all(reader@)),
            });
            match r {
                Ok(Some(tx)) => {
                    proof {
                        assert forall|ts: Seq<TransactionView>| #![auto] report@ + (seq![tx@] + ts)
                            =~= report@.push(tx@) + ts by {}
                    }
                    report.add_transaction(tx);
                },
                Ok(None) => {
                    proof {
                        lemma_text_scan_end(before, no_fields());
                    }
                    assert(report@ + Seq::<TransactionView>::empty() =~= report@);
                    return Ok(report);
                },
                Err(e) => {
                    return Err(e);
                },
            }
        }
    }

    /// Appends the records of the transactions.
    fn write_as_text_to_writer(&mut self, writer: &mut Vec<u8>) -> (r: Result<(), ParserError>)
        ensures
            r is Ok,
            final(self)@ == old(self)@,
            final(writer)@ == old(writer)@ + text_records(old(self)@),
    {
        let txs = self.get_transactions();
        let mut i: usize = 0;
        assert(text_records(self@.take(0)) =~= Seq::<u8>::empty());
        while i < txs.len()
            invariant
                txs_view(txs@) == self@,
                i <= txs@.len(),
                writer@ == old(writer)@ + text_records(self@.take(i as int)),
            decreases txs@.len() - i,
        {
            txs[i].write_text_record(writer);
            proof {
                assert(txs@[i as int]@ == self@[i as int]);
                lemma_text_records_push(self@.take(i as int), self@[i as int]);
                assert(self@.take(i as int).push(self@[i as int]) =~= self@.take(i + 1));
            }
            i = i + 1;
        }
        assert(self@.take(txs@.len() as int) =~= self@);
        Ok(())
    }
}

/// A description that survives a text record: no line end, and no
/// whitespace at either end, which the reader trims off.
pub open spec fn text_safe(d: Seq<char>) -> bool {
    !d.contains('\n') && is_trimmed(d)
}

/// The keys name their positions.
pub proof fn lemma_field_keys(i: int)
    requires
        0 <= i < 8,
    ensures
        field_index(field_key(i)) == Some(i),
        field_key(i).len() > 0,
        !is_ws(field_key(i)[0]),
        !is_ws(field_key(i).last()),
        !field_key(i).contains(':'),
        !field_key(i).contains('\n'),
{
    reveal_strlit("TX_ID");
    reveal_strlit("TX_TYPE");
    reveal_strlit("FROM_USER_ID");
    reveal_strlit("TO_USER_ID");
    reveal_strlit("AMOUNT");
    reveal_strlit("TIMESTAMP");
    reveal_strlit("STATUS");
    reveal_strlit("DESCRIPTION");
    let k = field_key(i);
    assert(!k.contains(':') && !k.contains('\n')) by {
        if k.contains(':') || k.contains('\n') {
            let j = choose|j: int| 0 <= j < k.len() && (k[j] == ':' || k[j] == '\n');
            assert(k[j] != ':' && k[j] != '\n');
        }
    }
    if i > 0 {
        assert(k != "TX_ID"@) by {
            assert(k.len() != 5 || k[3] != 'I');
        }
    }
    if i > 1 {
        assert(k != "TX_TYPE"@) by {
            assert(k.len() != 7);
        }
    }
    if i > 2 {
        assert(k != "FROM_USER_ID"@) by {
            assert(k.len() != 12);
        }
    }
    if i > 3 {
        assert(k != "TO_USER_ID"@) by {
            assert(k.len() != 10);
        }
    }
    if i > 4 {
        assert(k != "AMOUNT"@) by {
            assert(k.len() != 6 || k[0] != 'A');
        }
    }
    if i > 5 {
        assert(k != "TIMESTAMP"@) by {
            assert(k.len() != 9);
        }
    }
    if i > 6 {
        assert(k != "STATUS"@) by {
            assert(k.len() != 6);
        }
    }
}

/// The prefixes that the writer puts before each value.
pub proof fn lemma_field_prefixes()
    ensures
        "TX_ID: "@ == field_key(0) + seq![':', ' '],
        "TX_TYPE: "@ == field_key(1) + seq![':', ' '],
        "FROM_USER_ID: "@ == field_key(2) + seq![':', ' '],
        "TO_USER_ID: "@ == field_key(3) + seq![':', ' '],
        "AMOUNT: "@ == field_key(4) + seq![':', ' '],
        "TIMESTAMP: "@ == field_key(5) + seq![':', ' '],
        "STATUS: "@ == field_key(6) + seq![':', ' '],
        "DESCRIPTION: "@ == field_key(7) + seq![':', ' '],
{
    reveal_strlit("TX_ID");
    reveal_strlit("TX_TYPE");
    reveal_strlit("FROM_USER_ID");
    reveal_strlit("TO_USER_ID");
    reveal_strlit("AMOUNT");
    reveal_strlit("TIMESTAMP");
    reveal_strlit("STATUS");
    reveal_strlit("DESCRIPTION");
    reveal_strlit("TX_ID: ");
    reveal_strlit("TX_TYPE: ");
    reveal_strlit("FROM_USER_ID: ");
    reveal_strlit("TO_USER_ID: ");
    reveal_strlit("AMOUNT: ");
    reveal_strlit("TIMESTAMP: ");
    reveal_strlit("STATUS: ");
    reveal_strlit("DESCRIPTION: ");
    assert("TX_ID: "@ =~= field_key(0) + seq![':', ' ']);
    assert("TX_TYPE: "@ =~= field_key(1) + seq![':', ' ']);
    assert("FROM_USER_ID: "@ =~= field_key(2) + seq![':', ' ']);
    assert("TO_USER_ID: "@ =~= field_key(3) + seq![':', ' ']);
    assert("AMOUNT: "@ =~= field_key(4) + seq![':', ' ']);
    assert("TIMESTAMP: "@ =~= field_key(5) + seq![':', ' ']);
    assert("STATUS: "@ =~= field_key(6) + seq![':', ' ']);
    assert("DESCRIPTION: "@ =~= field_key(7) + seq![':', ' ']);
}

/// A written line, read back: its bytes give it, decoded, and what follows.
pub proof fn lemma_read_line_back(c: Seq<char>, rest: Seq<u8>)
    requires
        !c.contains('\n'),
        c.len() > 0 ==> c.last() != '\r',
    ensures
        line_of(enc_line(c) + rest) == encode_utf8(c),
        after_line(enc_line(c) + rest) == rest,
        valid_utf8(encode_utf8(c)),
        decode_utf8(encode_utf8(c)) == c,
        (enc_line(c) + rest).len() > 0,
{
    lemma_encode_utf8_without_ascii(c, '\n');
    assert(('\n' as u32) as u8 == 10u8);
    if c.len() > 0 {
        lemma_encode_utf8_last(c);
    } else {
        assert(encode_utf8(c) =~= Seq::<u8>::empty());
    }
    lemma_line_of_terminated(encode_utf8(c), rest);
    encode_utf8_valid_utf8(c);
    encode_utf8_decode_utf8(c);
}

/// A field line `KEY: value`, read back, fills the field with the value.
pub proof fn lemma_text_field_line(
    i: int,
    v: Seq<char>,
    rest: Seq<u8>,
    acc: Seq<Option<Seq<char>>>,
)
    requires
        0 <= i < 8,
        acc.len() == 8,
        acc[i] is None,
        text_safe(v),
    ensures
        text_scan(enc_line(field_key(i) + seq![':', ' '] + v) + rest, acc) == text_scan(
            rest,
            acc.update(i, Some(v)),
        ),
{
    let key = field_key(i);
    let line = key + seq![':', ' '] + v;
    lemma_field_keys(i);
    assert(!line.contains('\n')) by {
        if line.contains('\n') {
            let j = choose|j: int| 0 <= j < line.len() && line[j] == '\n';
            if j < key.len() {
                assert(key[j] == '\n');
            } else if j >= key.len() + 2 {
                assert(v[j - key.len() - 2] == '\n');
            }
        }
    }
    if v.len() > 0 {
        assert(line.last() == v.last());
    }
    lemma_read_line_back(line, rest);
    let s = enc_line(line) + rest;
    assert(line[0] == key[0]);
    let c = trim(line);
    let k = key.len() as int;
    if v.len() > 0 {
        assert(trim_start(line) == line);
        assert(trim_end(line) == line);
        assert(c == line);
    } else {
        assert(line =~= key + seq![':', ' ']);
        assert(trim_start(line) == line);
        assert(line.drop_last() =~= key.push(':'));
        assert(trim_end(key.push(':')) == key.push(':'));
        assert(c == key.push(':'));
    }
    assert(c.len() > k);
    assert(c[0] != '#') by {
        reveal_strlit("TX_ID");
        reveal_strlit("TX_TYPE");
        reveal_strlit("FROM_USER_ID");
        reveal_strlit("TO_USER_ID");
        reveal_strlit("AMOUNT");
        reveal_strlit("TIMESTAMP");
        reveal_strlit("STATUS");
        reveal_strlit("DESCRIPTION");
    }
    assert forall|j: int| 0 <= j < k implies c[j] != ':' by {
        assert(c[j] == key[j]);
    }
    lemma_find_char(c, ':', k);
    assert(c.take(k) =~= key);
    assert(trim(key) == key);
    let after = c.skip(k + 1);
    if v.len() > 0 {
        assert(after =~= seq![' '] + v);
        assert(after.drop_first() =~= v);
        assert(trim_start(after) == trim_start(v));
        assert(trim(after) == v);
    } else {
        assert(after =~= Seq::<char>::empty());
        assert(trim(after) =~= v);
    }
}

/// The records of transactions with safe descriptions read back as the
/// transactions; what follows a record is left.
#[verifier::rlimit(40)]
pub proof fn lemma_text_record_roundtrip(t: TransactionView, rest: Seq<u8>)
    requires
        text_safe(t.description),
    ensures
        text_step(text_record(t) + rest) == (LineStep::Record(t), rest),
{
    let ls = text_lines(t);
    lemma_field_prefixes();
    lemma_parse_decimal(t.tx_id);
    lemma_parse_decimal(t.from_user_id);
    lemma_parse_decimal(t.to_user_id);
    lemma_parse_decimal(t.amount);
    lemma_parse_decimal(t.timestamp);
    lemma_decimal(t.tx_id as nat);
    lemma_decimal(t.from_user_id as nat);
    lemma_decimal(t.to_user_id as nat);
    lemma_decimal(t.amount as nat);
    lemma_decimal(t.timestamp as nat);
    lemma_names(t.tx_type, t.status);
    lemma_digits_without(decimal(t.tx_id as nat), '\n');
    lemma_digits_without(decimal(t.from_user_id as nat), '\n');
    lemma_digits_without(decimal(t.to_user_id as nat), '\n');
    lemma_digits_without(decimal(t.amount as nat), '\n');
    lemma_digits_without(decimal(t.timestamp as nat), '\n');
    lemma_name_trimmed(t.tx_type, t.status);
    let r9 = enc_line(ls[9]) + rest;
    let r8 = enc_line(ls[8]) + r9;
    let r7 = enc_line(ls[7]) + r8;
    let r6 = enc_line(ls[6]) + r7;
    let r5 = enc_line(ls[5]) + r6;
    let r4 = enc_line(ls[4]) + r5;
    let r3 = enc_line(ls[3]) + r4;
    let r2 = enc_line(ls[2]) + r3;
    let r1 = enc_line(ls[1]) + r2;
    let r0 = enc_line(ls[0]) + r1;
    assert(text_record(t) + rest =~= r0);
    // the comment line
    reveal_strlit("# Запись о транзакции");
    let cm = text_comment();
    assert(!cm.contains('\n')) by {
        if cm.contains('\n') {
            let j = choose|j: int| 0 <= j < cm.len() && cm[j] == '\n';
            assert(cm[j] != '\n');
        }
    }
    lemma_read_line_back(cm, r1);
    assert(trim(cm) == cm);
    let a0 = no_fields();
    assert(all_absent(a0));
    assert(text_scan(r0, a0) == text_scan(r1, a0));
    let a1 = a0.update(0, Some(decimal(t.tx_id as nat)));
    lemma_text_field_line(0, decimal(t.tx_id as nat), r2, a0);
    let a2 = a1.update(1, Some(kind_name(t.tx_type)));
    lemma_text_field_line(1, kind_name(t.tx_type), r3, a1);
    let a3 = a2.update(2, Some(decimal(t.from_user_id as nat)));
    lemma_text_field_line(2, decimal(t.from_user_id as nat), r4, a2);
    let a4 = a3.update(3, Some(decimal(t.to_user_id as nat)));
    lemma_text_field_line(3, decimal(t.to_user_id as nat), r5, a3);
    let a5 = a4.update(4, Some(decimal(t.amount as nat)));
    lemma_text_field_line(4, decimal(t.amount as nat), r6, a4);
    let a6 = a5.update(5, Some(decimal(t.timestamp as nat)));
    lemma_text_field_line(5, decimal(t.timestamp as nat), r7, a5);
    let a7 = a6.update(6, Some(status_name(t.status)));
    lemma_text_field_line(6, status_name(t.status), r8, a6);
    let a8 = a7.update(7, Some(t.description));
    lemma_text_field_line(7, t.description, r9, a7);
    // the blank line ends the record
    lemma_read_line_back(Seq::<char>::empty(), rest);
    assert(decode_utf8(encode_utf8(Seq::<char>::empty())) =~= Seq::<char>::empty());
    assert(!all_absent(a8)) by {
        assert(a8[0] is Some);
    }
    assert(trim(Seq::<char>::empty()) =~= Seq::<char>::empty());
    assert(text_scan(r9, a8) == (text_finish(a8), rest));
    assert(first_missing(a8) == 8);
    assert(text_finish(a8) == LineStep::Record(t));
}

/// The names of kinds and statuses are trimmed and have no line end.
pub proof fn lemma_name_trimmed(k: TransactionType, st: TransactionStatus)
    ensures
        text_safe(kind_name(k)),
        text_safe(status_name(st)),
{
    reveal_strlit("DEPOSIT");
    reveal_strlit("TRANSFER");
    reveal_strlit("WITHDRAWAL");
    reveal_strlit("UNKNOWN");
    reveal_strlit("SUCCESS");
    reveal_strlit("FAILURE");
    reveal_strlit("PENDING");
    lemma_names(k, st);
}

/// The records of transactions with safe descriptions read back as the
/// transactions.
pub proof fn lemma_text_records_roundtrip(ts: Seq<TransactionView>)
    requires
        forall|i: int| 0 <= i < ts.len() ==> text_safe((#[trigger] ts[i]).description),
    ensures
        text_all(text_records(ts)) == Ok::<Seq<TransactionView>, ParserErrorView>(ts),
    decreases ts.len(),
{
    if ts.len() == 0 {
        assert(text_records(ts) =~= Seq::<u8>::empty());
        assert(ts =~= Seq::<TransactionView>::empty());
        assert(all_absent(no_fields()));
    } else {
        let rest = text_records(ts.drop_first());
        assert(text_safe(ts[0].description));
        lemma_text_record_roundtrip(ts[0], rest);
        lemma_text_records_roundtrip(ts.drop_first());
        assert(text_records(ts) == text_record(ts[0]) + rest);
        assert(seq![ts[0]] + ts.drop_first() =~= ts);
    }
}

/// Law: what the text writer writes for a report whose descriptions hold no
/// line end and neither start nor end with whitespace, the text reader reads
/// back as the same transactions.
pub proof fn law_text_write_then_read(ts: Seq<TransactionView>)
    requires
        forall|i: int| 0 <= i < ts.len() ==> text_safe((#[trigger] ts[i]).description),
    ensures
        text_all(text_records(ts)) == Ok::<Seq<TransactionView>, ParserErrorView>(ts),
{
    lemma_text_records_roundtrip(ts);
}

/// Every field read so far holds a safe text.
pub open spec fn safe_fields(acc: Seq<Option<Seq<char>>>) -> bool {
    forall|i: int| 0 <= i < acc.len() ==> (#[trigger] acc[i] matches Some(v) ==> text_safe(v))
}

/// The description of a transaction read from a text record is safe.
pub proof fn lemma_text_scan_safe(s: Seq<u8>, acc: Seq<Option<Seq<char>>>)
    requires
        acc.len() == 8,
        safe_fields(acc),
    ensures
        text_scan(s, acc).0 matches LineStep::Record(t) ==> text_safe(t.description),
    decreases s.len(),
{
    if s.len() == 0 {
        assert(acc[7] matches Some(v) ==> text_safe(v));
    } else {
        let l = line_of(s);
        let rest = after_line(s);
        lemma_after_line_shorter(s);
        assert(acc[7] matches Some(v) ==> text_safe(v));
        if valid_utf8(l) {
            let d = decode_utf8(l);
            let c = trim(d);
            if c.len() == 0 {
                lemma_text_scan_safe(rest, acc);
            } else if c[0] == '#' {
                lemma_text_scan_safe(rest, acc);
            } else {
                let k = find_char(c, ':');
                lemma_find_char_bounds(c, ':');
                if k < c.len() {
                    let key = trim(c.take(k));
                    let part = c.skip(k + 1);
                    let val = trim(part);
                    if let Some(i) = field_index(key) {
                        if acc[i] is None {
                            lemma_trim_facts(d);
                            lemma_trim_facts(part);
                            assert(part =~= c.subrange(k + 1, c.len() as int));
                            lemma_subrange_within(c, k + 1, c.len() as int);
                            lemma_within_trans(val, part, c);
                            lemma_within_trans(val, c, d);
                            lemma_line_text_no_newline(s);
                            lemma_within_lacks(val, d, '\n');
                            let acc2 = acc.update(i, Some(val));
                            assert forall|j: int| 0 <= j < acc2.len() implies (#[trigger] acc2[j] matches Some(v) ==> text_safe(v)) by {
                                if j != i {
                                    assert(acc2[j] == acc[j]);
                                }
                            }
                            lemma_text_scan_safe(rest, acc2);
                        }
                    }
                }
            }
        }
    }
}

/// Every description of a report read from text is safe.
pub proof fn lemma_text_all_safe(s: Seq<u8>)
    ensures
        text_all(s) matches Ok(ts) ==> forall|i: int|
            0 <= i < ts.len() ==> text_safe((#[trigger] ts[i]).description),
    decreases s.len(),
{
    lemma_text_step_shorter(s);
    let (st, rest) = text_step(s);
    if let LineStep::Record(t) = st {
        assert(safe_fields(no_fields()));
        lemma_text_scan_safe(s, no_fields());
        lemma_text_all_safe(rest);
        if let Ok(ts) = text_all(rest) {
            let all = seq![t] + ts;
            assert forall|i: int| 0 <= i < all.len() implies text_safe((#[trigger] all[i]).description) by {
                if i > 0 {
                    assert(all[i] == ts[i - 1]);
                }
            }
        }
    }
}

/// Law: a report that the text reader reads, the text writer writes so that
/// the reader reads the same transactions again.
pub proof fn law_text_read_write_read(s: Seq<u8>)
    ensures
        text_all(s) matches Ok(ts) ==> text_all(text_records(ts)) == Ok::<
            Seq<TransactionView>,
            ParserErrorView,
        >(ts),
{
    lemma_text_all_safe(s);
    if let Ok(ts) = text_all(s) {
        law_text_write_then_read(ts);
    }
}

} // verus!
