//! The CSV format: a header line, then one line per transaction with its
//! eight fields separated by commas.

use crate::error::{ParserError, ParserErrorView};
use crate::input::{
    after_line, append_str, lemma_after_line_shorter, lemma_encode_utf8_last,
    lemma_line_text_no_newline,
    lemma_encode_utf8_without_ascii, lemma_line_of_terminated, line_of, str_from_utf8,
    InputBuffer,
};
use crate::lexical::{
    all_digits, chars_of, decimal, is_digit, is_ws, lemma_decimal, lemma_parse_decimal,
    lemma_split_on_cons, lemma_split_on_pieces, lemma_split_on_single, lemma_trim_facts,
    lemma_trim_trimmed, lemma_within_lacks, lemma_within_trans, parse_u64_in,
    parse_u64_spec, push_decimal, range_is, split_bounds, split_on, trim, trim_bounds,
};
use crate::report::{prepend, report_result_view, Report};
use crate::transaction::{
    kind_name, status_name, Transaction, TransactionStatus, TransactionType, TransactionView,
};
use vstd::prelude::*;
use vstd::string::*;
use vstd::utf8::*;

verus! {

/// Reading and writing a value in the CSV format.
pub trait CsvFormatIO<InternalType> {
    /// Reads a value from the lines of `reader`.
    fn new_from_csv_reader(reader: &mut InputBuffer) -> Result<InternalType, ParserError>;

    /// Appends the value's lines to `writer`.
    fn write_as_csv_to_writer(&self, writer: &mut Vec<u8>) -> Result<(), ParserError>;
}

/// The pieces `fs` joined with `sep` between each two.
pub open spec fn join_fields(fs: Seq<Seq<char>>, sep: char) -> Seq<char>
    decreases fs.len(),
{
    if fs.len() <= 1 {
        if fs.len() == 1 {
            fs[0]
        } else {
            Seq::empty()
        }
    } else {
        fs[0].push(sep) + join_fields(fs.drop_first(), sep)
    }
}

/// Splitting pieces joined with a separator that none of them holds gives
/// the pieces back.
pub proof fn lemma_split_join(fs: Seq<Seq<char>>, sep: char)
    requires
        fs.len() >= 1,
        forall|i: int| 0 <= i < fs.len() ==> !(#[trigger] fs[i]).contains(sep),
    ensures
        split_on(join_fields(fs, sep), sep) == fs,
    decreases fs.len(),
{
    if fs.len() == 1 {
        lemma_split_on_single(fs[0], sep);
        assert(seq![fs[0]] =~= fs);
    } else {
        assert forall|i: int| 0 <= i < fs.drop_first().len() implies !(
        #[trigger] fs.drop_first()[i]).contains(sep) by {
            assert(fs.drop_first()[i] == fs[i + 1]);
        }
        lemma_split_join(fs.drop_first(), sep);
        assert(!fs[0].contains(sep));
        lemma_split_on_cons(fs[0], join_fields(fs.drop_first(), sep), sep);
        assert(seq![fs[0]] + fs.drop_first() =~= fs);
    }
}

/// The eight fields of a transaction's line.
pub open spec fn csv_fields(t: TransactionView) -> Seq<Seq<char>> {
    seq![
        decimal(t.tx_id as nat),
        kind_name(t.tx_type),
        decimal(t.from_user_id as nat),
        decimal(t.to_user_id as nat),
        decimal(t.amount as nat),
        decimal(t.timestamp as nat),
        status_name(t.status),
        t.description,
    ]
}

/// A transaction's line, without the line end.
pub open spec fn csv_line(t: TransactionView) -> Seq<char> {
    let p = decimal(t.tx_id as nat);
    let p = p.push(',') + kind_name(t.tx_type);
    let p = p.push(',') + decimal(t.from_user_id as nat);
    let p = p.push(',') + decimal(t.to_user_id as nat);
    let p = p.push(',') + decimal(t.amount as nat);
    let p = p.push(',') + decimal(t.timestamp as nat);
    let p = p.push(',') + status_name(t.status);
    p.push(',') + t.description
}

/// Joining one more piece.
pub proof fn lemma_join_push(fs: Seq<Seq<char>>, x: Seq<char>, sep: char)
    requires
        fs.len() >= 1,
    ensures
        join_fields(fs.push(x), sep) == join_fields(fs, sep).push(sep) + x,
    decreases fs.len(),
{
    if fs.len() == 1 {
        assert(fs.push(x).drop_first() =~= seq![x]);
        assert(join_fields(seq![x], sep) == x);
    } else {
        lemma_join_push(fs.drop_first(), x, sep);
        assert(fs.push(x).drop_first() =~= fs.drop_first().push(x));
        assert(join_fields(fs.push(x), sep) =~= join_fields(fs, sep).push(sep) + x);
    }
}

/// A transaction's line is its fields joined with commas.
pub proof fn lemma_csv_line_fields(t: TransactionView)
    ensures
        csv_line(t) == join_fields(csv_fields(t), ','),
{
    let f = csv_fields(t);
    assert(f.take(1) =~= seq![f[0]]);
    assert(join_fields(f.take(1), ',') == f[0]);
    assert(f.take(2) =~= f.take(1).push(f[1]));
    lemma_join_push(f.take(1), f[1], ',');
    assert(f.take(3) =~= f.take(2).push(f[2]));
    lemma_join_push(f.take(2), f[2], ',');
    assert(f.take(4) =~= f.take(3).push(f[3]));
    lemma_join_push(f.take(3), f[3], ',');
    assert(f.take(5) =~= f.take(4).push(f[4]));
    lemma_join_push(f.take(4), f[4], ',');
    assert(f.take(6) =~= f.take(5).push(f[5]));
    lemma_join_push(f.take(5), f[5], ',');
    assert(f.take(7) =~= f.take(6).push(f[6]));
    lemma_join_push(f.take(6), f[6], ',');
    assert(f.take(8) =~= f.take(7).push(f[7]));
    lemma_join_push(f.take(7), f[7], ',');
    assert(f.take(8) =~= f);
}

/// The header line, without the line end.
pub open spec fn csv_header() -> Seq<char> {
    "TX_ID,TX_TYPE,FROM_USER_ID,TO_USER_ID,AMOUNT,TIMESTAMP,STATUS,DESCRIPTION"@
}

/// The bytes of a transaction's line with its line end.
pub open spec fn csv_record(t: TransactionView) -> Seq<u8> {
    encode_utf8(csv_line(t)).push(10u8)
}

/// The lines of the transactions one after the other.
pub open spec fn csv_records(ts: Seq<TransactionView>) -> Seq<u8>
    decreases ts.len(),
{
    if ts.len() == 0 {
        Seq::empty()
    } else {
        csv_record(ts[0]) + csv_records(ts.drop_first())
    }
}

/// What the CSV writer produces for a report.
pub open spec fn csv_output(ts: Seq<TransactionView>) -> Seq<u8> {
    encode_utf8(csv_header()).push(10u8) + csv_records(ts)
}

/// The transaction kind that a CSV or text field names.
pub open spec fn kind_of_name(s: Seq<char>) -> Option<TransactionType> {
    if s == "DEPOSIT"@ {
        Some(TransactionType::Deposit)
    } else if s == "TRANSFER"@ {
        Some(TransactionType::Transfer)
    } else if s == "WITHDRAWAL"@ {
        Some(TransactionType::Withdrawal)
    } else if s == "UNKNOWN"@ {
        Some(TransactionType::Unknown)
    } else {
        None
    }
}

/// The status that a CSV or text field names.
pub open spec fn status_of_name(s: Seq<char>) -> Option<TransactionStatus> {
    if s == "SUCCESS"@ {
        Some(TransactionStatus::Success)
    } else if s == "FAILURE"@ {
        Some(TransactionStatus::Failure)
    } else if s == "PENDING"@ {
        Some(TransactionStatus::Pending)
    } else if s == "UNKNOWN"@ {
        Some(TransactionStatus::Unknown)
    } else {
        None
    }
}

/// The transaction of the fields `f` of the (trimmed) line `line`; the first
/// field in order that does not read fails.
pub open spec fn csv_parse_fields(f: Seq<Seq<char>>, line: Seq<char>) -> Result<
    TransactionView,
    ParserErrorView,
> {
    if f.len() != 8 {
        Err(ParserErrorView::CsvWrongTransactionFormat(line))
    } else if parse_u64_spec(f[0]) is None {
        Err(ParserErrorView::CsvWrongFieldValue(f[0]))
    } else if kind_of_name(f[1]) is None {
        Err(ParserErrorView::CsvUnknownTxType(f[1]))
    } else if parse_u64_spec(f[2]) is None {
        Err(ParserErrorView::CsvWrongFieldValue(f[2]))
    } else if parse_u64_spec(f[3]) is None {
        Err(ParserErrorView::CsvWrongFieldValue(f[3]))
    } else if parse_u64_spec(f[4]) is None {
        Err(ParserErrorView::CsvWrongFieldValue(f[4]))
    } else if parse_u64_spec(f[5]) is None {
        Err(ParserErrorView::CsvWrongFieldValue(f[5]))
    } else if status_of_name(f[6]) is None {
        Err(ParserErrorView::CsvUnknownTxStatus(f[6]))
    } else {
        Ok(
            TransactionView {
                tx_id: parse_u64_spec(f[0])->0,
                tx_type: kind_of_name(f[1])->0,
                from_user_id: parse_u64_spec(f[2])->0,
                to_user_id: parse_u64_spec(f[3])->0,
                amount: parse_u64_spec(f[4])->0,
                timestamp: parse_u64_spec(f[5])->0,
                status: status_of_name(f[6])->0,
                description: f[7],
            },
        )
    }
}

/// The transaction of a non-blank trimmed line.
pub open spec fn csv_parse_line(line: Seq<char>) -> Result<TransactionView, ParserErrorView> {
    csv_parse_fields(split_on(line, ','), line)
}

/// What reading one transaction comes to.
pub enum LineStep {
    /// No line is left.
    End,
    Fail(ParserErrorView),
    Record(TransactionView),
}

/// Reading one transaction line from the front of `s`, skipping blank lines:
/// what it comes to and what is left.
pub open spec fn csv_step(s: Seq<u8>) -> (LineStep, Seq<u8>)
    decreases s.len(),
{
    if s.len() == 0 {
        (LineStep::End, s)
    } else {
        let l = line_of(s);
        let rest = after_line(s);
        proof {
            lemma_after_line_shorter(s);
        }
        if !valid_utf8(l) {
            (LineStep::Fail(ParserErrorView::CsvLineReadError), rest)
        } else {
            let c = trim(decode_utf8(l));
            if c.len() == 0 {
                csv_step(rest)
            } else {
                match csv_parse_line(c) {
                    Ok(t) => (LineStep::Record(t), rest),
                    Err(e) => (LineStep::Fail(e), rest),
                }
            }
        }
    }
}

pub proof fn lemma_csv_step_shorter(s: Seq<u8>)
    ensures
        csv_step(s).1.len() <= s.len(),
        !(csv_step(s).0 is End) ==> csv_step(s).1.len() < s.len(),
    decreases s.len(),
{
    if s.len() > 0 {
        lemma_after_line_shorter(s);
        lemma_csv_step_shorter(after_line(s));
    }
}

/// A read that finds no line leaves nothing.
pub proof fn lemma_csv_step_end(s: Seq<u8>)
    ensures
        csv_step(s).0 is End ==> csv_step(s).1.len() == 0,
    decreases s.len(),
{
    if s.len() > 0 {
        lemma_after_line_shorter(s);
        lemma_csv_step_end(after_line(s));
    }
}

/// Reading transaction lines until none is left or one fails.
pub open spec fn csv_all(s: Seq<u8>) -> Result<Seq<TransactionView>, ParserErrorView>
    decreases s.len(),
{
    let (st, rest) = csv_step(s);
    proof {
        lemma_csv_step_shorter(s);
    }
    match st {
        LineStep::End => Ok(Seq::empty()),
        LineStep::Fail(e) => Err(e),
        LineStep::Record(t) => prepend(seq![t], csv_all(rest)),
    }
}

/// Reading a CSV report: the first line is the header, whatever it holds.
pub open spec fn csv_report(s: Seq<u8>) -> Result<Seq<TransactionView>, ParserErrorView> {
    if s.len() == 0 {
        Ok(Seq::empty())
    } else if !valid_utf8(line_of(s)) {
        Err(ParserErrorView::CsvLineReadError)
    } else {
        csv_all(after_line(s))
    }
}

/// The kind that the characters `v[lo..hi]` name.
fn kind_in(v: &Vec<char>, lo: usize, hi: usize) -> (r: Option<TransactionType>)
    requires
        lo <= hi <= v@.len(),
    ensures
        r == kind_of_name(v@.subrange(lo as int, hi as int)),
{
    if range_is(v, lo, hi, "DEPOSIT") {
        Some(TransactionType::Deposit)
    } else if range_is(v, lo, hi, "TRANSFER") {
        Some(TransactionType::Transfer)
    } else if range_is(v, lo, hi, "WITHDRAWAL") {
        Some(TransactionType::Withdrawal)
    } else if range_is(v, lo, hi, "UNKNOWN") {
        Some(TransactionType::Unknown)
    } else {
        None
    }
}

/// The status that the characters `v[lo..hi]` name.
fn status_in(v: &Vec<char>, lo: usize, hi: usize) -> (r: Option<TransactionStatus>)
    requires
        lo <= hi <= v@.len(),
    ensures
        r == status_of_name(v@.subrange(lo as int, hi as int)),
{
    if range_is(v, lo, hi, "SUCCESS") {
        Some(TransactionStatus::Success)
    } else if range_is(v, lo, hi, "FAILURE") {
        Some(TransactionStatus::Failure)
    } else if range_is(v, lo, hi, "PENDING") {
        Some(TransactionStatus::Pending)
    } else if range_is(v, lo, hi, "UNKNOWN") {
        Some(TransactionStatus::Unknown)
    } else {
        None
    }
}

/// The characters `text[lo..hi]` as a string.
pub fn text_range(text: &str, lo: usize, hi: usize) -> (r: String)
    requires
        lo <= hi <= text@.len(),
    ensures
        r@ == text@.subrange(lo as int, hi as int),
{
    text.substring_char(lo, hi).to_owned()
}

/// A transaction or the error, as views.
pub open spec fn tx_result_view(r: Result<Transaction, ParserError>) -> Result<
    TransactionView,
    ParserErrorView,
> {
    match r {
        Ok(t) => Ok(t@),
        Err(e) => Err(e@),
    }
}

impl Transaction {
    /// The transaction's CSV line, without the line end; also how a
    /// transaction is shown in an error.
    pub fn as_str(&self) -> (r: String)
        ensures
            r@ == csv_line(self@),
    {
        let mut s = String::new();
        push_decimal(&mut s, self.tx_id);
        s.append(",");
        s.append(self.tx_type.name());
        s.append(",");
        push_decimal(&mut s, self.from_user_id);
        s.append(",");
        push_decimal(&mut s, self.to_user_id);
        s.append(",");
        push_decimal(&mut s, self.amount);
        s.append(",");
        push_decimal(&mut s, self.timestamp);
        s.append(",");
        s.append(self.status.name());
        s.append(",");
        s.append(self.description.as_str());
        proof {
            reveal_strlit(",");
            assert(","@ =~= seq![',']);
            assert forall|x: Seq<char>| #![auto] x + ","@ == x.push(',') by {
                assert(x + ","@ =~= x.push(','));
            }
        }
        s
    }

    /// The transaction of the non-blank trimmed line `text[lo..hi]`, whose
    /// characters are `v`.
    fn parse_csv_line(text: &str, v: &Vec<char>, lo: usize, hi: usize) -> (r: Result<
        Transaction,
        ParserError,
    >)
        requires
            v@ == text@,
            lo <= hi <= v@.len(),
        ensures
            tx_result_view(r) == csv_parse_line(v@.subrange(lo as int, hi as int)),
    {
        let ghost line = v@.subrange(lo as int, hi as int);
        let f = split_bounds(v, lo, hi, ',');
        if f.len() != 8 {
            return Err(ParserError::CsvWrongTransactionFormat(text_range(text, lo, hi)));
        }
        let ghost fs = split_on(line, ',');
        assert(forall|i: int| 0 <= i < 8 ==> v@.subrange(f@[i].0 as int, f@[i].1 as int) == fs[i]);
        let tx_id = match parse_u64_in(v, f[0].0, f[0].1) {
            Some(x) => x,
            None => {
                return Err(ParserError::CsvWrongFieldValue(text_range(text, f[0].0, f[0].1)));
            },
        };
        let tx_type = match kind_in(v, f[1].0, f[1].1) {
            Some(x) => x,
            None => {
                return Err(ParserError::CsvUnknownTxType(text_range(text, f[1].0, f[1].1)));
            },
        };
        let from_user_id = match parse_u64_in(v, f[2].0, f[2].1) {
            Some(x) => x,
            None => {
                return Err(ParserError::CsvWrongFieldValue(text_range(text, f[2].0, f[2].1)));
            },
        };
        let to_user_id = match parse_u64_in(v, f[3].0, f[3].1) {
            Some(x) => x,
            None => {
                return Err(ParserError::CsvWrongFieldValue(text_range(text, f[3].0, f[3].1)));
            },
        };
        let amount = match parse_u64_in(v, f[4].0, f[4].1) {
            Some(x) => x,
            None => {
                return Err(ParserError::CsvWrongFieldValue(text_range(text, f[4].0, f[4].1)));
            },
        };
        let timestamp = match parse_u64_in(v, f[5].0, f[5].1) {
            Some(x) => x,
            None => {
                return Err(ParserError::CsvWrongFieldValue(text_range(text, f[5].0, f[5].1)));
            },
        };
        let status = match status_in(v, f[6].0, f[6].1) {
            Some(x) => x,
            None => {
                return Err(ParserError::CsvUnknownTxStatus(text_range(text, f[6].0, f[6].1)));
            },
        };
        let description = text_range(text, f[7].0, f[7].1);
        Ok(
            Transaction::new(
                tx_id,
                tx_type,
                from_user_id,
                to_user_id,
                amount,
                timestamp,
                status,
                description,
            ),
        )
    }

    /// Appends the transaction's CSV line with its line end.
    pub fn write_csv_line(&self, writer: &mut Vec<u8>)
        ensures
            final(writer)@ == old(writer)@ + csv_record(self@),
    {
        let line = self.as_str();
        append_str(writer, line.as_str());
        writer.push(10u8);
        assert(writer@ =~= old(writer)@ + csv_record(self@));
    }
}

/// What a one-line read returned, against what the format says of the input.
pub open spec fn line_read_agrees(step: LineStep, r: Result<Option<Transaction>, ParserError>) -> bool {
    match step {
        LineStep::End => r matches Ok(None),
        LineStep::Fail(e) => r matches Err(x) && x@ == e,
        LineStep::Record(t) => r matches Ok(Some(tx)) && tx@ == t,
    }
}

impl Transaction {
    /// Reads the next transaction line, skipping blank lines; `None` where no
    /// line is left.
    fn read_csv_transaction(reader: &mut InputBuffer) -> (r: Result<Option<Transaction>, ParserError>)
        ensures
            final(reader)@ == csv_step(old(reader)@).1,
            line_read_agrees(csv_step(old(reader)@).0, r),
    {
        loop
            invariant
                csv_step(old(reader)@) == csv_step(reader@),
            decreases reader@.len(),
        {
            let ghost before = reader@;
            let line = match reader.next_line() {
                Some(l) => l,
                None => {
                    return Ok(None);
                },
            };
            proof {
                lemma_after_line_shorter(before);
            }
            let text = match str_from_utf8(line.as_slice()) {
                Some(t) => t,
                None => {
                    return Err(ParserError::CsvLineReadError);
                },
            };
            let chars = chars_of(text);
            let (a, b) = trim_bounds(&chars, 0, chars.len());
            assert(chars@.subrange(0, chars@.len() as int) =~= chars@);
            if a < b {
                return match Transaction::parse_csv_line(text, &chars, a, b) {
                    Ok(t) => Ok(Some(t)),
                    Err(e) => Err(e),
                };
            }
        }
    }
}

impl CsvFormatIO<Transaction> for Transaction {
    /// Reads the next transaction line, skipping blank lines; no line being
    /// left is the error `EOFEncountered`.
    fn new_from_csv_reader(reader: &mut InputBuffer) -> (r: Result<Transaction, ParserError>)
        ensures
            final(reader)@ == csv_step(old(reader)@).1,
            match csv_step(old(reader)@).0 {
                LineStep::End => r matches Err(e) && e@ == ParserErrorView::EOFEncountered,
                LineStep::Fail(e) => r matches Err(x) && x@ == e,
                LineStep::Record(t) => r matches Ok(tx) && tx@ == t,
            },
    {
        match Transaction::read_csv_transaction(reader) {
            Ok(Some(t)) => Ok(t),
            Ok(None) => Err(ParserError::EOFEncountered),
            Err(e) => Err(e),
        }
    }

    /// Appends the transaction's CSV line with its line end.
    fn write_as_csv_to_writer(&self, writer: &mut Vec<u8>) -> (r: Result<(), ParserError>)
        ensures
            r is Ok,
            final(writer)@ == old(writer)@ + csv_record(self@),
    {
        self.write_csv_line(writer);
        Ok(())
    }
}

impl CsvFormatIO<Report> for Report {
    /// Skips the header line, then reads transaction lines until none is left;
    /// the first failing line ends the reading with its error.
    fn new_from_csv_reader(reader: &mut InputBuffer) -> (r: Result<Report, ParserError>)
        ensures
            report_result_view(r) == csv_report(old(reader)@),
            r is Ok ==> final(reader)@.len() == 0,
    {
        let ghost s = old(reader)@;
        let mut report = Report::new();
        match reader.next_line() {
            Some(header) => {
                if str_from_utf8(header.as_slice()).is_none() {
                    return Err(ParserError::CsvLineReadError);
                }
            },
            None => {
                return Ok(report);
            },
        }
        loop
            invariant
                s == old(reader)@,
                csv_report(s) == prepend(report@, csv_all(reader@)),
            decreases reader@.len(),
        {
            let ghost before = reader@;
            proof {
                lemma_csv_step_shorter(before);
            }
            let r = Transaction::read_csv_transaction(reader);
            assert(csv_all(before) == match csv_step(before).0 {
                LineStep::End => Ok(Seq::empty()),
                LineStep::Fail(e) => Err(e),
                LineStep::Record(t) => prepend(seq![t], csv_all(reader@)),
            });
            match r {
                Ok(Some(tx)) => {
                    proof {
                        assert forall|ts: Seq<TransactionView>| #![auto] report@ + (seq![tx@] + ts)
                            =~= report@.push(tx@) + ts by {}
                    }
                    report.add_transaction(tx);
                },
                Ok(None) => {
                    proof {
                        lemma_csv_step_end(before);
                    }
                    assert(report@ + Seq::<TransactionView>::empty() =~= report@);
                    return Ok(report);
                },
                Err(e) => {
                        return Err(e);
                },
            }
        }
    }

    /// Appends the header line, then the transactions' lines.
    fn write_as_csv_to_writer(&self, writer: &mut Vec<u8>) -> (r: Result<(), ParserError>)
        ensures
            r is Ok,
            final(writer)@ == old(writer)@ + csv_output(self@),
    {
        append_str(writer, "TX_ID,TX_TYPE,FROM_USER_ID,TO_USER_ID,AMOUNT,TIMESTAMP,STATUS,DESCRIPTION");
        writer.push(10u8);
        let ghost start = writer@;
        let txs = self.get_transactions();
        let mut i: usize = 0;
        assert(csv_records(self@.take(0)) =~= Seq::<u8>::empty());
        while i < txs.len()
            invariant
                crate::report::txs_view(txs@) == self@,
                i <= txs@.len(),
                writer@ == start + csv_records(self@.take(i as int)),
            decreases txs@.len() - i,
        {
            txs[i].write_csv_line(writer);
            proof {
                assert(txs@[i as int]@ == self@[i as int]);
                lemma_csv_records_push(self@.take(i as int), self@[i as int]);
                assert(self@.take(i as int).push(self@[i as int]) =~= self@.take(i + 1));
            }
            i = i + 1;
        }
        assert(self@.take(txs@.len() as int) =~= self@);
        assert(writer@ =~= old(writer)@ + csv_output(self@));
        Ok(())
    }
}

pub proof fn lemma_csv_records_push(ts: Seq<TransactionView>, t: TransactionView)
    ensures
        csv_records(ts.push(t)) == csv_records(ts) + csv_record(t),
    decreases ts.len(),
{
    if ts.len() == 0 {
        assert(ts.push(t).drop_first() =~= Seq::<TransactionView>::empty());
        assert(csv_records(Seq::<TransactionView>::empty()) =~= Seq::<u8>::empty());
        assert(csv_records(ts) =~= Seq::<u8>::empty());
        assert(csv_records(ts.push(t)) =~= csv_record(t));
    } else {
        lemma_csv_records_push(ts.drop_first(), t);
        assert(ts.push(t).drop_first() =~= ts.drop_first().push(t));
        assert(csv_records(ts.push(t)) =~= csv_records(ts) + csv_record(t));
    }
}

/// A description that survives a CSV line: no comma, no line end, and no
/// whitespace at its end, which the reader trims off.
pub open spec fn csv_safe(d: Seq<char>) -> bool {
    &&& !d.contains(',')
    &&& !d.contains('\n')
    &&& (d.len() > 0 ==> !is_ws(d.last()))
}

/// Joined pieces hold a character that is not the separator only where a
/// piece does.
pub proof fn lemma_join_without(fs: Seq<Seq<char>>, sep: char, c: char)
    requires
        c != sep,
        forall|i: int| 0 <= i < fs.len() ==> !(#[trigger] fs[i]).contains(c),
    ensures
        !join_fields(fs, sep).contains(c),
    decreases fs.len(),
{
    if fs.len() > 1 {
        assert forall|i: int| 0 <= i < fs.drop_first().len() implies !(
        #[trigger] fs.drop_first()[i]).contains(c) by {
            assert(fs.drop_first()[i] == fs[i + 1]);
        }
        lemma_join_without(fs.drop_first(), sep, c);
        let a = fs[0].push(sep);
        let b = join_fields(fs.drop_first(), sep);
        assert(!fs[0].contains(c));
        if (a + b).contains(c) {
            let j = choose|j: int| 0 <= j < (a + b).len() && (a + b)[j] == c;
            if j < a.len() {
                if j < fs[0].len() {
                    assert(fs[0][j] == c);
                }
            } else {
                assert(b[j - a.len()] == c);
            }
        }
    }
}

/// Digits hold no character that is not a digit.
pub proof fn lemma_digits_without(s: Seq<char>, c: char)
    requires
        all_digits(s),
        !is_digit(c),
    ensures
        !s.contains(c),
{
    if s.contains(c) {
        let j = choose|j: int| 0 <= j < s.len() && s[j] == c;
        assert(is_digit(s[j]));
    }
}

/// The names of kinds and statuses hold no comma and no line end, and read
/// back as what they name.
pub proof fn lemma_names(k: TransactionType, st: TransactionStatus)
    ensures
        !kind_name(k).contains(','),
        !kind_name(k).contains('\n'),
        !status_name(st).contains(','),
        !status_name(st).contains('\n'),
        kind_of_name(kind_name(k)) == Some(k),
        status_of_name(status_name(st)) == Some(st),
{
    reveal_strlit("DEPOSIT");
    reveal_strlit("TRANSFER");
    reveal_strlit("WITHDRAWAL");
    reveal_strlit("UNKNOWN");
    reveal_strlit("SUCCESS");
    reveal_strlit("FAILURE");
    reveal_strlit("PENDING");
    let kn = kind_name(k);
    let sn = status_name(st);
    assert(!kn.contains(',') && !kn.contains('\n')) by {
        if kn.contains(',') || kn.contains('\n') {
            let j = choose|j: int| 0 <= j < kn.len() && (kn[j] == ',' || kn[j] == '\n');
            assert(kn[j] != ',' && kn[j] != '\n');
        }
    }
    assert(!sn.contains(',') && !sn.contains('\n')) by {
        if sn.contains(',') || sn.contains('\n') {
            let j = choose|j: int| 0 <= j < sn.len() && (sn[j] == ',' || sn[j] == '\n');
            assert(sn[j] != ',' && sn[j] != '\n');
        }
    }
    if k != TransactionType::Deposit {
        assert(kn != "DEPOSIT"@) by {
            if kn.len() == "DEPOSIT"@.len() {
                assert(kn[0] != "DEPOSIT"@[0] || kn[1] != "DEPOSIT"@[1]);
            }
        }
    }
    if k != TransactionType::Deposit && k != TransactionType::Transfer {
        assert(kn != "TRANSFER"@) by {
            if kn.len() == "TRANSFER"@.len() {
                assert(kn[0] != "TRANSFER"@[0]);
            }
        }
    }
    if k == TransactionType::Unknown {
        assert(kn.len() != "WITHDRAWAL"@.len());
    }
    if st != TransactionStatus::Success {
        assert(sn != "SUCCESS"@) by {
            if sn.len() == "SUCCESS"@.len() {
                assert(sn[0] != "SUCCESS"@[0]);
            }
        }
    }
    if st != TransactionStatus::Success && st != TransactionStatus::Failure {
        assert(sn != "FAILURE"@) by {
            if sn.len() == "FAILURE"@.len() {
                assert(sn[0] != "FAILURE"@[0]);
            }
        }
    }
    if st == TransactionStatus::Unknown {
        assert(sn != "PENDING"@) by {
            assert(sn[0] != "PENDING"@[0]);
        }
    }
}

/// The line of a transaction with a safe description is trimmed, holds no
/// line end, does not end in `\r`, and reads back as the transaction.
pub proof fn lemma_csv_line_reads_back(t: TransactionView)
    requires
        csv_safe(t.description),
    ensures
        csv_line(t).len() > 0,
        !csv_line(t).contains('\n'),
        csv_line(t).last() != '\r',
        trim(csv_line(t)) == csv_line(t),
        csv_parse_line(csv_line(t)) == Ok::<TransactionView, ParserErrorView>(t),
{
    let f = csv_fields(t);
    let l = csv_line(t);
    lemma_csv_line_fields(t);
    lemma_names(t.tx_type, t.status);
    lemma_parse_decimal(t.tx_id);
    lemma_parse_decimal(t.from_user_id);
    lemma_parse_decimal(t.to_user_id);
    lemma_parse_decimal(t.amount);
    lemma_parse_decimal(t.timestamp);
    lemma_decimal(t.tx_id as nat);
    lemma_decimal(t.from_user_id as nat);
    lemma_decimal(t.to_user_id as nat);
    lemma_decimal(t.amount as nat);
    lemma_decimal(t.timestamp as nat);
    lemma_digits_without(decimal(t.tx_id as nat), ',');
    lemma_digits_without(decimal(t.from_user_id as nat), ',');
    lemma_digits_without(decimal(t.to_user_id as nat), ',');
    lemma_digits_without(decimal(t.amount as nat), ',');
    lemma_digits_without(decimal(t.timestamp as nat), ',');
    lemma_digits_without(decimal(t.tx_id as nat), '\n');
    lemma_digits_without(decimal(t.from_user_id as nat), '\n');
    lemma_digits_without(decimal(t.to_user_id as nat), '\n');
    lemma_digits_without(decimal(t.amount as nat), '\n');
    lemma_digits_without(decimal(t.timestamp as nat), '\n');
    assert(forall|i: int| 0 <= i < f.len() ==> !(#[trigger] f[i]).contains(','));
    assert(forall|i: int| 0 <= i < f.len() ==> !(#[trigger] f[i]).contains('\n'));
    lemma_split_join(f, ',');
    lemma_join_without(f, ',', '\n');
    let d = decimal(t.tx_id as nat);
    assert(l[0] == d[0]);
    assert(is_digit(d[0]));
    if t.description.len() > 0 {
        assert(l.last() == t.description.last());
    } else {
        assert(l.last() == ',');
    }
    lemma_trim_trimmed(l);
}

/// A transaction's CSV line with its line end reads back as the transaction,
/// and what follows is left.
pub proof fn lemma_csv_record_roundtrip(t: TransactionView, rest: Seq<u8>)
    requires
        csv_safe(t.description),
    ensures
        csv_step(csv_record(t) + rest) == (LineStep::Record(t), rest),
{
    let l = csv_line(t);
    lemma_csv_line_reads_back(t);
    lemma_encode_utf8_without_ascii(l, '\n');
    lemma_encode_utf8_last(l);
    let e = encode_utf8(l);
    assert(('\n' as u32) as u8 == 10u8);
    lemma_line_of_terminated(e, rest);
    encode_utf8_valid_utf8(l);
    encode_utf8_decode_utf8(l);
    let s = csv_record(t) + rest;
    assert(s.len() > 0);
}

/// The lines of transactions with safe descriptions read back as the
/// transactions.
pub proof fn lemma_csv_records_roundtrip(ts: Seq<TransactionView>)
    requires
        forall|i: int| 0 <= i < ts.len() ==> csv_safe((#[trigger] ts[i]).description),
    ensures
        csv_all(csv_records(ts)) == Ok::<Seq<TransactionView>, ParserErrorView>(ts),
    decreases ts.len(),
{
    if ts.len() == 0 {
        assert(csv_records(ts) =~= Seq::<u8>::empty());
        assert(ts =~= Seq::<TransactionView>::empty());
    } else {
        let rest = csv_records(ts.drop_first());
        assert(csv_safe(ts[0].description));
        lemma_csv_record_roundtrip(ts[0], rest);
        lemma_csv_records_roundtrip(ts.drop_first());
        assert(csv_records(ts) == csv_record(ts[0]) + rest);
        assert(seq![ts[0]] + ts.drop_first() =~= ts);
    }
}

/// Law: what the CSV writer writes for a report whose descriptions hold no
/// comma and no line end and do not end in whitespace, the CSV reader reads
/// back as the same transactions.
pub proof fn law_csv_write_then_read(ts: Seq<TransactionView>)
    requires
        forall|i: int| 0 <= i < ts.len() ==> csv_safe((#[trigger] ts[i]).description),
    ensures
        csv_report(csv_output(ts)) == Ok::<Seq<TransactionView>, ParserErrorView>(ts),
{
    reveal_strlit("TX_ID,TX_TYPE,FROM_USER_ID,TO_USER_ID,AMOUNT,TIMESTAMP,STATUS,DESCRIPTION");
    let h = csv_header();
    assert(!h.contains('\n')) by {
        if h.contains('\n') {
            let j = choose|j: int| 0 <= j < h.len() && h[j] == '\n';
            assert(h[j] != '\n');
        }
    }
    lemma_encode_utf8_without_ascii(h, '\n');
    lemma_encode_utf8_last(h);
    assert(('\n' as u32) as u8 == 10u8);
    lemma_line_of_terminated(encode_utf8(h), csv_records(ts));
    encode_utf8_valid_utf8(h);
    lemma_csv_records_roundtrip(ts);
}

/// The description of a transaction read from a CSV line is safe.
pub proof fn lemma_csv_step_safe(s: Seq<u8>)
    ensures
        csv_step(s).0 matches LineStep::Record(t) ==> csv_safe(t.description),
    decreases s.len(),
{
    if s.len() > 0 {
        let l = line_of(s);
        let rest = after_line(s);
        lemma_after_line_shorter(s);
        if valid_utf8(l) {
            let d = decode_utf8(l);
            let c = trim(d);
            if c.len() == 0 {
                lemma_csv_step_safe(rest);
            } else if let Ok(t) = csv_parse_line(c) {
                let f = split_on(c, ',');
                lemma_split_on_pieces(c, ',');
                lemma_trim_facts(d);
                lemma_line_text_no_newline(s);
                assert(t.description == f[7]);
                assert(f.last() == f[7]);
                lemma_within_trans(f[7], c, d);
                lemma_within_lacks(f[7], d, '\n');
            }
        }
    }
}

/// Every description of a report read from CSV is safe.
pub proof fn lemma_csv_all_safe(s: Seq<u8>)
    ensures
        csv_all(s) matches Ok(ts) ==> forall|i: int|
            0 <= i < ts.len() ==> csv_safe((#[trigger] ts[i]).description),
    decreases s.len(),
{
    lemma_csv_step_shorter(s);
    let (st, rest) = csv_step(s);
    if let LineStep::Record(t) = st {
        lemma_csv_step_safe(s);
        lemma_csv_all_safe(rest);
        if let Ok(ts) = csv_all(rest) {
            let all = seq![t] + ts;
            assert forall|i: int| 0 <= i < all.len() implies csv_safe((#[trigger] all[i]).description) by {
                if i > 0 {
                    assert(all[i] == ts[i - 1]);
                }
            }
        }
    }
}

/// Law: a report that the CSV reader reads, the CSV writer writes so that the
/// reader reads the same transactions again.
pub proof fn law_csv_read_write_read(s: Seq<u8>)
    ensures
        csv_report(s) matches Ok(ts) ==> csv_report(csv_output(ts)) == Ok::<
            Seq<TransactionView>,
            ParserErrorView,
        >(ts),
{
    if s.len() > 0 && valid_utf8(line_of(s)) {
        lemma_csv_all_safe(after_line(s));
    }
    if let Ok(ts) = csv_report(s) {
        law_csv_write_then_read(ts);
    }
}

} // verus!
