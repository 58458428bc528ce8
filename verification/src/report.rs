//! A report: the transactions of a statement, in the order they were read.

use crate::csv_format::csv_line;
use crate::bin_format::{bin_encodable, bin_records, bin_rest, bin_step, lemma_bin_rest_shorter, parse_bin_all, BinFormatIO, BinStep};
use crate::error::{ParserError, ParserErrorView};
use crate::input::InputBuffer;
use crate::transaction::{Transaction, TransactionView};
use vstd::prelude::*;

verus! {

/// The views of the transactions of `v`, in order.
pub open spec fn txs_view(v: Seq<Transaction>) -> Seq<TransactionView> {
    v.map_values(|t: Transaction| t@)
}

/// The transactions of a statement, in order.
#[derive(Debug)]
pub struct Report {
    transactions: Vec<Transaction>,
}

impl View for Report {
    type V = Seq<TransactionView>;

    closed spec fn view(&self) -> Seq<TransactionView> {
        txs_view(self.transactions@)
    }
}

/// A read report as the transactions it holds, or the error.
pub open spec fn report_result_view(r: Result<Report, ParserError>) -> Result<
    Seq<TransactionView>,
    ParserErrorView,
> {
    match r {
        Ok(rep) => Ok(rep@),
        Err(e) => Err(e@),
    }
}

/// `acc` in front of the transactions of `res`, or the error of `res`.
pub open spec fn prepend(acc: Seq<TransactionView>, res: Result<Seq<TransactionView>, ParserErrorView>) -> Result<
    Seq<TransactionView>,
    ParserErrorView,
> {
    match res {
        Ok(ts) => Ok(acc + ts),
        Err(e) => Err(e),
    }
}

/// The index of the first transaction whose record does not fit the binary
/// size field, or the number of transactions.
pub open spec fn first_unencodable(ts: Seq<TransactionView>) -> int
    decreases ts.len(),
{
    if ts.len() == 0 {
        0
    } else if !bin_encodable(ts[0]) {
        0
    } else {
        1 + first_unencodable(ts.drop_first())
    }
}

pub proof fn lemma_first_unencodable(ts: Seq<TransactionView>, k: int)
    requires
        0 <= k <= ts.len(),
        forall|j: int| 0 <= j < k ==> bin_encodable(#[trigger] ts[j]),
        k < ts.len() ==> !bin_encodable(ts[k]),
    ensures
        first_unencodable(ts) == k,
    decreases k,
{
    if k > 0 {
        assert forall|j: int| 0 <= j < k - 1 implies bin_encodable(#[trigger] ts.drop_first()[j]) by {
            assert(ts.drop_first()[j] == ts[j + 1]);
        }
        lemma_first_unencodable(ts.drop_first(), k - 1);
    }
}

pub proof fn lemma_bin_records_push(ts: Seq<TransactionView>, t: TransactionView)
    ensures
        bin_records(ts.push(t)) == bin_records(ts) + crate::bin_format::bin_record(t),
    decreases ts.len(),
{
    if ts.len() == 0 {
        assert(ts.push(t).drop_first() =~= Seq::<TransactionView>::empty());
        assert(bin_records(Seq::<TransactionView>::empty()) =~= Seq::<u8>::empty());
        assert(bin_records(ts) =~= Seq::<u8>::empty());
        assert(bin_records(ts.push(t)) =~= crate::bin_format::bin_record(t));
    } else {
        lemma_bin_records_push(ts.drop_first(), t);
        assert(ts.push(t).drop_first() =~= ts.drop_first().push(t));
        assert(bin_records(ts.push(t)) =~= bin_records(ts) + crate::bin_format::bin_record(t));
    }
}

/// The index of the first position where `a` and `b` differ, or the shorter
/// length.
pub open spec fn first_difference(a: Seq<TransactionView>, b: Seq<TransactionView>) -> int
    decreases a.len(),
{
    if a.len() == 0 || b.len() == 0 {
        0
    } else if a[0] != b[0] {
        0
    } else {
        1 + first_difference(a.drop_first(), b.drop_first())
    }
}

pub proof fn lemma_first_difference(a: Seq<TransactionView>, b: Seq<TransactionView>, k: int)
    requires
        a.len() == b.len(),
        0 <= k <= a.len(),
        forall|j: int| 0 <= j < k ==> a[j] == b[j],
        k < a.len() ==> a[k] != b[k],
    ensures
        first_difference(a, b) == k,
    decreases k,
{
    if k > 0 {
        lemma_first_difference(a.drop_first(), b.drop_first(), k - 1);
    }
}

/// What comparing two reports gives: their lengths where they differ, else
/// the lines of the first two transactions that differ, else success.
pub open spec fn comparison(a: Seq<TransactionView>, b: Seq<TransactionView>) -> Result<
    (),
    ParserErrorView,
> {
    if a.len() != b.len() {
        Err(ParserErrorView::ReportLengthsAreNotEqual(a.len() as usize, b.len() as usize))
    } else if a == b {
        Ok(())
    } else {
        let k = first_difference(a, b);
        Err(ParserErrorView::NonEqualTransactionFound(csv_line(a[k]), csv_line(b[k])))
    }
}

/// A record read from binary input fits the size field when written again.
pub proof fn lemma_bin_step_encodable(s: Seq<u8>)
    ensures
        bin_step(s) matches BinStep::Record(t) ==> bin_encodable(t),
{
    reveal(bin_step);
    if let BinStep::Record(t) = bin_step(s) {
        let size = crate::bin_format::announced_size(s);
        let body = s.subrange(8, 8 + size);
        let dl = crate::encoding::be_u32_value(body.subrange(42, 46)) as int;
        let b = body.subrange(46, 46 + dl);
        vstd::utf8::decode_utf8_encode_utf8(b);
        assert(size <= u32::MAX);
    }
}

/// Every transaction read from binary input fits the size field.
pub proof fn lemma_bin_all_encodable(s: Seq<u8>)
    ensures
        parse_bin_all(s) matches Ok(ts) ==> forall|i: int|
            0 <= i < ts.len() ==> bin_encodable(#[trigger] ts[i]),
    decreases s.len(),
{
    if let BinStep::Record(t) = bin_step(s) {
        lemma_bin_step_encodable(s);
        lemma_bin_rest_shorter(s);
        lemma_bin_all_encodable(bin_rest(s));
        if let Ok(ts) = parse_bin_all(bin_rest(s)) {
            let all = seq![t] + ts;
            assert forall|i: int| 0 <= i < all.len() implies bin_encodable(#[trigger] all[i]) by {
                if i > 0 {
                    assert(all[i] == ts[i - 1]);
                }
            }
        }
    }
}

/// Law: a report whose records all fit the size field is written whole, and
/// the binary reader reads the written bytes back as the same transactions.
pub proof fn law_bin_write_then_read(ts: Seq<TransactionView>)
    requires
        forall|i: int| 0 <= i < ts.len() ==> bin_encodable(#[trigger] ts[i]),
    ensures
        first_unencodable(ts) == ts.len(),
        parse_bin_all(bin_records(ts.take(first_unencodable(ts)))) == Ok::<
            Seq<TransactionView>,
            ParserErrorView,
        >(ts),
{
    lemma_first_unencodable(ts, ts.len() as int);
    assert(ts.take(ts.len() as int) =~= ts);
    crate::bin_format::lemma_bin_records_roundtrip(ts);
}

/// Law: a report that the binary reader reads, the binary writer writes whole,
/// and the reader reads the same transactions again.
pub proof fn law_bin_read_write_read(s: Seq<u8>)
    ensures
        parse_bin_all(s) matches Ok(ts) ==> first_unencodable(ts) == ts.len() && parse_bin_all(
            bin_records(ts),
        ) == Ok::<Seq<TransactionView>, ParserErrorView>(ts),
{
    lemma_bin_all_encodable(s);
    if let Ok(ts) = parse_bin_all(s) {
        law_bin_write_then_read(ts);
        assert(ts.take(ts.len() as int) =~= ts);
    }
}

/// Law: comparing succeeds exactly on reports with the same transactions in
/// the same order, and so it is reflexive and symmetric.
pub proof fn law_compare_succeeds_on_equal(a: Seq<TransactionView>, b: Seq<TransactionView>)
    ensures
        comparison(a, b) is Ok <==> a == b,
        comparison(a, a) is Ok,
        comparison(a, b) is Ok <==> comparison(b, a) is Ok,
{
}

/// The transactions of a report that held `start`, after `add_transaction`
/// was called with each of `ts` in turn.
pub open spec fn after_adds(start: Seq<TransactionView>, ts: Seq<TransactionView>) -> Seq<
    TransactionView,
>
    decreases ts.len(),
{
    if ts.len() == 0 {
        start
    } else {
        after_adds(start.push(ts[0]), ts.drop_first())
    }
}

/// Adding transactions one by one appends them, in the order of the calls.
pub proof fn lemma_after_adds(start: Seq<TransactionView>, ts: Seq<TransactionView>)
    ensures
        after_adds(start, ts) == start + ts,
    decreases ts.len(),
{
    if ts.len() > 0 {
        lemma_after_adds(start.push(ts[0]), ts.drop_first());
        assert(start.push(ts[0]) + ts.drop_first() =~= start + ts);
    } else {
        assert(start + ts =~= start);
    }
}

/// Law: a new report to which `add_transaction` adds the transactions `ts`
/// one by one holds exactly them, none dropped or repeated, in the order of
/// the calls, and `get_transactions` gives them in that order.
pub proof fn law_added_in_order(ts: Seq<TransactionView>)
    ensures
        after_adds(Seq::empty(), ts) == ts,
{
    lemma_after_adds(Seq::empty(), ts);
    assert(Seq::<TransactionView>::empty() + ts =~= ts);
}

/// Law: where two reports of the same length differ, the error names the
/// first position where they do.
pub proof fn law_compare_names_first_difference(a: Seq<TransactionView>, b: Seq<TransactionView>)
    requires
        a.len() == b.len(),
        a != b,
    ensures
        0 <= first_difference(a, b) < a.len(),
        a[first_difference(a, b)] != b[first_difference(a, b)],
        forall|j: int| 0 <= j < first_difference(a, b) ==> a[j] == b[j],
    decreases a.len(),
{
    if a.len() > 0 && a[0] == b[0] {
        assert(a.drop_first() != b.drop_first()) by {
            if a.drop_first() == b.drop_first() {
                assert forall|j: int| 0 <= j < a.len() implies a[j] == b[j] by {
                    if j > 0 {
                        assert(a[j] == a.drop_first()[j - 1]);
                        assert(b[j] == b.drop_first()[j - 1]);
                    }
                }
                assert(a =~= b);
            }
        }
        law_compare_names_first_difference(a.drop_first(), b.drop_first());
        let k = first_difference(a, b);
        assert forall|j: int| 0 <= j < k implies a[j] == b[j] by {
            if j > 0 {
                assert(a[j] == a.drop_first()[j - 1]);
                assert(b[j] == b.drop_first()[j - 1]);
            }
        }
    } else if a.len() == 0 {
        assert(a =~= b);
    }
}

impl Report {
    /// An empty report.
    pub fn new() -> (r: Self)
        ensures
            r@ == Seq::<TransactionView>::empty(),
    {
        let r = Report { transactions: Vec::new() };
        assert(r@ =~= Seq::<TransactionView>::empty());
        r
    }

    /// Appends a transaction at the end.
    pub fn add_transaction(&mut self, tx_to_add: Transaction)
        ensures
            final(self)@ == old(self)@.push(tx_to_add@),
    {
        self.transactions.push(tx_to_add);
        assert(self@ =~= old(self)@.push(tx_to_add@));
    }

    /// The transactions, in order.
    pub fn get_transactions(&self) -> (r: &Vec<Transaction>)
        ensures
            txs_view(r@) == self@,
    {
        &self.transactions
    }

    /// The transactions, in order, to change in place.
    pub fn get_transactions_mut(&mut self) -> (r: &mut Vec<Transaction>)
        ensures
            txs_view(r@) == old(self)@,
            final(self)@ == txs_view(final(r)@),
    {
        &mut self.transactions
    }

    /// Compares with another report: first the lengths, then the
    /// transactions in order; the first difference is the error.
    pub fn compare_full(&self, report_to_compare: &Report) -> (r: Result<(), ParserError>)
        ensures
            match r {
                Ok(()) => comparison(self@, report_to_compare@) == Ok::<(), ParserErrorView>(()),
                Err(e) => comparison(self@, report_to_compare@) == Err::<(), ParserErrorView>(e@),
            },
    {
        let a = &self.transactions;
        let b = &report_to_compare.transactions;
        if a.len() != b.len() {
            return Err(ParserError::ReportLengthsAreNotEqual(a.len(), b.len()));
        }
        let mut i: usize = 0;
        while i < a.len()
            invariant
                a@.len() == b@.len(),
                self@ == txs_view(a@),
                report_to_compare@ == txs_view(b@),
                i <= a@.len(),
                forall|j: int| 0 <= j < i ==> self@[j] == report_to_compare@[j],
            decreases a@.len() - i,
        {
            if !a[i].same_as(&b[i]) {
                proof {
                    lemma_first_difference(self@, report_to_compare@, i as int);
                }
                return Err(ParserError::NonEqualTransactionFound(a[i].as_str(), b[i].as_str()));
            }
            i = i + 1;
        }
        assert(self@ =~= report_to_compare@);
        Ok(())
    }

    /// The number of transactions.
    pub fn len(&self) -> (r: usize)
        ensures
            r == self@.len(),
    {
        self.transactions.len()
    }

    /// Reads records until the input is over; the first failing record ends
    /// the reading with its error.
    fn read_bin_records(reader: &mut InputBuffer) -> (r: Result<Report, ParserError>)
        ensures
            report_result_view(r) == parse_bin_all(old(reader)@),
            r is Ok ==> final(reader)@.len() == 0,
    {
        let mut report = Report::new();
        loop
            invariant
                parse_bin_all(old(reader)@) == prepend(report@, parse_bin_all(reader@)),
            decreases reader@.len(),
        {
            let ghost before = reader@;
            match Report::read_one_bin_transaction(reader) {
                Ok(Some(tx)) => {
                    proof {
                        lemma_bin_rest_shorter(before);
                        assert(parse_bin_all(before) == prepend(seq![tx@], parse_bin_all(reader@)));
                        assert(report@ + (seq![tx@] + Seq::<TransactionView>::empty()) =~= report@.push(tx@));
                        assert forall|ts: Seq<TransactionView>| #![auto] report@ + (seq![tx@] + ts) =~= report@.push(tx@) + ts by {}
                    }
                    report.add_transaction(tx);
                },
                Ok(None) => {
                    proof {
                        reveal(bin_step);
                        reveal(bin_rest);
                        assert(report@ + Seq::<TransactionView>::empty() =~= report@);
                    }
                    return Ok(report);
                },
                Err(e) => {
                    return Err(e);
                },
            }
        }
    }

    /// Appends the records of the transactions; stops at the first one whose
    /// body would not fit the size field, with `BinTxWriteError`.
    fn write_bin_records(&self, writer: &mut Vec<u8>) -> (r: Result<(), ParserError>)
        ensures
            final(writer)@ == old(writer)@ + bin_records(self@.take(first_unencodable(self@))),
            r is Ok <==> first_unencodable(self@) == self@.len(),
            r matches Err(e) ==> e@ == ParserErrorView::BinTxWriteError,
    {
        let mut i: usize = 0;
        let n = self.transactions.len();
        assert(self@.take(0) =~= Seq::<TransactionView>::empty());
        assert(bin_records(Seq::<TransactionView>::empty()) =~= Seq::<u8>::empty());
        assert(writer@ =~= old(writer)@ + bin_records(self@.take(0)));
        while i < n
            invariant
                n == self@.len(),
                i <= n,
                forall|j: int| 0 <= j < i ==> bin_encodable(#[trigger] self@[j]),
                writer@ == old(writer)@ + bin_records(self@.take(i as int)),
            decreases n - i,
        {
            let ghost w = writer@;
            let tx = &self.transactions[i];
            assert(tx@ == self@[i as int]);
            match tx.write_bin_record(writer) {
                Ok(()) => {
                    proof {
                        lemma_bin_records_push(self@.take(i as int), tx@);
                        assert(self@.take(i as int).push(tx@) =~= self@.take(i + 1));
                    }
                },
                Err(e) => {
                    proof {
                        lemma_first_unencodable(self@, i as int);
                    }
                    return Err(e);
                },
            }
            i = i + 1;
        }
        proof {
            lemma_first_unencodable(self@, n as int);
            assert(self@.take(n as int) =~= self@);
        }
        Ok(())
    }
}

impl BinFormatIO<Report> for Report {
    /// Reads records until the input is over; the first failing record ends
    /// the reading with its error.
    fn new_from_bin_reader(reader: &mut InputBuffer) -> (r: Result<Report, ParserError>)
        ensures
            report_result_view(r) == parse_bin_all(old(reader)@),
            r is Ok ==> final(reader)@.len() == 0,
    {
        Report::read_bin_records(reader)
    }

    /// Appends the records of the transactions; stops at the first one whose
    /// body would not fit the size field, with `BinTxWriteError`.
    fn write_as_bin_to_writer(&self, writer: &mut Vec<u8>) -> (r: Result<(), ParserError>)
        ensures
            final(writer)@ == old(writer)@ + bin_records(self@.take(first_unencodable(self@))),
            r is Ok <==> first_unencodable(self@) == self@.len(),
            r matches Err(e) ==> e@ == ParserErrorView::BinTxWriteError,
    {
        self.write_bin_records(writer)
    }
}

} // verus!
