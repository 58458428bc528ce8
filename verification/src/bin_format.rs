//! The binary record format: the magic `YPBN`, the body size as a big-endian
//! `u32`, then the body: transaction id, kind byte, sender, receiver, amount,
//! timestamp (big-endian 64-bit each but the kind), status byte, description
//! length (big-endian `u32`) and the UTF-8 description.

use crate::encoding::{
    be_u32_bytes, be_u32_value, be_u64_bytes, be_u64_value, lemma_be_u32_roundtrip,
    lemma_be_u64_roundtrip, lemma_u64_i64_roundtrip, read_be_i64, read_be_u32, read_be_u64,
    write_be_i64, write_be_u32, write_be_u64,
};
use crate::error::{ParserError, ParserErrorView};
use crate::input::{append_bytes, str_from_utf8, InputBuffer};
use crate::report::Report;
use crate::transaction::{
    status_code, status_of_code, type_code, type_of_code, Transaction, TransactionStatus,
    TransactionType, TransactionView,
};
use vstd::prelude::*;
use vstd::slice::slice_subrange;
use vstd::utf8::*;

verus! {

/// Reading and writing a value in the binary record format.
pub trait BinFormatIO<InternalType> {
    /// Reads a value from the bytes of `reader`.
    fn new_from_bin_reader(reader: &mut InputBuffer) -> Result<InternalType, ParserError>;

    /// Appends the value's records to `writer`.
    fn write_as_bin_to_writer(&self, writer: &mut Vec<u8>) -> Result<(), ParserError>;
}

/// The size of a body without its description.
pub open spec fn body_fixed_len() -> int {
    46
}

pub open spec fn bin_magic() -> Seq<u8> {
    seq![0x59u8, 0x50u8, 0x42u8, 0x4Eu8]
}

/// The UTF-8 bytes of a transaction's description.
pub open spec fn desc_bytes(t: TransactionView) -> Seq<u8> {
    encode_utf8(t.description)
}

/// Whether the body of the transaction's record has a size that a `u32`
/// holds.
pub open spec fn bin_encodable(t: TransactionView) -> bool {
    body_fixed_len() + desc_bytes(t).len() <= u32::MAX
}

/// The body of the transaction's record.
pub open spec fn bin_body(t: TransactionView) -> Seq<u8> {
    be_u64_bytes(t.tx_id) + seq![type_code(t.tx_type)] + be_u64_bytes(t.from_user_id)
        + be_u64_bytes(t.to_user_id) + be_u64_bytes(t.amount) + be_u64_bytes(t.timestamp)
        + seq![status_code(t.status)] + be_u32_bytes(desc_bytes(t).len() as u32) + desc_bytes(t)
}

/// The whole record of the transaction.
#[verifier::opaque]
pub open spec fn bin_record(t: TransactionView) -> Seq<u8> {
    bin_magic() + be_u32_bytes(bin_body(t).len() as u32) + bin_body(t)
}

/// The records of the transactions one after the other.
pub open spec fn bin_records(ts: Seq<TransactionView>) -> Seq<u8>
    decreases ts.len(),
{
    if ts.len() == 0 {
        Seq::empty()
    } else {
        bin_record(ts[0]) + bin_records(ts.drop_first())
    }
}

/// The transaction that a body of at least the fixed size holds.
pub open spec fn decode_bin_body(body: Seq<u8>) -> TransactionView {
    let dl = be_u32_value(body.subrange(42, 46)) as int;
    TransactionView {
        tx_id: be_u64_value(body.subrange(0, 8)),
        tx_type: type_of_code(body[8]),
        from_user_id: be_u64_value(body.subrange(9, 17)),
        to_user_id: be_u64_value(body.subrange(17, 25)),
        amount: be_u64_value(body.subrange(25, 33)),
        timestamp: be_u64_value(body.subrange(33, 41)),
        status: status_of_code(body[41]),
        description: decode_utf8(body.subrange(46, 46 + dl)),
    }
}

/// What reading one record from `s` comes to.
pub enum BinStep {
    /// Fewer bytes than a header are left: the input is over.
    End,
    Fail(ParserErrorView),
    Record(TransactionView),
}

/// The size that the header at the front of `s` announces.
pub open spec fn announced_size(s: Seq<u8>) -> int {
    be_u32_value(s.subrange(4, 8)) as int
}

/// Reading one record from the front of `s`.
#[verifier::opaque]
pub open spec fn bin_step(s: Seq<u8>) -> BinStep {
    if s.len() < 8 {
        BinStep::End
    } else if s.take(4) != bin_magic() {
        BinStep::Fail(ParserErrorView::BinWrongMagicEncountered)
    } else {
        let size = announced_size(s);
        if s.len() - 8 < size {
            BinStep::Fail(ParserErrorView::BinTxReadError)
        } else if size < body_fixed_len() {
            BinStep::Fail(ParserErrorView::BinReadLessThanBody)
        } else {
            let body = s.subrange(8, 8 + size);
            let dl = be_u32_value(body.subrange(42, 46)) as int;
            if body_fixed_len() + dl > size {
                BinStep::Fail(ParserErrorView::BinReadDescLenIsExcessive)
            } else if !valid_utf8(body.subrange(46, 46 + dl)) {
                BinStep::Fail(ParserErrorView::BinReadNonUtf8Symbols)
            } else {
                BinStep::Record(decode_bin_body(body))
            }
        }
    }
}

/// What is left of `s` once one record has been read from it.
#[verifier::opaque]
pub open spec fn bin_rest(s: Seq<u8>) -> Seq<u8> {
    if s.len() < 8 {
        Seq::empty()
    } else if s.take(4) != bin_magic() {
        s.skip(8)
    } else if s.len() - 8 < announced_size(s) {
        Seq::empty()
    } else {
        s.skip(8 + announced_size(s))
    }
}

/// Reading records from `s` until the input is over or a record fails.
pub open spec fn parse_bin_all(s: Seq<u8>) -> Result<Seq<TransactionView>, ParserErrorView>
    decreases s.len(),
{
    match bin_step(s) {
        BinStep::End => Ok(Seq::empty()),
        BinStep::Fail(e) => Err(e),
        BinStep::Record(t) => {
            if bin_rest(s).len() < s.len() {
                match parse_bin_all(bin_rest(s)) {
                    Ok(ts) => Ok(seq![t] + ts),
                    Err(e) => Err(e),
                }
            } else {
                Err(ParserErrorView::BinTxReadError)
            }
        },
    }
}

/// A record is never empty, so reading one always moves forward.
pub proof fn lemma_bin_rest_shorter(s: Seq<u8>)
    requires
        bin_step(s) is Record,
    ensures
        bin_rest(s).len() < s.len(),
{
    reveal(bin_step);
    reveal(bin_rest);
}

/// What a one-record read returned, against what the format says of the input.
pub open spec fn bin_read_agrees(step: BinStep, r: Result<Option<Transaction>, ParserError>) -> bool {
    match step {
        BinStep::End => r matches Ok(None),
        BinStep::Fail(e) => r matches Err(x) && x@ == e,
        BinStep::Record(t) => r matches Ok(Some(tx)) && tx@ == t,
    }
}

impl Report {
/// Reads one record; `None` where fewer bytes than a header are left.
pub(crate) fn read_one_bin_transaction(reader: &mut InputBuffer) -> (r: Result<Option<Transaction>, ParserError>)
    ensures
        bin_read_agrees(bin_step(old(reader)@), r),
        final(reader)@ == bin_rest(old(reader)@),
{
    let ghost s = old(reader)@;
    proof {
        reveal(bin_step);
        reveal(bin_rest);
    }
    let header = match reader.read_exact(8) {
        Some(h) => h,
        None => {
            return Ok(None);
        },
    };
    assert(header@ == s.take(8));
    if !(header[0] == 0x59u8 && header[1] == 0x50u8 && header[2] == 0x42u8 && header[3] == 0x4Eu8) {
        proof {
            if s.take(4) == bin_magic() {
                assert(s.take(4)[0] == header@[0]);
                assert(s.take(4)[1] == header@[1]);
                assert(s.take(4)[2] == header@[2]);
                assert(s.take(4)[3] == header@[3]);
            }
        }
        return Err(ParserError::BinWrongMagicEncountered);
    }
    assert(s.take(4) =~= bin_magic());
    let size_bytes = slice_subrange(header.as_slice(), 4, 8);
    assert(size_bytes@ =~= s.subrange(4, 8));
    let record_size = read_be_u32(size_bytes) as usize;
    let body = match reader.read_exact(record_size) {
        Some(b) => b,
        None => {
            return Err(ParserError::BinTxReadError);
        },
    };
    let ghost size = announced_size(s);
    assert(body@ =~= s.subrange(8, 8 + size));
    assert(reader@ =~= s.skip(8 + size));
    if body.len() < 46 {
        return Err(ParserError::BinReadLessThanBody);
    }
    let b = body.as_slice();
    let tx_id = read_be_u64(slice_subrange(b, 0, 8));
    let tx_type = TransactionType::from_u8(body[8]);
    let from_user_id = read_be_u64(slice_subrange(b, 9, 17));
    let to_user_id = read_be_u64(slice_subrange(b, 17, 25));
    let amount = read_be_i64(slice_subrange(b, 25, 33));
    let timestamp = read_be_u64(slice_subrange(b, 33, 41));
    let status = TransactionStatus::from_u8(body[41]);
    let desc_len = read_be_u32(slice_subrange(b, 42, 46)) as usize;
    if desc_len > body.len() - 46 {
        return Err(ParserError::BinReadDescLenIsExcessive);
    }
    let description = match str_from_utf8(slice_subrange(b, 46, 46 + desc_len)) {
        Some(d) => d.to_owned(),
        None => {
            return Err(ParserError::BinReadNonUtf8Symbols);
        },
    };
    proof {
        lemma_u64_i64_roundtrip(be_u64_value(body@.subrange(25, 33)));
    }
    let tx = Transaction::new(
        tx_id,
        tx_type,
        from_user_id,
        to_user_id,
        amount as u64,
        timestamp,
        status,
        description,
    );
    assert(tx@ == decode_bin_body(body@));
    Ok(Some(tx))
}
}

impl Transaction {
    /// Appends the transaction's record; fails, writing nothing, where the
    /// body would not fit the size field.
    pub fn write_bin_record(&self, writer: &mut Vec<u8>) -> (r: Result<(), ParserError>)
        ensures
            bin_encodable(self@) ==> r is Ok && final(writer)@ == old(writer)@ + bin_record(self@),
            !bin_encodable(self@) ==> (r matches Err(e) && e@ == ParserErrorView::BinTxWriteError
                && final(writer)@ == old(writer)@),
    {
        let desc = self.description.as_str().as_bytes();
        if desc.len() > 0xFFFF_FFFF - 46 {
            return Err(ParserError::BinTxWriteError);
        }
        let body_len = (46 + desc.len()) as u32;
        let desc_len = desc.len() as u32;
        append_bytes(writer, &[0x59u8, 0x50u8, 0x42u8, 0x4Eu8]);
        append_bytes(writer, &write_be_u32(body_len));
        append_bytes(writer, &write_be_u64(self.tx_id));
        append_bytes(writer, &[self.tx_type.to_u8()]);
        append_bytes(writer, &write_be_u64(self.from_user_id));
        append_bytes(writer, &write_be_u64(self.to_user_id));
        append_bytes(writer, &write_be_i64(self.amount as i64));
        append_bytes(writer, &write_be_u64(self.timestamp));
        append_bytes(writer, &[self.status.to_u8()]);
        append_bytes(writer, &write_be_u32(desc_len));
        append_bytes(writer, desc);
        proof {
            lemma_u64_i64_roundtrip(self.amount);
            reveal(bin_record);
            let t = self@;
            assert(bin_body(t).len() == 46 + desc_bytes(t).len());
            assert(final(writer)@ =~= old(writer)@ + bin_record(t));
        }
        Ok(())
    }
}

impl BinFormatIO<Transaction> for Transaction {
    /// Reads one record; the input being over is the error `EOFEncountered`.
    fn new_from_bin_reader(reader: &mut InputBuffer) -> (r: Result<Transaction, ParserError>)
        ensures
            match bin_step(old(reader)@) {
                BinStep::End => r matches Err(e) && e@ == ParserErrorView::EOFEncountered,
                BinStep::Fail(e) => r matches Err(x) && x@ == e,
                BinStep::Record(t) => r matches Ok(tx) && tx@ == t,
            },
            final(reader)@ == bin_rest(old(reader)@),
    {
        match Report::read_one_bin_transaction(reader) {
            Ok(Some(tx)) => Ok(tx),
            Ok(None) => Err(ParserError::EOFEncountered),
            Err(e) => Err(e),
        }
    }

    /// Appends the transaction's record.
    fn write_as_bin_to_writer(&self, writer: &mut Vec<u8>) -> (r: Result<(), ParserError>)
        ensures
            bin_encodable(self@) ==> r is Ok && final(writer)@ == old(writer)@ + bin_record(self@),
            !bin_encodable(self@) ==> (r matches Err(e) && e@ == ParserErrorView::BinTxWriteError
                && final(writer)@ == old(writer)@),
    {
        self.write_bin_record(writer)
    }
}

/// The record of an encodable transaction reads back as the transaction, and
/// what follows it is left to read.
pub proof fn lemma_bin_record_roundtrip(t: TransactionView, rest: Seq<u8>)
    requires
        bin_encodable(t),
    ensures
        bin_step(bin_record(t) + rest) == BinStep::Record(t),
        bin_rest(bin_record(t) + rest) == rest,
{
    reveal(bin_step);
    reveal(bin_rest);
    reveal(bin_record);
    let body = bin_body(t);
    let d = desc_bytes(t);
    let dl = d.len() as u32;
    let s = bin_record(t) + rest;
    assert(body.len() == 46 + d.len() as int);
    let size = body.len() as u32;
    lemma_be_u32_roundtrip(size);
    lemma_be_u32_roundtrip(dl);
    lemma_be_u64_roundtrip(t.tx_id);
    lemma_be_u64_roundtrip(t.from_user_id);
    lemma_be_u64_roundtrip(t.to_user_id);
    lemma_be_u64_roundtrip(t.amount);
    lemma_be_u64_roundtrip(t.timestamp);
    assert(s.take(4) =~= bin_magic());
    assert(s.subrange(4, 8) =~= be_u32_bytes(size));
    assert(announced_size(s) == body.len());
    assert(s.subrange(8, 8 + body.len() as int) =~= body);
    assert(body.subrange(0, 8) =~= be_u64_bytes(t.tx_id));
    assert(body[8] == type_code(t.tx_type));
    assert(body.subrange(9, 17) =~= be_u64_bytes(t.from_user_id));
    assert(body.subrange(17, 25) =~= be_u64_bytes(t.to_user_id));
    assert(body.subrange(25, 33) =~= be_u64_bytes(t.amount));
    assert(body.subrange(33, 41) =~= be_u64_bytes(t.timestamp));
    assert(body[41] == status_code(t.status));
    assert(body.subrange(42, 46) =~= be_u32_bytes(dl));
    assert(body.subrange(46, 46 + d.len() as int) =~= d);
    encode_utf8_valid_utf8(t.description);
    encode_utf8_decode_utf8(t.description);
    assert(type_of_code(type_code(t.tx_type)) == t.tx_type);
    assert(status_of_code(status_code(t.status)) == t.status);
    assert(decode_bin_body(body) == t);
    assert(s.skip(8 + body.len() as int) =~= rest);
}

/// The records of encodable transactions read back as those transactions.
pub proof fn lemma_bin_records_roundtrip(ts: Seq<TransactionView>)
    requires
        forall|i: int| 0 <= i < ts.len() ==> bin_encodable(#[trigger] ts[i]),
    ensures
        parse_bin_all(bin_records(ts)) == Ok::<Seq<TransactionView>, ParserErrorView>(ts),
    decreases ts.len(),
{
    if ts.len() == 0 {
        reveal(bin_step);
        assert(bin_records(ts) =~= Seq::<u8>::empty());
        assert(ts =~= Seq::<TransactionView>::empty());
    } else {
        let rest = bin_records(ts.drop_first());
        assert(bin_encodable(ts[0]));
        lemma_bin_record_roundtrip(ts[0], rest);
        assert(bin_records(ts) == bin_record(ts[0]) + rest);
        lemma_bin_rest_shorter(bin_records(ts));
        lemma_bin_records_roundtrip(ts.drop_first());
        assert(parse_bin_all(rest) == Ok::<Seq<TransactionView>, ParserErrorView>(ts.drop_first()));
        assert(parse_bin_all(bin_records(ts)) == Ok::<Seq<TransactionView>, ParserErrorView>(
            seq![ts[0]] + ts.drop_first(),
        ));
        lemma_bin_records_roundtrip(ts.drop_first());
        assert(seq![ts[0]] + ts.drop_first() =~= ts);
    }
}

} // verus!
