//! Reading a record from a line of text.

use vstd::prelude::*;
use crate::amount::amount_of;
use crate::amount::parse_amount;
use crate::text::parse_unsigned;
use crate::text::texts;
use crate::text::unsigned_of;
use crate::transaction::keyword_type;
use crate::transaction::DisputeFlag;
use crate::transaction::Error;
use crate::transaction::Transaction;
use crate::transaction::TransactionView;
use crate::transaction::Type;

verus! {

/// The fields of the first record that the `csv` crate reads from a text,
/// with no line taken for a header and every other setting as the crate has
/// it; `None` where it reads no record, or fails.
pub uninterp spec fn csv_first_record(line: Seq<char>) -> Option<Seq<Seq<char>>>;

/// Splits a line into fields. This is `csv::ReaderBuilder` with `has_headers`
/// off, its `from_reader` on the line's bytes, and the first item of
/// `records()`, each field copied into a `String`. Nothing is proved of it:
/// the contract only gives the result its name, `csv_first_record` of the
/// line.
#[verifier::external_body]
fn first_record(line: &str) -> (fields: Option<Vec<String>>)
    ensures
        match fields {
            Some(fields) => csv_first_record(line@) == Some(texts(fields@)),
            None => csv_first_record(line@) is None,
        },
{
    let mut reader = csv::ReaderBuilder::new().has_headers(false).from_reader(line.as_bytes());
    match reader.records().next() {
        Some(Ok(record)) => Some(record.iter().map(String::from).collect()),
        Some(Err(_)) => None,
        None => None,
    }
}

/// The record that a list of fields writes.
///
/// The first three fields are the kind, by its keyword, the client, a whole
/// number that fits 16 bits, and the transaction, a whole number that fits 32
/// bits. A deposit and a withdrawal have a fourth field, their amount. In a
/// dispute, a resolve and a chargeback a fourth field may stand; it is not
/// read. Fields after the fourth are not read either. A new record has no
/// flag.
pub open spec fn record_of(fields: Seq<Seq<char>>) -> Option<TransactionView> {
    if fields.len() < 3 {
        None
    } else {
        let ttype = keyword_type(fields[0]);
        let client_id = unsigned_of(fields[1], u16::MAX as nat);
        let tx_id = unsigned_of(fields[2], u32::MAX as nat);
        let amount = if ttype == Type::Deposit || ttype == Type::Withdrawal {
            if fields.len() < 4 {
                None
            } else {
                amount_of(fields[3])
            }
        } else {
            None
        };
        if ttype == Type::ERR || client_id is None || tx_id is None {
            None
        } else if (ttype == Type::Deposit || ttype == Type::Withdrawal) && amount is None {
            None
        } else {
            Some(
                TransactionView {
                    ttype,
                    client_id: client_id->0 as u16,
                    tx_id: tx_id->0 as u32,
                    amount,
                    flag: DisputeFlag::Clear,
                },
            )
        }
    }
}

/// The record that a line writes: that of the fields that `csv` splits the
/// line into.
pub open spec fn line_record(line: Seq<char>) -> Option<TransactionView> {
    match csv_first_record(line) {
        Some(fields) => record_of(fields),
        None => None,
    }
}

/// A record that was read from text is complete: a deposit and a withdrawal
/// carry their amount.
pub proof fn lemma_record_is_complete(fields: Seq<Seq<char>>)
    ensures
        record_of(fields) matches Some(tx) ==> tx.is_complete() && tx.flag == DisputeFlag::Clear,
{
}

impl Transaction {
    /// Reads the record that the fields write. Fields that write none are an
    /// invalid record.
    pub fn from_fields(fields: &Vec<String>) -> (record: Result<Transaction, Error>)
        ensures
            match record {
                Ok(tx) => record_of(texts(fields@)) == Some(tx@),
                Err(error) => record_of(texts(fields@)) is None && error is InvalidRecord,
            },
    {
        if fields.len() < 3 {
            return Err(Error::InvalidRecord);
        }
        assert(texts(fields@)[0] == fields[0]@);
        assert(texts(fields@)[1] == fields[1]@);
        assert(texts(fields@)[2] == fields[2]@);
        let ttype = Type::from(fields[0].as_str());
        if ttype == Type::ERR {
            return Err(Error::InvalidRecord);
        }
        let client_id = match parse_unsigned(fields[1].as_str(), 65_535) {
            Some(client_id) => client_id as u16,
            None => {
                return Err(Error::InvalidRecord);
            },
        };
        let tx_id = match parse_unsigned(fields[2].as_str(), 4_294_967_295) {
            Some(tx_id) => tx_id as u32,
            None => {
                return Err(Error::InvalidRecord);
            },
        };
        if ttype == Type::Deposit || ttype == Type::Withdrawal {
            if fields.len() < 4 {
                return Err(Error::InvalidRecord);
            }
            assert(texts(fields@)[3] == fields[3]@);
            match parse_amount(fields[3].as_str()) {
                Some(amount) => Ok(Transaction::new_with_amount(ttype, client_id, tx_id, amount)),
                None => Err(Error::InvalidRecord),
            }
        } else {
            Ok(Transaction::new(ttype, client_id, tx_id))
        }
    }

    /// Reads the record that a line writes. A line that writes none is an
    /// invalid record.
    pub fn from(line: String) -> (record: Result<Transaction, Error>)
        ensures
            match record {
                Ok(tx) => line_record(line@) == Some(tx@),
                Err(error) => line_record(line@) is None && error is InvalidRecord,
            },
    {
        match first_record(line.as_str()) {
            Some(fields) => Transaction::from_fields(&fields),
            None => Err(Error::InvalidRecord),
        }
    }
}

} // verus!
