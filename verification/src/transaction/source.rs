//! The records of an input, one after another.

use vstd::prelude::*;
use crate::input::after_first_line;
use crate::input::lemma_line_is_within;
use crate::input::next_line;
use crate::input::Input;
use crate::transaction::record::lemma_record_is_complete;
use crate::transaction::record::csv_first_record;
use crate::transaction::record::line_record;
use crate::transaction::Transaction;
use crate::transaction::TransactionView;

verus! {

/// The records that an input yields: one for each line, up to the first line
/// that is no text or writes no record. That line ends the sequence: no line
/// after it is read.
pub open spec fn records_in(rest: Seq<u8>) -> Seq<TransactionView>
    decreases rest.len(),
{
    if rest.len() == 0 {
        Seq::empty()
    } else {
        match next_line(rest) {
            None => Seq::empty(),
            Some(line) => match line_record(line) {
                None => Seq::empty(),
                Some(tx) => {
                    proof {
                        lemma_line_is_within(rest);
                    }
                    seq![tx] + records_in(after_first_line(rest))
                },
            },
        }
    }
}

/// Every record of an input is complete and carries no flag.
pub proof fn lemma_records_are_complete(rest: Seq<u8>)
    ensures
        forall|i: int|
            0 <= i < records_in(rest).len() ==> (#[trigger] records_in(rest)[i]).is_complete(),
    decreases rest.len(),
{
    if rest.len() > 0 {
        if let Some(line) = next_line(rest) {
            if let Some(tx) = line_record(line) {
                lemma_line_is_within(rest);
                lemma_records_are_complete(after_first_line(rest));
                lemma_record_is_complete(csv_first_record(line)->0);
                let later = records_in(after_first_line(rest));
                assert forall|i: int| 0 <= i < records_in(rest).len() implies (
                #[trigger] records_in(rest)[i]).is_complete() by {
                    if i > 0 {
                        assert(records_in(rest)[i] == later[i - 1]);
                    }
                }
            }
        }
    }
}

/// Walks the records of an input. Its value is the sequence of the records
/// that it has yet to yield.
pub struct TransactionIterator {
    input: Input,
    ended: bool,
}

impl View for TransactionIterator {
    type V = Seq<TransactionView>;

    closed spec fn view(&self) -> Seq<TransactionView> {
        if self.ended {
            Seq::empty()
        } else {
            records_in(self.input@)
        }
    }
}

impl TransactionIterator {
    /// The records of the input, from its next line on.
    pub fn new(input: Input) -> (records: Self)
        ensures
            records@ == records_in(input@),
    {
        TransactionIterator { input, ended: false }
    }

    /// Yields the next record. After the last record, and from the first line
    /// that writes no record, it yields `None` for good.
    pub fn next(&mut self) -> (record: Option<Transaction>)
        ensures
            match record {
                Some(tx) => old(self)@.len() > 0 && tx@ == old(self)@[0] && final(self)@ == old(
                    self,
                )@.drop_first() && tx@.is_complete(),
                None => old(self)@.len() == 0 && final(self)@.len() == 0,
            },
    {
        if self.ended {
            return None;
        }
        let ghost rest = self.input@;
        proof {
            lemma_records_are_complete(rest);
        }
        let read = match self.input.next() {
            Some(line) => Transaction::from(line),
            None => {
                self.ended = true;
                return None;
            },
        };
        match read {
            Ok(tx) => {
                assert(records_in(rest).drop_first() == records_in(after_first_line(rest)));
                Some(tx)
            },
            Err(_) => {
                self.ended = true;
                None
            },
        }
    }
}

} // verus!
