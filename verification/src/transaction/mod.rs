//! Ledger records.

use vstd::prelude::*;
use vstd::std_specs::convert::FromSpecImpl;
use crate::account::Error as ClientError;
use crate::text::same_text;

pub mod record;
pub mod router;
pub mod source;

pub use crate::transaction::router::drill;
pub use crate::transaction::router::Router;
pub use crate::transaction::source::TransactionIterator;

verus! {

/// The kind of a ledger record. `ERR` stands for a keyword that names no kind.
#[derive(PartialEq, Eq, Debug, Clone, Copy, Structural)]
pub enum Type {
    /// Money comes in.
    Deposit,
    /// Money goes out.
    Withdrawal,
    /// A client questions an earlier record: its amount is held.
    Dispute,
    /// A dispute ends in the client's favour: the held amount is released.
    Resolve,
    /// A dispute ends with the amount taken back: the account is locked.
    Chargeback,
    /// No kind at all.
    ERR,
}

/// The kind that a keyword names: the five lower-case keywords name the five
/// kinds, and every other text names none.
pub open spec fn keyword_type(word: Seq<char>) -> Type {
    if word == "dispute"@ {
        Type::Dispute
    } else if word == "resolve"@ {
        Type::Resolve
    } else if word == "chargeback"@ {
        Type::Chargeback
    } else if word == "deposit"@ {
        Type::Deposit
    } else if word == "withdrawal"@ {
        Type::Withdrawal
    } else {
        Type::ERR
    }
}

impl<'a> From<&'a str> for Type {
    fn from(transaction_type: &'a str) -> (t: Type) {
        if same_text(transaction_type, "dispute") {
            Type::Dispute
        } else if same_text(transaction_type, "resolve") {
            Type::Resolve
        } else if same_text(transaction_type, "chargeback") {
            Type::Chargeback
        } else if same_text(transaction_type, "deposit") {
            Type::Deposit
        } else if same_text(transaction_type, "withdrawal") {
            Type::Withdrawal
        } else {
            Type::ERR
        }
    }
}

impl<'a> FromSpecImpl<&'a str> for Type {
    open spec fn obeys_from_spec() -> bool {
        true
    }

    open spec fn from_spec(v: &'a str) -> Type {
        keyword_type(v@)
    }
}

/// Why a record could not be read or delivered.
#[derive(Debug, Clone, Copy, PartialEq, Eq)]
pub enum Error {
    /// The line is no record.
    InvalidRecord,
    /// The client's worker had stopped: the record, handed back, was dropped.
    Send(Transaction),
    /// The worker refused the record, for the reason given. The router does
    /// not answer with it: what a worker refuses is dropped without a word.
    Client(ClientError),
}

/// What has become of a record that can be disputed. A record carries
/// exactly one flag at a time.
#[derive(PartialEq, Eq, Debug, Clone, Copy, Structural)]
pub enum DisputeFlag {
    /// Never disputed, or cleared since.
    Clear,
    /// Under dispute: its amount is held.
    Disputed,
    /// The dispute was settled in the client's favour.
    Resolved,
    /// The dispute ended with the amount taken back.
    ChargedBack,
}

/// The mathematical value of a record.
pub struct TransactionView {
    pub ttype: Type,
    pub client_id: u16,
    pub tx_id: u32,
    pub amount: Option<nat>,
    pub flag: DisputeFlag,
}

impl TransactionView {
    /// The amount that the record moves: what it carries, or nothing.
    pub open spec fn value(self) -> nat {
        match self.amount {
            Some(amount) => amount,
            None => 0,
        }
    }

    /// The record with another flag.
    pub open spec fn flagged(self, flag: DisputeFlag) -> TransactionView {
        TransactionView { flag, ..self }
    }

    /// Whether a worker can take the record: a deposit and a withdrawal
    /// carry an amount.
    pub open spec fn is_complete(self) -> bool {
        self.ttype == Type::Deposit || self.ttype == Type::Withdrawal ==> self.amount is Some
    }
}

/// One ledger record: its kind, the client and the transaction it names, the
/// amount where it has one, and its dispute flag.
#[derive(Debug, Clone, Copy, PartialEq, Eq)]
pub struct Transaction {
    ttype: Type,
    client_id: u16,
    tx_id: u32,
    amount: Option<u64>,
    flag: DisputeFlag,
}

impl View for Transaction {
    type V = TransactionView;

    closed spec fn view(&self) -> TransactionView {
        TransactionView {
            ttype: self.ttype,
            client_id: self.client_id,
            tx_id: self.tx_id,
            amount: match self.amount {
                Some(amount) => Some(amount as nat),
                None => None,
            },
            flag: self.flag,
        }
    }
}

impl Transaction {
    /// A record that carries an amount, not yet disputed.
    pub fn new_with_amount(ttype: Type, client_id: u16, tx_id: u32, amount: u64) -> (tx: Self)
        ensures
            tx@ == (TransactionView {
                ttype,
                client_id,
                tx_id,
                amount: Some(amount as nat),
                flag: DisputeFlag::Clear,
            }),
    {
        Transaction { ttype, client_id, tx_id, amount: Some(amount), flag: DisputeFlag::Clear }
    }

    /// A record without an amount, not yet disputed.
    pub fn new(ttype: Type, client_id: u16, tx_id: u32) -> (tx: Self)
        ensures
            tx@ == (TransactionView {
                ttype,
                client_id,
                tx_id,
                amount: None,
                flag: DisputeFlag::Clear,
            }),
    {
        Transaction { ttype, client_id, tx_id, amount: None, flag: DisputeFlag::Clear }
    }

    /// Flags the record as disputed, whatever flag it had.
    pub fn mark_disputed(&mut self)
        ensures
            final(self)@ == old(self)@.flagged(DisputeFlag::Disputed),
    {
        self.flag = DisputeFlag::Disputed;
    }

    /// Flags the record as resolved, whatever flag it had.
    pub fn mark_resolved(&mut self)
        ensures
            final(self)@ == old(self)@.flagged(DisputeFlag::Resolved),
    {
        self.flag = DisputeFlag::Resolved;
    }

    /// Flags the record as charged back, whatever flag it had.
    pub fn mark_charged_back(&mut self)
        ensures
            final(self)@ == old(self)@.flagged(DisputeFlag::ChargedBack),
    {
        self.flag = DisputeFlag::ChargedBack;
    }

    /// Takes the flag off the record.
    pub fn clear_flags(&mut self)
        ensures
            final(self)@ == old(self)@.flagged(DisputeFlag::Clear),
    {
        self.flag = DisputeFlag::Clear;
    }

    /// Whether the record is neither disputed, resolved nor charged back.
    pub fn is_emtpy_flags(&self) -> (empty: bool)
        ensures
            empty == (self@.flag == DisputeFlag::Clear),
    {
        self.flag == DisputeFlag::Clear
    }

    /// Whether the record is under dispute.
    pub fn is_disputed(&self) -> (disputed: bool)
        ensures
            disputed == (self@.flag == DisputeFlag::Disputed),
    {
        self.flag == DisputeFlag::Disputed
    }

    /// Whether the record's dispute was resolved.
    pub fn is_resolved(&self) -> (resolved: bool)
        ensures
            resolved == (self@.flag == DisputeFlag::Resolved),
    {
        self.flag == DisputeFlag::Resolved
    }

    /// Whether the record was charged back.
    pub fn is_charged_back(&self) -> (charged_back: bool)
        ensures
            charged_back == (self@.flag == DisputeFlag::ChargedBack),
    {
        self.flag == DisputeFlag::ChargedBack
    }

    /// The record's flag.
    pub fn flag(&self) -> (flag: DisputeFlag)
        ensures
            flag == self@.flag,
    {
        self.flag
    }

    /// The transaction that the record names.
    pub fn tx_id(&self) -> (tx_id: u32)
        ensures
            tx_id == self@.tx_id,
    {
        self.tx_id
    }

    /// The record's kind.
    pub fn transaction_type(&self) -> (ttype: Type)
        ensures
            ttype == self@.ttype,
    {
        self.ttype
    }

    /// The amount that the record carries, if any, in ten-thousandths.
    pub fn amount(&self) -> (amount: Option<u64>)
        ensures
            match amount {
                Some(a) => self@.amount == Some(a as nat),
                None => self@.amount is None,
            },
    {
        self.amount
    }

    /// The client that the record names.
    pub fn client_id(&self) -> (client_id: u16)
        ensures
            client_id == self@.client_id,
    {
        self.client_id
    }
}

} // verus!
