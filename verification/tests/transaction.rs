use transaction_processor::amount::parse_amount;
use transaction_processor::input::Input;
use transaction_processor::transaction::DisputeFlag;
use transaction_processor::transaction::Error;
use transaction_processor::transaction::Transaction;
use transaction_processor::transaction::TransactionIterator;
use transaction_processor::transaction::Type;

fn amount(text: &str) -> u64 {
    parse_amount(text).unwrap()
}

#[test]
fn test_type_from_str() {
    assert_eq!(Type::Deposit, Type::from("deposit"));
    assert_eq!(Type::Withdrawal, Type::from("withdrawal"));
    assert_eq!(Type::Dispute, Type::from("dispute"));
    assert_eq!(Type::Resolve, Type::from("resolve"));
    assert_eq!(Type::Chargeback, Type::from("chargeback"));
}

#[test]
fn test_type_from_unknown_keyword() {
    assert_eq!(Type::ERR, Type::from("Deposit"));
    assert_eq!(Type::ERR, Type::from("deposit "));
    assert_eq!(Type::ERR, Type::from("deposi"));
    assert_eq!(Type::ERR, Type::from(""));
    assert_eq!(Type::ERR, Type::from("error"));
}

#[test]
fn test_tx_new_with_amount() {
    let tx = Transaction::new_with_amount(Type::Withdrawal, 1, 2, amount("2.0"));
    assert_eq!(tx.transaction_type(), Type::Withdrawal);
    assert_eq!(tx.client_id(), 1);
    assert_eq!(tx.tx_id(), 2);
    assert_eq!(tx.amount(), Some(amount("2.0")));
}

#[test]
fn test_tx_new() {
    let tx = Transaction::new(Type::Withdrawal, 1, 2);
    assert_eq!(tx.transaction_type(), Type::Withdrawal);
    assert_eq!(tx.client_id(), 1);
    assert_eq!(tx.tx_id(), 2);
    assert_eq!(tx.amount(), None);
}

#[test]
fn test_tx_disputed() {
    let mut tx = Transaction::new(Type::Deposit, 1, 1);
    assert_eq!(tx.is_emtpy_flags(), true);
    tx.mark_disputed();
    assert_eq!(tx.is_emtpy_flags(), false);
    assert_eq!(tx.is_disputed(), true);
    assert_eq!(tx.is_resolved(), false);
    assert_eq!(tx.is_charged_back(), false);
}

#[test]
fn test_tx_resolved() {
    let mut tx = Transaction::new(Type::Deposit, 1, 1);
    assert_eq!(tx.is_emtpy_flags(), true);
    tx.mark_resolved();
    assert_eq!(tx.is_emtpy_flags(), false);
    assert_eq!(tx.is_disputed(), false);
    assert_eq!(tx.is_resolved(), true);
    assert_eq!(tx.is_charged_back(), false);
}

#[test]
fn test_tx_charged_back() {
    let mut tx = Transaction::new(Type::Deposit, 1, 1);
    assert_eq!(tx.is_emtpy_flags(), true);
    tx.mark_charged_back();
    assert_eq!(tx.is_emtpy_flags(), false);
    assert_eq!(tx.is_disputed(), false);
    assert_eq!(tx.is_resolved(), false);
    assert_eq!(tx.is_charged_back(), true);
}

#[test]
fn test_tx_getters() {
    let tx = Transaction::new(Type::Deposit, 10, 2);
    assert_eq!(tx.tx_id(), 2);
    assert_eq!(tx.client_id(), 10);
    assert_eq!(tx.amount(), None);
    assert_eq!(tx.transaction_type(), Type::Deposit);
}

#[test]
fn test_tx_flag_follows_last_mark() {
    let mut tx = Transaction::new_with_amount(Type::Deposit, 1, 1, 5);
    assert_eq!(tx.flag(), DisputeFlag::Clear);
    tx.mark_disputed();
    tx.mark_charged_back();
    assert_eq!(tx.flag(), DisputeFlag::ChargedBack);
    tx.mark_resolved();
    assert_eq!(tx.flag(), DisputeFlag::Resolved);
    tx.clear_flags();
    assert_eq!(tx, Transaction::new_with_amount(Type::Deposit, 1, 1, 5));
}

#[test]
fn test_tx_from_str() {
    assert_eq!(
        Transaction::from(String::from("deposit,1,1,1.0")).unwrap(),
        Transaction::new_with_amount(Type::Deposit, 1, 1, amount("1.0"))
    );
    assert_eq!(
        Transaction::from(String::from("resolve,1,1")).unwrap(),
        Transaction::new(Type::Resolve, 1, 1)
    );
    assert!(Transaction::from(String::from("")).is_err());
    assert!(Transaction::from(String::from("Dispute,1,1,1.0")).is_err());
    assert!(Transaction::from(String::from("1,1,1.0")).is_err());
    assert!(Transaction::from(String::from("dispute,1.0,1,1.0")).is_err());
}

#[test]
fn test_tx_from_line_with_line_feed() {
    assert_eq!(
        Transaction::from(String::from("withdrawal,65535,4294967295,0.5\n")),
        Ok(Transaction::new_with_amount(Type::Withdrawal, 65535, 4294967295, 5_000))
    );
    assert_eq!(
        Transaction::from(String::from("chargeback,2,3\r\n")),
        Ok(Transaction::new(Type::Chargeback, 2, 3))
    );
    assert_eq!(Transaction::from(String::from("\n")), Err(Error::InvalidRecord));
}

#[test]
fn test_tx_from_quoted_fields() {
    // The fields are those that the csv reader makes of the line: quotes
    // around a field are no part of it.
    assert_eq!(
        Transaction::from(String::from("\"deposit\",\"7\",8,\"2.5\"")),
        Ok(Transaction::new_with_amount(Type::Deposit, 7, 8, 25_000))
    );
}

#[test]
fn test_tx_from_fields() {
    let fields =
        |texts: &[&str]| texts.iter().map(|text| String::from(*text)).collect::<Vec<String>>();
    assert_eq!(
        Transaction::from_fields(&fields(&["deposit", "1", "2", "3.25"])),
        Ok(Transaction::new_with_amount(Type::Deposit, 1, 2, 32_500))
    );
    assert_eq!(
        Transaction::from_fields(&fields(&["withdrawal", "+1", "002", ".5", "more"])),
        Ok(Transaction::new_with_amount(Type::Withdrawal, 1, 2, 5_000))
    );
    // A deposit and a withdrawal need their amount.
    assert_eq!(
        Transaction::from_fields(&fields(&["deposit", "1", "2"])),
        Err(Error::InvalidRecord)
    );
    assert_eq!(
        Transaction::from_fields(&fields(&["withdrawal", "1", "2", ""])),
        Err(Error::InvalidRecord)
    );
    assert_eq!(
        Transaction::from_fields(&fields(&["deposit", "1", "2", "abc"])),
        Err(Error::InvalidRecord)
    );
    // In the other kinds a fourth field is not read.
    assert_eq!(
        Transaction::from_fields(&fields(&["dispute", "1", "2", "abc"])),
        Ok(Transaction::new(Type::Dispute, 1, 2))
    );
    assert_eq!(
        Transaction::from_fields(&fields(&["resolve", "2", "3", ""])),
        Ok(Transaction::new(Type::Resolve, 2, 3))
    );
    assert_eq!(
        Transaction::from_fields(&fields(&["chargeback", "2", "3", "1.0"])),
        Ok(Transaction::new(Type::Chargeback, 2, 3))
    );
    // Too few fields, an unknown kind, numbers that are none or too large.
    assert_eq!(Transaction::from_fields(&fields(&["dispute", "1"])), Err(Error::InvalidRecord));
    assert_eq!(Transaction::from_fields(&fields(&[])), Err(Error::InvalidRecord));
    assert_eq!(
        Transaction::from_fields(&fields(&["error", "0", "0"])),
        Err(Error::InvalidRecord)
    );
    assert_eq!(
        Transaction::from_fields(&fields(&["dispute", "65536", "0"])),
        Err(Error::InvalidRecord)
    );
    assert_eq!(
        Transaction::from_fields(&fields(&["dispute", "0", "4294967296"])),
        Err(Error::InvalidRecord)
    );
    assert_eq!(
        Transaction::from_fields(&fields(&["dispute", "-1", "0"])),
        Err(Error::InvalidRecord)
    );
    assert_eq!(
        Transaction::from_fields(&fields(&["dispute", " 1", "0"])),
        Err(Error::InvalidRecord)
    );
    assert_eq!(
        Transaction::from_fields(&fields(&["dispute", "", "0"])),
        Err(Error::InvalidRecord)
    );
    assert_eq!(
        Transaction::from_fields(&fields(&["dispute", "+", "0"])),
        Err(Error::InvalidRecord)
    );
    assert_eq!(
        Transaction::from_fields(&fields(&["dispute", "1", "\u{661}"])),
        Err(Error::InvalidRecord)
    );
}

#[test]
fn test_tx_iterator() {
    let mut data = String::new();
    data.push_str("type,client,tx,amount\n");
    data.push_str("deposit,0,0,1.0\n");
    data.push_str("dispute,0,0\n");
    data.push_str("resolve,0,0\n");
    data.push_str("error,0,0\n");

    let mut tx_iter = TransactionIterator::new(Input::from(data.into_bytes()));
    assert_eq!(
        Transaction::new_with_amount(Type::Deposit, 0, 0, amount("1.0")),
        tx_iter.next().unwrap()
    );
    assert_eq!(Transaction::new(Type::Dispute, 0, 0), tx_iter.next().unwrap());
    assert_eq!(Transaction::new(Type::Resolve, 0, 0), tx_iter.next().unwrap());

    // A line that writes no record ends the sequence.
    assert!(tx_iter.next().is_none());
    assert!(tx_iter.next().is_none());
}

#[test]
fn test_tx_iterator_stops_at_first_invalid_line() {
    // The first line that writes no record ends the whole sequence: the
    // valid lines after it are never yielded.
    let data = "type,client,tx,amount\ndeposit,1,1,1.0\ndeposit,1,2\ndeposit,1,3,1.0\n";
    let mut tx_iter = TransactionIterator::new(Input::from(data.as_bytes().to_vec()));
    assert_eq!(tx_iter.next(), Some(Transaction::new_with_amount(Type::Deposit, 1, 1, 10_000)));
    assert_eq!(tx_iter.next(), None);
    assert_eq!(tx_iter.next(), None);
    assert_eq!(tx_iter.next(), None);
}

#[test]
fn test_tx_iterator_without_records() {
    let mut tx_iter = TransactionIterator::new(Input::from(b"type,client,tx,amount\n".to_vec()));
    assert_eq!(tx_iter.next(), None);
}
