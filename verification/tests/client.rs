use transaction_processor::account::Account;
use transaction_processor::account::AccountAdmin;
use transaction_processor::account::Error;
use transaction_processor::account::Outcome;
use transaction_processor::account::Reason;
use transaction_processor::amount::parse_amount;
use transaction_processor::transaction::DisputeFlag;
use transaction_processor::transaction::Transaction;
use transaction_processor::transaction::Type;

fn amount(text: &str) -> u64 {
    parse_amount(text).unwrap()
}

/// A worker with the given balances and one deposit, transaction 0, in its
/// history.
fn worker(available: &str, held: &str, deposit: &str) -> AccountAdmin {
    let mut client = AccountAdmin::new(1);
    client.set_account(Account::new(1, amount(available), amount(held), false));
    client.insert_transaction(Transaction::new_with_amount(Type::Deposit, 1, 0, amount(deposit)));
    client
}

fn set_flag(client: &mut AccountAdmin, tx_id: u32, flag: DisputeFlag) {
    let mut tx = client.transaction(tx_id).unwrap();
    match flag {
        DisputeFlag::Clear => tx.clear_flags(),
        DisputeFlag::Disputed => tx.mark_disputed(),
        DisputeFlag::Resolved => tx.mark_resolved(),
        DisputeFlag::ChargedBack => tx.mark_charged_back(),
    }
    client.insert_transaction(tx);
}

fn lock(client: &mut AccountAdmin) {
    let mut account = *client.account();
    account.set_locked(true);
    client.set_account(account);
}

#[test]
fn test_client_new() {
    let client = AccountAdmin::new(1);
    assert_eq!(client.account().client_id(), 1);
    assert_eq!(*client.account(), Account::new(1, amount("0.0"), amount("0.0"), false));
    assert_eq!(client.history_len(), 0);
}

#[test]
fn test_client_id() {
    let client = AccountAdmin::new(2);
    assert_eq!(client.id(), client.account().client_id());
    assert_eq!(client.id(), 2);
}

#[test]
fn test_client_account() {
    let client = AccountAdmin::new(2);
    assert_eq!(client.account().clone(), Account::new(2, 0, 0, false));
}

#[test]
fn test_client_handle_deposit() {
    let mut client = AccountAdmin::new(1);
    client
        .handle(Some(Transaction::new_with_amount(Type::Deposit, 1, 0, amount("1.0"))))
        .unwrap();
    assert_eq!(client.account().available(), amount("1.0"));
    assert_eq!(client.account().held(), amount("0.0"));
    assert_eq!(client.account().is_locked(), false);
    assert!(client.transaction(0).is_some());
}

#[test]
fn test_client_handle_withdrawal() {
    let mut client = AccountAdmin::new(1);
    client.set_account(Account::new(1, amount("2.0"), 0, false));
    client
        .handle(Some(Transaction::new_with_amount(Type::Withdrawal, 1, 0, amount("1.0"))))
        .unwrap();
    assert_eq!(client.account().available(), amount("1.0"));
    assert_eq!(client.account().held(), amount("0.0"));
    assert_eq!(client.account().is_locked(), false);
    assert!(client.transaction(0).is_some());
}

#[test]
fn test_client_handle_dispute() {
    let mut client = worker("2.0", "0.0", "2.0");
    client.handle(Some(Transaction::new(Type::Dispute, 1, 0))).unwrap();
    assert_eq!(client.account().available(), amount("0.0"));
    assert_eq!(client.account().held(), amount("2.0"));
    assert_eq!(client.account().is_locked(), false);
    assert!(client.transaction(0).unwrap().is_disputed());
    assert!(!client.transaction(0).unwrap().is_resolved());
    assert!(!client.transaction(0).unwrap().is_charged_back());
    assert!(client.handle(Some(Transaction::new(Type::Dispute, 1, 0))).is_err());
    set_flag(&mut client, 0, DisputeFlag::Clear);
    lock(&mut client);
    assert!(client.handle(Some(Transaction::new(Type::Dispute, 1, 0))).is_err());
}

#[test]
fn test_client_handle_resolve() {
    let mut client = worker("0.0", "2.0", "2.0");
    set_flag(&mut client, 0, DisputeFlag::Disputed);
    client.handle(Some(Transaction::new(Type::Resolve, 1, 0))).unwrap();
    assert_eq!(client.account().held(), amount("0.0"));
    assert_eq!(client.account().available(), amount("2.0"));
    assert_eq!(client.account().is_locked(), false);
    assert!(!client.transaction(0).unwrap().is_disputed());
    assert!(client.transaction(0).unwrap().is_resolved());
    assert!(!client.transaction(0).unwrap().is_charged_back());
    assert!(client.handle(Some(Transaction::new(Type::Resolve, 1, 0))).is_err());
    set_flag(&mut client, 0, DisputeFlag::Clear);
    lock(&mut client);
    assert!(client.handle(Some(Transaction::new(Type::Resolve, 1, 0))).is_err());
}

#[test]
fn test_client_handle_charge_back() {
    let mut client = worker("0.0", "2.0", "2.0");
    set_flag(&mut client, 0, DisputeFlag::Disputed);
    client.handle(Some(Transaction::new(Type::Chargeback, 1, 0))).unwrap();
    assert_eq!(client.account().held(), amount("0.0"));
    assert_eq!(client.account().available(), amount("0.0"));
    assert_eq!(client.account().is_locked(), true);
    assert_eq!(client.transaction(0).unwrap().is_disputed(), false);
    assert_eq!(client.transaction(0).unwrap().is_resolved(), false);
    assert_eq!(client.transaction(0).unwrap().is_charged_back(), true);
    // A second chargeback of the same transaction meets the locked account.
    assert!(client.handle(Some(Transaction::new(Type::Chargeback, 1, 0))).is_err());
    set_flag(&mut client, 0, DisputeFlag::Clear);
    // Without its flag the transaction is not disputed, so the chargeback
    // fails again.
    assert!(client.handle(Some(Transaction::new(Type::Chargeback, 1, 0))).is_err());
}

#[test]
fn test_client_every_error() {
    let mut client = worker("2.0", "0.0", "2.0");
    let snapshot = *client.account();
    assert_eq!(
        client.handle(Some(Transaction::new(Type::ERR, 1, 9))),
        Err(Error::OperationNotSupported)
    );
    assert_eq!(client.handle(Some(Transaction::new(Type::Dispute, 1, 9))), Err(Error::TxNotFound));
    assert_eq!(client.handle(Some(Transaction::new(Type::Resolve, 1, 9))), Err(Error::TxNotFound));
    assert_eq!(
        client.handle(Some(Transaction::new(Type::Chargeback, 1, 9))),
        Err(Error::TxNotFound)
    );
    assert_eq!(
        client.handle(Some(Transaction::new(Type::Resolve, 1, 0))),
        Err(Error::TxNotDisputed)
    );
    assert_eq!(
        client.handle(Some(Transaction::new(Type::Chargeback, 1, 0))),
        Err(Error::TxNotDisputed)
    );
    assert_eq!(
        client.handle(Some(Transaction::new_with_amount(
            Type::Withdrawal,
            1,
            1,
            amount("2.0001")
        ))),
        Err(Error::DepositTooLow)
    );
    assert_eq!(
        client.handle(Some(Transaction::new_with_amount(Type::Deposit, 1, 2, u64::MAX))),
        Err(Error::FundsExceeded)
    );
    assert_eq!(*client.account(), snapshot);
    assert_eq!(
        client.handle(Some(Transaction::new(Type::Dispute, 1, 0))),
        Ok(&Account::new(1, 0, amount("2.0"), false))
    );
    assert_eq!(
        client.handle(Some(Transaction::new(Type::Dispute, 1, 0))),
        Err(Error::TxAlreadyDisputed)
    );
    assert_eq!(
        client.handle(None),
        Err(Error::Handle(Account::new(1, 0, amount("2.0"), false)))
    );
}

#[test]
fn test_client_failed_moves_stay_in_history() {
    let mut client = AccountAdmin::new(1);
    assert_eq!(
        client.handle(Some(Transaction::new_with_amount(Type::Withdrawal, 1, 5, 1))),
        Err(Error::DepositTooLow)
    );
    assert_eq!(client.history_len(), 1);
    assert_eq!(
        client.transaction(5),
        Some(Transaction::new_with_amount(Type::Withdrawal, 1, 5, 1))
    );
    client.set_account(Account::new(1, u64::MAX, 0, false));
    assert_eq!(
        client.handle(Some(Transaction::new_with_amount(Type::Deposit, 1, 6, 1))),
        Err(Error::FundsExceeded)
    );
    assert_eq!(client.history_len(), 2);
    assert_eq!(client.account().available(), u64::MAX);
}

#[test]
fn test_client_dispute_without_funds_changes_nothing() {
    let mut client = worker("1.9999", "0.0", "2.0");
    assert_eq!(
        client.handle(Some(Transaction::new(Type::Dispute, 1, 0))),
        Err(Error::DepositTooLow)
    );
    assert_eq!(*client.account(), Account::new(1, amount("1.9999"), 0, false));
    assert_eq!(client.transaction(0).unwrap().flag(), DisputeFlag::Clear);
}

#[test]
fn test_client_dispute_then_resolve_restores_account() {
    let mut client = worker("5.0", "1.0", "2.0");
    let before = *client.account();
    let disputed = *client.handle(Some(Transaction::new(Type::Dispute, 1, 0))).unwrap();
    assert_eq!(disputed, Account::new(1, amount("3.0"), amount("3.0"), false));
    assert_eq!(disputed.total(), before.total());
    let resolved = *client.handle(Some(Transaction::new(Type::Resolve, 1, 0))).unwrap();
    assert_eq!(resolved, before);
    assert_eq!(client.transaction(0).unwrap().flag(), DisputeFlag::Resolved);
}

#[test]
fn test_client_chargeback_takes_held_amount_and_locks() {
    let mut client = worker("5.0", "3.0", "2.0");
    set_flag(&mut client, 0, DisputeFlag::Disputed);
    let after = *client.handle(Some(Transaction::new(Type::Chargeback, 1, 0))).unwrap();
    assert_eq!(after, Account::new(1, amount("5.0"), amount("1.0"), true));
    assert_eq!(after.total(), amount("8.0") - amount("2.0"));
    assert_eq!(client.transaction(0).unwrap().flag(), DisputeFlag::ChargedBack);
}

#[test]
fn test_client_settles_any_flagged_transaction() {
    // A resolve asks for some flag, not for the flag of a dispute: a
    // resolved transaction can be resolved again while the held balance lasts.
    let mut client = worker("0.0", "4.0", "2.0");
    set_flag(&mut client, 0, DisputeFlag::Resolved);
    let after = *client.handle(Some(Transaction::new(Type::Resolve, 1, 0))).unwrap();
    assert_eq!(after, Account::new(1, amount("2.0"), amount("2.0"), false));
    set_flag(&mut client, 0, DisputeFlag::ChargedBack);
    let after = *client.handle(Some(Transaction::new(Type::Chargeback, 1, 0))).unwrap();
    assert_eq!(after, Account::new(1, amount("2.0"), amount("0.0"), true));
    assert_eq!(
        client.handle(Some(Transaction::new(Type::Resolve, 1, 0))),
        Err(Error::Handle(after))
    );
}

#[test]
fn test_client_locked_account_is_final() {
    let mut client = worker("5.0", "3.0", "2.0");
    lock(&mut client);
    let locked = *client.account();
    let stop = Err(Error::Handle(locked));
    assert_eq!(client.handle(Some(Transaction::new_with_amount(Type::Deposit, 1, 7, 1))), stop);
    assert_eq!(client.handle(Some(Transaction::new_with_amount(Type::Withdrawal, 1, 8, 1))), stop);
    assert_eq!(client.handle(Some(Transaction::new(Type::Dispute, 1, 0))), stop);
    assert_eq!(client.handle(Some(Transaction::new(Type::Dispute, 1, 7))), Err(Error::TxNotFound));
    set_flag(&mut client, 0, DisputeFlag::Disputed);
    assert_eq!(client.handle(Some(Transaction::new(Type::Resolve, 1, 0))), stop);
    assert_eq!(client.handle(Some(Transaction::new(Type::Chargeback, 1, 0))), stop);
    assert_eq!(client.handle(None), stop);
    assert_eq!(*client.account(), locked);
    assert_eq!(client.history_len(), 1);
    assert_eq!(client.transaction(0).unwrap().flag(), DisputeFlag::Disputed);
}

#[test]
fn test_client_moves_keep_running_balance() {
    let mut client = AccountAdmin::new(3);
    let moves = [
        (Type::Deposit, "10.0"),
        (Type::Withdrawal, "2.5"),
        (Type::Withdrawal, "8.0"),
        (Type::Deposit, "0.0001"),
        (Type::Withdrawal, "7.5001"),
    ];
    let mut tx_id = 0;
    for (ttype, text) in moves {
        let _ = client.handle(Some(Transaction::new_with_amount(ttype, 3, tx_id, amount(text))));
        tx_id += 1;
    }
    // 10.0 - 2.5 = 7.5; 8.0 is more than that and is not paid; + 0.0001 - 7.5001 = 0.
    assert_eq!(*client.account(), Account::new(3, 0, 0, false));
    assert_eq!(client.history_len(), 5);
}

#[test]
fn test_client_drains_queue_until_it_stops() {
    let queue = vec![
        Transaction::new_with_amount(Type::Deposit, 1, 1, amount("3.0")),
        Transaction::new(Type::Dispute, 1, 1),
        Transaction::new(Type::Dispute, 1, 2),
        Transaction::new(Type::Chargeback, 1, 1),
        Transaction::new(Type::Resolve, 1, 4),
        Transaction::new_with_amount(Type::Deposit, 1, 5, amount("5.0")),
        Transaction::new_with_amount(Type::Deposit, 1, 6, amount("6.0")),
    ];
    let mut client = AccountAdmin::new(1);
    assert_eq!(client.drain(&queue), Account::new(1, 0, 0, true));
    // The deposit that met the locked account, and the one behind it, left no
    // trace.
    assert_eq!(client.history_len(), 1);
    assert_eq!(client.transaction(1).unwrap().flag(), DisputeFlag::ChargedBack);

    let mut open = AccountAdmin::new(2);
    assert_eq!(open.drain(&queue[..2].to_vec()), Account::new(2, 0, amount("3.0"), false));
    assert_eq!(AccountAdmin::new(3).drain(&Vec::new()), Account::new(3, 0, 0, false));
}

#[test]
fn test_client_vain_dispute_changes_nothing() {
    let mut client = worker("5.0", "0.0", "2.0");
    client.handle(Some(Transaction::new(Type::Dispute, 1, 0))).unwrap();
    let account = *client.account();
    let record = client.transaction(0).unwrap();
    // The transaction is disputed already.
    assert_eq!(
        client.handle(Some(Transaction::new(Type::Dispute, 1, 0))),
        Err(Error::TxAlreadyDisputed)
    );
    // No such transaction.
    assert_eq!(client.handle(Some(Transaction::new(Type::Dispute, 1, 77))), Err(Error::TxNotFound));
    assert_eq!(*client.account(), account);
    assert_eq!(client.transaction(0), Some(record));
    assert_eq!(client.transaction(77), None);
    assert_eq!(client.history_len(), 1);
}

#[test]
fn test_client_tells_why_it_stopped() {
    let mut client = worker("5.0", "3.0", "2.0");
    let deposit = Transaction::new_with_amount(Type::Deposit, 1, 7, 1);
    assert_eq!(client.take(Some(deposit)), Outcome::Active);
    // A record that fails on anything but the lock leaves the worker active.
    assert_eq!(client.take(Some(Transaction::new(Type::Resolve, 1, 0))), Outcome::Active);
    assert_eq!(client.take(Some(Transaction::new(Type::Dispute, 1, 9))), Outcome::Active);
    let account = *client.account();
    assert_eq!(client.take(None), Outcome::Terminated(Reason::Closed, account));

    lock(&mut client);
    let locked = *client.account();
    assert_eq!(client.take(Some(Transaction::new(Type::Dispute, 1, 9))), Outcome::Active);
    assert_eq!(client.take(Some(deposit)), Outcome::Terminated(Reason::Locked, locked));
    assert_eq!(client.take(None), Outcome::Terminated(Reason::Closed, locked));
}
