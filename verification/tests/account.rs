use transaction_processor::account::Account;
use transaction_processor::account::Error;
use transaction_processor::amount::parse_amount;

fn amount(text: &str) -> u64 {
    parse_amount(text).unwrap()
}

#[test]
fn test_account_new_unlocked() {
    let account = Account::new_unlocked(0, amount("0.0"), amount("0.0"));
    assert_eq!(account.is_locked(), false);
}

#[test]
fn test_account_new() {
    let account = Account::new(0, amount("1.0"), amount("2.0"), true);
    assert_eq!(account.available(), amount("1.0"));
    assert_eq!(account.held(), amount("2.0"));
    assert_eq!(account.is_locked(), true);
}

#[test]
fn test_account_getters() {
    let account = Account::new_unlocked(0, amount("1.5"), amount("2.0"));
    assert_eq!(account.available(), amount("1.5"));
    assert_eq!(account.held(), amount("2.0"));
    assert_eq!(account.total(), amount("3.5"));
}

#[test]
fn test_account_setters() {
    let mut account = Account::new(0, amount("1.0"), amount("2.0"), true);
    account.set_locked(false);
    assert_eq!(account.is_locked(), false);
}

#[test]
fn test_account_add_available() {
    let mut account = Account::new(0, amount("1.0"), amount("2.0"), false);
    assert!(account.add_available(amount("1.1")).is_ok());
    assert_eq!(account.available(), amount("2.1"));
}

#[test]
fn test_account_sub_available() {
    let mut account = Account::new(0, amount("1.0"), amount("2.0"), false);
    assert!(account.sub_available(amount("1.1")).is_err());
    assert!(account.sub_available(amount("0.5")).is_ok());
    assert_eq!(account.available(), amount("0.5"));
}

#[test]
fn test_account_add_held() {
    let mut account = Account::new(0, amount("1.0"), amount("2.0"), false);
    assert!(account.add_held(amount("1.1")).is_ok());
    assert_eq!(account.held(), amount("3.1"));
}

#[test]
fn test_account_sub_held() {
    let mut account = Account::new(0, amount("1.0"), amount("2.0"), false);
    assert!(account.sub_held(amount("2.1")).is_err());
    assert!(account.sub_held(amount("0.5")).is_ok());
    assert_eq!(account.held(), amount("1.5"));
}

#[test]
fn test_account_units_are_ten_thousandths() {
    let account = Account::new(7, 15_000, 2, false);
    assert_eq!(account.client_id(), 7);
    assert_eq!(account.available(), 15_000);
    assert_eq!(account.held(), 2);
    assert_eq!(account.total(), 15_002);
}

#[test]
fn test_account_failed_debit_changes_nothing() {
    let mut account = Account::new(0, 10, 20, false);
    assert_eq!(account.sub_available(11), Err(Error::DepositTooLow));
    assert_eq!(account, Account::new(0, 10, 20, false));
    assert_eq!(account.sub_held(21), Err(Error::DepositTooLow));
    assert_eq!(account, Account::new(0, 10, 20, false));
    assert_eq!(account.sub_available(10), Ok(()));
    assert_eq!(account.sub_held(20), Ok(()));
    assert_eq!(account, Account::new(0, 0, 0, false));
}

#[test]
fn test_account_credit_stops_at_the_limit() {
    let mut account = Account::new(0, u64::MAX - 10, 4, false);
    assert_eq!(account.add_available(7), Err(Error::FundsExceeded));
    assert_eq!(account.add_held(7), Err(Error::FundsExceeded));
    assert_eq!(account, Account::new(0, u64::MAX - 10, 4, false));
    assert_eq!(account.add_available(6), Ok(()));
    assert_eq!(account.total(), u64::MAX);
    assert_eq!(account.add_held(1), Err(Error::FundsExceeded));
    assert_eq!(account.add_held(0), Ok(()));
}
