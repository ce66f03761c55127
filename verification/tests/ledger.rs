use fintech_common::accounting::Accounts;
use fintech_common::errors::AccountingError;

#[test]
fn deposit_then_balance() {
    let mut accounts = Accounts::new();
    let alice = String::from("alice");
    assert_eq!(accounts.deposit(&alice, 100), Ok(()));
    assert_eq!(accounts.balance_of(&alice), Ok(100));
}

#[test]
fn deposit_zero_is_invalid() {
    let mut accounts = Accounts::new();
    let alice = String::from("alice");
    assert_eq!(accounts.deposit(&alice, 0), Err(AccountingError::InvalidAmount));
    assert_eq!(accounts.balance_of(&alice), Err(AccountingError::AccountNotFound));
}

#[test]
fn deposit_overflow_is_rejected() {
    let mut accounts = Accounts::new();
    let alice = String::from("alice");
    assert_eq!(accounts.deposit(&alice, u64::MAX), Ok(()));
    assert_eq!(accounts.deposit(&alice, 1), Err(AccountingError::Overflow));
    assert_eq!(accounts.balance_of(&alice), Ok(u64::MAX));
}

#[test]
fn withdraw_needs_an_account() {
    let mut accounts = Accounts::new();
    let ghost_account = String::from("nobody");
    assert_eq!(accounts.withdraw(&ghost_account, 5), Err(AccountingError::AccountNotFound));
}

#[test]
fn withdraw_zero_is_invalid() {
    let mut accounts = Accounts::new();
    let alice = String::from("alice");
    assert_eq!(accounts.deposit(&alice, 10), Ok(()));
    assert_eq!(accounts.withdraw(&alice, 0), Err(AccountingError::InvalidAmount));
    assert_eq!(accounts.balance_of(&alice), Ok(10));
}

#[test]
fn withdraw_more_than_balance_fails_and_changes_nothing() {
    let mut accounts = Accounts::new();
    let alice = String::from("alice");
    assert_eq!(accounts.deposit(&alice, 100), Ok(()));
    assert_eq!(accounts.withdraw(&alice, 150), Err(AccountingError::InsufficientFunds));
    assert_eq!(accounts.balance_of(&alice), Ok(100));
}

#[test]
fn balance_is_net_of_successful_operations() {
    // A history of deposits and withdrawals, some rejected: the final
    // balance is the sum of the successful deposits minus the sum of the
    // successful withdrawals.
    let mut accounts = Accounts::new();
    let alice = String::from("alice");
    assert_eq!(accounts.deposit(&alice, 100), Ok(()));
    assert_eq!(accounts.deposit(&alice, 50), Ok(()));
    assert_eq!(accounts.withdraw(&alice, 30), Ok(()));
    assert_eq!(accounts.withdraw(&alice, 500), Err(AccountingError::InsufficientFunds));
    assert_eq!(accounts.deposit(&alice, 0), Err(AccountingError::InvalidAmount));
    assert_eq!(accounts.withdraw(&alice, 20), Ok(()));
    assert_eq!(accounts.balance_of(&alice), Ok(100 + 50 - 30 - 20));
}

#[test]
fn zero_amount_is_rejected_before_the_account_check() {
    let mut accounts = Accounts::new();
    let ghost_account = String::from("nobody");
    assert_eq!(accounts.withdraw(&ghost_account, 0), Err(AccountingError::InvalidAmount));
    assert_eq!(accounts.send(&ghost_account, &ghost_account, 0), Err(AccountingError::InvalidAmount));
}

#[test]
fn send_moves_both_balances_atomically() {
    let mut accounts = Accounts::new();
    let alice = String::from("alice");
    let bob = String::from("bob");
    assert_eq!(accounts.deposit(&alice, 100), Ok(()));
    assert_eq!(accounts.send(&alice, &bob, 40), Ok(()));
    assert_eq!(accounts.balance_of(&alice), Ok(60));
    assert_eq!(accounts.balance_of(&bob), Ok(40));
}

#[test]
fn failed_send_changes_neither_balance() {
    let mut accounts = Accounts::new();
    let alice = String::from("alice");
    let bob = String::from("bob");
    assert_eq!(accounts.deposit(&alice, 10), Ok(()));
    assert_eq!(accounts.deposit(&bob, 7), Ok(()));
    assert_eq!(accounts.send(&alice, &bob, 25), Err(AccountingError::InsufficientFunds));
    assert_eq!(accounts.balance_of(&alice), Ok(10));
    assert_eq!(accounts.balance_of(&bob), Ok(7));
    assert_eq!(accounts.send(&alice, &bob, 0), Err(AccountingError::InvalidAmount));
    assert_eq!(accounts.balance_of(&alice), Ok(10));
    assert_eq!(accounts.balance_of(&bob), Ok(7));
}

#[test]
fn send_from_unknown_account_fails() {
    let mut accounts = Accounts::new();
    let alice = String::from("alice");
    let bob = String::from("bob");
    assert_eq!(accounts.deposit(&bob, 7), Ok(()));
    assert_eq!(accounts.send(&alice, &bob, 5), Err(AccountingError::AccountNotFound));
    assert_eq!(accounts.balance_of(&bob), Ok(7));
}

#[test]
fn send_overflowing_the_recipient_is_rejected() {
    let mut accounts = Accounts::new();
    let alice = String::from("alice");
    let bob = String::from("bob");
    assert_eq!(accounts.deposit(&alice, 10), Ok(()));
    assert_eq!(accounts.deposit(&bob, u64::MAX), Ok(()));
    assert_eq!(accounts.send(&alice, &bob, 5), Err(AccountingError::Overflow));
    assert_eq!(accounts.balance_of(&alice), Ok(10));
    assert_eq!(accounts.balance_of(&bob), Ok(u64::MAX));
}

#[test]
fn self_send_is_a_committed_no_op() {
    let mut accounts = Accounts::new();
    let alice = String::from("alice");
    assert_eq!(accounts.deposit(&alice, 10), Ok(()));
    assert_eq!(accounts.send(&alice, &alice, 4), Ok(()));
    assert_eq!(accounts.balance_of(&alice), Ok(10));
    assert_eq!(accounts.send(&alice, &alice, 11), Err(AccountingError::InsufficientFunds));
    assert_eq!(accounts.balance_of(&alice), Ok(10));
}
