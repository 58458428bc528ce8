use parser::bank::balance::Balance;
use parser::bank::storage::Storage;
use parser::bank::transaction::{Deposit, Transaction, Transfer, TxError, Withdraw};

fn dep(name: &str, amount: i64) -> Deposit {
    Deposit { from_account: name.to_string(), amount }
}

fn wd(name: &str, amount: i64) -> Withdraw {
    Withdraw { from_account: name.to_string(), amount }
}

fn tr(from: &str, to: &str, amount: i64) -> Transfer {
    Transfer { from_account: from.to_string(), to_account: to.to_string(), amount }
}

#[test]
fn deposit_opens_and_adds() {
    let mut s = Storage::new();
    assert_eq!(s.get_balance("alice"), None);
    assert_eq!(dep("alice", 100).apply(&mut s), Ok(()));
    assert_eq!(dep("alice", 50).apply(&mut s), Ok(()));
    assert_eq!(s.get_balance("alice"), Some(150));
}

#[test]
fn withdraw_refused_opens_account_with_nothing() {
    let mut s = Storage::new();
    assert_eq!(wd("bob", 10).apply(&mut s), Err(TxError::InsufficientFunds));
    assert_eq!(s.get_balance("bob"), Some(0));
    dep("bob", 30).apply(&mut s).unwrap();
    assert_eq!(wd("bob", 30).apply(&mut s), Ok(()));
    assert_eq!(s.get_balance("bob"), Some(0));
}

#[test]
fn transfer_keeps_money() {
    let mut s = Storage::new();
    dep("a", 100).apply(&mut s).unwrap();
    assert_eq!(tr("a", "b", 40).apply(&mut s), Ok(()));
    assert_eq!(s.get_balance("a"), Some(60));
    assert_eq!(s.get_balance("b"), Some(40));
    assert_eq!(tr("a", "b", 61).apply(&mut s), Err(TxError::InsufficientFunds));
    assert_eq!(s.get_balance("a"), Some(60));
    assert_eq!(tr("a", "a", 60).apply(&mut s), Ok(()));
    assert_eq!(s.get_balance("a"), Some(60));
}

#[test]
fn combinations_apply_in_order() {
    let mut s = Storage::new();
    let both = dep("a", 10) + tr("a", "b", 10);
    assert_eq!(both.apply(&mut s), Ok(()));
    assert_eq!(s.get_balance("a"), Some(0));
    assert_eq!(s.get_balance("b"), Some(10));

    let refused = tr("a", "b", 5) + dep("c", 1);
    assert_eq!(refused.apply(&mut s), Err(TxError::InsufficientFunds));
    assert_eq!(s.get_balance("c"), None);

    let second_refused = dep("c", 1) + dep("c", 2);
    assert_eq!(second_refused.apply(&mut s), Ok(()));
    assert_eq!(s.get_balance("c"), Some(3));

    let two_transfers = tr("b", "a", 4) + tr("b", "a", 7);
    assert_eq!(two_transfers.apply(&mut s), Err(TxError::InsufficientFunds));
    assert_eq!(s.get_balance("b"), Some(6));
    assert_eq!(s.get_balance("a"), Some(4));

    let transfer_then_deposit = tr("a", "b", 4) + dep("a", 1);
    assert_eq!(transfer_then_deposit.apply(&mut s), Ok(()));
    assert_eq!(s.get_balance("a"), Some(1));
}

#[test]
fn balance_values() {
    let mut b = Balance::from(5);
    b.add_amount(10);
    b.sub_amount(3);
    assert_eq!(b.get_value(), 12);
    assert_eq!(Balance::new(-2).get_value(), -2);
}

#[test]
fn refusal_on_debt_with_huge_amount() {
    let mut s = Storage::new();
    dep("d", -10).apply(&mut s).unwrap();
    assert_eq!(wd("d", i64::MAX).apply(&mut s), Err(TxError::InsufficientFunds));
    assert_eq!(tr("d", "e", i64::MAX).apply(&mut s), Err(TxError::InsufficientFunds));
    assert_eq!(s.get_balance("d"), Some(-10));
    assert_eq!(s.get_balance("e"), None);
}
