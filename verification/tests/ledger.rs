use erc20::AccountId;
use erc20::Erc20;
use erc20::Error;
use erc20::Transfer;

#[test]
fn simple_transfer() {
    let a = AccountId::new(1);
    let b = AccountId::new(2);
    let mut l = Erc20::new(1000, a);
    assert_eq!(l.transfer(a, b, 300), Ok(()));
    assert_eq!(l.balance_of(a), 700);
    assert_eq!(l.balance_of(b), 300);
    assert_eq!(l.total_supply(), 1000);
}

#[test]
fn insufficient_balance() {
    let a = AccountId::new(1);
    let b = AccountId::new(2);
    let mut l = Erc20::new(1000, a);
    assert_eq!(l.transfer(a, b, 300), Ok(()));
    assert_eq!(l.transfer(b, a, 301), Err(Error::InsufficientBalance));
    assert_eq!(l.balance_of(a), 700);
    assert_eq!(l.balance_of(b), 300);
    assert_eq!(l.total_supply(), 1000);
}

#[test]
fn transfer_atomicity() {
    let a = AccountId::new(1);
    let b = AccountId::new(2);
    let mut l = Erc20::new(1000, a);
    assert_eq!(l.transfer(a, b, 300), Ok(()));
    let events_before = l.events().len();
    assert_eq!(l.transfer(b, a, 301), Err(Error::InsufficientBalance));
    assert_eq!(l.balance_of(a), 700);
    assert_eq!(l.balance_of(b), 300);
    assert_eq!(l.events().len(), events_before);
}

#[test]
fn delegated_transfer() {
    let a = AccountId::new(1);
    let b = AccountId::new(2);
    let c = AccountId::new(3);
    let mut l = Erc20::new(1000, a);
    assert_eq!(l.transfer(a, b, 300), Ok(()));
    assert_eq!(l.issue(a, c, 100), Ok(()));
    assert_eq!(l.allowance_of(a, c), 100);
    assert_eq!(l.transfer_from(c, a, b, 100), Ok(()));
    assert_eq!(l.allowance_of(a, c), 0);
    assert_eq!(l.balance_of(b), 400);
    assert_eq!(l.balance_of(a), 600);
}

#[test]
fn allowance_consumption_leaves_other_pairs() {
    let a = AccountId::new(1);
    let b = AccountId::new(2);
    let c = AccountId::new(3);
    let d = AccountId::new(4);
    let mut l = Erc20::new(1000, a);
    assert_eq!(l.issue(a, c, 100), Ok(()));
    assert_eq!(l.issue(a, d, 70), Ok(()));
    assert_eq!(l.transfer_from(c, a, b, 40), Ok(()));
    assert_eq!(l.allowance_of(a, c), 60);
    assert_eq!(l.allowance_of(a, d), 70);
}

#[test]
fn approve_replaces() {
    let o = AccountId::new(5);
    let s = AccountId::new(6);
    let mut l = Erc20::new(10, o);
    assert_eq!(l.issue(o, s, 123), Ok(()));
    assert_eq!(l.allowance_of(o, s), 123);
    assert_eq!(l.issue(o, s, 7), Ok(()));
    assert_eq!(l.allowance_of(o, s), 7);
}

#[test]
fn burn_reduces_supply() {
    let a = AccountId::new(1);
    let b = AccountId::new(2);
    let mut l = Erc20::new(1000, a);
    assert_eq!(l.transfer(a, b, 300), Ok(()));
    assert_eq!(l.burn(a, 200), Ok(()));
    assert_eq!(l.total_supply(), 800);
    assert_eq!(l.balance_of(a), 500);
    // Conservation: the supply still equals the sum of all balances.
    assert_eq!(l.balance_of(a) + l.balance_of(b), l.total_supply());
}

#[test]
fn burn_insufficient() {
    let a = AccountId::new(1);
    let mut l = Erc20::new(100, a);
    assert_eq!(l.burn(a, 101), Err(Error::InsufficientBalance));
    assert_eq!(l.balance_of(a), 100);
    assert_eq!(l.total_supply(), 100);
}

#[test]
fn transfer_from_insufficient_allowance() {
    let a = AccountId::new(1);
    let b = AccountId::new(2);
    let c = AccountId::new(3);
    let mut l = Erc20::new(1000, a);
    assert_eq!(l.issue(a, c, 50), Ok(()));
    assert_eq!(l.transfer_from(c, a, b, 51), Err(Error::InsufficientBalance));
    assert_eq!(l.allowance_of(a, c), 50);
    assert_eq!(l.balance_of(a), 1000);
    assert_eq!(l.balance_of(b), 0);
}

#[test]
fn transfer_from_insufficient_balance() {
    let a = AccountId::new(1);
    let b = AccountId::new(2);
    let c = AccountId::new(3);
    let mut l = Erc20::new(1000, a);
    assert_eq!(l.transfer(a, b, 990), Ok(()));
    assert_eq!(l.issue(a, c, 500), Ok(()));
    let events_before = l.events().len();
    assert_eq!(l.transfer_from(c, a, b, 11), Err(Error::InsufficientBalance));
    // The failed delegated transfer consumed nothing at all.
    assert_eq!(l.allowance_of(a, c), 500);
    assert_eq!(l.balance_of(a), 10);
    assert_eq!(l.balance_of(b), 990);
    assert_eq!(l.events().len(), events_before);
}

#[test]
fn self_transfer_is_a_net_no_op_but_emits() {
    let a = AccountId::new(1);
    let mut l = Erc20::new(1000, a);
    assert_eq!(l.transfer(a, a, 400), Ok(()));
    assert_eq!(l.balance_of(a), 1000);
    assert_eq!(l.events().len(), 1);
    assert!(l.events()[0] == Transfer { from: a, to: a, value: 400 });
}

#[test]
fn events_record_movements() {
    let a = AccountId::new(1);
    let b = AccountId::new(2);
    let c = AccountId::new(3);
    let mut l = Erc20::new(1000, a);
    assert_eq!(l.events().len(), 0);
    assert_eq!(l.transfer(a, b, 300), Ok(()));
    assert_eq!(l.issue(a, c, 100), Ok(()));
    assert_eq!(l.transfer_from(c, a, b, 100), Ok(()));
    assert_eq!(l.burn(a, 200), Ok(()));
    assert_eq!(l.events().len(), 3);
    assert!(l.events()[0] == Transfer { from: a, to: b, value: 300 });
    assert!(l.events()[1] == Transfer { from: a, to: b, value: 100 });
    assert!(l.events()[2] == Transfer { from: a, to: AccountId::null(), value: 200 });
}

#[test]
fn queries_are_idempotent() {
    let a = AccountId::new(1);
    let b = AccountId::new(2);
    let mut l = Erc20::new(1000, a);
    assert_eq!(l.issue(a, b, 25), Ok(()));
    assert_eq!(l.balance_of(a), l.balance_of(a));
    assert_eq!(l.allowance_of(a, b), l.allowance_of(a, b));
    assert_eq!(l.total_supply(), l.total_supply());
    assert_eq!(l.balance_of(a), 1000);
    assert_eq!(l.balance_of(a), 1000);
    assert_eq!(l.allowance_of(a, b), 25);
    assert_eq!(l.allowance_of(a, b), 25);
    assert_eq!(l.total_supply(), 1000);
    assert_eq!(l.total_supply(), 1000);
}

#[test]
fn unknown_accounts_read_zero() {
    let a = AccountId::new(1);
    let x = AccountId::new(99);
    let y = AccountId::new(100);
    let l = Erc20::new(1000, a);
    assert_eq!(l.balance_of(x), 0);
    assert_eq!(l.allowance_of(x, y), 0);
    assert_eq!(l.allowance_of(a, x), 0);
}

#[test]
fn full_supply_at_the_amount_limit() {
    let a = AccountId::new(1);
    let b = AccountId::new(2);
    let mut l = Erc20::new(u128::MAX, a);
    assert_eq!(l.transfer(a, b, u128::MAX), Ok(()));
    assert_eq!(l.balance_of(a), 0);
    assert_eq!(l.balance_of(b), u128::MAX);
    assert_eq!(l.burn(b, u128::MAX), Ok(()));
    assert_eq!(l.total_supply(), 0);
    assert_eq!(l.balance_of(b), 0);
}

#[test]
fn zero_supply_and_zero_value() {
    let a = AccountId::new(1);
    let b = AccountId::new(2);
    let mut l = Erc20::new(0, a);
    assert_eq!(l.total_supply(), 0);
    assert_eq!(l.balance_of(a), 0);
    assert_eq!(l.transfer(a, b, 0), Ok(()));
    assert_eq!(l.balance_of(a), 0);
    assert_eq!(l.balance_of(b), 0);
    assert_eq!(l.events().len(), 1);
    assert_eq!(l.transfer(a, b, 1), Err(Error::InsufficientBalance));
}
