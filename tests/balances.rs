use simple_bank::accounts::AccountTable;
use simple_bank::balances::BalanceTable;
use simple_bank::error::LedgerError;
use simple_bank::idset::IdentitySet;

fn id(s: &str) -> String {
    s.to_string()
}

#[test]
fn credit_then_get_adds_exactly() {
    let mut t = BalanceTable::new();
    assert_eq!(t.get(&id("c"), &id("x")), 0);
    t.credit(&id("c"), &id("x"), 5).unwrap();
    let before = t.get(&id("c"), &id("x"));
    t.credit(&id("c"), &id("x"), 12).unwrap();
    assert_eq!(t.get(&id("c"), &id("x")), before + 12);
    assert_eq!(t.get(&id("x"), &id("c")), 0);
}

#[test]
fn failed_debit_leaves_table_unchanged() {
    let mut t = BalanceTable::new();
    t.credit(&id("c"), &id("x"), 5).unwrap();
    assert_eq!(
        t.debit(&id("c"), &id("x"), 6),
        Err(LedgerError::InsufficientBalance { balance: 5, requested: 6 })
    );
    assert_eq!(t.get(&id("c"), &id("x")), 5);
    assert_eq!(
        t.debit(&id("c"), &id("y"), 1),
        Err(LedgerError::InsufficientBalance { balance: 0, requested: 1 })
    );
    assert_eq!(t.debit(&id("c"), &id("x"), 5), Ok(()));
    assert_eq!(t.get(&id("c"), &id("x")), 0);
}

#[test]
fn credit_past_the_largest_amount_fails() {
    let mut t = BalanceTable::new();
    t.credit(&id("c"), &id("x"), u128::MAX - 1).unwrap();
    assert_eq!(t.credit(&id("c"), &id("x"), 2), Err(LedgerError::ArithmeticOverflow));
    assert_eq!(t.get(&id("c"), &id("x")), u128::MAX - 1);
    assert_eq!(t.credit(&id("c"), &id("x"), 1), Ok(()));
    assert_eq!(t.get(&id("c"), &id("x")), u128::MAX);
}

#[test]
fn account_table_moves_amounts() {
    let mut t = AccountTable::new();
    t.credit(&id("a"), 10).unwrap();
    assert!(t.contains(&id("a")));
    assert!(!t.contains(&id("b")));
    assert_eq!(t.move_amount(&id("a"), &id("b"), 4), Ok(()));
    assert_eq!(t.get(&id("a")), 6);
    assert_eq!(t.get(&id("b")), 4);
    assert!(t.contains(&id("b")));
    assert_eq!(
        t.move_amount(&id("b"), &id("a"), 5),
        Err(LedgerError::InsufficientBalance { balance: 4, requested: 5 })
    );
}

#[test]
fn identity_set_membership() {
    let mut s = IdentitySet::new();
    assert!(!s.contains(&id("a")));
    s.insert(id("a"));
    s.insert(id("b"));
    s.insert(id("a"));
    assert!(s.contains(&id("a")));
    s.remove(&id("a"));
    assert!(!s.contains(&id("a")));
    assert!(s.contains(&id("b")));
    s.remove(&id("a"));
    assert!(!s.contains(&id("a")));
}
