use simple_bank::error::LedgerError;
use simple_bank::token::{Token, TransferCall};

fn id(s: &str) -> String {
    s.to_string()
}

#[test]
fn owner_set_up() {
    let mut contract = Token::new(id("alice"));
    assert_eq!(contract.add_acc(&id("alice"), &id("alice")), Ok(()));
    assert!(contract.is_registered(&id("alice")));
}

#[test]
fn add_acc_to_whitelist_as_owner() {
    let mut contract = Token::new(id("alice"));
    contract.wl_add_acc(&id("alice"), id("bob")).unwrap();
    assert!(contract.wl_contains(&id("bob")));
}

#[test]
fn add_acc_to_whitelist_as_other_acc() {
    let mut contract = Token::new(id("alice"));
    assert_eq!(contract.wl_add_acc(&id("bob"), id("bob")), Err(LedgerError::Unauthorized));
    assert!(!contract.wl_contains(&id("bob")));
}

#[test]
fn rm_acc_from_whitelist_as_owner() {
    let mut contract = Token::new(id("alice"));
    contract.wl_add_acc(&id("alice"), id("bob")).unwrap();
    assert!(contract.wl_contains(&id("bob")));
    contract.wl_remove_acc(&id("alice"), &id("bob")).unwrap();
    assert!(!contract.wl_contains(&id("bob")));
}

#[test]
fn owner_can_add_acc() {
    let mut contract = Token::new(id("alice"));
    contract.add_acc(&id("alice"), &id("bob")).unwrap();
    assert_eq!(contract.balance_of(&id("bob")), 0);
    assert!(contract.is_registered(&id("bob")));
}

#[test]
fn non_owner_cannot_add_acc() {
    let mut contract = Token::new(id("bob"));
    assert_eq!(contract.add_acc(&id("alice"), &id("alice")), Err(LedgerError::Unauthorized));
    assert!(!contract.is_registered(&id("alice")));
}

#[test]
fn owner_can_create_amount() {
    let mut contract = Token::new(id("alice"));
    contract.add_acc(&id("alice"), &id("bob")).unwrap();
    assert_eq!(contract.balance_of(&id("bob")), 0);
    contract.wl_add_acc(&id("alice"), id("alice")).unwrap();
    contract.create_amount(&id("alice"), &id("bob"), 25).unwrap();
    contract.create_amount(&id("alice"), &id("bob"), 25).unwrap();
    assert_eq!(contract.balance_of(&id("bob")), 50);
}

#[test]
fn create_amount_needs_whitelisted_owner() {
    let mut contract = Token::new(id("alice"));
    assert_eq!(contract.create_amount(&id("alice"), &id("bob"), 5), Err(LedgerError::Unauthorized));
    contract.wl_add_acc(&id("alice"), id("bob")).unwrap();
    assert_eq!(contract.create_amount(&id("bob"), &id("bob"), 5), Err(LedgerError::Unauthorized));
    assert_eq!(contract.balance_of(&id("bob")), 0);
}

#[test]
fn registering_twice_keeps_the_balance() {
    let mut contract = Token::new(id("alice"));
    contract.wl_add_acc(&id("alice"), id("alice")).unwrap();
    contract.create_amount(&id("alice"), &id("bob"), 9).unwrap();
    contract.add_acc(&id("alice"), &id("bob")).unwrap();
    assert_eq!(contract.balance_of(&id("bob")), 9);
}

#[test]
fn valid_send_between_users() {
    let mut contract = Token::new(id("alice"));
    contract.wl_add_acc(&id("alice"), id("alice")).unwrap();
    contract.add_acc(&id("alice"), &id("alice")).unwrap();
    contract.add_acc(&id("alice"), &id("bob")).unwrap();
    contract.create_amount(&id("alice"), &id("alice"), 100).unwrap();
    contract.transfer_internal(&id("alice"), &id("bob"), 50).unwrap();
    assert_eq!(contract.balance_of(&id("bob")), 50);
    assert_eq!(contract.balance_of(&id("alice")), 50);
}

#[test]
fn invalid_send_between_users() {
    let mut contract = Token::new(id("alice"));
    contract.wl_add_acc(&id("alice"), id("alice")).unwrap();
    contract.add_acc(&id("alice"), &id("alice")).unwrap();
    contract.add_acc(&id("alice"), &id("bob")).unwrap();
    assert_eq!(
        contract.transfer_internal(&id("alice"), &id("bob"), 50),
        Err(LedgerError::InsufficientBalance { balance: 0, requested: 50 })
    );
    assert_eq!(contract.balance_of(&id("bob")), 0);
    assert_eq!(contract.balance_of(&id("alice")), 0);
}

#[test]
fn send_to_self_changes_nothing() {
    let mut contract = Token::new(id("alice"));
    contract.wl_add_acc(&id("alice"), id("alice")).unwrap();
    contract.create_amount(&id("alice"), &id("alice"), 10).unwrap();
    assert_eq!(contract.transfer_internal(&id("alice"), &id("alice"), 10), Ok(()));
    assert_eq!(contract.balance_of(&id("alice")), 10);
}

#[test]
fn send_that_would_overflow_is_refused() {
    let mut contract = Token::new(id("alice"));
    contract.wl_add_acc(&id("alice"), id("alice")).unwrap();
    contract.create_amount(&id("alice"), &id("alice"), 1).unwrap();
    contract.create_amount(&id("alice"), &id("bob"), u128::MAX).unwrap();
    assert_eq!(contract.transfer_internal(&id("alice"), &id("bob"), 1), Err(LedgerError::ArithmeticOverflow));
    assert_eq!(contract.balance_of(&id("alice")), 1);
    assert_eq!(contract.balance_of(&id("bob")), u128::MAX);
}

#[test]
fn transfer_needs_whitelisted_receiver() {
    let mut contract = Token::new(id("root"));
    contract.wl_add_acc(&id("root"), id("root")).unwrap();
    contract.create_amount(&id("root"), &id("alice"), 10).unwrap();
    let r = contract.transfer(&id("alice"), id("bank"), 5, id("{\"kind\":\"deposit\"}"));
    assert!(matches!(r, Err(LedgerError::Unauthorized)));
    assert_eq!(contract.balance_of(&id("alice")), 10);
}

#[test]
fn refused_transfer_is_refunded() {
    let mut contract = Token::new(id("root"));
    contract.wl_add_acc(&id("root"), id("root")).unwrap();
    contract.wl_add_acc(&id("root"), id("bank")).unwrap();
    contract.create_amount(&id("root"), &id("alice"), 10).unwrap();
    let call = contract.transfer(&id("alice"), id("bank"), 10, id("{\"kind\":\"transfer\"}")).unwrap();
    assert_eq!(call.receiver, "bank");
    assert_eq!(call.sender_id, "alice");
    assert_eq!(call.amount, 10);
    assert_eq!(contract.balance_of(&id("bank")), 10);
    assert_eq!(contract.resolve_transfer(&call, 10), Ok(10));
    assert_eq!(contract.balance_of(&id("bank")), 0);
    assert_eq!(contract.balance_of(&id("alice")), 10);
}

#[test]
fn refund_is_bounded_by_amount_and_receiver_holding() {
    let mut contract = Token::new(id("root"));
    contract.wl_add_acc(&id("root"), id("root")).unwrap();
    contract.create_amount(&id("root"), &id("bank"), 3).unwrap();
    let call = TransferCall { receiver: id("bank"), sender_id: id("alice"), amount: 8, msg: id("") };
    assert_eq!(contract.resolve_transfer(&call, 100), Ok(3));
    assert_eq!(contract.balance_of(&id("alice")), 3);
    assert_eq!(contract.balance_of(&id("bank")), 0);
}

#[test]
fn notification_pays_out_of_caller_holding() {
    let mut contract = Token::new(id("root"));
    contract.wl_add_acc(&id("root"), id("root")).unwrap();
    contract.wl_add_acc(&id("root"), id("bank")).unwrap();
    contract.create_amount(&id("root"), &id("bank"), 100).unwrap();
    assert_eq!(contract.ft_on_transfer(&id("bank"), &id("alice"), 40, "{}"), Ok(0));
    assert_eq!(contract.balance_of(&id("bank")), 60);
    assert_eq!(contract.balance_of(&id("alice")), 40);
    assert_eq!(contract.ft_on_transfer(&id("eve"), &id("alice"), 1, "{}"), Err(LedgerError::Unauthorized));
    assert_eq!(
        contract.ft_on_transfer(&id("bank"), &id("alice"), 61, "{}"),
        Err(LedgerError::InsufficientBalance { balance: 60, requested: 61 })
    );
}
