use simple_bank::bank::Bank;
use simple_bank::error::LedgerError;

fn id(s: &str) -> String {
    s.to_string()
}

fn deposit_msg() -> &'static str {
    "{\"kind\":\"deposit\"}"
}

fn withdrawal_msg() -> &'static str {
    "{\"kind\":\"withdrawal\"}"
}

#[test]
fn lib_owner_set_up() {
    let mut contract = Bank::new(id("alice"));
    assert_eq!(contract.add_acc(&id("alice"), id("bob")), Ok(()));
    assert!(contract.is_registered(&id("bob")));
}

#[test]
fn lib_add_acc_to_whitelist_as_owner() {
    let mut contract = Bank::new(id("alice"));
    contract.wl_add_acc(&id("alice"), id("bob")).unwrap();
    assert!(contract.wl_contains(&id("bob")));
}

#[test]
fn lib_add_acc_to_whitelist_as_other_acc() {
    let mut contract = Bank::new(id("alice"));
    assert_eq!(contract.wl_add_acc(&id("bob"), id("bob")), Err(LedgerError::Unauthorized));
    assert!(!contract.wl_contains(&id("bob")));
}

#[test]
fn lib_rm_acc_from_whitelist_as_owner() {
    let mut contract = Bank::new(id("alice"));
    contract.wl_add_acc(&id("alice"), id("bob")).unwrap();
    assert!(contract.wl_contains(&id("bob")));
    contract.wl_remove_acc(&id("alice"), &id("bob")).unwrap();
    assert!(!contract.wl_contains(&id("bob")));
}

#[test]
fn non_owner_cannot_remove_or_register() {
    let mut contract = Bank::new(id("alice"));
    contract.wl_add_acc(&id("alice"), id("bob")).unwrap();
    assert_eq!(contract.wl_remove_acc(&id("bob"), &id("bob")), Err(LedgerError::Unauthorized));
    assert!(contract.wl_contains(&id("bob")));
    assert_eq!(contract.add_acc(&id("bob"), id("carol")), Err(LedgerError::Unauthorized));
    assert!(!contract.is_registered(&id("carol")));
}

#[test]
fn remove_absent_twice_is_noop() {
    let mut contract = Bank::new(id("alice"));
    contract.wl_add_acc(&id("alice"), id("token")).unwrap();
    assert_eq!(contract.wl_remove_acc(&id("alice"), &id("bob")), Ok(()));
    assert!(!contract.wl_contains(&id("bob")));
    assert_eq!(contract.wl_remove_acc(&id("alice"), &id("bob")), Ok(()));
    assert!(!contract.wl_contains(&id("bob")));
    assert!(contract.wl_contains(&id("token")));
}

#[test]
fn adding_twice_keeps_one_member() {
    let mut contract = Bank::new(id("alice"));
    contract.wl_add_acc(&id("alice"), id("bob")).unwrap();
    contract.wl_add_acc(&id("alice"), id("bob")).unwrap();
    contract.wl_remove_acc(&id("alice"), &id("bob")).unwrap();
    assert!(!contract.wl_contains(&id("bob")));
}

#[test]
fn scenario_unlisted_caller_is_refused() {
    let mut bank = Bank::new(id("admin"));
    bank.add_acc(&id("admin"), id("x")).unwrap();
    let r = bank.ft_on_transfer(&id("x"), &id("x"), 100, deposit_msg());
    assert_eq!(r, Err(LedgerError::Unauthorized));
    assert_eq!(bank.balance_of(&id("x"), &id("x")), 0);
}

#[test]
fn scenario_deposit_withdraw_and_overdraw() {
    let mut bank = Bank::new(id("admin"));
    bank.wl_add_acc(&id("admin"), id("c")).unwrap();
    assert_eq!(bank.ft_on_transfer(&id("c"), &id("x"), 100, deposit_msg()), Ok(0));
    assert_eq!(bank.balance_of(&id("c"), &id("x")), 100);
    assert_eq!(bank.ft_on_transfer(&id("c"), &id("x"), 50, withdrawal_msg()), Ok(0));
    assert_eq!(bank.balance_of(&id("c"), &id("x")), 50);
    assert_eq!(
        bank.ft_on_transfer(&id("c"), &id("x"), 200, withdrawal_msg()),
        Err(LedgerError::InsufficientBalance { balance: 50, requested: 200 })
    );
    assert_eq!(bank.balance_of(&id("c"), &id("x")), 50);
}

#[test]
fn scenario_unknown_kind_is_refused_in_full() {
    let mut bank = Bank::new(id("admin"));
    bank.wl_add_acc(&id("admin"), id("c")).unwrap();
    bank.ft_on_transfer(&id("c"), &id("x"), 100, deposit_msg()).unwrap();
    assert_eq!(bank.ft_on_transfer(&id("c"), &id("x"), 10, "{\"kind\":\"transfer\"}"), Ok(10));
    assert_eq!(bank.balance_of(&id("c"), &id("x")), 100);
}

#[test]
fn malformed_message_aborts() {
    let mut bank = Bank::new(id("admin"));
    bank.wl_add_acc(&id("admin"), id("c")).unwrap();
    assert_eq!(bank.ft_on_transfer(&id("c"), &id("x"), 10, "deposit"), Err(LedgerError::MalformedMessage));
    assert_eq!(bank.balance_of(&id("c"), &id("x")), 0);
}

#[test]
fn balances_are_kept_per_counterparty() {
    let mut bank = Bank::new(id("admin"));
    bank.wl_add_acc(&id("admin"), id("c")).unwrap();
    bank.wl_add_acc(&id("admin"), id("d")).unwrap();
    bank.ft_on_transfer(&id("c"), &id("x"), 30, deposit_msg()).unwrap();
    bank.ft_on_transfer(&id("d"), &id("x"), 7, deposit_msg()).unwrap();
    assert_eq!(bank.balance_of(&id("c"), &id("x")), 30);
    assert_eq!(bank.balance_of(&id("d"), &id("x")), 7);
    assert_eq!(bank.balance_of(&id("c"), &id("y")), 0);
    assert_eq!(
        bank.ft_on_transfer(&id("d"), &id("x"), 8, withdrawal_msg()),
        Err(LedgerError::InsufficientBalance { balance: 7, requested: 8 })
    );
}

#[test]
fn deposit_round_trip_adds_exactly() {
    let mut bank = Bank::new(id("admin"));
    bank.wl_add_acc(&id("admin"), id("c")).unwrap();
    bank.ft_on_transfer(&id("c"), &id("x"), 41, deposit_msg()).unwrap();
    let before = bank.balance_of(&id("c"), &id("x"));
    bank.ft_on_transfer(&id("c"), &id("x"), 1, deposit_msg()).unwrap();
    assert_eq!(bank.balance_of(&id("c"), &id("x")), before + 1);
}

#[test]
fn deposit_overflow_is_refused() {
    let mut bank = Bank::new(id("admin"));
    bank.wl_add_acc(&id("admin"), id("c")).unwrap();
    bank.ft_on_transfer(&id("c"), &id("x"), u128::MAX, deposit_msg()).unwrap();
    assert_eq!(
        bank.ft_on_transfer(&id("c"), &id("x"), 1, deposit_msg()),
        Err(LedgerError::ArithmeticOverflow)
    );
    assert_eq!(bank.balance_of(&id("c"), &id("x")), u128::MAX);
}

#[test]
fn withdrawal_of_zero_from_empty_entry_succeeds() {
    let mut bank = Bank::new(id("admin"));
    bank.wl_add_acc(&id("admin"), id("c")).unwrap();
    assert_eq!(bank.ft_on_transfer(&id("c"), &id("x"), 0, withdrawal_msg()), Ok(0));
    assert_eq!(bank.balance_of(&id("c"), &id("x")), 0);
}

#[test]
fn relay_debits_before_outcome() {
    let mut bank = Bank::new(id("admin"));
    bank.wl_add_acc(&id("admin"), id("token")).unwrap();
    bank.ft_on_transfer(&id("token"), &id("alice"), 100, deposit_msg()).unwrap();
    let req = bank.transfer(&id("alice"), id("token"), 60).unwrap();
    assert_eq!(req.counterparty, "token");
    assert_eq!(req.account, "alice");
    assert_eq!(req.amount, 60);
    assert_eq!(bank.balance_of(&id("token"), &id("alice")), 40);
    assert_eq!(bank.resolve_relay(req.id, true), Ok(()));
    assert_eq!(bank.balance_of(&id("token"), &id("alice")), 40);
    assert_eq!(bank.resolve_relay(req.id, true), Err(LedgerError::UnknownRelay));
}

#[test]
fn failed_relay_is_credited_back() {
    let mut bank = Bank::new(id("admin"));
    bank.wl_add_acc(&id("admin"), id("token")).unwrap();
    bank.ft_on_transfer(&id("token"), &id("alice"), 100, deposit_msg()).unwrap();
    let first = bank.transfer(&id("alice"), id("token"), 30).unwrap();
    let second = bank.transfer(&id("alice"), id("token"), 50).unwrap();
    assert_ne!(first.id, second.id);
    assert_eq!(bank.balance_of(&id("token"), &id("alice")), 20);
    assert_eq!(bank.resolve_relay(second.id, false), Ok(()));
    assert_eq!(bank.balance_of(&id("token"), &id("alice")), 70);
    assert_eq!(bank.resolve_relay(first.id, true), Ok(()));
    assert_eq!(bank.balance_of(&id("token"), &id("alice")), 70);
    assert_eq!(bank.resolve_relay(second.id, false), Err(LedgerError::UnknownRelay));
}

#[test]
fn relay_needs_whitelisted_counterparty_and_funds() {
    let mut bank = Bank::new(id("admin"));
    bank.wl_add_acc(&id("admin"), id("token")).unwrap();
    bank.ft_on_transfer(&id("token"), &id("alice"), 10, deposit_msg()).unwrap();
    assert!(matches!(bank.transfer(&id("alice"), id("other"), 5), Err(LedgerError::Unauthorized)));
    assert!(matches!(
        bank.transfer(&id("alice"), id("token"), 11),
        Err(LedgerError::InsufficientBalance { balance: 10, requested: 11 })
    ));
    assert_eq!(bank.balance_of(&id("token"), &id("alice")), 10);
}
