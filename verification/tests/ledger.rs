use gossip_ledger::ledger::Ledger;
use gossip_ledger::types::{AccountTransaction, Id, Timestamp, Amount};

fn id(n: u8) -> Id {
    Id::from_bytes([n; 32])
}

fn transaction(from: Id, to: Id, amount: i64) -> AccountTransaction {
    AccountTransaction { to, from, amount: Amount(amount), timestamp: Timestamp(1) }
}

#[test]
fn absent_accounts_read_as_none() {
    let ledger = Ledger::new();
    assert_eq!(ledger.len(), 0);
    assert_eq!(ledger.get(&id(1)), None);
}

#[test]
fn update_debits_sender_and_credits_recipient_from_zero() {
    let mut ledger = Ledger::new();
    ledger.update(&transaction(id(1), id(2), 100));
    assert_eq!(ledger.get(&id(1)), Some(Amount(-100)));
    assert_eq!(ledger.get(&id(2)), Some(Amount(100)));
    assert_eq!(ledger.get(&id(3)), None);
    assert_eq!(ledger.len(), 2);
}

#[test]
fn updates_accumulate() {
    let mut ledger = Ledger::new();
    ledger.update(&transaction(id(1), id(2), 100));
    ledger.update(&transaction(id(2), id(3), 150));
    assert_eq!(ledger.get(&id(1)), Some(Amount(-100)));
    assert_eq!(ledger.get(&id(2)), Some(Amount(-50)));
    assert_eq!(ledger.get(&id(3)), Some(Amount(150)));
    assert_eq!(ledger.len(), 3);
}

#[test]
fn balances_may_go_negative_without_bound() {
    let mut ledger = Ledger::new();
    for _ in 0..5 {
        ledger.update(&transaction(id(1), id(2), 1_000_000_000_000));
    }
    assert_eq!(ledger.get(&id(1)), Some(Amount(-5_000_000_000_000)));
    assert_eq!(ledger.get(&id(2)), Some(Amount(5_000_000_000_000)));
}

#[test]
fn update_wraps_on_overflow() {
    let mut ledger = Ledger::new();
    // debiting i64::MIN from a zero balance wraps to i64::MIN itself
    ledger.update(&transaction(id(1), id(2), i64::MIN));
    assert_eq!(ledger.get(&id(1)), Some(Amount(i64::MIN)));
    assert_eq!(ledger.get(&id(2)), Some(Amount(i64::MIN)));
}

#[test]
fn self_transfer_nets_to_zero() {
    let mut ledger = Ledger::new();
    // the debit and the credit cancel; the account gains an explicit entry
    ledger.update(&transaction(id(1), id(1), 30));
    assert_eq!(ledger.get(&id(1)), Some(Amount(0)));
    assert_eq!(ledger.len(), 1);
}

#[test]
fn update_order_does_not_matter() {
    let t1 = transaction(id(1), id(2), 100);
    let t2 = transaction(id(2), id(3), 150);
    let mut forward = Ledger::new();
    forward.update(&t1);
    forward.update(&t2);
    let mut backward = Ledger::new();
    backward.update(&t2);
    backward.update(&t1);
    assert_eq!(forward, backward);
}

#[test]
fn ledger_equality_is_by_entries() {
    let mut a = Ledger::new();
    let mut b = Ledger::new();
    assert_eq!(a, b);
    a.update(&transaction(id(1), id(2), 10));
    assert_ne!(a, b);
    b.update(&transaction(id(1), id(2), 10));
    assert_eq!(a, b);
    b.update(&transaction(id(1), id(2), 1));
    assert_ne!(a, b);
}

#[test]
fn clone_preserves_balances() {
    let mut ledger = Ledger::new();
    ledger.update(&transaction(id(1), id(2), 42));
    let copy = ledger.clone();
    assert_eq!(copy, ledger);
    assert_eq!(copy.get(&id(2)), Some(Amount(42)));
}

#[test]
fn amount_arithmetic_wraps() {
    assert_eq!(Amount(2).wrapping_add(Amount(3)), Amount(5));
    assert_eq!(Amount(2).wrapping_sub(Amount(3)), Amount(-1));
    assert_eq!(Amount(i64::MAX).wrapping_add(Amount(1)), Amount(i64::MIN));
    assert_eq!(Amount(i64::MIN).wrapping_sub(Amount(1)), Amount(i64::MAX));
}
