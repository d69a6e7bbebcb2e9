use erc20::Approval;
use erc20::Erc20;
use erc20::Error;
use erc20::Event;
use erc20::Transfer;

#[test]
fn construction_credits_caller() {
    let alice: u64 = 1;
    let bob: u64 = 2;
    let ledger = Erc20::new(100, alice);
    assert_eq!(ledger.total_supply(), 100);
    assert_eq!(ledger.balance_of(alice), 100);
    assert_eq!(ledger.balance_of(bob), 0);
    assert_eq!(ledger.events.len(), 1);
    assert_eq!(
        ledger.events[0],
        Event::Transfer(Transfer { from: None, to: Some(alice), value: 100 })
    );
}

#[test]
fn construction_zero_supply() {
    let alice: u64 = 1;
    let ledger = Erc20::new(0, alice);
    assert_eq!(ledger.total_supply(), 0);
    assert_eq!(ledger.balance_of(alice), 0);
    assert_eq!(ledger.events.len(), 1);
    assert_eq!(
        ledger.events[0],
        Event::Transfer(Transfer { from: None, to: Some(alice), value: 0 })
    );
}

#[test]
fn transfer_moves_value() {
    let alice: u64 = 1;
    let bob: u64 = 2;
    let mut ledger = Erc20::new(100, alice);
    let r = ledger.transfer(alice, bob, 40);
    assert_eq!(r, Ok(()));
    assert_eq!(ledger.balance_of(alice), 60);
    assert_eq!(ledger.balance_of(bob), 40);
    assert_eq!(ledger.events.len(), 2);
    assert_eq!(
        ledger.events[1],
        Event::Transfer(Transfer { from: Some(alice), to: Some(bob), value: 40 })
    );
}

#[test]
fn transfer_insufficient_balance() {
    let alice: u64 = 1;
    let bob: u64 = 2;
    let mut ledger = Erc20::new(10, alice);
    let r = ledger.transfer(alice, bob, 20);
    assert_eq!(r, Err(Error::InsufficientBalance));
    assert_eq!(ledger.balance_of(alice), 10);
    assert_eq!(ledger.balance_of(bob), 0);
    assert_eq!(ledger.events.len(), 1);
}

#[test]
fn transfer_from_stranger_fails() {
    let alice: u64 = 1;
    let bob: u64 = 2;
    let mut ledger = Erc20::new(100, alice);
    let r = ledger.transfer(bob, alice, 1);
    assert_eq!(r, Err(Error::InsufficientBalance));
    assert_eq!(ledger.balance_of(alice), 100);
    assert_eq!(ledger.events.len(), 1);
}

#[test]
fn transfer_entire_balance() {
    let alice: u64 = 1;
    let bob: u64 = 2;
    let mut ledger = Erc20::new(100, alice);
    let r = ledger.transfer(alice, bob, 100);
    assert_eq!(r, Ok(()));
    assert_eq!(ledger.balance_of(alice), 0);
    assert_eq!(ledger.balance_of(bob), 100);
}

#[test]
fn transfer_zero_value_succeeds() {
    let alice: u64 = 1;
    let bob: u64 = 2;
    let mut ledger = Erc20::new(100, alice);
    let r = ledger.transfer(alice, bob, 0);
    assert_eq!(r, Ok(()));
    assert_eq!(ledger.balance_of(alice), 100);
    assert_eq!(ledger.balance_of(bob), 0);
    assert_eq!(ledger.events.len(), 2);
    assert_eq!(
        ledger.events[1],
        Event::Transfer(Transfer { from: Some(alice), to: Some(bob), value: 0 })
    );
}

#[test]
fn transfer_whole_supply_at_maximum() {
    let alice: u64 = 1;
    let bob: u64 = 2;
    let mut ledger = Erc20::new(u128::MAX, alice);
    let r = ledger.transfer(alice, bob, u128::MAX);
    assert_eq!(r, Ok(()));
    assert_eq!(ledger.balance_of(alice), 0);
    assert_eq!(ledger.balance_of(bob), u128::MAX);
    assert_eq!(ledger.total_supply(), u128::MAX);
}

#[test]
fn self_transfer_keeps_balance_and_notifies() {
    let alice: u64 = 1;
    let mut ledger = Erc20::new(100, alice);
    let r = ledger.transfer(alice, alice, 60);
    assert_eq!(r, Ok(()));
    assert_eq!(ledger.balance_of(alice), 100);
    assert_eq!(ledger.events.len(), 2);
    assert_eq!(
        ledger.events[1],
        Event::Transfer(Transfer { from: Some(alice), to: Some(alice), value: 60 })
    );
}

#[test]
fn self_transfer_still_checks_balance() {
    let alice: u64 = 1;
    let mut ledger = Erc20::new(100, alice);
    let r = ledger.transfer(alice, alice, 150);
    assert_eq!(r, Err(Error::InsufficientBalance));
    assert_eq!(ledger.balance_of(alice), 100);
    assert_eq!(ledger.events.len(), 1);
}

#[test]
fn approve_overwrites_previous_allowance() {
    let owner: u64 = 1;
    let spender: u64 = 2;
    let mut ledger = Erc20::new(100, owner);
    assert_eq!(ledger.approve(owner, spender, 50), Ok(()));
    assert_eq!(ledger.approve(owner, spender, 30), Ok(()));
    assert_eq!(ledger.allowance(owner, spender), 30);
}

#[test]
fn approve_records_notification() {
    let owner: u64 = 1;
    let spender: u64 = 2;
    let mut ledger = Erc20::new(100, owner);
    assert_eq!(ledger.approve(owner, spender, 50), Ok(()));
    assert_eq!(ledger.events.len(), 2);
    assert_eq!(
        ledger.events[1],
        Event::Approval(Approval { owner, spender, value: 50 })
    );
}

#[test]
fn approve_zero_revokes() {
    let owner: u64 = 1;
    let spender: u64 = 2;
    let mut ledger = Erc20::new(100, owner);
    assert_eq!(ledger.approve(owner, spender, 50), Ok(()));
    assert_eq!(ledger.approve(owner, spender, 0), Ok(()));
    assert_eq!(ledger.allowance(owner, spender), 0);
}

#[test]
fn allowance_pairs_are_order_sensitive() {
    let alice: u64 = 1;
    let bob: u64 = 2;
    let mut ledger = Erc20::new(100, alice);
    assert_eq!(ledger.approve(alice, bob, 5), Ok(()));
    assert_eq!(ledger.allowance(alice, bob), 5);
    assert_eq!(ledger.allowance(bob, alice), 0);
}

#[test]
fn transfer_from_decrements_allowance_once() {
    let owner: u64 = 1;
    let spender: u64 = 2;
    let dest: u64 = 3;
    let mut ledger = Erc20::new(100, owner);
    assert_eq!(ledger.approve(owner, spender, 50), Ok(()));
    let r = ledger.transfer_from(spender, owner, dest, 20);
    assert_eq!(r, Ok(()));
    assert_eq!(ledger.balance_of(owner), 80);
    assert_eq!(ledger.balance_of(dest), 20);
    assert_eq!(ledger.allowance(owner, spender), 30);
    assert_eq!(ledger.events.len(), 3);
    assert_eq!(
        ledger.events[2],
        Event::Transfer(Transfer { from: Some(owner), to: Some(dest), value: 20 })
    );
}

#[test]
fn transfer_from_respects_both_limits() {
    let owner: u64 = 1;
    let spender: u64 = 2;
    let dest: u64 = 3;
    let mut ledger = Erc20::new(30, owner);
    assert_eq!(ledger.approve(owner, spender, 50), Ok(()));
    let r = ledger.transfer_from(spender, owner, dest, 40);
    assert_eq!(r, Err(Error::InsufficientBalance));
    assert_eq!(ledger.allowance(owner, spender), 50);
    assert_eq!(ledger.balance_of(owner), 30);
    assert_eq!(ledger.balance_of(dest), 0);
    assert_eq!(ledger.events.len(), 2);
}

#[test]
fn transfer_from_insufficient_allowance() {
    let owner: u64 = 1;
    let spender: u64 = 2;
    let dest: u64 = 3;
    let mut ledger = Erc20::new(100, owner);
    assert_eq!(ledger.approve(owner, spender, 10), Ok(()));
    let r = ledger.transfer_from(spender, owner, dest, 20);
    assert_eq!(r, Err(Error::InsufficientAllowance));
    assert_eq!(ledger.balance_of(owner), 100);
    assert_eq!(ledger.balance_of(dest), 0);
    assert_eq!(ledger.allowance(owner, spender), 10);
    assert_eq!(ledger.events.len(), 2);
}

#[test]
fn transfer_from_exact_allowance() {
    let owner: u64 = 1;
    let spender: u64 = 2;
    let dest: u64 = 3;
    let mut ledger = Erc20::new(100, owner);
    assert_eq!(ledger.approve(owner, spender, 20), Ok(()));
    let r = ledger.transfer_from(spender, owner, dest, 20);
    assert_eq!(r, Ok(()));
    assert_eq!(ledger.allowance(owner, spender), 0);
    assert_eq!(ledger.balance_of(dest), 20);
}

#[test]
fn queries_are_idempotent() {
    let alice: u64 = 1;
    let bob: u64 = 2;
    let mut ledger = Erc20::new(100, alice);
    assert_eq!(ledger.approve(alice, bob, 7), Ok(()));
    assert_eq!(ledger.total_supply(), ledger.total_supply());
    assert_eq!(ledger.balance_of(alice), ledger.balance_of(alice));
    assert_eq!(ledger.allowance(alice, bob), ledger.allowance(alice, bob));
    let first: u128 = ledger.balance_of(alice);
    let second: u128 = ledger.balance_of(alice);
    assert_eq!(first, 100);
    assert_eq!(second, 100);
    assert_eq!(ledger.events.len(), 2);
}

#[test]
fn validator_accepts_ledgers_built_by_operations() {
    let alice: u64 = 1;
    let bob: u64 = 2;
    let mut ledger = Erc20::new(100, alice);
    assert!(ledger.is_well_formed());
    assert_eq!(ledger.transfer(alice, bob, 40), Ok(()));
    assert_eq!(ledger.approve(bob, alice, 10), Ok(()));
    assert!(ledger.is_well_formed());
}

#[test]
fn validator_rejects_duplicate_keys() {
    let ledger = Erc20 {
        total_supply: 10,
        balances: vec![(1, 5), (1, 5)],
        allowances: vec![],
        events: vec![],
    };
    assert!(!ledger.is_well_formed());
}

#[test]
fn validator_rejects_broken_conservation() {
    let ledger = Erc20 {
        total_supply: 10,
        balances: vec![(1, 5), (2, 4)],
        allowances: vec![],
        events: vec![],
    };
    assert!(!ledger.is_well_formed());
}

#[test]
fn validator_rejects_overflowing_balances() {
    let ledger = Erc20 {
        total_supply: u128::MAX,
        balances: vec![(1, u128::MAX), (2, u128::MAX)],
        allowances: vec![],
        events: vec![],
    };
    assert!(!ledger.is_well_formed());
}

#[test]
fn conservation_across_operations() {
    let alice: u64 = 1;
    let bob: u64 = 2;
    let carol: u64 = 3;
    let mut ledger = Erc20::new(1000, alice);
    assert_eq!(ledger.transfer(alice, bob, 300), Ok(()));
    assert_eq!(ledger.approve(bob, carol, 200), Ok(()));
    assert_eq!(ledger.transfer_from(carol, bob, carol, 150), Ok(()));
    assert_eq!(ledger.transfer(carol, alice, 50), Ok(()));
    let total: u128 =
        ledger.balance_of(alice) + ledger.balance_of(bob) + ledger.balance_of(carol);
    assert_eq!(total, ledger.total_supply());
}
