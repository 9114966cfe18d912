//! The state manager: genesis allocation, account creation, transfers,
//! minting, burning, sequence numbers, and the atomic change-set apply.

use kanari::address::Address;
use kanari::changeset::ChangeSet;
use kanari::state::{Account, StateManager, TOTAL_SUPPLY_MIST};

fn addr(text: &str) -> Address {
    Address::from_hex_literal(text).unwrap()
}

#[test]
fn test_state_manager_creation() {
    let state = StateManager::new();
    // Genesis holds the genesis, standard-library, system, DAO and developer
    // accounts.
    assert_eq!(state.accounts.len(), 5);
    assert!(state.get_account(&addr("0x1")).is_some());
    assert!(state.get_account(&addr("0x2")).is_some());
}

#[test]
fn test_get_or_create_account() {
    let mut state = StateManager::new();
    let i = state.get_or_create_account(addr("0x123"));
    let account = &state.accounts[i];
    assert_eq!(account.address.to_hex_literal(), "0x123");
    assert_eq!(account.balance, 0);
}

#[test]
fn test_transfer() {
    let mut state = StateManager::new();
    state.mint(&addr("0x1"), 1000).unwrap();
    state.transfer(&addr("0x1"), &addr("0x2"), 500).unwrap();

    assert_eq!(state.get_balance(&addr("0x1")), 500);
    assert_eq!(state.get_balance(&addr("0x2")), 500);
}

#[test]
fn test_insufficient_balance() {
    let mut state = StateManager::new();
    state.mint(&addr("0x1"), 100).unwrap();

    let result = state.transfer(&addr("0x1"), &addr("0x2"), 200);
    assert!(result.is_err());
}

#[test]
fn test_mint_and_burn() {
    let mut state = StateManager::new();
    state.mint(&addr("0x1"), 1000).unwrap();
    assert_eq!(state.get_balance(&addr("0x1")), 1000);

    state.burn(&addr("0x1"), 300).unwrap();
    assert_eq!(state.get_balance(&addr("0x1")), 700);
}

#[test]
fn test_sequence_number() {
    let mut state = StateManager::new();
    state.mint(&addr("0x1"), 1000).unwrap();
    state.transfer(&addr("0x1"), &addr("0x2"), 100).unwrap();

    let account = state.get_account(&addr("0x1")).unwrap();
    assert_eq!(account.sequence_number, 1);
}

#[test]
fn genesis_allocates_the_supply_to_the_developer() {
    let state = StateManager::new();
    assert_eq!(state.get_balance(&Address::dev_address()), 10_000_000_000_000_000_000);
    assert_eq!(state.get_balance(&addr("0x1234")), 0);
    assert_eq!(state.total_supply, TOTAL_SUPPLY_MIST);
}

#[test]
fn mint_and_burn_move_the_total_supply() {
    let mut state = StateManager::new();
    // A mint that would push the supply past the integer range is refused.
    assert!(state.mint(&addr("0x9"), u64::MAX).is_err());
    state.burn(&Address::dev_address(), 500).unwrap();
    assert_eq!(state.total_supply, TOTAL_SUPPLY_MIST - 500);
    state.mint(&addr("0x9"), 500).unwrap();
    assert_eq!(state.total_supply, TOTAL_SUPPLY_MIST);
    assert_eq!(state.get_balance(&addr("0x9")), 500);
}

#[test]
fn apply_lands_a_balanced_change_set() {
    let mut state = StateManager::new();
    state.mint(&addr("0xa"), 1000).unwrap();

    let mut cs = ChangeSet::new();
    cs.transfer(addr("0xa"), addr("0xb"), 400);
    state.apply(&cs).unwrap();

    assert_eq!(state.get_balance(&addr("0xa")), 600);
    assert_eq!(state.get_balance(&addr("0xb")), 400);
    assert_eq!(state.get_account(&addr("0xa")).unwrap().sequence_number, 1);
}

#[test]
fn apply_rejects_underflow_without_any_effect() {
    let mut state = StateManager::new();
    state.mint(&addr("0xa"), 100).unwrap();

    let mut cs = ChangeSet::new();
    cs.transfer(addr("0xa"), addr("0xb"), 400);
    assert!(state.apply(&cs).is_err());

    assert_eq!(state.get_balance(&addr("0xa")), 100);
    assert_eq!(state.get_balance(&addr("0xb")), 0);
    assert_eq!(state.get_account(&addr("0xa")).unwrap().sequence_number, 0);
}

#[test]
fn apply_rejects_an_unbalanced_change_set() {
    let mut state = StateManager::new();
    state.mint(&addr("0xa"), 100).unwrap();

    let mut cs = ChangeSet::new();
    cs.burn(addr("0xa"), 50);
    assert!(state.apply(&cs).is_err());
    assert_eq!(state.get_balance(&addr("0xa")), 100);
}

#[test]
fn transfer_of_the_whole_range_is_accepted() {
    // A sender holding the largest balance can send it all when the fee is
    // zero-priced.
    let sender = Account::new(addr("0xa"), u64::MAX);
    let state0 = StateManager { accounts: vec![sender], modules: vec![], total_supply: u64::MAX };
    let mut state = state0;
    state.transfer(&addr("0xa"), &addr("0xb"), u64::MAX).unwrap();
    assert_eq!(state.get_balance(&addr("0xa")), 0);
    assert_eq!(state.get_balance(&addr("0xb")), u64::MAX);
}

#[test]
fn transfer_rejects_a_recipient_overflow() {
    let sender = Account::new(addr("0xa"), u64::MAX);
    let holder = Account::new(addr("0xb"), 1);
    let mut state = StateManager {
        accounts: vec![sender, holder],
        modules: vec![],
        total_supply: u64::MAX,
    };
    assert!(state.transfer(&addr("0xa"), &addr("0xb"), u64::MAX).is_err());
    assert_eq!(state.get_balance(&addr("0xa")), u64::MAX);
    assert_eq!(state.get_balance(&addr("0xb")), 1);
}

#[test]
fn state_root_is_deterministic_across_reexecution() {
    let run = || {
        let mut state = StateManager::new();
        state.burn(&Address::dev_address(), 1000).unwrap();
        state.mint(&addr("0xa"), 1000).unwrap();
        state.transfer(&addr("0xa"), &addr("0xb"), 250).unwrap();
        state.transfer(&addr("0xb"), &addr("0xc"), 50).unwrap();
        state.compute_state_root()
    };
    let first = run();
    let second = run();
    assert_eq!(first, second);
    assert_eq!(first.len(), 32);
}

#[test]
fn snapshot_preserves_the_state_root() {
    let mut state = StateManager::new();
    state.burn(&Address::dev_address(), 7).unwrap();
    state.mint(&addr("0xa"), 7).unwrap();
    assert_eq!(state.total_supply, TOTAL_SUPPLY_MIST);
    let copy = state.snapshot();
    assert_eq!(state.compute_state_root(), copy.compute_state_root());
    let root = state.compute_state_root();
    state.restore(copy);
    assert_eq!(state.compute_state_root(), root);
}
