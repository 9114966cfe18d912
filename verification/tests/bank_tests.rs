//! The bank state: balance records, validated transfers with their canonical
//! records, unit conversions, and the KANARI formatter.

use kanari::address::Address;
use kanari::bank::{
    create_transfer_record, format_kanari, get_transfer_amount, validate_transfer, BalanceRecord,
    MoveVMState,
};

fn addr(text: &str) -> Address {
    Address::from_hex_literal(text).unwrap()
}

#[test]
fn balance_records_check_their_bounds() {
    let mut b = BalanceRecord::zero();
    assert!(b.is_sufficient(0));
    b.increase(100).unwrap();
    assert!(b.is_sufficient(100));
    assert!(!b.is_sufficient(101));
    b.decrease(40).unwrap();
    assert_eq!(b.value, 60);
    assert!(b.decrease(61).is_err());
    let mut top = BalanceRecord::new(u64::MAX);
    assert!(top.increase(1).is_err());
}

#[test]
fn conversions_between_mist_and_kanari() {
    assert_eq!(MoveVMState::kanari_to_mist(3), 3_000_000_000);
    assert_eq!(MoveVMState::mist_to_kanari(2_999_999_999), 2);
}

#[test]
fn the_formatter_pads_nine_fractional_digits() {
    assert_eq!(format_kanari(0), "0.000000000 KANARI");
    assert_eq!(format_kanari(1), "0.000000001 KANARI");
    assert_eq!(format_kanari(1_500_000_000), "1.500000000 KANARI");
    assert_eq!(format_kanari(12_000_000_345), "12.000000345 KANARI");
    assert_eq!(MoveVMState::format_balance(7), "0.000000007 KANARI");
}

#[test]
fn transfer_records_read_back_their_amount() {
    let record = create_transfer_record(&addr("0xa"), &addr("0xb"), 424242);
    assert_eq!(record.len(), 72);
    assert_eq!(get_transfer_amount(&record), Some(424242));
    assert_eq!(get_transfer_amount(&vec![1, 2, 3]), None);
}

#[test]
fn transfer_requests_are_validated() {
    assert!(validate_transfer(&addr("0xa"), &addr("0xb"), 1));
    assert!(!validate_transfer(&addr("0xa"), &addr("0xb"), 0));
    assert!(!validate_transfer(&addr("0xa"), &addr("0xa"), 5));
}

#[test]
fn bank_state_moves_balances_and_records_transfers() {
    let mut state = MoveVMState::new();
    state.create_account(addr("0xa")).unwrap();
    assert!(state.create_account(addr("0xa")).is_err());

    state.mint(addr("0xa"), 1000).unwrap();
    assert_eq!(state.get_total_supply(), 1000);
    assert_eq!(state.get_balance(&addr("0xa")), 1000);

    state.transfer(&addr("0xa"), &addr("0xb"), 400).unwrap();
    assert_eq!(state.get_balance(&addr("0xa")), 600);
    assert_eq!(state.get_balance(&addr("0xb")), 400);
    assert_eq!(state.transfers.len(), 1);

    // A zero amount and a self-transfer are invalid requests.
    assert!(state.transfer(&addr("0xa"), &addr("0xb"), 0).is_err());
    assert!(state.transfer(&addr("0xa"), &addr("0xa"), 5).is_err());
    // Insufficient funds leave everything unchanged.
    assert!(state.transfer(&addr("0xb"), &addr("0xa"), 500).is_err());
    assert_eq!(state.get_balance(&addr("0xb")), 400);

    state.set_balance(addr("0xb"), 9).unwrap();
    assert_eq!(state.get_balance(&addr("0xb")), 9);
    assert_eq!(state.get_balance_record(&addr("0xb")).unwrap().value, 9);
    assert_eq!(state.get_balance_formatted(&addr("0xb")), "0.000000009 KANARI");
    assert_eq!(state.get_total_supply_formatted(), "0.000001000 KANARI");
}
