//! Transaction contexts, the module-name helpers, the gas meter and the
//! change-set operations.

use kanari::address::Address;
use kanari::changeset::ChangeSet;
use kanari::gas::{GasMeter, GasOperation};
use kanari::genesis::GenesisModule;
use kanari::tx_context::{TxContextModule, TxContextRecord};

fn addr(text: &str) -> Address {
    Address::from_hex_literal(text).unwrap()
}

#[test]
fn test_tx_context_creation() {
    let ctx = TxContextRecord::new("0x1".to_string(), 5, vec![1, 2, 3, 4], 1000, 100);
    assert_eq!(ctx.sender(), "0x1");
    assert_eq!(ctx.epoch(), 5);
    assert_eq!(ctx.gas_budget, 1000);
}

#[test]
fn test_total_gas_cost() {
    let ctx = TxContextRecord::new("0x1".to_string(), 0, vec![], 1000, 50);
    assert_eq!(ctx.total_gas_cost(), 50_000);
}

#[test]
fn tx_context_test_module_id() {
    let module_id = TxContextModule::get_module_id();
    assert!(module_id.is_ok());
}

#[test]
fn genesis_test_module_id() {
    let module_id = GenesisModule::get_module_id();
    assert!(module_id.is_ok());
}

#[test]
fn test_function_names_are_accessible() {
    let fns = GenesisModule::function_names();
    assert_eq!(fns.init_genesis, "init_genesis");
}

#[test]
fn gas_meter_consumes_up_to_the_limit() {
    let mut meter = GasMeter::new(1000, 3);
    meter.consume(400).unwrap();
    meter.consume(600).unwrap();
    assert_eq!(meter.gas_used, 1000);
    assert!(meter.consume(1).is_err());
    assert_eq!(meter.gas_used, 1000);
    assert_eq!(meter.total_cost(), 3000);
    assert_eq!(meter.max_cost(), 3000);
}

#[test]
fn gas_costs_follow_the_catalogue() {
    assert_eq!(GasOperation::Transfer.gas_units(), 200);
    assert_eq!(GasOperation::ExecuteFunction { complexity: 1 }.gas_units(), 500);
    assert_eq!(GasOperation::PublishModule { module_size: 100 }.gas_units(), 2000);
    assert_eq!(GasOperation::SignatureVerify.gas_units(), 250);
}

#[test]
fn gas_cost_saturates_at_the_top() {
    let meter = GasMeter { gas_limit: u64::MAX, gas_price: u64::MAX, gas_used: u64::MAX };
    assert_eq!(meter.total_cost(), u64::MAX);
}

fn delta_of(cs: &ChangeSet, a: &Address) -> i64 {
    for change in cs.account_changes.iter() {
        if change.address.eq_addr(a) {
            return change.balance_delta;
        }
    }
    0
}

fn entry_of<'a>(cs: &'a ChangeSet, a: &Address) -> &'a kanari::changeset::AccountChange {
    for change in cs.account_changes.iter() {
        if change.address.eq_addr(a) {
            return change;
        }
    }
    panic!("no change for that address");
}

#[test]
fn test_changeset_transfer() {
    let mut cs = ChangeSet::new();
    let from = Address::from_hex_literal("0x1").unwrap();
    let to = Address::from_hex_literal("0x2").unwrap();

    cs.transfer(from, to, 100);

    let from = Address::from_hex_literal("0x1").unwrap();
    let to = Address::from_hex_literal("0x2").unwrap();
    assert_eq!(cs.account_changes.len(), 2);
    assert_eq!(delta_of(&cs, &from), -100);
    assert_eq!(delta_of(&cs, &to), 100);
    assert_eq!(entry_of(&cs, &from).sequence_increment, 1);
}

#[test]
fn test_changeset_mint() {
    let mut cs = ChangeSet::new();
    let to = Address::from_hex_literal("0x1").unwrap();

    cs.mint(to, 1000);

    let to = Address::from_hex_literal("0x1").unwrap();
    assert_eq!(cs.account_changes.len(), 1);
    assert_eq!(delta_of(&cs, &to), 1000);
}

#[test]
fn test_changeset_burn() {
    let mut cs = ChangeSet::new();
    let from = Address::from_hex_literal("0x1").unwrap();

    cs.burn(from, 500);

    let from = Address::from_hex_literal("0x1").unwrap();
    assert_eq!(cs.account_changes.len(), 1);
    assert_eq!(delta_of(&cs, &from), -500);
}

#[test]
fn test_changeset_module_publish() {
    let mut cs = ChangeSet::new();
    let publisher = Address::from_hex_literal("0x2").unwrap();

    cs.publish_module(publisher, "kanari".to_string());

    let publisher = Address::from_hex_literal("0x2").unwrap();
    let change = entry_of(&cs, &publisher);
    assert_eq!(change.modules_added.len(), 1);
    assert_eq!(change.modules_added[0], "kanari");
    assert_eq!(change.sequence_increment, 1);
}

#[test]
fn merge_sums_deltas_and_keeps_the_first_error() {
    let mut left = ChangeSet::new();
    left.transfer(addr("0xa"), addr("0xb"), 100);
    left.set_gas_used(10);

    let mut right = ChangeSet::new();
    right.transfer(addr("0xb"), addr("0xc"), 30);
    right.set_gas_used(5);
    right.mark_failed("first failure".to_string());

    left.merge(right);
    assert_eq!(delta_of(&left, &addr("0xa")), -100);
    assert_eq!(delta_of(&left, &addr("0xb")), 70);
    assert_eq!(delta_of(&left, &addr("0xc")), 30);
    assert_eq!(left.gas_used, 15);
    assert!(!left.success);
    assert_eq!(left.error_message.as_deref(), Some("first failure"));

    let mut third = ChangeSet::new();
    third.mark_failed("second failure".to_string());
    left.merge(third);
    assert_eq!(left.error_message.as_deref(), Some("first failure"));
}
