//! End-to-end engine scenarios: block production, fee settlement, the DAO
//! credit, sequence numbers, and the failure modes that leave the state
//! untouched.

use kanari::address::Address;
use kanari::engine::{exec_transfer, BlockchainEngine, TxError, VmVerdict};
use kanari::state::{Account, StateManager};
use kanari::tx::{SignedTransaction, Transaction};

fn addr(text: &str) -> Address {
    Address::from_hex_literal(text).unwrap()
}

#[test]
fn test_engine_creation() {
    let engine = BlockchainEngine::new().unwrap();
    let stats = engine.get_stats();
    assert_eq!(stats.height, 0);
    assert_eq!(stats.total_blocks, 1);
}

#[test]
fn test_submit_transaction() {
    let mut engine = BlockchainEngine::new().unwrap();
    let tx = Transaction::new_transfer(addr("0x1"), addr("0x2"), 1000);

    engine.submit_transaction(SignedTransaction::new(tx)).unwrap();
    let stats = engine.get_stats();
    assert_eq!(stats.pending_transactions, 1);
}

#[test]
fn simple_transfer_settles_amount_fee_and_sequence() {
    let mut engine = BlockchainEngine::new().unwrap();
    engine.state.burn(&Address::dev_address(), 1000).unwrap();
    engine.state.mint(&addr("0xa"), 1000).unwrap();

    let tx = Transaction::Transfer {
        from: addr("0xa"),
        to: addr("0xb"),
        amount: 300,
        gas_limit: 1000,
        gas_price: 1,
    };
    engine.submit_transaction(SignedTransaction::new(tx)).unwrap();
    let info = engine.produce_block(7, &vec![]).unwrap();
    assert_eq!(info.executed, 1);
    assert_eq!(info.failed, 0);

    assert_eq!(engine.state.get_balance(&addr("0xa")), 500);
    assert_eq!(engine.state.get_balance(&addr("0xb")), 300);
    assert_eq!(engine.state.get_balance(&Address::dao_address()), 200);
    assert_eq!(engine.state.get_account(&addr("0xa")).unwrap().sequence_number, 1);
}

#[test]
fn insufficient_funds_leaves_everything_unchanged() {
    let mut engine = BlockchainEngine::new().unwrap();
    engine.state.burn(&Address::dev_address(), 100).unwrap();
    engine.state.mint(&addr("0xa"), 100).unwrap();

    let tx = Transaction::Transfer {
        from: addr("0xa"),
        to: addr("0xb"),
        amount: 200,
        gas_limit: 1000,
        gas_price: 1,
    };
    engine.submit_transaction(SignedTransaction::new(tx)).unwrap();
    let info = engine.produce_block(8, &vec![]).unwrap();
    assert_eq!(info.failed, 1);

    assert_eq!(engine.state.get_balance(&addr("0xa")), 100);
    assert_eq!(engine.state.get_balance(&addr("0xb")), 0);
    assert_eq!(engine.state.get_account(&addr("0xa")).unwrap().sequence_number, 0);
}

#[test]
fn zero_transfer_is_accepted_and_charged() {
    let mut engine = BlockchainEngine::new().unwrap();
    engine.state.burn(&Address::dev_address(), 1000).unwrap();
    engine.state.mint(&addr("0xa"), 1000).unwrap();

    let tx = Transaction::Transfer {
        from: addr("0xa"),
        to: addr("0xb"),
        amount: 0,
        gas_limit: 500,
        gas_price: 2,
    };
    engine.submit_transaction(SignedTransaction::new(tx)).unwrap();
    let info = engine.produce_block(9, &vec![]).unwrap();
    assert_eq!(info.executed, 1);

    assert_eq!(engine.state.get_balance(&addr("0xa")), 600);
    assert_eq!(engine.state.get_balance(&addr("0xb")), 0);
    assert_eq!(engine.state.get_balance(&Address::dao_address()), 400);
    assert_eq!(engine.state.get_account(&addr("0xa")).unwrap().sequence_number, 1);
}

#[test]
fn oversized_publication_aborts_out_of_gas() {
    let mut engine = BlockchainEngine::new().unwrap();
    engine.state.burn(&Address::dev_address(), 10_000).unwrap();
    engine.state.mint(&addr("0xa"), 10_000).unwrap();

    let tx = Transaction::PublishModule {
        sender: addr("0xa"),
        module_bytes: vec![7u8; 10 * 1024],
        module_name: "big_module".to_string(),
        gas_limit: 500,
        gas_price: 3,
    };
    engine.submit_transaction(SignedTransaction::new(tx)).unwrap();
    let info = engine.produce_block(10, &vec![]).unwrap();
    assert_eq!(info.failed, 1);

    // The sender is charged the whole limit, the DAO receives it, and the
    // sequence number still rises; no module lands.
    assert_eq!(engine.state.get_balance(&addr("0xa")), 10_000 - 500 * 3);
    assert_eq!(engine.state.get_balance(&Address::dao_address()), 1500);
    assert_eq!(engine.state.get_account(&addr("0xa")).unwrap().sequence_number, 1);
    assert_eq!(engine.state.get_account(&addr("0xa")).unwrap().modules.len(), 0);
    assert_eq!(engine.state.modules.len(), 0);
}

#[test]
fn publication_lands_and_a_second_one_is_refused() {
    let mut engine = BlockchainEngine::new().unwrap();
    engine.state.burn(&Address::dev_address(), 100_000).unwrap();
    engine.state.mint(&addr("0xa"), 100_000).unwrap();

    let publish = |engine: &mut BlockchainEngine| {
        let tx = Transaction::PublishModule {
            sender: addr("0xa"),
            module_bytes: vec![1, 2, 3],
            module_name: "counter".to_string(),
            gas_limit: 2000,
            gas_price: 1,
        };
        engine.submit_transaction(SignedTransaction::new(tx)).unwrap();
        engine.produce_block(11, &vec![]).unwrap()
    };
    let first = publish(&mut engine);
    assert_eq!(first.executed, 1);
    assert_eq!(engine.state.modules.len(), 1);
    assert_eq!(engine.state.get_account(&addr("0xa")).unwrap().modules[0], "counter");
    // Publishing costs its byte-proportional units.
    assert_eq!(engine.state.get_balance(&addr("0xa")), 100_000 - 1030);

    let second = publish(&mut engine);
    assert_eq!(second.failed, 1);
    assert_eq!(engine.state.modules.len(), 1);
    // A refused publication has no state effect at all.
    assert_eq!(engine.state.get_balance(&addr("0xa")), 100_000 - 1030);
    assert_eq!(engine.state.get_account(&addr("0xa")).unwrap().sequence_number, 1);
}

#[test]
fn blocks_chain_by_parent_hash() {
    let mut engine = BlockchainEngine::new().unwrap();
    engine.state.burn(&Address::dev_address(), 10_000).unwrap();
    engine.state.mint(&addr("0xa"), 10_000).unwrap();

    for step in 0..3u64 {
        let tx = Transaction::Transfer {
            from: addr("0xa"),
            to: addr("0xb"),
            amount: 10,
            gas_limit: 1000,
            gas_price: 0,
        };
        engine.submit_transaction(SignedTransaction::new(tx)).unwrap();
        engine.produce_block(100 + step, &vec![]).unwrap();
    }
    assert_eq!(engine.blockchain.height(), 3);
    for h in 1..4u64 {
        let child = engine.get_block(h).unwrap();
        let parent = engine.get_block(h - 1).unwrap();
        assert_eq!(child.prev_hash, parent.hash);
    }
    let genesis = engine.blockchain.get_block(0).unwrap();
    assert!(genesis.header.prev_hash.iter().all(|b| *b == 0));
}

#[test]
fn execute_dispatches_a_builtin_native() {
    let mut engine = BlockchainEngine::new().unwrap();
    engine.state.burn(&Address::dev_address(), 10_000).unwrap();
    engine.state.mint(&addr("0xa"), 10_000).unwrap();

    // Call 0x2::ed25519::verify with garbage inputs: the native runs and
    // returns false, so the transaction itself succeeds.
    let sig_arg = {
        let mut out = Vec::new();
        out.push(64u8);
        out.extend_from_slice(&[0u8; 64]);
        out
    };
    let pk_arg = {
        let mut out = Vec::new();
        out.push(32u8);
        out.extend_from_slice(&[0u8; 32]);
        out
    };
    let msg_arg = vec![3u8, 1, 2, 3];
    let module_id = kanari::ident::ModuleId::new(
        Address::kanari_system_address(),
        "ed25519".to_string(),
    )
    .unwrap();
    let tx = Transaction::ExecuteFunction {
        sender: addr("0xa"),
        module_id,
        function: "verify".to_string(),
        type_args: vec![],
        args: vec![sig_arg, pk_arg, msg_arg],
        gas_limit: 1000,
        gas_price: 1,
    };
    engine.submit_transaction(SignedTransaction::new(tx)).unwrap();
    let info = engine.produce_block(12, &vec![]).unwrap();
    assert_eq!(info.executed, 1);
    // The static cost plus one signature verification.
    assert_eq!(engine.state.get_balance(&addr("0xa")), 10_000 - 750);
}

#[test]
fn execute_on_a_missing_module_aborts_and_charges() {
    let mut engine = BlockchainEngine::new().unwrap();
    engine.state.burn(&Address::dev_address(), 10_000).unwrap();
    engine.state.mint(&addr("0xa"), 10_000).unwrap();

    let module_id =
        kanari::ident::ModuleId::new(addr("0x7"), "nowhere".to_string()).unwrap();
    let tx = Transaction::ExecuteFunction {
        sender: addr("0xa"),
        module_id,
        function: "run".to_string(),
        type_args: vec![],
        args: vec![],
        gas_limit: 1000,
        gas_price: 2,
    };
    engine.submit_transaction(SignedTransaction::new(tx)).unwrap();
    let info = engine.produce_block(13, &vec![]).unwrap();
    assert_eq!(info.failed, 1);
    assert_eq!(engine.state.get_balance(&addr("0xa")), 10_000 - 1000);
    assert_eq!(engine.state.get_account(&addr("0xa")).unwrap().sequence_number, 1);
}

#[test]
fn verdicts_drive_stored_module_execution() {
    let mut engine = BlockchainEngine::new().unwrap();
    engine.state.burn(&Address::dev_address(), 100_000).unwrap();
    engine.state.mint(&addr("0xa"), 100_000).unwrap();

    let publish = Transaction::PublishModule {
        sender: addr("0xa"),
        module_bytes: vec![9, 9, 9],
        module_name: "logic".to_string(),
        gas_limit: 2000,
        gas_price: 0,
    };
    engine.submit_transaction(SignedTransaction::new(publish)).unwrap();
    engine.produce_block(14, &vec![]).unwrap();

    let call = |engine: &mut BlockchainEngine, verdict: VmVerdict| {
        let module_id =
            kanari::ident::ModuleId::new(addr("0xa"), "logic".to_string()).unwrap();
        let tx = Transaction::ExecuteFunction {
            sender: addr("0xa"),
            module_id,
            function: "step".to_string(),
            type_args: vec![],
            args: vec![],
            gas_limit: 1000,
            gas_price: 1,
        };
        engine.submit_transaction(SignedTransaction::new(tx)).unwrap();
        engine.produce_block(15, &vec![verdict]).unwrap()
    };
    let before = engine.state.get_balance(&addr("0xa"));
    let ok = call(&mut engine, VmVerdict::Returned { instructions: 40 });
    assert_eq!(ok.executed, 1);
    assert_eq!(engine.state.get_balance(&addr("0xa")), before - 540);

    let before = engine.state.get_balance(&addr("0xa"));
    let aborted = call(&mut engine, VmVerdict::Aborted { code: 42, instructions: 10 });
    assert_eq!(aborted.failed, 1);
    assert_eq!(engine.state.get_balance(&addr("0xa")), before - 510);
}

#[test]
fn whole_range_transfer_direct() {
    let sender = Account::new(addr("0xa"), u64::MAX);
    let mut state = StateManager { accounts: vec![sender], modules: vec![], total_supply: u64::MAX };
    let r = exec_transfer(&mut state, &addr("0xa"), &addr("0xb"), u64::MAX, 1000, 0);
    assert!(r.success);
    assert_eq!(state.get_balance(&addr("0xb")), u64::MAX);

    // A recipient already holding anything cannot take the whole range.
    let sender = Account::new(addr("0xa"), u64::MAX);
    let holder = Account::new(addr("0xb"), 1);
    let mut state = StateManager {
        accounts: vec![sender, holder],
        modules: vec![],
        total_supply: u64::MAX,
    };
    let r = exec_transfer(&mut state, &addr("0xa"), &addr("0xb"), u64::MAX, 1000, 0);
    assert!(!r.success);
    assert_eq!(r.error, Some(TxError::Overflow));
    assert_eq!(state.get_balance(&addr("0xa")), u64::MAX);
}
