//! The command surface: identifier parsing, argument rendering, gas
//! estimates, queueing through the engine, and the wire handlers.

use kanari::address::Address;
use kanari::cli::{encode_argument, Call, Publish};
use kanari::engine::BlockchainEngine;
use kanari::rpc;

fn sample_call() -> Call {
    Call {
        function: "0x1::coin::transfer".to_string(),
        sender: "0x1".to_string(),
        type_args: None,
        args: None,
        gas_limit: 200000,
        gas_price: 1000,
        private_key: None,
        skip_signature: true,
        rpc_endpoint: "http://localhost:9944".to_string(),
        dry_run: false,
    }
}

#[test]
fn test_parse_function_identifier() {
    let call = sample_call();

    let (addr, module, func) = call.parse_function_identifier().unwrap();
    assert_eq!(addr, "0x1");
    assert_eq!(module, "coin");
    assert_eq!(func, "transfer");
}

#[test]
fn test_parse_args() {
    let call = sample_call();

    // Test u64
    let args = call.parse_args("1000,2000").unwrap();
    assert_eq!(args.len(), 2);

    // Test boolean
    let args = call.parse_args("true,false").unwrap();
    assert_eq!(args.len(), 2);
}

#[test]
fn identifier_parsing_rejects_bad_shapes() {
    let mut call = sample_call();
    call.function = "coin::transfer".to_string();
    assert!(call.parse_function_identifier().is_err());
    call.function = "0x1::coin::pay::extra".to_string();
    assert!(call.parse_function_identifier().is_err());
    call.function = "1::coin::transfer".to_string();
    assert!(call.parse_function_identifier().is_err());
}

#[test]
fn argument_rendering_follows_the_grammar() {
    // A decimal number becomes eight little-endian bytes.
    assert_eq!(encode_argument("1000").unwrap(), bcs::to_bytes(&1000u64).unwrap());
    // Booleans become one byte.
    assert_eq!(encode_argument("true").unwrap(), vec![1u8]);
    assert_eq!(encode_argument("false").unwrap(), vec![0u8]);
    // A short hex literal becomes a padded 32-byte address.
    let as_addr = encode_argument("0x123").unwrap();
    assert_eq!(as_addr.len(), 32);
    assert_eq!(as_addr, Address::from_hex_literal("0x123").unwrap().bytes().clone());
    // A longer even hex run becomes its raw bytes.
    let raw = encode_argument(&format!("0x{}", "ab".repeat(40))).unwrap();
    assert_eq!(raw, vec![0xabu8; 40]);
    // Anything else is a length-prefixed string.
    assert_eq!(encode_argument("hello").unwrap(), bcs::to_bytes(&"hello").unwrap());
    // A malformed odd hex run is refused.
    assert!(encode_argument(&format!("0x{}", "a".repeat(67))).is_none());
}

#[test]
fn gas_estimates_match_their_formulas() {
    assert_eq!(Call::estimate_gas(&"transfer".to_string()), 35_000 + 800);
    assert_eq!(Publish::estimate_gas(1000), 60_000 + 10_000);
}

#[test]
fn call_queues_an_execute_transaction() {
    let mut engine = BlockchainEngine::new().unwrap();
    let mut call = sample_call();
    call.function = "0x2::ed25519::verify".to_string();
    call.args = Some("0x00,0x00,0x00".to_string());
    let hash = call.execute_with_engine(&mut engine).unwrap();
    assert_eq!(hash.len(), 32);
    assert_eq!(engine.get_stats().pending_transactions, 1);
}

#[test]
fn publish_queues_one_transaction_per_module() {
    let mut engine = BlockchainEngine::new().unwrap();
    let publish = Publish {
        gas_limit: 1_000_000,
        gas_price: 1000,
        sender: "0x2".to_string(),
        private_key: None,
        skip_signature: true,
        rpc_endpoint: "http://localhost:9944".to_string(),
    };
    let modules = vec![
        ("alpha".to_string(), vec![1u8, 2]),
        ("beta".to_string(), vec![3u8]),
    ];
    let hashes = publish.execute_with_engine(&mut engine, modules).unwrap();
    assert_eq!(hashes.len(), 2);
    assert_eq!(engine.get_stats().pending_transactions, 2);
}

#[test]
fn wire_handlers_read_and_submit() {
    let mut engine = BlockchainEngine::new().unwrap();
    engine.state.burn(&Address::dev_address(), 1000).unwrap();
    engine.state.mint(&Address::from_hex_literal("0xa").unwrap(), 1000).unwrap();

    assert_eq!(rpc::handle_get_balance(&engine, "0xa").unwrap(), 1000);
    assert!(rpc::handle_get_balance(&engine, "zz").is_err());
    assert_eq!(rpc::handle_get_block_height(&engine), 0);
    let account = rpc::handle_get_account(&engine, "0xa").unwrap();
    assert_eq!(account.balance, 1000);
    assert!(rpc::handle_get_account(&engine, "0xbb").is_err());

    let data = rpc::SignedTransactionData {
        sender: "0xa".to_string(),
        recipient: Some("0xb".to_string()),
        amount: Some(300),
        gas_limit: 1000,
        gas_price: 1,
        signature: None,
        public_key: None,
    };
    let hash = rpc::handle_submit_transaction(&mut engine, data).unwrap();
    assert_eq!(hash.len(), 32);
    engine.produce_block(21, &vec![]).unwrap();
    assert_eq!(rpc::handle_get_balance(&engine, "0xb").unwrap(), 300);

    let block = rpc::handle_get_block(&engine, 1).unwrap();
    assert_eq!(block.height, 1);
    assert_eq!(block.tx_count, 1);
    assert_eq!(block.state_root.len(), 64);
    assert!(rpc::handle_get_block(&engine, 9).is_err());
    let stats = rpc::handle_get_stats(&engine);
    assert_eq!(stats.height, 1);

    assert_eq!(rpc::RpcErrorKind::MethodNotFound.code(), -32601);
    assert_eq!(rpc::RpcErrorKind::InvalidParams.code(), -32602);
    assert_eq!(rpc::RpcErrorKind::Internal.code(), -32603);
}

#[test]
fn the_dispatcher_routes_by_method_name() {
    let mut engine = BlockchainEngine::new().unwrap();
    let r = rpc::handle_rpc(
        &mut engine,
        &"kanari_getBlockHeight".to_string(),
        rpc::RpcParams::Absent,
    );
    assert!(matches!(r, Ok(rpc::RpcOutcome::Height(0))));

    let r = rpc::handle_rpc(&mut engine, &"kanari_getBalance".to_string(), rpc::RpcParams::Absent);
    assert!(matches!(r, Err(rpc::RpcErrorKind::InvalidParams)));

    let r = rpc::handle_rpc(&mut engine, &"kanari_doSomething".to_string(), rpc::RpcParams::Absent);
    assert!(matches!(r, Err(rpc::RpcErrorKind::MethodNotFound)));
}

#[test]
fn parse_args_elements_are_canonical() {
    let call = sample_call();
    let args = call.parse_args("1000,2000").unwrap();
    assert_eq!(args[0], bcs::to_bytes(&1000u64).unwrap());
    assert_eq!(args[1], bcs::to_bytes(&2000u64).unwrap());
    let args = call.parse_args("true,false").unwrap();
    assert_eq!(args[0], vec![1u8]);
    assert_eq!(args[1], vec![0u8]);
}

#[test]
fn the_dispatcher_submits_and_reports_the_hash() {
    let mut engine = BlockchainEngine::new().unwrap();
    engine.state.burn(&Address::dev_address(), 1000).unwrap();
    engine.state.mint(&Address::from_hex_literal("0xa").unwrap(), 1000).unwrap();

    let data = rpc::SignedTransactionData {
        sender: "0xa".to_string(),
        recipient: Some("0xb".to_string()),
        amount: Some(300),
        gas_limit: 1000,
        gas_price: 1,
        signature: None,
        public_key: None,
    };
    let r = rpc::handle_rpc(
        &mut engine,
        &"kanari_submitTransaction".to_string(),
        rpc::RpcParams::Tx(data),
    );
    let hash = match r {
        Ok(rpc::RpcOutcome::Submitted(h)) => h,
        other => panic!("unexpected outcome: {:?}", other.is_ok()),
    };
    assert_eq!(hash.len(), 32);
    assert_eq!(engine.get_stats().pending_transactions, 1);
    // The queued transfer carries the parameters verbatim.
    let queued = &engine.pending_txs[0];
    assert_eq!(queued.hash(), hash);
}
