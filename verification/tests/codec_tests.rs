//! The canonical encoding: round trips on every transaction kind, agreement
//! with the reference serializer on the primitive layouts, hex codecs, and
//! address literals.

use kanari::address::Address;
use kanari::codec;
use kanari::hexstr;
use kanari::ident::ModuleId;
use kanari::tx::{decode_transaction, Transaction};

fn addr(text: &str) -> Address {
    Address::from_hex_literal(text).unwrap()
}

#[test]
fn transfer_roundtrips_bit_identically() {
    let tx = Transaction::Transfer {
        from: addr("0xa"),
        to: addr("0xb"),
        amount: 12345,
        gas_limit: 777,
        gas_price: 3,
    };
    let bytes = tx.encode();
    let back = decode_transaction(&bytes).unwrap();
    let again = back.encode();
    assert_eq!(bytes, again);
    match back {
        Transaction::Transfer { amount, gas_limit, gas_price, .. } => {
            assert_eq!(amount, 12345);
            assert_eq!(gas_limit, 777);
            assert_eq!(gas_price, 3);
        },
        _ => panic!("wrong kind decoded"),
    }
}

#[test]
fn publish_roundtrips_bit_identically() {
    let tx = Transaction::PublishModule {
        sender: addr("0x2"),
        module_bytes: vec![1, 2, 3, 4, 5],
        module_name: "counter".to_string(),
        gas_limit: 1_000_000,
        gas_price: 1000,
    };
    let bytes = tx.encode();
    let back = decode_transaction(&bytes).unwrap();
    assert_eq!(bytes, back.encode());
}

#[test]
fn execute_roundtrips_bit_identically() {
    let module_id = ModuleId::new(addr("0x2"), "coin".to_string()).unwrap();
    let tx = Transaction::ExecuteFunction {
        sender: addr("0x1"),
        module_id,
        function: "transfer".to_string(),
        type_args: vec!["u64".to_string(), "0x1::coin::KANARI".to_string()],
        args: vec![vec![1, 2], vec![], vec![0xff]],
        gas_limit: 200_000,
        gas_price: 1000,
    };
    let bytes = tx.encode();
    let back = decode_transaction(&bytes).unwrap();
    assert_eq!(bytes, back.encode());
}

#[test]
fn decoder_rejects_trailing_bytes_and_bad_tags() {
    let tx = Transaction::new_transfer(addr("0xa"), addr("0xb"), 1);
    let mut bytes = tx.encode();
    bytes.push(0);
    assert!(decode_transaction(&bytes).is_none());
    assert!(decode_transaction(&vec![9u8, 0, 0]).is_none());
    assert!(decode_transaction(&vec![]).is_none());
}

#[test]
fn primitives_agree_with_the_reference_serializer() {
    let mut ours = Vec::new();
    codec::write_u64(987_654_321, &mut ours);
    assert_eq!(ours, bcs::to_bytes(&987_654_321u64).unwrap());

    let payload: Vec<u8> = vec![10, 20, 30];
    let mut ours = Vec::new();
    codec::write_bytes(&payload, &mut ours);
    assert_eq!(ours, bcs::to_bytes(&payload).unwrap());

    let text = "hello".to_string();
    let mut ours = Vec::new();
    codec::write_string(&text, &mut ours);
    assert_eq!(ours, bcs::to_bytes(&text).unwrap());

    let list: Vec<Vec<u8>> = vec![vec![1], vec![2, 3]];
    let mut ours = Vec::new();
    codec::write_bytes_list(&list, &mut ours);
    assert_eq!(ours, bcs::to_bytes(&list).unwrap());

    let names: Vec<String> = vec!["a".to_string(), "bc".to_string()];
    let mut ours = Vec::new();
    codec::write_string_list(&names, &mut ours);
    assert_eq!(ours, bcs::to_bytes(&names).unwrap());
}

#[test]
fn uleb_roundtrips_across_the_range() {
    for v in [0u64, 1, 127, 128, 300, 16_383, 16_384, u64::MAX] {
        let mut bytes = Vec::new();
        codec::write_uleb(v, &mut bytes);
        let (back, used) = codec::read_uleb(&bytes, 0).unwrap();
        assert_eq!(back, v);
        assert_eq!(used, bytes.len());
    }
}

#[test]
fn u64_roundtrips_and_reads_fail_short() {
    for v in [0u64, 1, 0xff, 0x1_0000, u64::MAX] {
        let mut bytes = Vec::new();
        codec::write_u64(v, &mut bytes);
        assert_eq!(bytes.len(), 8);
        let (back, used) = codec::read_u64(&bytes, 0).unwrap();
        assert_eq!(back, v);
        assert_eq!(used, 8);
    }
    assert!(codec::read_u64(&vec![1, 2, 3], 0).is_none());
}

#[test]
fn hex_encodes_lowercase_and_decodes_back() {
    let data = vec![0xdeu8, 0xad, 0x00, 0x0f];
    assert_eq!(hexstr::encode(&data), "dead000f");

    let digits: Vec<u8> = b"dead000f".to_vec();
    assert_eq!(hexstr::decode_digits(&digits).unwrap(), data);
    assert!(hexstr::decode_digits(&b"abc".to_vec()).is_none());
    assert!(hexstr::decode_digits(&b"zz".to_vec()).is_none());
}

#[test]
fn address_literals_parse_pad_and_render() {
    let a = addr("0x123");
    assert_eq!(a.to_hex_literal(), "0x123");
    assert_eq!(
        a.to_hex(),
        "0x0000000000000000000000000000000000000000000000000000000000000123"
    );
    assert_eq!(a.bytes().len(), 32);
    assert_eq!(a.bytes()[31], 0x23);
    assert_eq!(a.bytes()[30], 0x01);

    assert_eq!(addr("0x0").to_hex_literal(), "0x0");
    assert!(Address::from_hex_literal("123").is_err());
    assert!(Address::from_hex_literal("0x").is_err());
    assert!(Address::from_hex_literal("0xzz").is_err());
    let long = format!("0x{}", "1".repeat(65));
    assert!(Address::from_hex_literal(&long).is_err());
}

#[test]
fn addresses_compare_bytewise() {
    assert!(addr("0x1") == addr("0x01"));
    assert!(addr("0x1") != addr("0x2"));
}
