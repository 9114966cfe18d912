//! Signatures end to end: signing and verifying on each curve, flipped-byte
//! rejection, recovery, Schnorr, decompression, and the native abort codes.

use kanari::address::Address;
use kanari::engine::BlockchainEngine;
use kanari::natives;
use kanari::natives::NativeFunction;
use kanari::tx::{CurveTag, SignedTransaction, Transaction};
use k256::ecdsa::signature::hazmat::PrehashSigner;
use k256::elliptic_curve::sec1::ToSec1Point;
use p256::elliptic_curve::sec1::ToSec1Point as ToSec1PointR1;
use sha2::Digest;

fn addr(text: &str) -> Address {
    Address::from_hex_literal(text).unwrap()
}

fn sample_transfer() -> Transaction {
    Transaction::Transfer {
        from: addr("0xa"),
        to: addr("0xb"),
        amount: 300,
        gas_limit: 1000,
        gas_price: 1,
    }
}

#[test]
fn ed25519_sign_verify_and_flip() {
    let sk = vec![7u8; 32];
    let mut stx = SignedTransaction::new(sample_transfer());
    stx.sign(&sk, CurveTag::Ed25519).unwrap();
    assert!(stx.verify_signature());

    let good = stx.signature.clone().unwrap();
    for i in 0..good.len() {
        let mut bad = good.clone();
        bad[i] ^= 1;
        stx.signature = Some(bad);
        assert!(!stx.verify_signature(), "flipped byte accepted");
    }
}

#[test]
fn k256_sign_verify_and_flip() {
    let sk = vec![9u8; 32];
    let mut stx = SignedTransaction::new(sample_transfer());
    stx.sign(&sk, CurveTag::K256).unwrap();
    assert!(stx.verify_signature());

    let good = stx.signature.clone().unwrap();
    for i in [0usize, 13, 31, 32, 50, 63] {
        let mut bad = good.clone();
        bad[i] ^= 1;
        stx.signature = Some(bad);
        assert!(!stx.verify_signature(), "flipped byte accepted");
    }
}

#[test]
fn p256_sign_verify_and_flip() {
    let sk = vec![11u8; 32];
    let mut stx = SignedTransaction::new(sample_transfer());
    stx.sign(&sk, CurveTag::P256).unwrap();
    assert!(stx.verify_signature());

    let good = stx.signature.clone().unwrap();
    for i in [0usize, 17, 31, 32, 47, 63] {
        let mut bad = good.clone();
        bad[i] ^= 1;
        stx.signature = Some(bad);
        assert!(!stx.verify_signature(), "flipped byte accepted");
    }
}

#[test]
fn engine_rejects_a_bad_signature() {
    let sk = vec![7u8; 32];
    let mut stx = SignedTransaction::new(sample_transfer());
    stx.sign(&sk, CurveTag::Ed25519).unwrap();
    let mut bad = stx.signature.clone().unwrap();
    bad[5] ^= 0xff;
    stx.signature = Some(bad);

    let mut engine = BlockchainEngine::new().unwrap();
    assert!(engine.submit_transaction(stx).is_err());
    assert_eq!(engine.get_stats().pending_transactions, 0);
}

#[test]
fn hash_ignores_the_signature_fields() {
    let sk = vec![7u8; 32];
    let unsigned = SignedTransaction::new(sample_transfer());
    let mut signed = SignedTransaction::new(sample_transfer());
    signed.sign(&sk, CurveTag::Ed25519).unwrap();
    assert_eq!(unsigned.hash(), signed.hash());

    let mut other_curve = SignedTransaction::new(sample_transfer());
    other_curve.sign(&vec![9u8; 32], CurveTag::K256).unwrap();
    assert_eq!(unsigned.hash(), other_curve.hash());
}

#[test]
fn ecrecover_returns_the_signing_key() {
    // Build a recoverable signature directly on the curve, then ask the
    // native to recover the compressed public key.
    let sk = secp256k1::SecretKey::from_secret_bytes([5u8; 32]).unwrap();
    let pk = secp256k1::PublicKey::from_secret_key(&sk);

    let msg: Vec<u8> = b"a known message".to_vec();
    let digest: [u8; 32] = sha2::Sha256::digest(&msg).into();
    let rsig = secp256k1::ecdsa::RecoverableSignature::sign_ecdsa_recoverable(
        secp256k1::Message::from_digest(digest),
        &sk,
    );
    let (recid, rs64) = rsig.serialize_compact();

    let mut sig65 = rs64.to_vec();
    sig65.push(u8::from(recid));

    let recovered = natives::ecrecover(&sig65, &msg, 1).unwrap();
    assert_eq!(recovered, pk.serialize().to_vec());

    // A 64-byte signature is refused with the invalid-signature code.
    let too_short = rs64.to_vec();
    assert_eq!(natives::ecrecover(&too_short, &msg, 1), Err(2));
}

#[test]
fn schnorr_dispatch_inside_the_native() {
    let secp = secp256k1::Secp256k1::new();
    let keypair = secp256k1::Keypair::from_secret_bytes([8u8; 32]).unwrap();
    let (xonly, _) = keypair.x_only_public_key();
    let msg32 = [3u8; 32];
    let sig = secp.sign_schnorr_no_aux_rand(&msg32, &keypair);

    let verdict =
        natives::ecdsa_k1_verify(&sig.to_byte_array().to_vec(), &xonly.serialize().to_vec(), &msg32.to_vec(), 1);
    assert_eq!(verdict, Ok(true));

    // A Schnorr message must be exactly 32 bytes.
    let short_msg = vec![1u8, 2, 3];
    let verdict =
        natives::ecdsa_k1_verify(&sig.to_byte_array().to_vec(), &xonly.serialize().to_vec(), &short_msg, 1);
    assert_eq!(verdict, Err(6));

    // An empty signature is refused outright.
    assert_eq!(
        natives::ecdsa_k1_verify(&vec![], &xonly.serialize().to_vec(), &msg32.to_vec(), 1),
        Err(2)
    );

    // A 64-byte signature with a short, non-x-only key is refused.
    assert_eq!(
        natives::ecdsa_k1_verify(&sig.to_byte_array().to_vec(), &vec![1u8; 20], &msg32.to_vec(), 1),
        Err(5)
    );

    // A non-64-byte signature against an x-only key is refused.
    assert_eq!(
        natives::ecdsa_k1_verify(&vec![1u8; 70], &xonly.serialize().to_vec(), &msg32.to_vec(), 1),
        Err(7)
    );
}

#[test]
fn decompress_roundtrips_a_compressed_key() {
    let sk = secp256k1::SecretKey::from_secret_bytes([6u8; 32]).unwrap();
    let pk = secp256k1::PublicKey::from_secret_key(&sk);

    let compressed = pk.serialize().to_vec();
    let uncompressed = natives::decompress_pubkey(&compressed).unwrap();
    assert_eq!(uncompressed.len(), 65);
    assert_eq!(uncompressed, pk.serialize_uncompressed().to_vec());

    // Garbage is refused with the invalid-key code.
    assert_eq!(natives::decompress_pubkey(&vec![2u8; 10]), Err(3));
}

#[test]
fn ed25519_native_is_panic_free_on_bad_shapes() {
    assert!(!natives::ed25519_verify(&vec![0u8; 64], &vec![0u8; 31], &vec![1, 2]));
    assert!(!natives::ed25519_verify(&vec![0u8; 63], &vec![0u8; 32], &vec![1, 2]));
    assert!(!natives::ed25519_verify(&vec![0u8; 64], &vec![0xffu8; 32], &vec![1, 2]));
}

#[test]
fn k1_native_verifies_der_and_raw_ecdsa() {
    let signing = k256::ecdsa::SigningKey::from_slice(&[4u8; 32]).unwrap();
    let pk = signing.verifying_key().to_sec1_point(true).as_bytes().to_vec();
    let msg = b"hello chain".to_vec();
    let digest: [u8; 32] = sha2::Sha256::digest(&msg).into();
    let sig: k256::ecdsa::Signature = signing.sign_prehash(&digest).unwrap();

    let raw = sig.to_bytes().to_vec();
    assert_eq!(natives::ecdsa_k1_verify(&raw, &pk, &msg, 1), Ok(true));

    let der = sig.to_der().as_bytes().to_vec();
    assert_eq!(natives::ecdsa_k1_verify(&der, &pk, &msg, 1), Ok(true));

    // The wrong hash tag fails verification without aborting.
    assert_eq!(natives::ecdsa_k1_verify(&raw, &pk, &msg, 0), Ok(false));

    // A malformed public key aborts with the invalid-key code.
    assert_eq!(natives::ecdsa_k1_verify(&raw, &vec![9u8; 40], &msg, 1), Err(3));
}

#[test]
fn r1_native_verifies_prehashed_messages() {
    let signing = p256::ecdsa::SigningKey::from_slice(&[12u8; 32]).unwrap();
    let pk = signing.verifying_key().to_sec1_point(true).as_bytes().to_vec();
    let msg = b"r1 message".to_vec();
    let digest: [u8; 32] = sha2::Sha256::digest(&msg).into();
    let sig: p256::ecdsa::Signature = signing.sign_prehash(&digest).unwrap();

    assert_eq!(natives::ecdsa_r1_verify(&sig.to_bytes().to_vec(), &pk, &msg, 1), Ok(true));
    assert_eq!(natives::ecdsa_r1_verify(&vec![], &pk, &msg, 1), Err(2));
    assert_eq!(natives::ecdsa_r1_verify(&sig.to_bytes().to_vec(), &vec![1u8; 5], &msg, 1), Err(3));
}

#[test]
fn native_lookup_covers_the_table() {
    let look = |m: &str, f: &str| natives::lookup_native(&m.to_string(), &f.to_string());
    assert_eq!(look("ecdsa_k1", "ecrecover"), Some(NativeFunction::EcdsaK1Ecrecover));
    assert_eq!(look("ecdsa_k1", "decompress_pubkey"), Some(NativeFunction::EcdsaK1DecompressPubkey));
    assert_eq!(look("ecdsa_k1", "verify"), Some(NativeFunction::EcdsaK1Verify));
    assert_eq!(look("ecdsa_r1", "native_verify"), Some(NativeFunction::EcdsaR1NativeVerify));
    assert_eq!(look("ed25519", "verify"), Some(NativeFunction::Ed25519Verify));
    assert_eq!(look("ed25519", "sign"), None);
    assert_eq!(look("coin", "verify"), None);
}
