//! The trusted boundary to the cryptographic crates. Each wrapper makes one
//! outside call; what the call returns is either stated directly or given a
//! name (an uninterpreted spec function of the arguments alone), and all the
//! dispatch logic that decides which call to make lives in verified code
//! elsewhere.

use vstd::prelude::*;
use ed25519_dalek;
use ed25519_dalek::Signer;
use ed25519_dalek::Verifier;
use k256;
use k256::ecdsa::signature::hazmat::PrehashSigner;
use k256::ecdsa::signature::hazmat::PrehashVerifier;
use k256::elliptic_curve::sec1::ToSec1Point;
use p256;
use secp256k1;
use sha2::Digest;

verus! {

// ---------------------------------------------------------------- hashing

/// The SHA-256 digest of a byte string.
pub uninterp spec fn sha256_spec(data: Seq<u8>) -> Seq<u8>;

/// Relies on `sha2::Sha256`: the digest depends on the input bytes alone and
/// is 32 bytes long.
#[verifier::external_body]
pub(crate) fn sha256(data: &Vec<u8>) -> (r: Vec<u8>)
    ensures
        r@ == sha256_spec(data@),
        r@.len() == 32,
{
    sha2::Sha256::digest(data.as_slice()).to_vec()
}

/// The Keccak-256 digest of a byte string.
pub uninterp spec fn keccak256_spec(data: Seq<u8>) -> Seq<u8>;

/// Relies on `sha3::Keccak256`: the digest depends on the input bytes alone
/// and is 32 bytes long.
#[verifier::external_body]
pub(crate) fn keccak256(data: &Vec<u8>) -> (r: Vec<u8>)
    ensures
        r@ == keccak256_spec(data@),
        r@.len() == 32,
{
    sha3::Keccak256::digest(data.as_slice()).to_vec()
}

// ---------------------------------------------------------------- ed25519

/// Whether 32 bytes decode to an ed25519 public key.
pub uninterp spec fn ed25519_pk_valid(pk: Seq<u8>) -> bool;

/// Relies on `ed25519_dalek::VerifyingKey::from_bytes`: success depends on
/// the key bytes alone.
#[verifier::external_body]
pub(crate) fn ed25519_check_pubkey(pk: &Vec<u8>) -> (r: bool)
    requires
        pk@.len() == 32,
    ensures
        r == ed25519_pk_valid(pk@),
{
    let arr: [u8; 32] = pk.as_slice().try_into().unwrap();
    ed25519_dalek::VerifyingKey::from_bytes(&arr).is_ok()
}

/// Whether an ed25519 signature verifies a message under a public key.
pub uninterp spec fn ed25519_verifies(pk: Seq<u8>, msg: Seq<u8>, sig: Seq<u8>) -> bool;

/// Relies on `ed25519_dalek::VerifyingKey::verify`: the verdict depends on
/// key, message and signature alone.
#[verifier::external_body]
pub(crate) fn ed25519_check(pk: &Vec<u8>, msg: &Vec<u8>, sig: &Vec<u8>) -> (r: bool)
    requires
        pk@.len() == 32,
        sig@.len() == 64,
        ed25519_pk_valid(pk@),
    ensures
        r == ed25519_verifies(pk@, msg@, sig@),
{
    let pk_arr: [u8; 32] = pk.as_slice().try_into().unwrap();
    let sig_arr: [u8; 64] = sig.as_slice().try_into().unwrap();
    let key = ed25519_dalek::VerifyingKey::from_bytes(&pk_arr).unwrap();
    key.verify(msg.as_slice(), &ed25519_dalek::Signature::from_bytes(&sig_arr)).is_ok()
}

/// The ed25519 public key of a secret key.
pub uninterp spec fn ed25519_pk_of(sk: Seq<u8>) -> Seq<u8>;

/// Relies on `ed25519_dalek::SigningKey::verifying_key`: the public key is a
/// function of the secret key, is 32 bytes, and decodes back to a key.
#[verifier::external_body]
pub(crate) fn ed25519_public_key(sk: &Vec<u8>) -> (r: Vec<u8>)
    requires
        sk@.len() == 32,
    ensures
        r@ == ed25519_pk_of(sk@),
        r@.len() == 32,
        ed25519_pk_valid(r@),
{
    let arr: [u8; 32] = sk.as_slice().try_into().unwrap();
    ed25519_dalek::SigningKey::from_bytes(&arr).verifying_key().to_bytes().to_vec()
}

/// The ed25519 signature of a message under a secret key (RFC 8032 signing
/// is deterministic).
pub uninterp spec fn ed25519_sig_of(sk: Seq<u8>, msg: Seq<u8>) -> Seq<u8>;

/// Relies on `ed25519_dalek::SigningKey::sign`: deterministic in the secret
/// key and message; the signature is 64 bytes.
#[verifier::external_body]
pub(crate) fn ed25519_sign(sk: &Vec<u8>, msg: &Vec<u8>) -> (r: Vec<u8>)
    requires
        sk@.len() == 32,
    ensures
        r@ == ed25519_sig_of(sk@, msg@),
        r@.len() == 64,
{
    let arr: [u8; 32] = sk.as_slice().try_into().unwrap();
    ed25519_dalek::SigningKey::from_bytes(&arr).sign(msg.as_slice()).to_bytes().to_vec()
}

// ------------------------------------------------------- ECDSA: secp256k1

/// Whether bytes decode to a secp256k1 ECDSA public key (SEC1 form).
pub uninterp spec fn k1_pk_valid(pk: Seq<u8>) -> bool;

/// Relies on `k256::ecdsa::VerifyingKey::from_sec1_bytes`: success depends
/// on the key bytes alone.
#[verifier::external_body]
pub(crate) fn k1_check_pubkey(pk: &Vec<u8>) -> (r: bool)
    ensures
        r == k1_pk_valid(pk@),
{
    k256::ecdsa::VerifyingKey::from_sec1_bytes(pk.as_slice()).is_ok()
}

/// The raw `r || s` form of a DER-encoded secp256k1 signature, when the DER
/// parses.
pub uninterp spec fn k1_der_raw(sig: Seq<u8>) -> Option<Seq<u8>>;

/// Relies on `k256::ecdsa::Signature::from_der`: success and the decoded
/// scalars depend on the bytes alone; the raw form is 64 bytes and decodes
/// back through `from_slice`.
#[verifier::external_body]
pub(crate) fn k1_der_to_raw(sig: &Vec<u8>) -> (r: Option<Vec<u8>>)
    ensures
        match k1_der_raw(sig@) {
            Some(v) => r matches Some(x) && x@ == v && v.len() == 64 && k1_raw_valid(v),
            None => r is None,
        },
{
    k256::ecdsa::Signature::from_der(sig.as_slice()).ok().map(|s| s.to_bytes().to_vec())
}

/// Whether 64 bytes decode to a secp256k1 ECDSA signature (`r || s`).
pub uninterp spec fn k1_raw_valid(sig: Seq<u8>) -> bool;

/// Relies on `k256::ecdsa::Signature::from_slice`: success depends on the
/// bytes alone.
#[verifier::external_body]
pub(crate) fn k1_check_raw_sig(sig: &Vec<u8>) -> (r: bool)
    requires
        sig@.len() == 64,
    ensures
        r == k1_raw_valid(sig@),
{
    k256::ecdsa::Signature::from_slice(sig.as_slice()).is_ok()
}

/// Whether a secp256k1 ECDSA signature verifies a prehashed message.
pub uninterp spec fn k1_verifies_prehash(pk: Seq<u8>, prehash: Seq<u8>, sig: Seq<u8>) -> bool;

/// Relies on `k256::ecdsa::VerifyingKey::verify_prehash`: the verdict
/// depends on key, prehash and signature alone.
#[verifier::external_body]
pub(crate) fn k1_verify_prehash(pk: &Vec<u8>, prehash: &Vec<u8>, sig: &Vec<u8>) -> (r: bool)
    requires
        k1_pk_valid(pk@),
        sig@.len() == 64,
        k1_raw_valid(sig@),
    ensures
        r == k1_verifies_prehash(pk@, prehash@, sig@),
{
    let key = k256::ecdsa::VerifyingKey::from_sec1_bytes(pk.as_slice()).unwrap();
    let s = k256::ecdsa::Signature::from_slice(sig.as_slice()).unwrap();
    key.verify_prehash(prehash.as_slice(), &s).is_ok()
}

/// Whether 32 bytes decode to a secp256k1 secret scalar.
pub uninterp spec fn k1_sk_valid(sk: Seq<u8>) -> bool;

/// Relies on `k256::ecdsa::SigningKey::from_slice`: success depends on the
/// bytes alone.
#[verifier::external_body]
pub(crate) fn k1_check_secret(sk: &Vec<u8>) -> (r: bool)
    requires
        sk@.len() == 32,
    ensures
        r == k1_sk_valid(sk@),
{
    k256::ecdsa::SigningKey::from_slice(sk.as_slice()).is_ok()
}

/// The secp256k1 ECDSA signature of a prehashed message (RFC 6979 signing is
/// deterministic).
pub uninterp spec fn k1_sig_of(sk: Seq<u8>, prehash: Seq<u8>) -> Seq<u8>;

/// Relies on `k256::ecdsa::SigningKey::sign_prehash`: deterministic in the
/// secret key and prehash; the raw signature is 64 bytes and re-decodes.
#[verifier::external_body]
pub(crate) fn k1_sign_prehash(sk: &Vec<u8>, prehash: &Vec<u8>) -> (r: Vec<u8>)
    requires
        sk@.len() == 32,
        prehash@.len() == 32,
        k1_sk_valid(sk@),
    ensures
        r@ == k1_sig_of(sk@, prehash@),
        r@.len() == 64,
        k1_raw_valid(r@),
{
    let key = k256::ecdsa::SigningKey::from_slice(sk.as_slice()).unwrap();
    let s: k256::ecdsa::Signature = key.sign_prehash(prehash.as_slice()).unwrap();
    s.to_bytes().to_vec()
}

/// The compressed secp256k1 public key of a secret key.
pub uninterp spec fn k1_pk_of(sk: Seq<u8>) -> Seq<u8>;

/// Relies on `k256::ecdsa::SigningKey::verifying_key`: the public key is a
/// function of the secret key; its compressed SEC1 form is 33 bytes and
/// decodes back to a key.
#[verifier::external_body]
pub(crate) fn k1_public_key(sk: &Vec<u8>) -> (r: Vec<u8>)
    requires
        sk@.len() == 32,
        k1_sk_valid(sk@),
    ensures
        r@ == k1_pk_of(sk@),
        r@.len() == 33,
        k1_pk_valid(r@),
{
    let key = k256::ecdsa::SigningKey::from_slice(sk.as_slice()).unwrap();
    key.verifying_key().to_sec1_point(true).as_bytes().to_vec()
}

/// The uncompressed SEC1 form of a secp256k1 public key, when the bytes
/// decode to a curve point.
pub uninterp spec fn k1_decompressed(pk: Seq<u8>) -> Option<Seq<u8>>;

/// Relies on `k256::PublicKey::from_sec1_bytes` and `to_sec1_point`:
/// success and the point depend on the bytes alone; the uncompressed form is
/// 65 bytes.
#[verifier::external_body]
pub(crate) fn k1_decompress(pk: &Vec<u8>) -> (r: Option<Vec<u8>>)
    ensures
        match k1_decompressed(pk@) {
            Some(v) => r matches Some(x) && x@ == v && v.len() == 65,
            None => r is None,
        },
{
    k256::PublicKey::from_sec1_bytes(pk.as_slice()).ok().map(
        |p| p.to_sec1_point(false).as_bytes().to_vec(),
    )
}

// ----------------------------------------------------------- ECDSA: P-256

/// Whether bytes decode to a P-256 ECDSA public key (SEC1 form).
pub uninterp spec fn r1_pk_valid(pk: Seq<u8>) -> bool;

/// Relies on `p256::ecdsa::VerifyingKey::from_sec1_bytes`: success depends
/// on the key bytes alone.
#[verifier::external_body]
pub(crate) fn r1_check_pubkey(pk: &Vec<u8>) -> (r: bool)
    ensures
        r == r1_pk_valid(pk@),
{
    p256::ecdsa::VerifyingKey::from_sec1_bytes(pk.as_slice()).is_ok()
}

/// The raw `r || s` form of a DER-encoded P-256 signature, when the DER
/// parses.
pub uninterp spec fn r1_der_raw(sig: Seq<u8>) -> Option<Seq<u8>>;

/// Relies on `p256::ecdsa::Signature::from_der`: success and the decoded
/// scalars depend on the bytes alone; the raw form is 64 bytes and decodes
/// back through `from_slice`.
#[verifier::external_body]
pub(crate) fn r1_der_to_raw(sig: &Vec<u8>) -> (r: Option<Vec<u8>>)
    ensures
        match r1_der_raw(sig@) {
            Some(v) => r matches Some(x) && x@ == v && v.len() == 64 && r1_raw_valid(v),
            None => r is None,
        },
{
    p256::ecdsa::Signature::from_der(sig.as_slice()).ok().map(|s| s.to_bytes().to_vec())
}

/// Whether 64 bytes decode to a P-256 ECDSA signature (`r || s`).
pub uninterp spec fn r1_raw_valid(sig: Seq<u8>) -> bool;

/// Relies on `p256::ecdsa::Signature::from_slice`: success depends on the
/// bytes alone.
#[verifier::external_body]
pub(crate) fn r1_check_raw_sig(sig: &Vec<u8>) -> (r: bool)
    requires
        sig@.len() == 64,
    ensures
        r == r1_raw_valid(sig@),
{
    p256::ecdsa::Signature::from_slice(sig.as_slice()).is_ok()
}

/// Whether a P-256 ECDSA signature verifies a prehashed message.
pub uninterp spec fn r1_verifies_prehash(pk: Seq<u8>, prehash: Seq<u8>, sig: Seq<u8>) -> bool;

/// Relies on `p256::ecdsa::VerifyingKey::verify_prehash`: the verdict
/// depends on key, prehash and signature alone.
#[verifier::external_body]
pub(crate) fn r1_verify_prehash(pk: &Vec<u8>, prehash: &Vec<u8>, sig: &Vec<u8>) -> (r: bool)
    requires
        r1_pk_valid(pk@),
        sig@.len() == 64,
        r1_raw_valid(sig@),
    ensures
        r == r1_verifies_prehash(pk@, prehash@, sig@),
{
    let key = p256::ecdsa::VerifyingKey::from_sec1_bytes(pk.as_slice()).unwrap();
    let s = p256::ecdsa::Signature::from_slice(sig.as_slice()).unwrap();
    key.verify_prehash(prehash.as_slice(), &s).is_ok()
}

/// Whether 32 bytes decode to a P-256 secret scalar.
pub uninterp spec fn r1_sk_valid(sk: Seq<u8>) -> bool;

/// Relies on `p256::ecdsa::SigningKey::from_slice`: success depends on the
/// bytes alone.
#[verifier::external_body]
pub(crate) fn r1_check_secret(sk: &Vec<u8>) -> (r: bool)
    requires
        sk@.len() == 32,
    ensures
        r == r1_sk_valid(sk@),
{
    p256::ecdsa::SigningKey::from_slice(sk.as_slice()).is_ok()
}

/// The P-256 ECDSA signature of a prehashed message (RFC 6979 signing is
/// deterministic).
pub uninterp spec fn r1_sig_of(sk: Seq<u8>, prehash: Seq<u8>) -> Seq<u8>;

/// Relies on `p256::ecdsa::SigningKey::sign_prehash`: deterministic in the
/// secret key and prehash; the raw signature is 64 bytes and re-decodes.
#[verifier::external_body]
pub(crate) fn r1_sign_prehash(sk: &Vec<u8>, prehash: &Vec<u8>) -> (r: Vec<u8>)
    requires
        sk@.len() == 32,
        prehash@.len() == 32,
        r1_sk_valid(sk@),
    ensures
        r@ == r1_sig_of(sk@, prehash@),
        r@.len() == 64,
        r1_raw_valid(r@),
{
    let key = p256::ecdsa::SigningKey::from_slice(sk.as_slice()).unwrap();
    let s: p256::ecdsa::Signature = key.sign_prehash(prehash.as_slice()).unwrap();
    s.to_bytes().to_vec()
}

/// The compressed P-256 public key of a secret key.
pub uninterp spec fn r1_pk_of(sk: Seq<u8>) -> Seq<u8>;

/// Relies on `p256::ecdsa::SigningKey::verifying_key`: the public key is a
/// function of the secret key; its compressed SEC1 form is 33 bytes and
/// decodes back to a key.
#[verifier::external_body]
pub(crate) fn r1_public_key(sk: &Vec<u8>) -> (r: Vec<u8>)
    requires
        sk@.len() == 32,
        r1_sk_valid(sk@),
    ensures
        r@ == r1_pk_of(sk@),
        r@.len() == 33,
        r1_pk_valid(r@),
{
    let key = p256::ecdsa::SigningKey::from_slice(sk.as_slice()).unwrap();
    key.verifying_key().to_sec1_point(true).as_bytes().to_vec()
}

// ------------------------------------------------- recovery and Schnorr

/// The compressed public key an ECDSA signature recovers to over a 32-byte
/// digest, when recovery succeeds.
pub uninterp spec fn k1_recovered(msg32: Seq<u8>, sig64: Seq<u8>, recid: u8) -> Option<Seq<u8>>;

/// Relies on `secp256k1::ecdsa::RecoverableSignature::recover_ecdsa`:
/// success and the recovered point depend on digest, signature and recovery
/// id alone; the compressed key is 33 bytes.
#[verifier::external_body]
pub(crate) fn secp_recover(msg32: &Vec<u8>, sig64: &Vec<u8>, recid: u8) -> (r: Option<Vec<u8>>)
    requires
        msg32@.len() == 32,
        sig64@.len() == 64,
        recid < 4,
    ensures
        match k1_recovered(msg32@, sig64@, recid) {
            Some(v) => r matches Some(x) && x@ == v && v.len() == 33,
            None => r is None,
        },
{
    let rid = secp256k1::ecdsa::RecoveryId::try_from(recid as i32).unwrap();
    let digest: [u8; 32] = msg32.as_slice().try_into().unwrap();
    secp256k1::ecdsa::RecoverableSignature::from_compact(sig64.as_slice(), rid).ok().and_then(
        |sig| sig.recover_ecdsa(secp256k1::Message::from_digest(digest)).ok(),
    ).map(|pk| pk.serialize().to_vec())
}

/// Whether 32 bytes decode to an x-only secp256k1 public key.
pub uninterp spec fn xonly_pk_valid(pk: Seq<u8>) -> bool;

/// Relies on `secp256k1::XOnlyPublicKey::from_byte_array`: success depends
/// on the key bytes alone.
#[verifier::external_body]
pub(crate) fn secp_check_xonly(pk: &Vec<u8>) -> (r: bool)
    requires
        pk@.len() == 32,
    ensures
        r == xonly_pk_valid(pk@),
{
    let arr: [u8; 32] = pk.as_slice().try_into().unwrap();
    secp256k1::XOnlyPublicKey::from_byte_array(arr).is_ok()
}

/// Whether a BIP-340 Schnorr signature verifies a message under an x-only
/// key.
pub uninterp spec fn schnorr_verifies(pk: Seq<u8>, msg: Seq<u8>, sig: Seq<u8>) -> bool;

/// Relies on `secp256k1::schnorr::Signature::verify`: the verdict depends on
/// key, message and signature alone.
#[verifier::external_body]
pub(crate) fn secp_verify_schnorr(pk: &Vec<u8>, msg: &Vec<u8>, sig: &Vec<u8>) -> (r: bool)
    requires
        pk@.len() == 32,
        sig@.len() == 64,
        xonly_pk_valid(pk@),
    ensures
        r == schnorr_verifies(pk@, msg@, sig@),
{
    let pk_arr: [u8; 32] = pk.as_slice().try_into().unwrap();
    let sig_arr: [u8; 64] = sig.as_slice().try_into().unwrap();
    let key = secp256k1::XOnlyPublicKey::from_byte_array(pk_arr).unwrap();
    secp256k1::schnorr::Signature::from_byte_array(sig_arr).verify(msg.as_slice(), &key).is_ok()
}

} // verus!
