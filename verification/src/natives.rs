//! The cryptographic natives the VM exposes, and the table that maps a
//! module and function name to one of them. All dispatch — length checks,
//! Schnorr versus ECDSA selection, DER versus raw signatures, the documented
//! abort codes — is verified here; only the curve and hash primitives behind
//! `crate::crypto` are trusted.

use vstd::prelude::*;
use crate::codec;
use crate::crypto;
use crate::strutil;

verus! {

/// Abort code: no public key could be recovered.
pub const ERR_RECOVERY_FAILED: u64 = 1;

/// Abort code: malformed signature.
pub const ERR_INVALID_SIGNATURE: u64 = 2;

/// Abort code: malformed public key.
pub const ERR_INVALID_PUBKEY: u64 = 3;

/// Abort code: malformed x-only public key.
pub const ERR_INVALID_XONLY_PUBKEY: u64 = 5;

/// Abort code: a Schnorr message must be exactly 32 bytes.
pub const ERR_INVALID_MESSAGE: u64 = 6;

/// Abort code: malformed Schnorr signature.
pub const ERR_INVALID_SCHNORR_SIGNATURE: u64 = 7;

/// The digest of `msg` under a hash tag: 0 selects Keccak-256, anything else
/// SHA-256.
pub open spec fn digest_spec(msg: Seq<u8>, hash_tag: u8) -> Seq<u8> {
    if hash_tag == 0 {
        crypto::keccak256_spec(msg)
    } else {
        crypto::sha256_spec(msg)
    }
}

/// Compute the digest of `msg` under a hash tag.
pub fn digest_of(msg: &Vec<u8>, hash_tag: u8) -> (r: Vec<u8>)
    ensures
        r@ == digest_spec(msg@, hash_tag),
        r@.len() == 32,
{
    if hash_tag == 0 {
        crypto::keccak256(msg)
    } else {
        crypto::sha256(msg)
    }
}

/// What `ecdsa_k1::ecrecover` returns: the signature must be 65 bytes
/// (`r || s || v`); the recovery id is `v mod 4`; recovery runs over the
/// tagged digest of the message and yields the 33-byte compressed key.
pub open spec fn ecrecover_spec(sig: Seq<u8>, msg: Seq<u8>, hash_tag: u8) -> Result<Seq<u8>, u64> {
    if sig.len() != 65 {
        Err(ERR_INVALID_SIGNATURE)
    } else {
        match crypto::k1_recovered(
            digest_spec(msg, hash_tag),
            sig.subrange(0, 64),
            (sig[64] % 4) as u8,
        ) {
            Some(pk) => Ok(pk),
            None => Err(ERR_RECOVERY_FAILED),
        }
    }
}

/// Recover the compressed public key from a 65-byte recoverable signature.
pub fn ecrecover(signature: &Vec<u8>, msg: &Vec<u8>, hash_tag: u8) -> (r: Result<Vec<u8>, u64>)
    ensures
        match ecrecover_spec(signature@, msg@, hash_tag) {
            Ok(pk) => r matches Ok(v) && v@ == pk && pk.len() == 33,
            Err(c) => r == Result::<Vec<u8>, u64>::Err(c),
        },
{
    if signature.len() != 65 {
        return Err(ERR_INVALID_SIGNATURE);
    }
    let digest = digest_of(msg, hash_tag);
    let sig64 = strutil::sub_bytes(signature, 0, 64);
    let recid = signature[64] % 4;
    match crypto::secp_recover(&digest, &sig64, recid) {
        Some(pk) => Ok(pk),
        None => Err(ERR_RECOVERY_FAILED),
    }
}

/// What `ecdsa_k1::decompress_pubkey` returns: the 65-byte uncompressed form
/// of a key that decodes, else the invalid-key code.
pub open spec fn decompress_spec(pk: Seq<u8>) -> Result<Seq<u8>, u64> {
    match crypto::k1_decompressed(pk) {
        Some(v) => Ok(v),
        None => Err(ERR_INVALID_PUBKEY),
    }
}

/// Decompress a secp256k1 public key to its 65-byte uncompressed form.
pub fn decompress_pubkey(pubkey: &Vec<u8>) -> (r: Result<Vec<u8>, u64>)
    ensures
        match decompress_spec(pubkey@) {
            Ok(v) => r matches Ok(x) && x@ == v && v.len() == 65,
            Err(c) => r == Result::<Vec<u8>, u64>::Err(c),
        },
{
    match crypto::k1_decompress(pubkey) {
        Some(v) => Ok(v),
        None => Err(ERR_INVALID_PUBKEY),
    }
}

/// What `ecdsa_k1::verify` returns. A 64-byte signature with a 32-byte key
/// dispatches to BIP-340 Schnorr, whose message must be exactly 32 bytes;
/// short keys and mismatched shapes yield the documented codes; anything
/// else is ECDSA with a DER or raw-64 signature over the tagged digest.
pub open spec fn k1_verify_spec(sig: Seq<u8>, pk: Seq<u8>, msg: Seq<u8>, hash_tag: u8) -> Result<
    bool,
    u64,
> {
    if sig.len() == 0 {
        Err(ERR_INVALID_SIGNATURE)
    } else if sig.len() == 64 && pk.len() == 32 {
        if msg.len() != 32 {
            Err(ERR_INVALID_MESSAGE)
        } else if !crypto::xonly_pk_valid(pk) {
            Err(ERR_INVALID_XONLY_PUBKEY)
        } else {
            Ok(crypto::schnorr_verifies(pk, msg, sig))
        }
    } else if sig.len() == 64 && pk.len() < 33 {
        Err(ERR_INVALID_XONLY_PUBKEY)
    } else if sig.len() != 64 && pk.len() == 32 {
        Err(ERR_INVALID_SCHNORR_SIGNATURE)
    } else if !crypto::k1_pk_valid(pk) {
        Err(ERR_INVALID_PUBKEY)
    } else {
        match crypto::k1_der_raw(sig) {
            Some(raw) => Ok(crypto::k1_verifies_prehash(pk, digest_spec(msg, hash_tag), raw)),
            None => if sig.len() == 64 && crypto::k1_raw_valid(sig) {
                Ok(crypto::k1_verifies_prehash(pk, digest_spec(msg, hash_tag), sig))
            } else {
                Ok(false)
            },
        }
    }
}

/// Verify a secp256k1 ECDSA or BIP-340 Schnorr signature.
pub fn ecdsa_k1_verify(signature: &Vec<u8>, public_key: &Vec<u8>, msg: &Vec<u8>, hash_tag: u8) -> (r:
    Result<bool, u64>)
    ensures
        r == k1_verify_spec(signature@, public_key@, msg@, hash_tag),
{
    if signature.len() == 0 {
        return Err(ERR_INVALID_SIGNATURE);
    }
    if signature.len() == 64 && public_key.len() == 32 {
        if msg.len() != 32 {
            return Err(ERR_INVALID_MESSAGE);
        }
        if !crypto::secp_check_xonly(public_key) {
            return Err(ERR_INVALID_XONLY_PUBKEY);
        }
        return Ok(crypto::secp_verify_schnorr(public_key, msg, signature));
    }
    if signature.len() == 64 && public_key.len() < 33 {
        return Err(ERR_INVALID_XONLY_PUBKEY);
    }
    if signature.len() != 64 && public_key.len() == 32 {
        return Err(ERR_INVALID_SCHNORR_SIGNATURE);
    }
    if !crypto::k1_check_pubkey(public_key) {
        return Err(ERR_INVALID_PUBKEY);
    }
    let digest = digest_of(msg, hash_tag);
    match crypto::k1_der_to_raw(signature) {
        Some(raw) => Ok(crypto::k1_verify_prehash(public_key, &digest, &raw)),
        None => {
            if signature.len() == 64 && crypto::k1_check_raw_sig(signature) {
                Ok(crypto::k1_verify_prehash(public_key, &digest, signature))
            } else {
                Ok(false)
            }
        },
    }
}

/// What `ecdsa_r1::native_verify` returns: P-256 ECDSA with a DER or raw-64
/// signature over the tagged digest.
pub open spec fn r1_verify_spec(sig: Seq<u8>, pk: Seq<u8>, msg: Seq<u8>, hash_tag: u8) -> Result<
    bool,
    u64,
> {
    if sig.len() == 0 {
        Err(ERR_INVALID_SIGNATURE)
    } else if !crypto::r1_pk_valid(pk) {
        Err(ERR_INVALID_PUBKEY)
    } else {
        match crypto::r1_der_raw(sig) {
            Some(raw) => Ok(crypto::r1_verifies_prehash(pk, digest_spec(msg, hash_tag), raw)),
            None => if sig.len() == 64 && crypto::r1_raw_valid(sig) {
                Ok(crypto::r1_verifies_prehash(pk, digest_spec(msg, hash_tag), sig))
            } else {
                Ok(false)
            },
        }
    }
}

/// Verify a P-256 ECDSA signature.
pub fn ecdsa_r1_verify(signature: &Vec<u8>, public_key: &Vec<u8>, msg: &Vec<u8>, hash_tag: u8) -> (r:
    Result<bool, u64>)
    ensures
        r == r1_verify_spec(signature@, public_key@, msg@, hash_tag),
{
    if signature.len() == 0 {
        return Err(ERR_INVALID_SIGNATURE);
    }
    if !crypto::r1_check_pubkey(public_key) {
        return Err(ERR_INVALID_PUBKEY);
    }
    let digest = digest_of(msg, hash_tag);
    match crypto::r1_der_to_raw(signature) {
        Some(raw) => Ok(crypto::r1_verify_prehash(public_key, &digest, &raw)),
        None => {
            if signature.len() == 64 && crypto::r1_check_raw_sig(signature) {
                Ok(crypto::r1_verify_prehash(public_key, &digest, signature))
            } else {
                Ok(false)
            }
        },
    }
}

/// What `ed25519::verify` returns: false on any malformed input, else the
/// curve's verdict. This native never aborts.
pub open spec fn ed25519_verify_spec(sig: Seq<u8>, pk: Seq<u8>, msg: Seq<u8>) -> bool {
    if pk.len() != 32 || sig.len() != 64 {
        false
    } else if !crypto::ed25519_pk_valid(pk) {
        false
    } else {
        crypto::ed25519_verifies(pk, msg, sig)
    }
}

/// Verify an ed25519 signature.
pub fn ed25519_verify(signature: &Vec<u8>, public_key: &Vec<u8>, msg: &Vec<u8>) -> (r: bool)
    ensures
        r == ed25519_verify_spec(signature@, public_key@, msg@),
{
    if public_key.len() != 32 || signature.len() != 64 {
        return false;
    }
    if !crypto::ed25519_check_pubkey(public_key) {
        return false;
    }
    crypto::ed25519_check(public_key, msg, signature)
}

/// The built-in natives, keyed by module and function name.
#[derive(PartialEq, Eq, Structural, Clone, Copy, Debug)]
pub enum NativeFunction {
    EcdsaK1Ecrecover,
    EcdsaK1DecompressPubkey,
    EcdsaK1Verify,
    EcdsaR1NativeVerify,
    Ed25519Verify,
}

/// The native a module and function name pair designates, if any.
pub open spec fn lookup_spec(module: Seq<char>, function: Seq<char>) -> Option<NativeFunction> {
    if module == "ecdsa_k1"@ && function == "ecrecover"@ {
        Some(NativeFunction::EcdsaK1Ecrecover)
    } else if module == "ecdsa_k1"@ && function == "decompress_pubkey"@ {
        Some(NativeFunction::EcdsaK1DecompressPubkey)
    } else if module == "ecdsa_k1"@ && function == "verify"@ {
        Some(NativeFunction::EcdsaK1Verify)
    } else if module == "ecdsa_r1"@ && function == "native_verify"@ {
        Some(NativeFunction::EcdsaR1NativeVerify)
    } else if module == "ed25519"@ && function == "verify"@ {
        Some(NativeFunction::Ed25519Verify)
    } else {
        None
    }
}

/// Look a native up by module and function name.
pub fn lookup_native(module: &String, function: &String) -> (r: Option<NativeFunction>)
    ensures
        r == lookup_spec(module@, function@),
{
    proof {
        reveal_strlit("ecdsa_k1");
        reveal_strlit("ecdsa_r1");
        reveal_strlit("ed25519");
        reveal_strlit("ecrecover");
        reveal_strlit("decompress_pubkey");
        reveal_strlit("verify");
        reveal_strlit("native_verify");
        assert("ecdsa_k1"@[6] != "ecdsa_r1"@[6]);
        assert("ecdsa_k1"@.len() != "ed25519"@.len());
        assert("ecrecover"@.len() != "decompress_pubkey"@.len());
        assert("ecrecover"@.len() != "verify"@.len());
        assert("decompress_pubkey"@.len() != "verify"@.len());
        assert("native_verify"@.len() != "verify"@.len());
    }
    let m_k1 = "ecdsa_k1".to_owned();
    let m_r1 = "ecdsa_r1".to_owned();
    let m_ed = "ed25519".to_owned();
    let f_recover = "ecrecover".to_owned();
    let f_decompress = "decompress_pubkey".to_owned();
    let f_verify = "verify".to_owned();
    let f_native_verify = "native_verify".to_owned();
    if module.eq(&m_k1) {
        if function.eq(&f_recover) {
            Some(NativeFunction::EcdsaK1Ecrecover)
        } else if function.eq(&f_decompress) {
            Some(NativeFunction::EcdsaK1DecompressPubkey)
        } else if function.eq(&f_verify) {
            Some(NativeFunction::EcdsaK1Verify)
        } else {
            None
        }
    } else if module.eq(&m_r1) {
        if function.eq(&f_native_verify) {
            Some(NativeFunction::EcdsaR1NativeVerify)
        } else {
            None
        }
    } else if module.eq(&m_ed) {
        if function.eq(&f_verify) {
            Some(NativeFunction::Ed25519Verify)
        } else {
            None
        }
    } else {
        None
    }
}

/// How a native call can fail: a documented abort code, or arguments that
/// do not decode to the expected shapes.
#[derive(PartialEq, Eq, Structural, Clone, Copy, Debug)]
pub enum NativeError {
    Abort(u64),
    BadArguments,
}

/// An argument holding one serialized byte string, decoded exactly.
pub open spec fn arg_bytes(arg: Seq<u8>) -> Option<Seq<u8>> {
    match codec::dec_bytes(arg, 0) {
        Some((v, q)) => if q == arg.len() {
            Some(v)
        } else {
            Option::<Seq<u8>>::None
        },
        None => None,
    }
}

/// An argument holding one serialized byte, decoded exactly.
pub open spec fn arg_u8(arg: Seq<u8>) -> Option<u8> {
    if arg.len() == 1 {
        Some(arg[0])
    } else {
        None
    }
}

/// Decode an argument as a byte string.
fn decode_arg_bytes(arg: &Vec<u8>) -> (r: Option<Vec<u8>>)
    ensures
        match arg_bytes(arg@) {
            Some(v) => r matches Some(x) && x@ == v,
            None => r is None,
        },
{
    match codec::read_bytes(arg, 0) {
        Some((v, q)) => {
            if q == arg.len() {
                Some(v)
            } else {
                None
            }
        },
        None => None,
    }
}

/// Decode an argument as one byte.
fn decode_arg_u8(arg: &Vec<u8>) -> (r: Option<u8>)
    ensures
        r == arg_u8(arg@),
{
    if arg.len() == 1 {
        Some(arg[0])
    } else {
        None
    }
}

/// The serialized form of a boolean result.
pub open spec fn bool_value(b: bool) -> Seq<u8> {
    if b {
        seq![1u8]
    } else {
        seq![0u8]
    }
}

/// What invoking a native on serialized arguments produces: the values it
/// returns, or how it fails.
pub open spec fn invoke_spec(n: NativeFunction, args: Seq<Seq<u8>>) -> Result<
    Seq<Seq<u8>>,
    NativeError,
> {
    match n {
        NativeFunction::EcdsaK1Ecrecover => {
            if args.len() != 3 {
                Err(NativeError::BadArguments)
            } else {
                match (arg_bytes(args[0]), arg_bytes(args[1]), arg_u8(args[2])) {
                    (Some(sig), Some(msg), Some(tag)) => match ecrecover_spec(sig, msg, tag) {
                        Ok(pk) => Ok(seq![pk]),
                        Err(c) => Err(NativeError::Abort(c)),
                    },
                    _ => Err(NativeError::BadArguments),
                }
            }
        },
        NativeFunction::EcdsaK1DecompressPubkey => {
            if args.len() != 1 {
                Err(NativeError::BadArguments)
            } else {
                match arg_bytes(args[0]) {
                    Some(pk) => match decompress_spec(pk) {
                        Ok(v) => Ok(seq![v]),
                        Err(c) => Err(NativeError::Abort(c)),
                    },
                    None => Err(NativeError::BadArguments),
                }
            }
        },
        NativeFunction::EcdsaK1Verify => {
            if args.len() != 4 {
                Err(NativeError::BadArguments)
            } else {
                match (arg_bytes(args[0]), arg_bytes(args[1]), arg_bytes(args[2]), arg_u8(
                    args[3],
                )) {
                    (Some(sig), Some(pk), Some(msg), Some(tag)) => match k1_verify_spec(
                        sig,
                        pk,
                        msg,
                        tag,
                    ) {
                        Ok(b) => Ok(seq![bool_value(b)]),
                        Err(c) => Err(NativeError::Abort(c)),
                    },
                    _ => Err(NativeError::BadArguments),
                }
            }
        },
        NativeFunction::EcdsaR1NativeVerify => {
            if args.len() != 4 {
                Err(NativeError::BadArguments)
            } else {
                match (arg_bytes(args[0]), arg_bytes(args[1]), arg_bytes(args[2]), arg_u8(
                    args[3],
                )) {
                    (Some(sig), Some(pk), Some(msg), Some(tag)) => match r1_verify_spec(
                        sig,
                        pk,
                        msg,
                        tag,
                    ) {
                        Ok(b) => Ok(seq![bool_value(b)]),
                        Err(c) => Err(NativeError::Abort(c)),
                    },
                    _ => Err(NativeError::BadArguments),
                }
            }
        },
        NativeFunction::Ed25519Verify => {
            if args.len() != 3 {
                Err(NativeError::BadArguments)
            } else {
                match (arg_bytes(args[0]), arg_bytes(args[1]), arg_bytes(args[2])) {
                    (Some(sig), Some(pk), Some(msg)) => Ok(
                        seq![bool_value(ed25519_verify_spec(sig, pk, msg))],
                    ),
                    _ => Err(NativeError::BadArguments),
                }
            }
        },
    }
}

/// Invoke a native on serialized arguments.
pub fn invoke_native(n: NativeFunction, args: &Vec<Vec<u8>>) -> (r: Result<Vec<Vec<u8>>, NativeError>)
    ensures
        match invoke_spec(n, args.deep_view()) {
            Ok(vals) => r matches Ok(vs) && vs.deep_view() == vals,
            Err(e) => r == Result::<Vec<Vec<u8>>, NativeError>::Err(e),
        },
{
    proof {
        assert forall|i: int| 0 <= i < args@.len() implies args.deep_view()[i] == args@[i]@ by {
            assert(args@[i].deep_view() =~= args@[i]@);
        }
        assert(args.deep_view().len() == args@.len());
    }
    match n {
        NativeFunction::EcdsaK1Ecrecover => {
            if args.len() != 3 {
                return Err(NativeError::BadArguments);
            }
            let sig = match decode_arg_bytes(&args[0]) {
                Some(v) => v,
                None => {
                    return Err(NativeError::BadArguments);
                },
            };
            let msg = match decode_arg_bytes(&args[1]) {
                Some(v) => v,
                None => {
                    return Err(NativeError::BadArguments);
                },
            };
            let tag = match decode_arg_u8(&args[2]) {
                Some(v) => v,
                None => {
                    return Err(NativeError::BadArguments);
                },
            };
            match ecrecover(&sig, &msg, tag) {
                Ok(pk) => {
                    let mut out: Vec<Vec<u8>> = Vec::new();
                    out.push(pk);
                    proof {
                        assert(out.deep_view() =~~= seq![
                            ecrecover_spec(sig@, msg@, tag)->Ok_0,
                        ]);
                    }
                    Ok(out)
                },
                Err(c) => Err(NativeError::Abort(c)),
            }
        },
        NativeFunction::EcdsaK1DecompressPubkey => {
            if args.len() != 1 {
                return Err(NativeError::BadArguments);
            }
            let pk = match decode_arg_bytes(&args[0]) {
                Some(v) => v,
                None => {
                    return Err(NativeError::BadArguments);
                },
            };
            match decompress_pubkey(&pk) {
                Ok(v) => {
                    let mut out: Vec<Vec<u8>> = Vec::new();
                    out.push(v);
                    proof {
                        assert(out.deep_view() =~~= seq![decompress_spec(pk@)->Ok_0]);
                    }
                    Ok(out)
                },
                Err(c) => Err(NativeError::Abort(c)),
            }
        },
        NativeFunction::EcdsaK1Verify => {
            if args.len() != 4 {
                return Err(NativeError::BadArguments);
            }
            let sig = match decode_arg_bytes(&args[0]) {
                Some(v) => v,
                None => {
                    return Err(NativeError::BadArguments);
                },
            };
            let pk = match decode_arg_bytes(&args[1]) {
                Some(v) => v,
                None => {
                    return Err(NativeError::BadArguments);
                },
            };
            let msg = match decode_arg_bytes(&args[2]) {
                Some(v) => v,
                None => {
                    return Err(NativeError::BadArguments);
                },
            };
            let tag = match decode_arg_u8(&args[3]) {
                Some(v) => v,
                None => {
                    return Err(NativeError::BadArguments);
                },
            };
            match ecdsa_k1_verify(&sig, &pk, &msg, tag) {
                Ok(b) => Ok(bool_result(b)),
                Err(c) => Err(NativeError::Abort(c)),
            }
        },
        NativeFunction::EcdsaR1NativeVerify => {
            if args.len() != 4 {
                return Err(NativeError::BadArguments);
            }
            let sig = match decode_arg_bytes(&args[0]) {
                Some(v) => v,
                None => {
                    return Err(NativeError::BadArguments);
                },
            };
            let pk = match decode_arg_bytes(&args[1]) {
                Some(v) => v,
                None => {
                    return Err(NativeError::BadArguments);
                },
            };
            let msg = match decode_arg_bytes(&args[2]) {
                Some(v) => v,
                None => {
                    return Err(NativeError::BadArguments);
                },
            };
            let tag = match decode_arg_u8(&args[3]) {
                Some(v) => v,
                None => {
                    return Err(NativeError::BadArguments);
                },
            };
            match ecdsa_r1_verify(&sig, &pk, &msg, tag) {
                Ok(b) => Ok(bool_result(b)),
                Err(c) => Err(NativeError::Abort(c)),
            }
        },
        NativeFunction::Ed25519Verify => {
            if args.len() != 3 {
                return Err(NativeError::BadArguments);
            }
            let sig = match decode_arg_bytes(&args[0]) {
                Some(v) => v,
                None => {
                    return Err(NativeError::BadArguments);
                },
            };
            let pk = match decode_arg_bytes(&args[1]) {
                Some(v) => v,
                None => {
                    return Err(NativeError::BadArguments);
                },
            };
            let msg = match decode_arg_bytes(&args[2]) {
                Some(v) => v,
                None => {
                    return Err(NativeError::BadArguments);
                },
            };
            let b = ed25519_verify(&sig, &pk, &msg);
            Ok(bool_result(b))
        },
    }
}

/// The one-value result list holding a serialized boolean.
fn bool_result(b: bool) -> (r: Vec<Vec<u8>>)
    ensures
        r.deep_view() == seq![bool_value(b)],
{
    let mut v: Vec<u8> = Vec::new();
    if b {
        v.push(1);
    } else {
        v.push(0);
    }
    let mut out: Vec<Vec<u8>> = Vec::new();
    out.push(v);
    proof {
        assert(v@ =~= bool_value(b));
        assert(out.deep_view() =~~= seq![bool_value(b)]);
    }
    out
}

} // verus!
