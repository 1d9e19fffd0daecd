//! Public keys as they stand on the wire, judged by the `secp256k1` crate,
//! and the types of that crate that messages carry.

use vstd::prelude::*;

verus! {

/// `secp256k1::PublicKey`: a parsed public key. Opaque here; it is carried,
/// never looked into.
#[verifier::external_type_specification]
#[verifier::external_body]
pub struct ExPublicKey(secp256k1::PublicKey);

/// `secp256k1::Error`: why a call of that crate failed. Opaque here.
#[verifier::external_type_specification]
#[verifier::external_body]
pub struct ExKeyError(secp256k1::Error);

/// `secp256k1::ecdsa::Signature`: a parsed ECDSA signature. Opaque here; it
/// is carried, never looked into.
#[verifier::external_type_specification]
#[verifier::external_body]
pub struct ExSignature(secp256k1::ecdsa::Signature);

/// Whether `secp256k1::PublicKey::from_slice` accepts `bytes` as the
/// serialisation of a public key. Nothing more is known of it here: which
/// byte strings are points of the curve is left to that crate.
pub uninterp spec fn is_public_key(bytes: Seq<u8>) -> bool;

/// `secp256k1::PublicKey::from_slice`. Trusted, not proved: the call
/// succeeds on exactly the byte strings that `is_public_key` names, which
/// says no more than that its outcome depends on the bytes alone. Its source
/// refuses an empty slice and hands any other, with its length, to the
/// parser of the C library under a context that holds no state; no input
/// makes it panic.
#[verifier::external_body]
pub(crate) fn public_key_from_slice(bytes: &[u8]) -> (parsed: Result<
    secp256k1::PublicKey,
    secp256k1::Error,
>)
    ensures
        parsed is Ok <==> is_public_key(bytes@),
{
    secp256k1::PublicKey::from_slice(bytes)
}

/// Whether `bytes` are the serialisation of a public key.
pub fn check_public_key(bytes: &[u8]) -> (ok: bool)
    ensures
        ok == is_public_key(bytes@),
{
    match public_key_from_slice(bytes) {
        Ok(_) => true,
        Err(_) => false,
    }
}

} // verus!
