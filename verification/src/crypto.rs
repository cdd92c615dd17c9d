//! Black-box cryptographic primitives.
//!
//! The engine treats hashing and signature verification as given: each is a
//! pure function of its input bytes, named by an uninterpreted spec function
//! and computed by an outside call.
use vstd::prelude::*;

verus! {

/// The blake2b-256 digest of a byte string.
pub uninterp spec fn blake2_of(data: Seq<u8>) -> Seq<u8>;

/// Whether `sig` is a valid sr25519 signature over `msg` by the public key
/// `key`.
pub uninterp spec fn sr25519_verifies(sig: Seq<u8>, msg: Seq<u8>, key: Seq<u8>) -> bool;

/// Relies on sp_core::Blake2Hasher::hash: the blake2b-256 digest is a
/// function of the input bytes alone and is 32 bytes wide.
#[verifier::external_body]
pub fn hash_blake2_256(data: &Vec<u8>) -> (r: [u8; 32])
    ensures
        r@ == blake2_of(data@),
        r@.len() == 32,
{
    <sp_core::Blake2Hasher as sp_core::Hasher>::hash(data.as_slice()).to_fixed_bytes()
}

/// Relies on sp_core::sr25519::Pair::verify: schnorrkel signature
/// verification is a deterministic function of the signature, message and
/// public-key bytes.
#[verifier::external_body]
pub fn sr25519_verify(sig: &[u8; 64], msg: &Vec<u8>, key: &[u8; 32]) -> (r: bool)
    ensures
        r == sr25519_verifies(sig@, msg@, key@),
{
    let s = sp_core::sr25519::Signature::from_raw(*sig);
    let p = sp_core::sr25519::Public::from_raw(*key);
    <sp_core::sr25519::Pair as sp_core::crypto::Pair>::verify(&s, msg.as_slice(), &p)
}

} // verus!
