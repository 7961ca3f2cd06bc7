//! Post-quantum signatures (FIPS 204 ML-DSA-65).

use ml_dsa::{
    EncodedSignature, EncodedVerifyingKey, Generate, Keypair, MlDsa65, Signature, Signer,
    SigningKey, Verifier, VerifyingKey,
};
use vstd::prelude::*;

verus! {

/// Encoded public (verifying) key length of ML-DSA-65.
pub const PUBLIC_KEY_LEN: usize = 1952;

/// Encoded signature length of ML-DSA-65.
pub const SIGNATURE_LEN: usize = 3309;

/// Length of the seed from which a signing key is derived.
pub const SEED_LEN: usize = 32;

/// The encoded public key of the signing key with the given seed.
pub uninterp spec fn ml_dsa_public_key(seed: Seq<u8>) -> Seq<u8>;

/// The encoded signature over a message by the signing key with the given seed.
pub uninterp spec fn ml_dsa_signature(seed: Seq<u8>, msg: Seq<u8>) -> Seq<u8>;

/// Whether a signature of the right length is one by a key of the right length.
pub uninterp spec fn ml_dsa_verifies(public_key: Seq<u8>, msg: Seq<u8>, sig: Seq<u8>) -> bool;

/// A signature over `msg` that holds under `public_key`.
pub open spec fn signature_holds(public_key: Seq<u8>, msg: Seq<u8>, sig: Seq<u8>) -> bool {
    &&& public_key.len() == PUBLIC_KEY_LEN
    &&& sig.len() == SIGNATURE_LEN
    &&& ml_dsa_verifies(public_key, msg, sig)
}

/// Calls `generate` and `to_seed` of ML-DSA-65's `SigningKey`. Nothing is
/// promised of the seed: it comes from the operating system's random numbers.
#[verifier::external_body]
pub(crate) fn fresh_seed() -> (seed: [u8; 32]) {
    SigningKey::<MlDsa65>::generate().to_seed().into()
}

/// Calls `from_seed`, `verifying_key` and `encode` of ML-DSA-65. The result is
/// named and has the length of an encoded public key.
#[verifier::external_body]
pub(crate) fn public_key_of(seed: &[u8; 32]) -> (pk: Vec<u8>)
    ensures
        pk@ == ml_dsa_public_key(seed@),
        pk@.len() == PUBLIC_KEY_LEN,
{
    SigningKey::<MlDsa65>::from_seed(&(*seed).into()).verifying_key().encode().to_vec()
}

/// Calls `from_seed`, the deterministic `sign` and `encode` of ML-DSA-65. The
/// result is named, has the length of an encoded signature, and holds under the
/// public key of the same seed. That the signer's rejection sampling ends is
/// taken for granted.
#[verifier::external_body]
pub(crate) fn sign_with(seed: &[u8; 32], msg: &[u8]) -> (sig: Vec<u8>)
    ensures
        sig@ == ml_dsa_signature(seed@, msg@),
        signature_holds(ml_dsa_public_key(seed@), msg@, sig@),
{
    SigningKey::<MlDsa65>::from_seed(&(*seed).into()).sign(msg).encode().to_vec()
}

/// Calls `decode` of ML-DSA-65's key and signature, then `verify`. The result is
/// named; a signature that does not decode does not verify.
#[verifier::external_body]
fn check_signature(public_key: &[u8], msg: &[u8], sig: &[u8]) -> (r: bool)
    requires
        public_key@.len() == PUBLIC_KEY_LEN,
        sig@.len() == SIGNATURE_LEN,
    ensures
        r == ml_dsa_verifies(public_key@, msg@, sig@),
{
    let key = EncodedVerifyingKey::<MlDsa65>::try_from(public_key).expect("length is checked");
    let enc = EncodedSignature::<MlDsa65>::try_from(sig).expect("length is checked");
    match Signature::<MlDsa65>::decode(&enc) {
        Some(s) => VerifyingKey::<MlDsa65>::decode(&key).verify(msg, &s).is_ok(),
        None => false,
    }
}

/// Verify `sig` over `msg` using the encoded `public_key`. Any malformed input
/// and any mismatch gives `false`.
pub fn verify(public_key: &[u8], msg: &[u8], sig: &[u8]) -> (r: bool)
    ensures
        r == signature_holds(public_key@, msg@, sig@),
{
    public_key.len() == PUBLIC_KEY_LEN && sig.len() == SIGNATURE_LEN && check_signature(
        public_key,
        msg,
        sig,
    )
}

/// A signature holds only with a key and a signature of their proper lengths, and
/// then where the scheme says so.
pub proof fn lengths_come_first(public_key: Seq<u8>, msg: Seq<u8>, sig: Seq<u8>)
    ensures
        signature_holds(public_key, msg, sig) <==> public_key.len() == 1952 && sig.len() == 3309
            && ml_dsa_verifies(public_key, msg, sig),
{
}

} // verus!
