//! Post-quantum payload encryption: ML-KEM-768 (FIPS 203) key encapsulation and
//! AES-256-GCM.
//!
//! The sender encapsulates a fresh shared secret to the recipient's key and
//! seals the body under it; the recipient decapsulates the secret and opens the
//! body. Both keys of a pair follow from the 32-byte signing seed alone, so
//! every load of an identity has the same pair.

use aes_gcm::aead::{Aead, KeyInit, Payload};
use aes_gcm::{Aes256Gcm, Key, Nonce};
use ml_kem::kem::Decapsulate;
use ml_kem::{
    Ciphertext, EncapsulateDeterministic, Encoded, EncodedSizeUser, KemCore, MlKem768, B32,
};
use vstd::prelude::*;
use vstd::string::*;
use vstd::utf8::*;

use crate::text;
use crate::wire;

verus! {

/// Encoded ML-KEM-768 encapsulation-key (public) length in bytes.
pub const KEM_PK_LEN: usize = 1184;

/// Encoded ML-KEM-768 decapsulation-key (private) length in bytes.
pub const KEM_SK_LEN: usize = 2400;

/// ML-KEM-768 ciphertext length in bytes.
pub const KEM_CT_LEN: usize = 1088;

/// The longest plaintext that AES-256-GCM seals, in bytes.
pub const MAX_PLAINTEXT: u64 = 0xf_ffff_ffe0;

/// The longest ciphertext that AES-256-GCM opens, in bytes.
pub const MAX_CIPHERTEXT: u64 = 0xf_ffff_fff0;

/// The longest associated data that AES-256-GCM takes, in bytes.
pub const MAX_ASSOCIATED: u64 = 0x10_0000_0000;

/// The decapsulation and the encapsulation key of ML-KEM-768 for `d` and `z`.
pub uninterp spec fn ml_kem_keys(d: Seq<u8>, z: Seq<u8>) -> (Seq<u8>, Seq<u8>);

/// The encapsulation key inside a decapsulation key.
pub uninterp spec fn ml_kem_public(dk: Seq<u8>) -> Seq<u8>;

/// The ciphertext and the shared secret for a key and the message `m`.
pub uninterp spec fn ml_kem_encapsulated(ek: Seq<u8>, m: Seq<u8>) -> (Seq<u8>, Seq<u8>);

/// The shared secret in a ciphertext.
pub uninterp spec fn ml_kem_decapsulated(dk: Seq<u8>, ct: Seq<u8>) -> Seq<u8>;

/// The AES-256-GCM ciphertext with its tag.
pub uninterp spec fn aes_gcm_sealed(
    key: Seq<u8>,
    nonce: Seq<u8>,
    aad: Seq<u8>,
    pt: Seq<u8>,
) -> Seq<u8>;

/// The plaintext of an authentic AES-256-GCM ciphertext.
pub uninterp spec fn aes_gcm_opened(
    key: Seq<u8>,
    nonce: Seq<u8>,
    aad: Seq<u8>,
    ct: Seq<u8>,
) -> Option<Seq<u8>>;

/// Domain-separated digest of a seed.
pub open spec fn kdf_of(domain: Seq<char>, seed: Seq<u8>) -> Seq<u8> {
    wire::sha256(encode_utf8(domain) + seed)
}

/// The decapsulation and the encapsulation key that follow from a seed.
pub open spec fn keys_of_seed(seed: Seq<u8>) -> (Seq<u8>, Seq<u8>) {
    ml_kem_keys(kdf_of("agentmsg-kem-d-v1"@, seed), kdf_of("agentmsg-kem-z-v1"@, seed))
}

/// The shared secret that a key finds in a ciphertext, where both have their
/// proper lengths.
pub open spec fn secret_in(dk: Seq<u8>, ct: Seq<u8>) -> Option<Seq<u8>> {
    if dk.len() == KEM_SK_LEN && ct.len() == KEM_CT_LEN {
        Some(ml_kem_decapsulated(dk, ct))
    } else {
        None
    }
}

/// The plaintext of a ciphertext within AES-256-GCM's limits.
pub open spec fn opened(key: Seq<u8>, nonce: Seq<u8>, aad: Seq<u8>, ct: Seq<u8>) -> Option<
    Seq<u8>,
> {
    if ct.len() <= MAX_CIPHERTEXT {
        aes_gcm_opened(key, nonce, aad, ct)
    } else {
        None
    }
}

/// Calls `getrandom::getrandom`. Nothing is promised of the bytes.
#[verifier::external_body]
pub(crate) fn os_random<const N: usize>() -> (r: [u8; N]) {
    let mut bytes = [0u8; N];
    getrandom::getrandom(&mut bytes).expect("OS RNG must be available");
    bytes
}

/// Calls `generate_deterministic` of ML-KEM-768 and `as_bytes` of both keys. The
/// result is named, both keys have their encoded lengths, and the encapsulation
/// key is the one inside the decapsulation key.
#[verifier::external_body]
fn keypair(d: &[u8; 32], z: &[u8; 32]) -> (r: (Vec<u8>, Vec<u8>))
    ensures
        ml_kem_keys(d@, z@) == (r.0@, r.1@),
        r.0@.len() == KEM_SK_LEN,
        r.1@.len() == KEM_PK_LEN,
        ml_kem_public(r.0@) == r.1@,
{
    let (dk, ek) = MlKem768::generate_deterministic(&B32::from(*d), &B32::from(*z));
    (dk.as_bytes().to_vec(), ek.as_bytes().to_vec())
}

/// Calls `from_bytes` and `encapsulation_key` of ML-KEM-768's decapsulation key.
/// The result is named.
#[verifier::external_body]
fn public_of(dk: &[u8]) -> (ek: Vec<u8>)
    requires
        dk@.len() == KEM_SK_LEN,
    ensures
        ek@ == ml_kem_public(dk@),
{
    let enc = Encoded::<<MlKem768 as KemCore>::DecapsulationKey>::try_from(dk).expect("length is checked");
    let key = <MlKem768 as KemCore>::DecapsulationKey::from_bytes(&enc);
    key.encapsulation_key().as_bytes().to_vec()
}

/// Calls `encapsulate_deterministic` of ML-KEM-768, which `encapsulate` calls on
/// 32 random bytes. The result is named; the ciphertext has its fixed length.
#[verifier::external_body]
fn encapsulate_to(ek: &[u8], m: &[u8; 32]) -> (r: (Vec<u8>, [u8; 32]))
    requires
        ek@.len() == KEM_PK_LEN,
    ensures
        ml_kem_encapsulated(ek@, m@) == (r.0@, r.1@),
        r.0@.len() == KEM_CT_LEN,
{
    let enc = Encoded::<<MlKem768 as KemCore>::EncapsulationKey>::try_from(ek).expect("length is checked");
    let key = <MlKem768 as KemCore>::EncapsulationKey::from_bytes(&enc);
    let (ct, ss) = key.encapsulate_deterministic(&B32::from(*m)).expect("encapsulation is infallible");
    (ct.as_slice().to_vec(), ss.into())
}

/// Calls `decapsulate` of ML-KEM-768, which does not fail: a ciphertext of
/// another key gives some other secret. The result is named. That a secret
/// comes out as it went in is left unsaid, for ML-KEM promises it only with
/// overwhelming probability.
#[verifier::external_body]
fn decapsulate_with(dk: &[u8], ct: &[u8]) -> (ss: [u8; 32])
    requires
        dk@.len() == KEM_SK_LEN,
        ct@.len() == KEM_CT_LEN,
    ensures
        ss@ == ml_kem_decapsulated(dk@, ct@),
{
    let enc = Encoded::<<MlKem768 as KemCore>::DecapsulationKey>::try_from(dk).expect("length is checked");
    let ct = Ciphertext::<MlKem768>::try_from(ct).expect("length is checked");
    let key = <MlKem768 as KemCore>::DecapsulationKey::from_bytes(&enc);
    key.decapsulate(&ct).expect("decapsulation is infallible").into()
}

/// Calls `encrypt` of `Aes256Gcm`. The result is named, is longer than the
/// plaintext by the tag, and opens to the plaintext.
#[verifier::external_body]
fn aes_seal(key: &[u8; 32], nonce: &[u8; 12], aad: &[u8], pt: &[u8]) -> (ct: Vec<u8>)
    requires
        pt@.len() <= MAX_PLAINTEXT,
        aad@.len() <= MAX_ASSOCIATED,
    ensures
        ct@ == aes_gcm_sealed(key@, nonce@, aad@, pt@),
        ct@.len() == pt@.len() + 16,
        aes_gcm_opened(key@, nonce@, aad@, ct@) == Some(pt@),
{
    let cipher = Aes256Gcm::new(Key::<Aes256Gcm>::from_slice(key));
    cipher.encrypt(Nonce::from_slice(nonce), Payload { msg: pt, aad }).expect("lengths are checked")
}

/// Calls `decrypt` of `Aes256Gcm`. The result is named.
#[verifier::external_body]
fn aes_open(key: &[u8; 32], nonce: &[u8; 12], aad: &[u8], ct: &[u8]) -> (r: Option<Vec<u8>>)
    requires
        ct@.len() <= MAX_CIPHERTEXT,
    ensures
        match r {
            Some(pt) => aes_gcm_opened(key@, nonce@, aad@, ct@) == Some(pt@),
            None => aes_gcm_opened(key@, nonce@, aad@, ct@) is None,
        },
{
    let cipher = Aes256Gcm::new(Key::<Aes256Gcm>::from_slice(key));
    cipher.decrypt(Nonce::from_slice(nonce), Payload { msg: ct, aad }).ok()
}

/// The first 32 bytes of `v`.
pub(crate) fn array32(v: &[u8]) -> (r: [u8; 32])
    requires
        v@.len() == 32,
    ensures
        r@ == v@,
{
    let r: [u8; 32] = [
        v[0], v[1], v[2], v[3], v[4], v[5], v[6], v[7],
        v[8], v[9], v[10], v[11], v[12], v[13], v[14], v[15],
        v[16], v[17], v[18], v[19], v[20], v[21], v[22], v[23],
        v[24], v[25], v[26], v[27], v[28], v[29], v[30], v[31],
    ];
    assert(r@ =~= v@);
    r
}

/// The first 12 bytes of `v`.
pub(crate) fn array12(v: &[u8]) -> (r: [u8; 12])
    requires
        v@.len() == 12,
    ensures
        r@ == v@,
{
    let r: [u8; 12] = [
        v[0], v[1], v[2], v[3], v[4], v[5], v[6], v[7], v[8], v[9], v[10], v[11],
    ];
    assert(r@ =~= v@);
    r
}

/// Domain-separated SHA-256 of `seed`.
fn kdf(domain: &str, seed: &[u8]) -> (r: [u8; 32])
    ensures
        r@ == kdf_of(domain@, seed@),
{
    let mut input: Vec<u8> = text::copy_bytes(domain.as_bytes());
    let mut tail: Vec<u8> = text::copy_bytes(seed);
    input.append(&mut tail);
    let d: Vec<u8> = wire::digest(input.as_slice());
    array32(d.as_slice())
}

/// Derive the ML-KEM-768 keypair from a `seed`, returning the encoded
/// decapsulation key (private) and the encoded encapsulation key (public). The
/// pair is a function of the seed.
pub fn derive_from_seed(seed: &[u8]) -> (r: (Vec<u8>, Vec<u8>))
    ensures
        keys_of_seed(seed@) == (r.0@, r.1@),
        r.0@.len() == KEM_SK_LEN,
        r.1@.len() == KEM_PK_LEN,
        ml_kem_public(r.0@) == r.1@,
{
    let d: [u8; 32] = kdf("agentmsg-kem-d-v1", seed);
    let z: [u8; 32] = kdf("agentmsg-kem-z-v1", seed);
    keypair(&d, &z)
}

/// The encoded encapsulation (public) key of an encoded decapsulation key, empty
/// where that is malformed.
pub fn ek_from_dk(dk: &[u8]) -> (r: Vec<u8>)
    ensures
        r@ == (if dk@.len() == KEM_SK_LEN {
            ml_kem_public(dk@)
        } else {
            Seq::empty()
        }),
{
    if dk.len() == KEM_SK_LEN {
        public_of(dk)
    } else {
        Vec::new()
    }
}

/// Short fingerprint of an encapsulation key.
pub fn kem_fingerprint(ek: &[u8]) -> (r: String)
    ensures
        r@ == wire::fingerprint_of(ek@),
{
    wire::fingerprint(ek)
}

/// Encapsulate the shared secret that follows from `m` to an encapsulation key.
/// `None` exactly where the key is malformed.
pub fn encapsulate_with(ek: &[u8], m: &[u8; 32]) -> (r: Option<(Vec<u8>, [u8; 32])>)
    ensures
        match r {
            Some(p) => ek@.len() == KEM_PK_LEN && ml_kem_encapsulated(ek@, m@) == (p.0@, p.1@)
                && p.0@.len() == KEM_CT_LEN,
            None => ek@.len() != KEM_PK_LEN,
        },
{
    if ek.len() == KEM_PK_LEN {
        Some(encapsulate_to(ek, m))
    } else {
        None
    }
}

/// Encapsulate a fresh shared secret to the recipient's encapsulation key.
/// `None` exactly where the key is malformed.
pub fn encapsulate(ek: &[u8]) -> (r: Option<(Vec<u8>, [u8; 32])>)
    ensures
        match r {
            Some(p) => ek@.len() == KEM_PK_LEN && p.0@.len() == KEM_CT_LEN && exists|m: Seq<u8>|
                m.len() == 32 && #[trigger] ml_kem_encapsulated(ek@, m) == (p.0@, p.1@),
            None => ek@.len() != KEM_PK_LEN,
        },
{
    let m: [u8; 32] = os_random::<32>();
    encapsulate_with(ek, &m)
}

/// The shared secret in `kem_ct` for the encoded decapsulation key `dk`. `None`
/// exactly on malformed input.
pub fn decapsulate(dk: &[u8], kem_ct: &[u8]) -> (r: Option<[u8; 32]>)
    ensures
        match r {
            Some(ss) => secret_in(dk@, kem_ct@) == Some(ss@),
            None => secret_in(dk@, kem_ct@) is None,
        },
{
    if dk.len() == KEM_SK_LEN && kem_ct.len() == KEM_CT_LEN {
        Some(decapsulate_with(dk, kem_ct))
    } else {
        None
    }
}

/// AES-256-GCM seal: encrypt `pt` under `key` and `nonce` binding `aad`. The
/// ciphertext, with the 16-byte tag appended, opens to `pt`.
pub fn seal(key: &[u8; 32], nonce: &[u8; 12], aad: &[u8], pt: &[u8]) -> (ct: Vec<u8>)
    requires
        pt@.len() <= MAX_PLAINTEXT,
        aad@.len() <= MAX_ASSOCIATED,
    ensures
        ct@ == aes_gcm_sealed(key@, nonce@, aad@, pt@),
        ct@.len() == pt@.len() + 16,
        opened(key@, nonce@, aad@, ct@) == Some(pt@),
{
    aes_seal(key, nonce, aad, pt)
}

/// AES-256-GCM open: decrypt and verify `ct`. `None` if authentication fails.
pub fn open(key: &[u8; 32], nonce: &[u8; 12], aad: &[u8], ct: &[u8]) -> (r: Option<Vec<u8>>)
    ensures
        match r {
            Some(pt) => opened(key@, nonce@, aad@, ct@) == Some(pt@),
            None => opened(key@, nonce@, aad@, ct@) is None,
        },
{
    if ct.len() as u64 > MAX_CIPHERTEXT {
        None
    } else {
        aes_open(key, nonce, aad, ct)
    }
}

/// The encryption keys of a seed come from two digests of it under different
/// labels.
pub proof fn keys_come_from_labelled_digests(seed: Seq<u8>)
    ensures
        keys_of_seed(seed) == ml_kem_keys(
            wire::sha256(encode_utf8("agentmsg-kem-d-v1"@) + seed),
            wire::sha256(encode_utf8("agentmsg-kem-z-v1"@) + seed),
        ),
{
}

/// A secret is looked for exactly where key and ciphertext have the lengths of
/// ML-KEM-768, and a ciphertext beyond the limit of AES-256-GCM is not opened.
pub proof fn lengths_are_checked(
    dk: Seq<u8>,
    ct: Seq<u8>,
    key: Seq<u8>,
    nonce: Seq<u8>,
    aad: Seq<u8>,
)
    ensures
        secret_in(dk, ct) is Some <==> dk.len() == 2400 && ct.len() == 1088,
        secret_in(dk, ct) matches Some(s) ==> s == ml_kem_decapsulated(dk, ct),
        ct.len() > 0xf_ffff_fff0 ==> opened(key, nonce, aad, ct) is None,
        ct.len() <= 0xf_ffff_fff0 ==> opened(key, nonce, aad, ct) == aes_gcm_opened(
            key,
            nonce,
            aad,
            ct,
        ),
{
}

} // verus!
