//! Identities, signatures and payload encryption.

use agentmsg::authority::Authority;
use agentmsg::crypto;
use agentmsg::error::Error;
use agentmsg::identity::{backup_name, name_and_fingerprint, Identity};
use agentmsg::kem::{
    decapsulate, derive_from_seed, ek_from_dk, encapsulate, encapsulate_with, open, seal,
    KEM_CT_LEN, KEM_PK_LEN,
};
use agentmsg::wire::{b64, fingerprint};

#[test]
fn sign_verify_roundtrip() {
    let id = Identity::generate("alice");
    let msg = b"instruction: report disk usage";
    let sig = id.sign(msg);
    assert!(crypto::verify(id.public_key(), msg, &sig));
    assert!(!crypto::verify(id.public_key(), b"tampered", &sig));
}

#[test]
fn public_key_len_is_ml_dsa_65() {
    let id = Identity::generate("bob");
    assert_eq!(id.public_key().len(), crypto::PUBLIC_KEY_LEN);
}

#[test]
fn kem_roundtrip() {
    let seed = [3u8; 32];
    let (dk, ek) = derive_from_seed(&seed);
    assert_eq!(ek.len(), KEM_PK_LEN);
    assert_eq!(ek_from_dk(&dk), ek);
    let (ct, ss_send) = encapsulate(&ek).unwrap();
    let ss_recv = decapsulate(&dk, &ct).unwrap();
    assert_eq!(ss_send, ss_recv);
}

#[test]
fn derivation_is_deterministic() {
    let (dk1, ek1) = derive_from_seed(&[9u8; 32]);
    let (dk2, ek2) = derive_from_seed(&[9u8; 32]);
    assert_eq!(dk1, dk2);
    assert_eq!(ek1, ek2);
    let (_dk3, ek3) = derive_from_seed(&[10u8; 32]);
    assert_ne!(ek1, ek3);
}

#[test]
fn aead_roundtrip() {
    let key = [7u8; 32];
    let nonce = [9u8; 12];
    let aad = b"id|from|to|ts";
    let ct = seal(&key, &nonce, aad, b"secret");
    assert_eq!(
        open(&key, &nonce, aad, &ct).as_deref(),
        Some(&b"secret"[..])
    );
    // Wrong AAD fails authentication.
    assert!(open(&key, &nonce, b"other", &ct).is_none());
}

#[test]
fn aead_has_exact_values() {
    // Two published values of AES-256-GCM with a zero key and a zero nonce.
    let none = seal(&[0u8; 32], &[0u8; 12], b"", b"");
    assert_eq!(
        none,
        vec![
            0x53, 0x0f, 0x8a, 0xfb, 0xc7, 0x45, 0x36, 0xb9, 0xa9, 0x63, 0xb4, 0xf1, 0xc4, 0xcb,
            0x73, 0x8b
        ]
    );
    let zeros = seal(&[0u8; 32], &[0u8; 12], b"", &[0u8; 16]);
    assert_eq!(
        zeros,
        vec![
            0xce, 0xa7, 0x40, 0x3d, 0x4d, 0x60, 0x6b, 0x6e, 0x07, 0x4e, 0xc5, 0xd3, 0xba, 0xf3,
            0x9d, 0x18, 0xd0, 0xd1, 0xc8, 0xa7, 0x99, 0x99, 0x6b, 0xf0, 0x26, 0x5b, 0x98, 0xb5,
            0xd4, 0x8a, 0xb9, 0x19
        ]
    );
    assert!(open(&[0u8; 32], &[0u8; 12], b"", b"short").is_none());
}

#[test]
fn keys_of_the_wrong_length_are_refused() {
    assert!(encapsulate(b"short").is_none());
    let (dk, ek) = derive_from_seed(&[1u8; 32]);
    assert!(decapsulate(&dk, b"short").is_none());
    assert!(decapsulate(b"short", &[0u8; KEM_CT_LEN]).is_none());
    assert!(ek_from_dk(b"short").is_empty());
    assert_eq!(dk.len(), 2400);
    assert_eq!(ek.len(), 1184);
}

#[test]
fn encapsulation_follows_its_message() {
    let (dk, ek) = derive_from_seed(&[1u8; 32]);
    let (ct1, ss1) = encapsulate_with(&ek, &[5u8; 32]).unwrap();
    let (ct2, ss2) = encapsulate_with(&ek, &[5u8; 32]).unwrap();
    let (ct3, ss3) = encapsulate_with(&ek, &[6u8; 32]).unwrap();
    assert_eq!((&ct1, ss1), (&ct2, ss2));
    assert_ne!(ct1, ct3);
    assert_ne!(ss1, ss3);
    assert_eq!(decapsulate(&dk, &ct1), Some(ss1));
}

#[test]
fn a_signature_belongs_to_its_key_and_has_its_length() {
    let a = Identity::from_seed("a", [1u8; 32]);
    let b = Identity::from_seed("b", [2u8; 32]);
    let sig = a.sign(b"m");
    assert_eq!(sig.len(), crypto::SIGNATURE_LEN);
    assert!(!crypto::verify(b.public_key(), b"m", &sig));
    assert!(!crypto::verify(a.public_key(), b"m", &sig[1..]));
    assert!(!crypto::verify(b"short", b"m", &sig));
    assert_eq!(Identity::from_seed("x", [1u8; 32]).public_key(), a.public_key());
}

#[test]
fn an_identity_is_restored_from_its_seed_alone() {
    let seed = [42u8; 32];
    let one = Identity::from_stored("worker", &b64(&seed)).unwrap();
    let two = Identity::from_stored("worker", &b64(&seed)).unwrap();
    assert_eq!(one.kem_ek(), two.kem_ek());
    assert_eq!(one.token().kem_public_key.as_deref(), Some(one.kem_ek()));
    let (ct, ss_send) = encapsulate(&one.token().kem_public_key.unwrap()).unwrap();
    assert_eq!(decapsulate(two.kem_dk(), &ct), Some(ss_send));
    assert_eq!(one.seed_text(), b64(&seed));
    assert_eq!(
        name_and_fingerprint("worker", &b64(&seed)),
        Some(("worker".to_string(), fingerprint(one.public_key())))
    );
}

#[test]
fn a_seed_that_cannot_be_read_is_refused() {
    assert!(Identity::from_stored("w", "!!!").is_err());
    assert!(matches!(
        Identity::from_stored("w", &b64(b"short")),
        Err(Error::Crypto(_))
    ));
    assert!(Authority::from_stored("w", "!!!").is_err());
    assert_eq!(name_and_fingerprint("w", "!!!"), None);
}

#[test]
fn a_key_id_names_the_agent_and_its_key() {
    let a = Identity::from_seed("alice", [1u8; 32]);
    assert_eq!(a.kid(), format!("alice#{}", fingerprint(a.public_key())));
    assert_eq!(a.kem_fingerprint(), fingerprint(a.kem_ek()));
    let o = Authority::from_seed("ops", [1u8; 32]);
    assert_eq!(o.kid(), format!("ops#{}", fingerprint(o.public_key())));
    assert!(crypto::verify(o.public_key(), b"m", &o.sign(b"m")));
}

#[test]
fn a_backup_is_named_after_the_key() {
    assert_eq!(backup_name("identity.json", Some("ab12")), "identity.json.bak-ab12");
}
