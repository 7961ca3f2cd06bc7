//! Pairing.

use agentmsg::identity::Identity;
use agentmsg::message::{build, build_pair, verify_pair, BuildOpts};
use agentmsg::pair::sas;
use agentmsg::wire::{b64, CTYPE_PAIR, CTYPE_TEXT};

#[test]
fn sas_is_symmetric() {
    let a = b"alice-public-key-bytes";
    let b = b"bob-public-key-bytes";
    assert_eq!(sas(a, b), sas(b, a));
}

#[test]
fn sas_differs_for_different_keys() {
    let a = b"alice-public-key-bytes";
    let b = b"bob-public-key-bytes";
    let c = b"carol-public-key-bytes";
    assert_ne!(sas(a, b), sas(a, c));
}

#[test]
fn sas_is_six_digits_grouped() {
    let s = sas(b"x", b"y");
    // Format "NNN NNN": 7 chars, a single space in the middle, all digits.
    assert_eq!(s.len(), 7);
    assert_eq!(&s[3..4], " ");
    assert!(s.chars().filter(|c| c.is_ascii_digit()).count() == 6);
}

#[test]
fn sas_has_exact_values() {
    assert_eq!(sas(b"alice-public-key-bytes", b"bob-public-key-bytes"), "740 666");
    assert_eq!(sas(b"x", b"y"), "772 750");
}

#[test]
fn a_hello_proves_possession_of_its_key() {
    let alice = Identity::generate("alice");
    let (inner, w) = build_pair(&alice);
    assert_eq!(inner.ctype, CTYPE_PAIR);
    let raw = w.to_bytes().unwrap();
    let hello = verify_pair(&raw).unwrap();
    assert_eq!(hello.name, "alice");
    assert_eq!(hello.public_key, alice.public_key());
    assert_eq!(hello.kem_public_key.as_deref(), Some(alice.kem_ek()));
}

#[test]
fn a_hello_under_another_signature_is_refused() {
    let alice = Identity::generate("alice");
    let mallory = Identity::generate("alice");
    let (inner, mut w) = build_pair(&alice);
    w.sig = Some(b64(&mallory.sign(&inner.to_bytes())));
    assert!(verify_pair(&w.to_bytes().unwrap()).is_err());
}

#[test]
fn a_plain_message_is_no_hello() {
    let alice = Identity::generate("alice");
    let (_i, w) = build(&alice, &BuildOpts::new("bob", CTYPE_TEXT, "hi")).unwrap();
    assert!(verify_pair(&w.to_bytes().unwrap()).is_err());
    assert!(verify_pair(b"junk").is_err());
}
