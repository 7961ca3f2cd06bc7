//! Building and verifying messages.

use agentmsg::error::RejectReason;
use agentmsg::identity::Identity;
use agentmsg::message::{build, build_with, verify_at, verify_incoming, BuildOpts, Fresh, Policy};
use agentmsg::token::IdentityToken;
use agentmsg::trust::TrustStore;
use agentmsg::wire::{b64, Wrapper, ALG_KEM_AEAD, CTYPE_TEXT};

fn trusted(id: &Identity) -> TrustStore {
    let mut ts = TrustStore::default();
    ts.add_from_token(&IdentityToken::new(&id.name, id.public_key().to_vec()));
    ts
}

#[test]
fn build_then_verify_ok() {
    let alice = Identity::generate("alice");
    let bob = Identity::generate("bob");
    let trust = trusted(&alice);
    let (_inner, w) = build(&alice, &BuildOpts::new("bob", CTYPE_TEXT, "hello")).unwrap();
    let raw = w.to_bytes().unwrap();
    let got = verify_incoming(&raw, &bob, &trust, 300, 65536, false, true).unwrap();
    assert_eq!(got.from, "alice");
    assert_eq!(got.body, "hello");
}

#[test]
fn unknown_signer_rejected() {
    let alice = Identity::generate("alice");
    let bob = Identity::generate("bob");
    let empty = TrustStore::default();
    let (_i, w) = build(&alice, &BuildOpts::new("bob", CTYPE_TEXT, "hi")).unwrap();
    let raw = w.to_bytes().unwrap();
    assert_eq!(
        verify_incoming(&raw, &bob, &empty, 300, 65536, false, true)
            .unwrap_err()
            .reason,
        RejectReason::UnknownSigner
    );
}

#[test]
fn encrypt_roundtrip() {
    let alice = Identity::generate("alice");
    let bob = Identity::generate("bob");
    let trust = trusted(&alice);
    let mut opts = BuildOpts::new("bob", CTYPE_TEXT, "secret");
    opts.encrypt_to = Some(bob.kem_ek().to_vec());
    let (_i, w) = build(&alice, &opts).unwrap();
    let raw = w.to_bytes().unwrap();
    let got = verify_incoming(&raw, &bob, &trust, 300, 65536, false, true).unwrap();
    assert_eq!(got.body, "secret");
    assert_eq!(got.ctype, CTYPE_TEXT);
}

#[test]
fn encrypt_broadcast_rejected() {
    let alice = Identity::generate("alice");
    let bob = Identity::generate("bob");
    let mut opts = BuildOpts::new("*", CTYPE_TEXT, "secret");
    opts.encrypt_to = Some(bob.kem_ek().to_vec());
    assert_eq!(
        build(&alice, &opts).unwrap_err(),
        RejectReason::EncBroadcastUnsupported
    );
}

#[test]
fn unsigned_requires_opt_in() {
    let alice = Identity::generate("alice");
    let bob = Identity::generate("bob");
    let empty = TrustStore::default();
    let mut opts = BuildOpts::new("bob", CTYPE_TEXT, "hi");
    opts.unsigned = true;
    let (_i, w) = build(&alice, &opts).unwrap();
    let raw = w.to_bytes().unwrap();
    assert_eq!(
        verify_incoming(&raw, &bob, &empty, 300, 65536, false, true)
            .unwrap_err()
            .reason,
        RejectReason::UnsignedNotAllowed
    );
    // Allowed when configured and the sender is not a known signer.
    let got = verify_incoming(&raw, &bob, &empty, 300, 65536, true, true).unwrap();
    assert_eq!(got.body, "hi");
}

#[test]
fn unsigned_downgrade_rejected() {
    let alice = Identity::generate("alice");
    let bob = Identity::generate("bob");
    let trust = trusted(&alice); // alice is a known signing agent
    let mut opts = BuildOpts::new("bob", CTYPE_TEXT, "hi");
    opts.unsigned = true;
    let (_i, w) = build(&alice, &opts).unwrap();
    let raw = w.to_bytes().unwrap();
    assert_eq!(
        verify_incoming(&raw, &bob, &trust, 300, 65536, true, true)
            .unwrap_err()
            .reason,
        RejectReason::DowngradeRejected
    );
}

#[test]
fn tampered_body_rejected() {
    let alice = Identity::generate("alice");
    let bob = Identity::generate("bob");
    let trust = trusted(&alice);
    let (_i, mut w) = build(&alice, &BuildOpts::new("bob", CTYPE_TEXT, "hi")).unwrap();
    let mut inner = Wrapper::parse_inner(&w.inner_bytes().unwrap()).unwrap();
    inner.body = "EVIL".into();
    w.msg = b64(&inner.to_bytes());
    let raw = w.to_bytes().unwrap();
    assert_eq!(
        verify_incoming(&raw, &bob, &trust, 300, 65536, false, true)
            .unwrap_err()
            .reason,
        RejectReason::InvalidSignature
    );
}

#[test]
fn stale_rejected() {
    let alice = Identity::generate("alice");
    let bob = Identity::generate("bob");
    let trust = trusted(&alice);
    let (_i, mut w) = build(&alice, &BuildOpts::new("bob", CTYPE_TEXT, "hi")).unwrap();
    let mut inner = Wrapper::parse_inner(&w.inner_bytes().unwrap()).unwrap();
    inner.ts = "2000-01-01T00:00:00Z".into();
    let bytes = inner.to_bytes();
    w.msg = b64(&bytes);
    w.sig = Some(b64(&alice.sign(&bytes))); // re-sign so only freshness fails
    let raw = w.to_bytes().unwrap();
    assert_eq!(
        verify_incoming(&raw, &bob, &trust, 300, 65536, false, true)
            .unwrap_err()
            .reason,
        RejectReason::Stale
    );
}

/// What verification says of a wrapper that was changed after it was built.
fn refusal(change: impl FnOnce(&mut Wrapper), accept_v1: bool, limit: usize) -> RejectReason {
    let alice = Identity::from_seed("alice", [1u8; 32]);
    let bob = Identity::from_seed("bob", [2u8; 32]);
    let trust = trusted(&alice);
    let (_i, mut w) = build(&alice, &BuildOpts::new("bob", CTYPE_TEXT, "hi")).unwrap();
    change(&mut w);
    verify_incoming(&w.to_bytes().unwrap(), &bob, &trust, 300, limit, false, accept_v1)
        .unwrap_err()
        .reason
}

#[test]
fn refusals_say_what_is_wrong() {
    assert_eq!(
        refusal(|w| w.v = 3, true, 10),
        RejectReason::UnsupportedVersion(3)
    );
    assert_eq!(
        refusal(|w| w.v = 1, false, 10),
        RejectReason::UnsupportedVersion(1)
    );
    assert_eq!(
        refusal(|w| w.alg = "rot13".into(), true, 10),
        RejectReason::UnsupportedAlg("rot13".into())
    );
    assert_eq!(
        refusal(|w| w.kid = Some("alice#0000".into()), true, 10),
        RejectReason::KidMismatch
    );
    assert_eq!(refusal(|w| w.sig = None, true, 10), RejectReason::MalformedWrapper);
    assert_eq!(
        refusal(|w| w.sig = Some(b64(b"no signature")), true, 10),
        RejectReason::InvalidSignature
    );
    assert_eq!(refusal(|_| {}, true, 1), RejectReason::TooLarge);
}

#[test]
fn a_refusal_names_the_claimed_sender() {
    let alice = Identity::from_seed("alice", [1u8; 32]);
    let bob = Identity::from_seed("bob", [2u8; 32]);
    let (_i, w) = build(&alice, &BuildOpts::new("bob", CTYPE_TEXT, "hi")).unwrap();
    let none = TrustStore::default();
    let info =
        verify_incoming(&w.to_bytes().unwrap(), &bob, &none, 300, 10, false, true).unwrap_err();
    assert_eq!(info.claimed_sender.as_deref(), Some("alice"));
    let info = verify_incoming(b"junk", &bob, &none, 300, 10, false, true).unwrap_err();
    assert_eq!(info.claimed_sender, None);
    assert_eq!(info.reason, RejectReason::MalformedWrapper);
}

#[test]
fn a_first_version_message_is_read_where_accepted() {
    let alice = Identity::from_seed("alice", [1u8; 32]);
    let bob = Identity::from_seed("bob", [2u8; 32]);
    let (_i, mut w) = build(&alice, &BuildOpts::new("bob", CTYPE_TEXT, "old")).unwrap();
    w.v = 1;
    let got = verify_incoming(
        &w.to_bytes().unwrap(),
        &bob,
        &trusted(&alice),
        300,
        100,
        false,
        true,
    )
    .unwrap();
    assert_eq!(got.body, "old");
}

fn moment() -> Fresh {
    Fresh {
        id: "id-1".into(),
        ts: "2026-06-28T00:00:00Z".into(),
        nonce: [1u8; 16],
        secret: [2u8; 32],
        aead_nonce: [3u8; 12],
    }
}

#[test]
fn a_message_is_made_of_its_moment() {
    let alice = Identity::from_seed("alice", [1u8; 32]);
    let bob = Identity::from_seed("bob", [2u8; 32]);
    let mut opts = BuildOpts::new("bob", CTYPE_TEXT, "secret");
    opts.correlation_id = Some("c".into());
    opts.encrypt_to = Some(bob.kem_ek().to_vec());
    let (i, w) = build_with(&alice, &opts, &moment()).unwrap();
    assert_eq!(i.id, "id-1");
    assert_eq!(i.nonce, b64(&[1u8; 16]));
    assert_eq!(i.ctype, ALG_KEM_AEAD);
    let enc = i.enc.as_ref().unwrap();
    assert_eq!(enc.ptype, CTYPE_TEXT);
    assert_eq!(enc.recipient_kid, bob.kem_fingerprint());
    let policy = Policy {
        freshness_secs: 300,
        max_payload: 1000,
        allow_unsigned: false,
        accept_v1: false,
    };
    // The clock in nanoseconds at the message's own time.
    let at: i128 = 1_782_604_800 * 1_000_000_000;
    let raw = w.to_bytes().unwrap();
    let got = verify_at(at, &raw, &bob, &trusted(&alice), &policy).unwrap();
    assert_eq!(got.body, "secret");
    assert_eq!(got.correlation_id.as_deref(), Some("c"));
    // On either side of the window.
    let edge: i128 = 300 * 1_000_000_000;
    assert!(verify_at(at + edge, &raw, &bob, &trusted(&alice), &policy).is_ok());
    assert!(verify_at(at - edge, &raw, &bob, &trusted(&alice), &policy).is_ok());
    assert_eq!(
        verify_at(at + 302 * 1_000_000_000, &raw, &bob, &trusted(&alice), &policy)
            .unwrap_err()
            .reason,
        RejectReason::Stale
    );
}

#[test]
fn only_the_recipient_can_decrypt() {
    let alice = Identity::from_seed("alice", [1u8; 32]);
    let bob = Identity::from_seed("bob", [2u8; 32]);
    let carol = Identity::from_seed("carol", [3u8; 32]);
    let mut opts = BuildOpts::new("bob", CTYPE_TEXT, "secret");
    opts.encrypt_to = Some(bob.kem_ek().to_vec());
    let (_i, w) = build(&alice, &opts).unwrap();
    let raw = w.to_bytes().unwrap();
    assert_eq!(
        verify_incoming(&raw, &carol, &trusted(&alice), 300, 5000, false, true)
            .unwrap_err()
            .reason,
        RejectReason::UnknownRecipientKey
    );
    // A ciphertext that was moved to another envelope does not open.
    let mut inner = Wrapper::parse_inner(&w.inner_bytes().unwrap()).unwrap();
    inner.id = "moved".into();
    let bytes = inner.to_bytes();
    let mut moved = Wrapper::from_bytes(&raw).unwrap();
    moved.msg = b64(&bytes);
    moved.sig = Some(b64(&alice.sign(&bytes)));
    assert_eq!(
        verify_incoming(
            &moved.to_bytes().unwrap(),
            &bob,
            &trusted(&alice),
            300,
            5000,
            false,
            true
        )
        .unwrap_err()
        .reason,
        RejectReason::DecryptFailed
    );
    opts.encrypt_to = Some(vec![1, 2, 3]);
    assert_eq!(
        build(&alice, &opts).unwrap_err(),
        RejectReason::UnknownRecipientKey
    );
}

#[test]
fn a_built_message_has_a_unique_id_and_the_current_time() {
    let alice = Identity::from_seed("alice", [1u8; 32]);
    let (one, _) = build(&alice, &BuildOpts::new("bob", CTYPE_TEXT, "hi")).unwrap();
    let (two, _) = build(&alice, &BuildOpts::new("bob", CTYPE_TEXT, "hi")).unwrap();
    assert_ne!(one.id, two.id);
    assert_ne!(one.nonce, two.nonce);
    assert_eq!(one.id.len(), 26);
    assert!(one
        .id
        .chars()
        .all(|c| "0123456789ABCDEFGHJKMNPQRSTVWXYZ".contains(c)));
    assert!(one.ts.ends_with('Z'));
}
