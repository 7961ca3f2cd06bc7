//! The wire format.

use agentmsg::error::RejectReason;
use agentmsg::wire::{
    b64, fingerprint, kind_by_name, kind_str, make_kid, split_kid, unb64, validate_name, EncInfo,
    Inner, MsgKind, Receipt, ReceiptStatus, SignedGrant, Wrapper, ALG_ML_DSA_65, ALG_NONE,
    BROADCAST, CTYPE_TEXT, PROTOCOL_VERSION,
};

/// Minimal cleartext message.
fn test_inner(id: &str, from: &str, to: &str, body: &str) -> Inner {
    Inner {
        id: id.into(),
        v: PROTOCOL_VERSION,
        from: from.into(),
        to: to.into(),
        ts: "2026-06-28T00:00:00Z".into(),
        nonce: "abc".into(),
        ctype: CTYPE_TEXT.into(),
        in_reply_to: None,
        body: body.into(),
        kind: MsgKind::default(),
        correlation_id: None,
        supersedes: None,
        enc: None,
        grant: None,
        receipt: None,
    }
}

#[test]
fn roundtrip_inner_bytes_are_stable() {
    let inner = test_inner("01J0", "alice", "bob", "hello");
    let bytes = inner.to_bytes();
    let w = Wrapper {
        v: PROTOCOL_VERSION,
        alg: ALG_ML_DSA_65.into(),
        kid: Some("alice#deadbeef".into()),
        msg: b64(&bytes),
        sig: Some(b64(b"sig")),
    };
    let wire = w.to_bytes().unwrap();
    let parsed = Wrapper::from_bytes(&wire).unwrap();
    assert_eq!(parsed.inner_bytes().unwrap(), bytes);
    let inner2 = Wrapper::parse_inner(&parsed.inner_bytes().unwrap()).unwrap();
    assert_eq!(inner2.from, "alice");
    assert!(inner2.addressed_to("bob"));
    assert!(!inner2.addressed_to("carol"));
}

#[test]
fn unsigned_wrapper_omits_kid_and_sig() {
    let inner = test_inner("1", "alice", "bob", "hi");
    let w = Wrapper {
        v: PROTOCOL_VERSION,
        alg: ALG_NONE.into(),
        kid: None,
        msg: b64(&inner.to_bytes()),
        sig: None,
    };
    let wire = w.to_bytes().unwrap();
    let text = String::from_utf8(wire.clone()).unwrap();
    assert!(!text.contains("\"kid\""));
    assert!(!text.contains("\"sig\""));
    let parsed = Wrapper::from_bytes(&wire).unwrap();
    assert!(parsed.kid.is_none());
    assert!(parsed.sig_bytes().is_err());
}

#[test]
fn broadcast_addressing() {
    let inner = test_inner("1", "a", BROADCAST, "hi");
    assert!(inner.is_broadcast());
    assert!(inner.addressed_to("anyone"));
}

#[test]
fn kid_roundtrip() {
    let pk = b"some-public-key-bytes";
    let kid = make_kid("alice", pk);
    let (name, fp) = split_kid(&kid).unwrap();
    assert_eq!(name, "alice");
    assert_eq!(fp, fingerprint(pk));
}

#[test]
fn fingerprint_is_the_start_of_a_digest() {
    assert_eq!(fingerprint(b"some-public-key-bytes"), "17305c2695cc66d6");
    assert_eq!(make_kid("alice", b"some-public-key-bytes"), "alice#17305c2695cc66d6");
    assert!(split_kid("no-separator").is_none());
}

#[test]
fn base64_is_url_safe_without_padding() {
    assert_eq!(b64(&[0xfb, 0xff, 0xfe, 0x00]), "-__-AA");
    assert_eq!(unb64("-__-AA").unwrap(), vec![0xfb, 0xff, 0xfe, 0x00]);
    assert!(unb64("+//+AA==").is_err());
    assert!(unb64("!!!").is_err());
}

#[test]
fn wrapper_has_an_exact_text() {
    let w = Wrapper {
        v: 2,
        alg: ALG_ML_DSA_65.into(),
        kid: Some("alice#00".into()),
        msg: "bQ".into(),
        sig: Some("cw".into()),
    };
    assert_eq!(
        String::from_utf8(w.to_bytes().unwrap()).unwrap(),
        "{\"v\":2,\"alg\":\"ML-DSA-65\",\"kid\":\"alice#00\",\"msg\":\"bQ\",\"sig\":\"cw\"}"
    );
}

#[test]
fn inner_has_an_exact_text() {
    let i = test_inner("1", "alice", "bob", "a \"quoted\"\nline");
    assert_eq!(
        String::from_utf8(i.to_bytes()).unwrap(),
        "{\"id\":\"1\",\"v\":2,\"from\":\"alice\",\"to\":\"bob\",\"ts\":\"2026-06-28T00:00:00Z\",\
         \"nonce\":\"abc\",\"ctype\":\"text/plain\",\"body\":\"a \\\"quoted\\\"\\nline\",\
         \"kind\":\"message\"}"
    );
}

#[test]
fn every_part_of_a_message_reads_back() {
    let mut i = test_inner("1", "alice", "bob", "h\u{e9}llo \u{1f600}\u{0007}");
    i.kind = MsgKind::Receipt;
    i.in_reply_to = Some("0".into());
    i.correlation_id = Some("c".into());
    i.supersedes = Some("s".into());
    i.enc = Some(EncInfo {
        alg: "a".into(),
        kem_ct: "k".into(),
        recipient_kid: "r".into(),
        nonce: "n".into(),
        ptype: "p".into(),
    });
    i.grant = Some(SignedGrant {
        alg: "a".into(),
        authority_kid: "ops#1".into(),
        grant: "g".into(),
        sig: "s".into(),
    });
    i.receipt = Some(Receipt { ref_id: "0".into(), status: ReceiptStatus::Read });
    assert_eq!(Wrapper::parse_inner(&i.to_bytes()).unwrap(), i);
}

#[test]
fn optional_parts_may_be_missing_or_null() {
    let i = Wrapper::parse_inner(
        b" {\"id\":\"1\", \"v\":1, \"from\":\"a\", \"to\":\"b\", \"ts\":\"t\", \"nonce\":\"n\",\
          \"ctype\":\"c\", \"in_reply_to\":null, \"body\":\"x\", \"unknown\":[1,{\"y\":2}]} ",
    )
    .unwrap();
    assert_eq!(i.kind, MsgKind::Message);
    assert_eq!(i.in_reply_to, None);
    assert!(i.enc.is_none() && i.grant.is_none() && i.receipt.is_none());
}

#[test]
fn malformed_wrappers_are_refused() {
    for text in [
        "",
        "{}",
        "not json",
        "{\"v\":2,\"alg\":\"a\",\"msg\":\"m\"",
        "{\"v\":2,\"alg\":\"a\",\"msg\":\"m\"} x",
        "{\"v\":256,\"alg\":\"a\",\"msg\":\"m\"}",
        "{\"v\":2,\"v\":2,\"alg\":\"a\",\"msg\":\"m\"}",
        "{\"v\":\"2\",\"alg\":\"a\",\"msg\":\"m\"}",
    ] {
        assert_eq!(
            Wrapper::from_bytes(text.as_bytes()).unwrap_err(),
            RejectReason::MalformedWrapper,
            "{text}"
        );
    }
    let w = Wrapper {
        v: 2,
        alg: "a".into(),
        kid: None,
        msg: "!".into(),
        sig: Some("!".into()),
    };
    assert_eq!(w.inner_bytes().unwrap_err(), RejectReason::MalformedWrapper);
    assert_eq!(w.sig_bytes().unwrap_err(), RejectReason::MalformedWrapper);
    assert!(Wrapper::parse_inner(b"{\"id\":1}").is_err());
}

#[test]
fn kinds_are_found_by_name() {
    for k in [
        MsgKind::Message,
        MsgKind::Command,
        MsgKind::Query,
        MsgKind::Result,
        MsgKind::Ack,
        MsgKind::Error,
        MsgKind::Grant,
        MsgKind::Receipt,
    ] {
        assert_eq!(kind_by_name(kind_str(k)), Some(k));
    }
    assert_eq!(kind_by_name("Message"), None);
}

#[test]
fn names_are_checked() {
    assert_eq!(validate_name("alice"), Ok(()));
    assert_eq!(validate_name(""), Err("empty name"));
    assert_eq!(validate_name("a#b"), Err("name must not contain '#'"));
    assert!(validate_name("*").is_err());
}
