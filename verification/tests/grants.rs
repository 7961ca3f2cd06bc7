//! Human-authorization grants.

use agentmsg::authority::Authority;
use agentmsg::cli;
use agentmsg::error::RejectReason;
use agentmsg::grant::{decode_token, encode_token, mint, verify, GrantClaims, GRANT_TOKEN_PREFIX};
use agentmsg::trust::TrustStore;
use agentmsg::wire::b64;
use ulid::Ulid;

fn claims(subject: &str, expiry: &str) -> GrantClaims {
    GrantClaims {
        id: Ulid::new().to_string(),
        action: "deploy".into(),
        scope: "prod".into(),
        subject: subject.into(),
        expiry: expiry.into(),
        nonce: "n".into(),
    }
}

#[test]
fn mint_verify_roundtrip() {
    let auth = Authority::generate("ops");
    let mut trust = TrustStore::default();
    trust.add_authority_from_token(&auth.token());
    let c = claims("agent-a", "2999-01-01T00:00:00Z");
    let sg = mint(&auth, &c);
    let got = verify(&sg, &trust).unwrap();
    assert_eq!(got, c);
}

#[test]
fn expired_rejected() {
    let auth = Authority::generate("ops");
    let mut trust = TrustStore::default();
    trust.add_authority_from_token(&auth.token());
    let sg = mint(&auth, &claims("agent-a", "2000-01-01T00:00:00Z"));
    assert_eq!(verify(&sg, &trust).unwrap_err(), RejectReason::GrantExpired);
}

#[test]
fn unknown_authority_rejected() {
    let auth = Authority::generate("ops");
    let trust = TrustStore::default();
    let sg = mint(&auth, &claims("agent-a", "2999-01-01T00:00:00Z"));
    assert_eq!(
        verify(&sg, &trust).unwrap_err(),
        RejectReason::UnknownAuthority
    );
}

#[test]
fn grant_token_roundtrip() {
    let auth = Authority::generate("ops");
    let sg = mint(&auth, &claims("agent-a", "2999-01-01T00:00:00Z"));
    let tok = encode_token(&sg);
    let back = decode_token(&tok).unwrap();
    assert_eq!(back.authority_kid, sg.authority_kid);
    assert_eq!(back.grant, sg.grant);
}

#[test]
fn an_authority_with_another_key_is_unknown() {
    let auth = Authority::generate("ops");
    let other = Authority::generate("ops");
    let mut trust = TrustStore::default();
    trust.add_authority_from_token(&other.token());
    let sg = mint(&auth, &claims("agent-a", "2999-01-01T00:00:00Z"));
    assert_eq!(
        verify(&sg, &trust).unwrap_err(),
        RejectReason::UnknownAuthority
    );
}

#[test]
fn changed_claims_are_refused() {
    let auth = Authority::generate("ops");
    let mut trust = TrustStore::default();
    trust.add_authority_from_token(&auth.token());
    let mut sg = mint(&auth, &claims("agent-a", "2999-01-01T00:00:00Z"));
    sg.grant = b64(b"{}");
    assert_eq!(verify(&sg, &trust).unwrap_err(), RejectReason::InvalidGrant);
    sg.grant = "!".into();
    assert_eq!(verify(&sg, &trust).unwrap_err(), RejectReason::InvalidGrant);
    sg.authority_kid = "no-separator".into();
    assert_eq!(verify(&sg, &trust).unwrap_err(), RejectReason::InvalidGrant);
}

#[test]
fn an_expiry_that_is_no_time_counts_as_past() {
    let auth = Authority::generate("ops");
    let mut trust = TrustStore::default();
    trust.add_authority_from_token(&auth.token());
    let sg = mint(&auth, &claims("agent-a", "tomorrow"));
    assert!(verify(&sg, &trust).is_err());
}

#[test]
fn a_token_of_another_kind_is_refused() {
    assert!(decode_token("agentmsg-id-v2.abc.def").is_err());
    assert!(decode_token(&format!("{GRANT_TOKEN_PREFIX}!!!")).is_err());
    assert!(decode_token(&format!("{GRANT_TOKEN_PREFIX}{}", b64(b"{}"))).is_err());
}

#[test]
fn a_minted_grant_verifies_from_its_token() {
    let auth = Authority::generate("ops");
    let mut trust = TrustStore::default();
    trust.add_authority_from_token(&auth.token());
    let (c, token) = cli::mint_grant(&auth, "alice", "deploy", "prod", "2999-01-01T00:00:00Z");
    let got = verify(&decode_token(&token).unwrap(), &trust).unwrap();
    assert_eq!(got, c);
    assert_eq!(got.subject, "alice");
    assert_ne!(got.id, got.nonce);
    assert_eq!(got.id.len(), 26);
}
