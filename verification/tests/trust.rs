//! The trust store.

use agentmsg::authority::Authority;
use agentmsg::error::Error;
use agentmsg::token::IdentityToken;
use agentmsg::trust::TrustStore;

#[test]
fn add_list_remove() {
    let mut ts = TrustStore::default();
    let tok = IdentityToken::new("bob", b"bob-key".to_vec());
    ts.add_from_token(&tok);
    assert!(ts.contains("bob"));
    assert_eq!(ts.public_key("bob").unwrap(), b"bob-key");
    assert_eq!(ts.list().len(), 1);
    assert!(ts.remove("bob"));
    assert!(!ts.contains("bob"));
    assert!(ts.public_key("bob").is_err());
}

#[test]
fn rotation_replaces_key_and_current_key_reports_old() {
    let mut ts = TrustStore::default();
    ts.add("bob", b"old-key");
    assert_eq!(ts.current_key("bob").as_deref(), Some(&b"old-key"[..]));
    // No record yet for an unknown agent.
    assert!(ts.current_key("carol").is_none());

    // Rotate to a new key under the same name.
    ts.add("bob", b"new-key");
    assert_eq!(ts.current_key("bob").as_deref(), Some(&b"new-key"[..]));
    assert_eq!(ts.public_key("bob").unwrap(), b"new-key");
    assert_eq!(ts.list().len(), 1); // still a single record
}

#[test]
fn stores_and_returns_kem_key() {
    let mut ts = TrustStore::default();
    ts.add_from_token(&IdentityToken::with_kem(
        "dave",
        vec![1, 2, 3],
        Some(vec![9, 8, 7]),
    ));
    assert_eq!(ts.kem_public_key("dave").as_deref(), Some(&[9u8, 8, 7][..]));
    // An agent added without a KEM key returns None.
    ts.add("eve", b"k");
    assert!(ts.kem_public_key("eve").is_none());
}

#[test]
fn agents_are_listed_by_name() {
    let mut ts = TrustStore::default();
    ts.add("zoe", b"z");
    ts.add("adam", b"a");
    ts.add("mia", b"m");
    let names: Vec<String> = ts.list().into_iter().map(|a| a.name).collect();
    assert_eq!(names, vec!["adam", "mia", "zoe"]);
    assert!(!ts.remove("nobody"));
}

#[test]
fn a_record_that_cannot_be_read_is_reported() {
    let mut ts = TrustStore::default();
    ts.put_agent_record("bad", "!!!", None);
    assert!(ts.contains("bad"));
    assert!(matches!(ts.public_key("bad"), Err(Error::Store(_))));
    assert!(ts.current_key("bad").is_none());
    assert!(ts.list().is_empty());
    assert!(matches!(ts.public_key("none"), Err(Error::UnknownAgent(n)) if n == "none"));
}

#[test]
fn authorities_are_kept_apart_from_agents() {
    let ops = Authority::generate("ops");
    let mut ts = TrustStore::default();
    ts.add_authority_from_token(&ops.token());
    assert!(!ts.contains("ops"));
    assert_eq!(ts.authority_public_key("ops").unwrap(), ops.public_key());
    assert_eq!(ts.list_authorities().len(), 1);
    assert!(ts.remove_authority("ops"));
    assert!(!ts.remove_authority("ops"));
    assert!(ts.authority_public_key("ops").is_err());
}

#[test]
fn records_carry_over() {
    let mut ts = TrustStore::default();
    ts.add_with_kem("bob", b"key", Some(b"kem"));
    ts.add("amy", b"other");
    let mut back = TrustStore::default();
    for r in ts.agent_records() {
        back.put_agent_record(&r.name, &r.pk, r.kem_pk.as_deref());
    }
    assert_eq!(back.current_key("bob").as_deref(), Some(&b"key"[..]));
    assert_eq!(back.kem_public_key("bob").as_deref(), Some(&b"kem"[..]));
    assert_eq!(back.list(), ts.list());
}
