//! Identity and authority tokens.

use agentmsg::authority::{Authority, AuthorityToken, AUTH_TOKEN_PREFIX};
use agentmsg::error::Error;
use agentmsg::identity::Identity;
use agentmsg::token::{IdentityToken, TOKEN_PREFIX_V2};
use agentmsg::wire::b64;

#[test]
fn authority_token_roundtrip() {
    let a = Authority::generate("ops-lead");
    let tok = a.token();
    let encoded = tok.encode();
    assert!(encoded.starts_with(AUTH_TOKEN_PREFIX));
    assert_eq!(AuthorityToken::decode(&encoded).unwrap(), tok);
}

#[test]
fn rejects_identity_token() {
    assert!(matches!(
        AuthorityToken::decode("agentmsg-id-v2.abc.def"),
        Err(Error::NotAnAuthorityToken)
    ));
}

#[test]
fn token_token_roundtrip() {
    let id = Identity::generate("orchestrator-home");
    let t = id.token();
    let encoded = t.encode();
    assert!(encoded.starts_with(TOKEN_PREFIX_V2));
    assert!(!encoded.contains(' '));
    // Tolerates pasted whitespace.
    let decoded = IdentityToken::decode(&format!("  {encoded}\n")).unwrap();
    assert_eq!(decoded, t);
}

#[test]
fn rejects_garbage() {
    assert!(IdentityToken::decode("not-a-token").is_err());
    assert!(IdentityToken::decode("agentmsg-id-v2.!!!").is_err());
}

#[test]
fn rejects_truncated_crc() {
    let id = Identity::generate("alice");
    let mut encoded = id.token().encode();
    encoded.pop();
    encoded.pop();
    assert!(matches!(
        IdentityToken::decode(&encoded),
        Err(Error::TokenCorrupt(_))
    ));
}

fn sealed(prefix: &str, json: &str) -> String {
    let body = b64(json.as_bytes());
    let crc = crc32fast::hash(body.as_bytes());
    format!("{prefix}{body}.{}", b64(&crc.to_be_bytes()))
}

#[test]
fn rejects_wrong_public_key_length() {
    // A token with a right checksum whose public key is far short of the length
    // of an ML-DSA-65 key.
    let json = format!("{{\"name\":\"alice\",\"pk\":\"{}\"}}", b64(&[0u8; 100]));
    let token = sealed(TOKEN_PREFIX_V2, &json);
    match IdentityToken::decode(&token) {
        Err(Error::TokenCorrupt(msg)) => {
            assert!(msg.contains("expected 1952"), "unexpected message: {msg}");
        }
        other => panic!("expected TokenCorrupt, got {other:?}"),
    }
}

#[test]
fn a_changed_body_does_not_match_its_checksum() {
    let id = Identity::generate("alice");
    let encoded = id.token().encode();
    let n = TOKEN_PREFIX_V2.len();
    let other = if &encoded[n + 4..n + 5] == "A" { "B" } else { "A" };
    let changed = format!("{}{}{}", &encoded[..n + 4], other, &encoded[n + 5..]);
    assert!(matches!(
        IdentityToken::decode(&changed),
        Err(Error::TokenCorrupt(_))
    ));
}

#[test]
fn a_token_without_encryption_key_reads_back() {
    let t = IdentityToken::new("bob", vec![7u8; 1952]);
    let back = IdentityToken::decode(&t.encode()).unwrap();
    assert_eq!(back, t);
    assert_eq!(back.kem_public_key, None);
}

#[test]
fn an_empty_name_is_refused() {
    let json = format!("{{\"name\":\"\",\"pk\":\"{}\"}}", b64(&[0u8; 1952]));
    assert!(IdentityToken::decode(&sealed(TOKEN_PREFIX_V2, &json)).is_err());
    assert!(AuthorityToken::decode(&sealed(AUTH_TOKEN_PREFIX, &json)).is_err());
}

#[test]
fn a_first_version_token_is_read() {
    let json = format!("{{\"name\":\"old\",\"pk\":\"{}\"}}", b64(&[3u8; 1952]));
    let t = IdentityToken::decode(&format!("agentmsg-id-v1.{}", b64(json.as_bytes()))).unwrap();
    assert_eq!(t.name, "old");
    assert_eq!(t.public_key, vec![3u8; 1952]);
    assert_eq!(t.kem_public_key, None);
}

#[test]
fn a_token_says_its_fingerprint() {
    assert_eq!(
        IdentityToken::new("a", b"some-public-key-bytes".to_vec()).fingerprint(),
        "17305c2695cc66d6"
    );
}

#[test]
fn damage_to_a_token_shows() {
    let e = Identity::from_seed("alice", [1u8; 32]).token().encode();
    let p = TOKEN_PREFIX_V2.len();
    let dot = e.rfind('.').unwrap();
    for n in (p..e.len()).step_by(97).chain(e.len() - 8..e.len()) {
        assert!(matches!(
            IdentityToken::decode(&e[..n]),
            Err(Error::TokenCorrupt(_))
        ));
    }
    for i in (p..dot).step_by(61) {
        for c in ["A", "z", ".", " ", "!"] {
            if &e[i..i + 1] == c {
                continue;
            }
            let s = format!("{}{}{}", &e[..i], c, &e[i + 1..]);
            assert!(matches!(
                IdentityToken::decode(&s),
                Err(Error::TokenCorrupt(_))
            ));
        }
    }
}
