//! The configuration.

use agentmsg::config::Config;
use agentmsg::error::Error;

#[test]
fn topic_validation() {
    assert!(Config::validate_topic("agentmsg/chat").is_ok());
    assert!(Config::validate_topic("a/+/b").is_err());
    assert!(Config::validate_topic("a/#").is_err());
    assert!(Config::validate_topic("").is_err());
}

#[test]
fn defaults_are_sane() {
    let c = Config::default();
    assert_eq!(c.broker_port, 8883);
    assert!(c.tls);
    assert_eq!(c.max_messages, 50_000);
    assert!(!c.is_connectable());
}

#[test]
fn a_complete_configuration_is_connectable() {
    let mut c = Config::default();
    c.set_broker("broker.example", 8884, true);
    assert!(!c.is_connectable());
    c.set_credentials("user", "");
    assert!(!c.is_connectable());
    c.set_topic("a/b").unwrap();
    assert!(c.is_connectable());
    assert_eq!(c.endpoint(), "broker.example:8884");
    assert_eq!(c.primary_topic(), Some("a/b"));
}

#[test]
fn topics_are_set_and_added() {
    let mut c = Config::default();
    c.set_topic("a").unwrap();
    c.add_topic("b").unwrap();
    c.add_topic("a").unwrap();
    assert_eq!(c.topics, vec!["a", "b"]);
    assert!(matches!(c.add_topic("x/#"), Err(Error::Config(_))));
    assert_eq!(c.topics, vec!["a", "b"]);
    c.set_topic("c").unwrap();
    assert_eq!(c.topics, vec!["c"]);
    assert!(c.has_topic("c"));
    assert!(!c.has_topic("a"));
}

#[test]
fn only_given_flags_change() {
    let mut c = Config::default();
    let before = c.accept_v1;
    c.set_security(Some(true), None, Some(true), Some(false));
    assert!(c.allow_unsigned);
    assert_eq!(c.accept_v1, before);
    assert!(c.require_encryption);
    assert!(!c.auto_receipts);
}
