//! The command line.

use agentmsg::authority::AuthorityToken;
use agentmsg::cli::{
    add_agent, agent_cmd, ask, authority_cmd, authority_key, batch_ack, body_source,
    check_config_cmd, check_identity_name, config_cmd, default_consumer, exit_code,
    generate_authority, generate_identity, grant_source, identity_key, is_daemon_run,
    known_fingerprint, may_generate_authority, may_generate_identity, mint_grant_with, read_step,
    redacted, recipient, run, show, show_added, show_agent_reply, show_authority_reply, show_frame,
    show_generated_authority, show_generated_identity, show_grant, show_key, start_step,
    token_source, wait_limit, AgentStep, AuthorityStep, Command, ConfigCmd, DaemonCmd, FrameText,
    IdCmd, PairCmd, PresenceCmd, ReadStep, SendArgs, Shown, Source, StartStep,
};
use agentmsg::config::Config;
use agentmsg::error::{Error, RejectReason};
use agentmsg::ipc::{PendingPairView, Request, Response, StatusInfo, StreamFrame};
use agentmsg::render::{show_agents, show_config, show_down, show_flags, show_topics};
use agentmsg::store::{ConsumerRow, PresenceRow, RejectionRow, StoredMsg};
use agentmsg::text::tail_lines;
use agentmsg::token::IdentityToken;
use agentmsg::trust::TrustStore;
use agentmsg::wire::fingerprint;

fn text(r: Result<Shown, Error>) -> String {
    match r {
        Ok(Shown::Text(t)) => t,
        other => panic!("{other:?}"),
    }
}

fn asked(cmd: &Command) -> (bool, Request) {
    let a = ask(cmd, "me", "body", None).unwrap().unwrap();
    (a.hello, a.request)
}

#[test]
fn errors_have_exit_codes() {
    for (e, code) in [
        (Error::DaemonNotRunning("x".into()), 3),
        (Error::NoIdentity, 4),
        (Error::IdentityNameMismatch("x".into()), 4),
        (Error::NoAuthority, 4),
        (Error::UnknownAgent("x".into()), 5),
        (Error::InvalidToken("x".into()), 5),
        (Error::TokenCorrupt("x".into()), 5),
        (Error::RotationRequired("x".into()), 5),
        (Error::NotAnAuthorityToken, 5),
        (Error::Timeout("x".into()), 6),
        (Error::Config("x".into()), 1),
        (Error::Rejected(RejectReason::Stale), 1),
    ] {
        assert_eq!(exit_code(&e), code);
        let m = e.message();
        assert_eq!(run(&Err(e)), Some((format!("error: {m}"), code)));
    }
    assert_eq!(run(&Ok(())), None);
}

#[test]
fn input_comes_from_where_it_is_asked() {
    let some = |s: &str| Some(s.to_string());
    assert_eq!(
        token_source(&some("t"), &some("f")).unwrap(),
        Source::File("f".into())
    );
    assert_eq!(token_source(&some("-"), &None).unwrap(), Source::Stdin);
    assert_eq!(token_source(&some("t"), &None).unwrap(), Source::Given("t".into()));
    assert!(matches!(token_source(&None, &None), Err(Error::Config(_))));
    assert_eq!(body_source(&some("b"), &some("-")).unwrap(), Source::Stdin);
    assert_eq!(
        body_source(&some("b"), &some("f")).unwrap(),
        Source::File("f".into())
    );
    assert_eq!(body_source(&some("-"), &None).unwrap(), Source::Given("-".into()));
    assert!(matches!(body_source(&None, &None), Err(Error::Config(_))));
    assert_eq!(grant_source("@file"), Source::File("file".into()));
    assert_eq!(grant_source("token"), Source::Given("token".into()));
    assert_eq!(recipient(&some("bob"), true).unwrap(), "*");
    assert_eq!(recipient(&some("bob"), false).unwrap(), "bob");
    assert!(matches!(recipient(&None, false), Err(Error::Config(_))));
    assert_eq!(default_consumer(&None, "me"), "me");
    assert_eq!(default_consumer(&some("c"), "me"), "c");
}

#[test]
fn the_daemon_is_recognised_by_its_arguments() {
    let args = |v: &[&str]| v.iter().map(|s| s.to_string()).collect::<Vec<String>>();
    assert!(is_daemon_run(&args(&["daemon", "run"])));
    assert!(is_daemon_run(&args(&["--json", "daemon", "-v", "run", "x"])));
    assert!(!is_daemon_run(&args(&["daemon", "start"])));
    assert!(!is_daemon_run(&args(&["daemon"])));
    assert!(!is_daemon_run(&args(&["x", "daemon", "run"])));
}

#[test]
fn an_identity_is_replaced_only_by_force() {
    assert!(!may_generate_identity("worker", false, None).unwrap());
    assert!(may_generate_identity("worker", true, Some(("orchestrator", "ab"))).unwrap());
    match may_generate_identity("worker", false, Some(("orchestrator", "ab"))) {
        Err(Error::IdentityNameMismatch(m)) => assert_eq!(
            m,
            "an identity 'orchestrator' (ab) already exists; refusing to generate 'worker' \u{2014} \
             pass --force to replace it"
        ),
        other => panic!("{other:?}"),
    }
    assert!(matches!(
        may_generate_identity("worker", false, Some(("worker", "ab"))),
        Err(Error::IdentityExists(_))
    ));
    assert!(matches!(
        may_generate_identity("a#b", true, None),
        Err(Error::Config(m)) if m == "invalid identity name: name must not contain '#'"
    ));
    assert!(!may_generate_authority("ops", false, false).unwrap());
    assert!(may_generate_authority("ops", true, true).unwrap());
    assert!(may_generate_authority("ops", false, true).is_err());
    assert!(may_generate_authority("", true, false).is_err());
}

#[test]
fn a_key_changes_only_by_rotation() {
    let mut ts = TrustStore::default();
    let one = IdentityToken::new("bob", b"one".to_vec());
    let two = IdentityToken::new("bob", b"two".to_vec());
    let added = add_agent(&mut ts, &one, false).unwrap();
    assert_eq!(added.rotated_from, None);
    assert_eq!(
        show_added(&added),
        format!("Added 'bob' ({})", fingerprint(b"one"))
    );
    // The same key again is no rotation.
    assert!(add_agent(&mut ts, &one, false).is_ok());
    match add_agent(&mut ts, &two, false) {
        Err(Error::RotationRequired(m)) => assert_eq!(
            m,
            format!(
                "agent 'bob' is already known with key {}; pass --rotate to replace it with {}",
                fingerprint(b"one"),
                fingerprint(b"two")
            )
        ),
        other => panic!("{other:?}"),
    }
    assert_eq!(known_fingerprint(&ts, "bob"), fingerprint(b"one"));
    let added = add_agent(&mut ts, &two, true).unwrap();
    assert_eq!(
        show_added(&added),
        format!("Rotated 'bob' {} -> {}", fingerprint(b"one"), fingerprint(b"two"))
    );
    assert_eq!(known_fingerprint(&ts, "bob"), fingerprint(b"two"));
    assert_eq!(known_fingerprint(&ts, "nobody"), "");
}

fn send_args() -> SendArgs {
    SendArgs {
        body: None,
        to: Some("bob".into()),
        broadcast: false,
        ctype: "text/plain".into(),
        reply_to: None,
        topic: None,
        kind: "message".into(),
        correlation_id: None,
        supersedes: None,
        encrypt: true,
        grant: None,
        unsigned: false,
        file: None,
    }
}

#[test]
fn commands_become_requests() {
    let a = ask(&Command::Send(send_args()), "me", "the body", Some("g"))
        .unwrap()
        .unwrap();
    assert!(a.hello);
    match a.request {
        Request::Send(p) => {
            assert_eq!((p.to.as_str(), p.body.as_str()), ("bob", "the body"));
            assert_eq!(p.grant.as_deref(), Some("g"));
            assert!(p.encrypt);
        }
        other => panic!("{other:?}"),
    }
    let mut nobody = send_args();
    nobody.to = None;
    assert!(ask(&Command::Send(nobody), "me", "", None).is_err());
    assert!(ask(&Command::Id { cmd: IdCmd::Show }, "me", "", None)
        .unwrap()
        .is_none());
    assert_eq!(
        asked(&Command::Browse { limit: 3, from: None, to: Some("x".into()), mine: true, all: false }),
        (false, Request::Browse { limit: 3, from: None, to: Some("me".into()), all: false })
    );
    assert_eq!(
        asked(&Command::Browse { limit: 3, from: None, to: Some("x".into()), mine: false, all: true }),
        (false, Request::Browse { limit: 3, from: None, to: Some("x".into()), all: true })
    );
    assert_eq!(
        asked(&Command::Read {
            consumer: None,
            limit: 7,
            wait: false,
            wait_timeout: None,
            ack: false,
            follow: false
        }),
        (false, Request::Read { consumer: "me".into(), limit: 7 })
    );
    assert_eq!(
        asked(&Command::Presence {
            cmd: PresenceCmd::Emit { state: "s".into(), ttl: Some(1), detail: None }
        }),
        (true, Request::Presence { state: "s".into(), ttl_secs: Some(1), detail: None })
    );
    assert_eq!(
        asked(&Command::Ack { seq: 4, consumer: Some("c".into()) }),
        (false, Request::Ack { consumer: "c".into(), seq: 4 })
    );
    assert_eq!(
        asked(&Command::Daemon { cmd: DaemonCmd::Stop }),
        (false, Request::Shutdown)
    );
    assert_eq!(
        asked(&Command::Pair { cmd: PairCmd::Start { topic: None } }),
        (true, Request::PairStart { topic: None })
    );
}

fn msg() -> StoredMsg {
    StoredMsg {
        seq: 7,
        id: "id".into(),
        direction: "in".into(),
        from: "alice".into(),
        to: "bob".into(),
        topic: "t".into(),
        ts: "2026".into(),
        ctype: "text/plain".into(),
        in_reply_to: Some("q".into()),
        body: "hello".into(),
        kind: "message".into(),
        correlation_id: None,
        supersedes: None,
        encrypted: true,
        delivery_state: "sent".into(),
        broker_ack_ts: None,
        delivered_ts: Some("d".into()),
        read_ts: None,
    }
}

fn log() -> Command {
    Command::Log { limit: 1, from: None, to: None, peer: None }
}

#[test]
fn answers_are_shown() {
    let some = Response::Messages { msgs: vec![msg()], consumer_warning: None };
    let line = "#7 [2026] alice -> bob (text/plain/message) [enc] reply-to=q\n    hello";
    assert_eq!(text(show(&log(), &some, "")), line);
    let none = Response::Messages { msgs: vec![], consumer_warning: None };
    assert_eq!(text(show(&log(), &none, "")), "(no messages)");
    let mut plain = msg();
    plain.encrypted = false;
    plain.in_reply_to = None;
    let two = Response::Messages { msgs: vec![msg(), plain], consumer_warning: None };
    assert_eq!(
        text(show(&log(), &two, "")),
        format!("{line}\n#7 [2026] alice -> bob (text/plain/message)\n    hello")
    );
    assert_eq!(
        text(show(&Command::Receipts { id: None, limit: 1, state: None }, &some, "")),
        "id sent (to bob) sent=2026 delivered=d read=-"
    );
    assert_eq!(
        text(show(
            &Command::Send(send_args()),
            &Response::Sent { id: "x".into(), delivery_state: "sent".into() },
            ""
        )),
        "sent x (sent)"
    );
    let rows = vec![RejectionRow {
        seq: 2,
        at: "a".into(),
        reason: "stale".into(),
        claimed_sender: None,
        topic: Some("t".into()),
        detail: "d".into(),
    }];
    let rej = Command::Rejections { limit: 1, reason: None, since: None };
    assert_eq!(
        text(show(&rej, &Response::Rejections(rows), "")),
        "#2 [a] stale from=? topic=t \u{2014} d"
    );
    assert_eq!(text(show(&rej, &Response::Rejections(vec![]), "")), "(no rejections)");
    let rows = vec![ConsumerRow {
        consumer: "c".into(),
        last_seq: 3,
        unread: 4,
        last_read_at: None,
    }];
    assert_eq!(
        text(show(&Command::Consumers, &Response::Consumers(rows), "")),
        "c  last_seq=3 unread=4 last_read=-"
    );
    let rows = vec![PresenceRow {
        agent: "a".into(),
        state: None,
        source: Some("daemon".into()),
        ttl_secs: None,
        detail: Some("x".into()),
        seq: -1,
        last_seen: "t".into(),
    }];
    assert_eq!(
        text(show(
            &Command::Presence { cmd: PresenceCmd::List },
            &Response::Presence(rows),
            ""
        )),
        "a  ? (source=daemon, seq=-1, last_seen=t) \u{2014} x"
    );
    let rows = vec![PendingPairView {
        name: "p".into(),
        fingerprint: "ab".into(),
        sas: "123 456".into(),
        kem: true,
    }];
    assert_eq!(
        text(show(&Command::Pair { cmd: PairCmd::List }, &Response::Pairs(rows), "")),
        "p  SAS 123 456  (ab +kem)\n    compare the SAS with the peer, then: agentmsg pair confirm p"
    );
    assert_eq!(
        text(show(
            &Command::Pair { cmd: PairCmd::Confirm { name: "p".into() } },
            &Response::Done,
            "ab"
        )),
        "paired with p (ab) \u{2014} added to trust store"
    );
    assert_eq!(
        text(show(&Command::Ack { seq: 1, consumer: None }, &Response::Done, "")),
        "acknowledged"
    );
    assert!(matches!(show(&log(), &Response::Consumers(vec![]), ""), Ok(Shown::Raw)));
    assert!(matches!(
        show(&log(), &Response::Error { message: "m".into() }, ""),
        Err(Error::Ipc(m)) if m == "m"
    ));
}

#[test]
fn status_is_shown() {
    let info = StatusInfo {
        identity: Some("bob".into()),
        fingerprint: None,
        broker: "b:1".into(),
        connected: true,
        topics: vec!["a\"b".into(), "c".into()],
        stored: 1,
        rejected: 2,
        pending_out: 3,
        known_agents: 4,
        ipc_proto: 2,
        presence: vec![],
        allow_unsigned: false,
        accept_v1: true,
        require_encryption: false,
        auto_receipts: true,
    };
    assert_eq!(
        text(show(&Command::Status, &Response::Status(info), "")),
        "identity:  bob\nbroker:    b:1\nconnected: true\ntopics:    [\"a\\\"b\", \"c\"]\n\
         stored:    1\nrejected:  2\npending:   3\nknown:     4 agent(s)\n\
         security:  allow_unsigned=false accept_v1=true require_encryption=false \
         auto_receipts=true"
    );
    assert_eq!(
        show_down(&Some("bob".into()), "b:1"),
        "daemon:    not running\nidentity:  bob\nbroker:    b:1"
    );
}

#[test]
fn the_configuration_is_shown_without_its_password() {
    let mut c = Config::default();
    c.set_broker("b", 8883, true);
    c.set_credentials("u", "hidden");
    c.set_topic("t").unwrap();
    let t = show_config(&c);
    assert!(!t.contains("hidden"));
    assert!(t.starts_with(
        "broker:   b:8883 (tls=true)\nuser:     u (password set)\ntopics:   [\"t\"]\nstore:    max 50000 msgs / "
    ));
    assert_eq!(show_topics(&c), "topics: [\"t\"]");
    assert!(show_flags(&c).starts_with("allow_unsigned:     false\naccept_v1:"));
    let mut ts = TrustStore::default();
    assert_eq!(show_agents(&ts.list(), "(no known agents)"), "(no known agents)");
    ts.add("bob", b"one");
    assert_eq!(
        show_agents(&ts.list(), "(no known agents)"),
        format!("{}  bob", fingerprint(b"one"))
    );
}

#[test]
fn waiting_ends() {
    assert_eq!(wait_limit(None), None);
    assert_eq!(wait_limit(Some(0)), None);
    assert_eq!(wait_limit(Some(9)), Some(9));
    assert_eq!(read_step(false, true, false, true, Some(9)), ReadStep::Show);
    assert_eq!(read_step(true, false, false, true, Some(9)), ReadStep::Show);
    assert_eq!(read_step(true, true, true, true, Some(9)), ReadStep::Show);
    assert_eq!(read_step(true, true, false, false, Some(9)), ReadStep::Again);
    assert_eq!(
        read_step(true, true, false, true, Some(9)),
        ReadStep::GiveUp(Error::Timeout("no message within 9s".into()))
    );
    assert_eq!(batch_ack(true, &vec![msg()]), Some(7));
    assert_eq!(batch_ack(false, &vec![msg()]), None);
    assert_eq!(batch_ack(true, &vec![]), None);
    assert_eq!(start_step(true, true, 10), StartStep::Ready);
    assert_eq!(start_step(false, false, 10), StartStep::Again);
    assert_eq!(
        start_step(false, true, 10),
        StartStep::GiveUp(Error::DaemonNotRunning(
            "daemon did not become ready within 10s".into()
        ))
    );
}

#[test]
fn frames_are_shown() {
    assert_eq!(
        show_frame(&StreamFrame::Lagged { dropped: 3 }),
        FrameText::Warning("warning: subscription lagged, 3 message(s) dropped".into())
    );
    assert!(matches!(
        show_frame(&StreamFrame::Message(msg())),
        FrameText::Message(t) if t.ends_with("    hello")
    ));
}

#[test]
fn the_end_of_a_log_is_cut_out() {
    assert_eq!(tail_lines("a\nb\r\nc\n", 2), "b\nc");
    assert_eq!(tail_lines("a\nb\nc", 20), "a\nb\nc");
    assert_eq!(tail_lines("a\n\nb\r", 2), "\nb\r");
    assert_eq!(tail_lines("", 5), "");
    assert_eq!(tail_lines("a\nb", 0), "");
}

#[test]
fn keys_are_generated_and_shown() {
    let (id, back_up) = generate_identity("worker", true, Some(("worker", "ab"))).unwrap();
    assert!(back_up);
    let k = identity_key(&id);
    assert_eq!(k.name, "worker");
    assert_eq!(k.fingerprint, fingerprint(id.public_key()));
    assert_eq!(IdentityToken::decode(&k.token).unwrap(), id.token());
    assert_eq!(
        show_generated_identity(&k),
        format!(
            "Generated identity 'worker' ({})\n\nShare this token with other agents:\n{}",
            k.fingerprint, k.token
        )
    );
    assert!(generate_identity("worker", false, Some(("worker", "ab"))).is_err());
    assert!(check_identity_name("").is_err());
    assert!(check_identity_name("worker").is_ok());
    let (a, back_up) = generate_authority("ops", false, false).unwrap();
    assert!(!back_up);
    let k = authority_key(&a);
    assert_eq!(AuthorityToken::decode(&k.token).unwrap(), a.token());
    assert!(show_generated_authority(&k).starts_with("Generated authority 'ops' ("));
    assert_eq!(
        show_key(&k),
        format!("name:        ops\nfingerprint: {}\ntoken:       {}", k.fingerprint, k.token)
    );
    assert!(generate_authority("ops", false, true).is_err());
}

#[test]
fn the_trust_store_is_managed() {
    let mut ts = TrustStore::default();
    let add = |key: &[u8]| AgentStep::Add {
        token: IdentityToken::new("bob", key.to_vec()),
        rotate: false,
    };
    let r = agent_cmd(&mut ts, &add(b"one")).unwrap();
    assert_eq!(show_agent_reply(&r), format!("Added 'bob' ({})", fingerprint(b"one")));
    assert!(agent_cmd(&mut ts, &add(b"two")).is_err());
    let r = agent_cmd(&mut ts, &AgentStep::List).unwrap();
    assert_eq!(show_agent_reply(&r), format!("{}  bob", fingerprint(b"one")));
    let remove = AgentStep::Remove { name: "bob".into() };
    let r = agent_cmd(&mut ts, &remove).unwrap();
    assert_eq!(show_agent_reply(&r), "Removed 'bob'");
    let r = agent_cmd(&mut ts, &remove).unwrap();
    assert_eq!(show_agent_reply(&r), "'bob' was not in the trust store");
    let r = agent_cmd(&mut ts, &AgentStep::List).unwrap();
    assert_eq!(show_agent_reply(&r), "(no known agents)");

    let (a, _) = generate_authority("ops", false, false).unwrap();
    let r = authority_cmd(&mut ts, &AuthorityStep::Add { token: a.token() });
    assert_eq!(
        show_authority_reply(&r),
        format!("Trusted authority 'ops' ({})", fingerprint(a.public_key()))
    );
    assert_eq!(
        show_authority_reply(&authority_cmd(&mut ts, &AuthorityStep::List)),
        format!("{}  ops", fingerprint(a.public_key()))
    );
    let remove = AuthorityStep::Remove { name: "ops".into() };
    let r = authority_cmd(&mut ts, &remove);
    assert_eq!(show_authority_reply(&r), "Removed authority 'ops'");
    let r = authority_cmd(&mut ts, &remove);
    assert_eq!(show_authority_reply(&r), "'ops' was not a trusted authority");
    assert_eq!(
        show_authority_reply(&authority_cmd(&mut ts, &AuthorityStep::List)),
        "(no trusted authorities)"
    );
}

#[test]
fn a_password_is_never_shown() {
    let mut c = Config::default();
    c.set_credentials("u", "one");
    let (text, data) = (show_config(&c), redacted(&c));
    c.set_credentials("u", "another");
    assert_eq!(show_config(&c), text);
    assert_eq!(redacted(&c), data);
    assert!(data.password_set);
    c.set_credentials("u", "");
    assert!(!redacted(&c).password_set);
    assert_eq!(data.username, "u");
}

#[test]
fn the_configuration_is_changed_by_commands() {
    let mut c = Config::default();
    let mut on = |cmd: ConfigCmd| config_cmd(&mut c, &cmd);
    assert_eq!(
        on(ConfigCmd::SetBroker { host: "b".into(), port: 1, no_tls: true }).unwrap(),
        "broker set to b:1 (tls=false)"
    );
    assert_eq!(
        on(ConfigCmd::SetCreds { username: "u".into(), password: "p".into() }).unwrap(),
        "credentials set for user 'u'"
    );
    assert_eq!(on(ConfigCmd::SetTopic { topic: "t".into() }).unwrap(), "topic set to 't'");
    assert_eq!(
        on(ConfigCmd::AddTopic { topic: "u".into() }).unwrap(),
        "topics: [\"t\", \"u\"]"
    );
    assert!(on(ConfigCmd::AddTopic { topic: "a/#".into() }).is_err());
    assert_eq!(
        on(ConfigCmd::SetSecurity {
            allow_unsigned: Some(true),
            accept_v1: None,
            require_encryption: None,
            auto_receipts: Some(false)
        })
        .unwrap(),
        "allow_unsigned:     true\naccept_v1:          true\nrequire_encryption: false\n\
         auto_receipts:      false"
    );
    assert!(on(ConfigCmd::Show).unwrap().starts_with("broker:   b:1 (tls=false)\n"));
    assert_eq!(c.topics, vec!["t", "u"]);
    assert!(check_config_cmd(&ConfigCmd::SetTopic { topic: "".into() }).is_err());
    assert!(check_config_cmd(&ConfigCmd::Show).is_ok());
}

#[test]
fn a_grant_is_shown() {
    let (a, _) = generate_authority("ops", false, false).unwrap();
    let (c, token) = mint_grant_with(
        &a,
        "alice",
        "deploy",
        "prod",
        "2999-01-01T00:00:00Z",
        "g".into(),
        "n".into(),
    );
    let start = "Minted grant g authorizing 'alice' to 'deploy' (scope 'prod', expires \
                 2999-01-01T00:00:00Z)\n";
    assert_eq!(show_grant(&c, &token, None), format!("{start}\n{token}"));
    assert_eq!(show_grant(&c, &token, Some("f")), format!("{start}wrote token to f"));
}

#[test]
fn errors_have_texts() {
    for (e, text) in [
        (Error::DaemonNotRunning("x".into()), "daemon is not running (no IPC endpoint at x)"),
        (
            Error::DaemonAlreadyRunning,
            "a daemon is already running for this identity",
        ),
        (Error::Config("x".into()), "configuration error: x"),
        (
            Error::NoIdentity,
            "no identity configured; run `agentmsg id generate` first",
        ),
        (Error::IdentityExists("x".into()), "identity already exists at x"),
        (Error::Crypto("x".into()), "crypto error: x"),
        (Error::InvalidToken("x".into()), "invalid identity token: x"),
        (Error::UnknownAgent("x".into()), "unknown agent: x"),
        (
            Error::Rejected(RejectReason::Stale),
            "message rejected: timestamp outside freshness window",
        ),
        (Error::Store("x".into()), "storage error: x"),
        (Error::Mqtt("x".into()), "mqtt error: x"),
        (Error::Ipc("x".into()), "ipc error: x"),
        (Error::Serde("x".into()), "serialization error: x"),
        (Error::IdentityNameMismatch("x".into()), "identity name mismatch: x"),
        (
            Error::NoAuthority,
            "no authority key configured; run `agentmsg authority generate` first",
        ),
        (Error::TokenCorrupt("x".into()), "token corrupt: x"),
        (Error::RotationRequired("x".into()), "key rotation required: x"),
        (
            Error::NotAnAuthorityToken,
            "not an authority token",
        ),
        (Error::Io("x".into()), "i/o error: x"),
        (Error::Timeout("x".into()), "timed out: x"),
    ] {
        assert_eq!(e.message(), text);
    }
}

#[test]
fn refusals_have_texts_and_codes() {
    for (r, text, code) in [
        (RejectReason::MalformedWrapper, "malformed wrapper", "malformed_wrapper"),
        (RejectReason::UnsupportedVersion(7), "unsupported protocol version 7", "unsupported_version"),
        (RejectReason::UnsupportedAlg("x".into()), "unsupported signature algorithm x", "unsupported_alg"),
        (RejectReason::UnknownSigner, "unknown signer", "unknown_signer"),
        (RejectReason::KidMismatch, "signer key id does not match sender", "kid_mismatch"),
        (RejectReason::InvalidSignature, "invalid signature", "invalid_signature"),
        (RejectReason::Duplicate, "duplicate message id", "duplicate"),
        (RejectReason::Stale, "timestamp outside freshness window", "stale"),
        (RejectReason::TooLarge, "payload too large", "too_large"),
        (RejectReason::UnsignedNotAllowed, "unsigned messages are not allowed", "unsigned_not_allowed"),
        (RejectReason::DowngradeRejected, "protocol downgrade rejected for a known signing agent", "downgrade_rejected"),
        (RejectReason::UnknownAuthority, "unknown authority", "unknown_authority"),
        (RejectReason::InvalidGrant, "invalid grant", "invalid_grant"),
        (RejectReason::GrantExpired, "grant expired", "grant_expired"),
        (RejectReason::GrantSubjectMismatch, "grant subject does not match sender", "grant_subject_mismatch"),
        (RejectReason::DecryptFailed, "decryption failed", "decrypt_failed"),
        (RejectReason::UnknownRecipientKey, "unknown recipient key", "unknown_recipient_key"),
        (RejectReason::EncBroadcastUnsupported, "encrypted broadcast is not supported", "enc_broadcast_unsupported"),
        (RejectReason::ReplayedGrant, "replayed grant", "replayed_grant"),
        (
            RejectReason::EncryptionRequired,
            "payload encryption is required",
            "encryption_required",
        ),
    ] {
        assert_eq!(r.message(), text);
        assert_eq!(r.code(), code);
    }
}
