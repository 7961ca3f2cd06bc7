//! The daemon's decisions.

use agentmsg::authority::Authority;
use agentmsg::config::Config;
use agentmsg::daemon::{
    caps, connect_check, heartbeat_wait, parse_kind, Daemon, Moment, Outcome, FAR_BEHIND, VERSION,
};
use agentmsg::grant::{self, GrantClaims};
use agentmsg::identity::Identity;
use agentmsg::ipc::{Request, Response, SendParams};
use agentmsg::message::{build, build_pair, BuildOpts, Fresh};
use agentmsg::pair::sas;
use agentmsg::store::{Outbound, Store, StoredMsg};
use agentmsg::trust::TrustStore;
use agentmsg::wire::{MsgKind, Wrapper, CTYPE_PRESENCE, CTYPE_TEXT};

const NOW: &str = "2026-06-28 00:00:00";

fn daemon(name: &str, seed: u8) -> Daemon {
    Daemon::new(Identity::from_seed(name, [seed; 32]), Store::new())
}

fn config() -> Config {
    let mut c = Config::default();
    c.set_broker("broker", 8883, true);
    c.set_credentials("u", "p");
    c.set_topic("chat").unwrap();
    c.add_topic("ops").unwrap();
    c
}

fn knows(ids: &[&Daemon]) -> TrustStore {
    let mut t = TrustStore::default();
    for d in ids {
        t.add_from_token(&d.identity().token());
    }
    t
}

fn params(to: &str, body: &str) -> SendParams {
    SendParams {
        to: to.into(),
        ctype: CTYPE_TEXT.into(),
        body: body.into(),
        in_reply_to: None,
        topic: None,
        kind: "message".into(),
        correlation_id: None,
        supersedes: None,
        encrypt: false,
        grant: None,
        unsigned: false,
    }
}

fn published(o: Outcome) -> Outbound {
    match o {
        Outcome::Publish(ob) => ob,
        other => panic!("not published: {other:?}"),
    }
}

fn failed(o: Outcome) -> String {
    match o {
        Outcome::Reply(Response::Error { message }) => message,
        other => panic!("no error: {other:?}"),
    }
}

fn shown(o: Outcome) -> Vec<StoredMsg> {
    match o {
        Outcome::Reply(Response::Messages { msgs, .. }) => msgs,
        other => panic!("no messages: {other:?}"),
    }
}

#[test]
fn a_message_travels_and_its_receipts_come_back() {
    let cfg = config();
    let mut alice = daemon("alice", 1);
    let mut bob = daemon("bob", 2);
    let trust = knows(&[&alice, &bob]);

    // Alice sends and hands the message to the broker.
    let ob = published(alice.handle(
        &Request::Send(params("bob", "hello")),
        &cfg,
        &trust,
        true,
        NOW,
    ));
    assert_eq!(ob.topic, "chat");
    assert_eq!((ob.qos, ob.retain), (1, false));
    assert_eq!(alice.store().pending_outbound(), vec![ob.clone()]);
    assert_eq!(
        alice.store().get_message(&ob.id).unwrap().delivery_state,
        "pending"
    );
    let reply = alice.published(&ob.id, true, NOW);
    assert_eq!(
        reply,
        Response::Sent { id: ob.id.clone(), delivery_state: "sent".into() }
    );
    assert!(alice.store().pending_outbound().is_empty());

    // Her own echo is passed over.
    assert!(alice.ingest("chat", &ob.payload, &cfg, &trust, NOW).is_none());
    assert_eq!(alice.store().message_count(), 1);

    // Bob stores it, pushes it and queues a delivery receipt.
    let pushed = bob.ingest("chat", &ob.payload, &cfg, &trust, NOW).unwrap();
    assert_eq!(pushed.body, "hello");
    assert_eq!(pushed.from, "alice");
    assert_eq!(pushed.direction, "in");
    let receipt = bob.store().pending_outbound().remove(0);
    bob.mark_delivered(&receipt.id, NOW);

    // It comes again: nothing happens.
    assert!(bob.ingest("chat", &ob.payload, &cfg, &trust, NOW).is_none());
    assert!(bob.store().pending_outbound().is_empty());

    // Alice learns of the delivery, and then of the reading.
    assert!(alice
        .ingest("chat", &receipt.payload, &cfg, &trust, NOW)
        .is_none());
    assert_eq!(
        alice.store().get_message(&ob.id).unwrap().delivery_state,
        "delivered"
    );
    let r = bob.handle(
        &Request::Ack { consumer: "bob".into(), seq: pushed.seq },
        &cfg,
        &trust,
        true,
        NOW,
    );
    assert!(matches!(r, Outcome::Reply(Response::Done)));
    let read = bob.store().pending_outbound().remove(0);
    alice.ingest("chat", &read.payload, &cfg, &trust, NOW);
    assert_eq!(
        alice.store().get_message(&ob.id).unwrap().delivery_state,
        "read"
    );
    assert_eq!(alice.store().rejection_count(), 0);
}

#[test]
fn receipts_can_be_off() {
    let mut cfg = config();
    cfg.set_security(None, None, None, Some(false));
    let mut alice = daemon("alice", 1);
    let mut bob = daemon("bob", 2);
    let trust = knows(&[&alice]);
    let ob = published(alice.handle(
        &Request::Send(params("bob", "x")),
        &cfg,
        &trust,
        false,
        NOW,
    ));
    let seq = bob.ingest("chat", &ob.payload, &cfg, &trust, NOW).unwrap().seq;
    bob.acknowledge("bob", seq, &cfg, NOW);
    assert!(bob.store().pending_outbound().is_empty());
    assert_eq!(bob.store().cursor("bob"), seq);
}

#[test]
fn a_message_to_everyone_gets_no_receipt() {
    let cfg = config();
    let mut alice = daemon("alice", 1);
    let mut bob = daemon("bob", 2);
    let trust = knows(&[&alice]);
    let ob = published(alice.handle(
        &Request::Send(params("*", "all")),
        &cfg,
        &trust,
        false,
        NOW,
    ));
    let m = bob.ingest("chat", &ob.payload, &cfg, &trust, NOW).unwrap();
    bob.acknowledge("bob", m.seq, &cfg, NOW);
    assert!(bob.store().pending_outbound().is_empty());
}

#[test]
fn a_stranger_is_only_recorded() {
    let cfg = config();
    let mut mallory = daemon("mallory", 9);
    let mut bob = daemon("bob", 2);
    let none = TrustStore::default();
    let ob = published(mallory.handle(
        &Request::Send(params("bob", "x")),
        &cfg,
        &none,
        false,
        NOW,
    ));
    assert!(bob.ingest("chat", &ob.payload, &cfg, &none, NOW).is_none());
    assert_eq!(bob.store().message_count(), 0);
    let rows = bob.store().rejections(10, None, None);
    assert_eq!(rows.len(), 1);
    assert_eq!(rows[0].reason, "unknown_signer");
    assert_eq!(rows[0].claimed_sender.as_deref(), Some("mallory"));
    assert_eq!(rows[0].at, NOW);
}

#[test]
fn a_grant_works_once() {
    let cfg = config();
    let ops = Authority::from_seed("ops", [7u8; 32]);
    let alice = Identity::from_seed("alice", [1u8; 32]);
    let mut bob = daemon("bob", 2);
    let mut trust = TrustStore::default();
    trust.add_from_token(&alice.token());
    trust.add_authority_from_token(&ops.token());
    let claims = GrantClaims {
        id: "g-1".into(),
        action: "deploy".into(),
        scope: "prod".into(),
        subject: "alice".into(),
        expiry: "2999-01-01T00:00:00Z".into(),
        nonce: "n".into(),
    };
    for n in 0..2 {
        let mut opts = BuildOpts::new("bob", CTYPE_TEXT, "deploying");
        opts.grant = Some(grant::mint(&ops, &claims));
        let (_i, w) = build(&alice, &opts).unwrap();
        let got = bob.ingest("chat", &w.to_bytes().unwrap(), &cfg, &trust, NOW);
        assert_eq!(got.is_some(), n == 0);
    }
    assert_eq!(bob.store().rejections(10, None, None)[0].reason, "replayed_grant");
}

#[test]
fn presence_is_noticed() {
    let cfg = config();
    let mut alice = daemon("alice", 1);
    let mut bob = daemon("bob", 2);
    let trust = knows(&[&alice]);
    let r = alice.handle(
        &Request::Presence {
            state: "busy".into(),
            ttl_secs: Some(60),
            detail: Some("lunch".into()),
        },
        &cfg,
        &trust,
        false,
        NOW,
    );
    assert!(matches!(r, Outcome::Reply(Response::Done)));
    assert_eq!(alice.store().message_count(), 0);
    let ob = alice.store().pending_outbound().remove(0);
    assert!(bob.ingest("chat", &ob.payload, &cfg, &trust, NOW).is_none());
    let rows = bob.store().list_presence();
    assert_eq!(rows[0].agent, "alice");
    assert_eq!(rows[0].state.as_deref(), Some("busy"));
    assert_eq!(rows[0].source.as_deref(), Some("agent"));
    assert_eq!(rows[0].ttl_secs, Some(60));
    assert_eq!(rows[0].detail.as_deref(), Some("lunch"));
    assert!(rows[0].seq > 1_700_000_000);
    assert_eq!(bob.store().message_count(), 0);
}

fn at(secs: i128) -> Moment {
    Moment {
        now: secs * 1_000_000_000,
        stamp: NOW.into(),
        fresh: Fresh {
            id: "fresh-1".into(),
            ts: "2026-06-28T00:00:00Z".into(),
            nonce: [0u8; 16],
            secret: [0u8; 32],
            aead_nonce: [0u8; 12],
        },
        receipts: Vec::new(),
    }
}

#[test]
fn a_heartbeat_says_for_how_long_it_holds() {
    let mut cfg = config();
    cfg.heartbeat_secs = 20;
    assert_eq!(heartbeat_wait(&cfg), (20, true));
    let mut alice = daemon("alice", 1);
    alice.beat_at(&cfg, &at(1_782_604_800));
    let ob = alice.store().pending_outbound().remove(0);
    assert_eq!(ob.id, "fresh-1");
    let w = Wrapper::from_bytes(&ob.payload).unwrap();
    let i = Wrapper::parse_inner(&w.inner_bytes().unwrap()).unwrap();
    assert_eq!(i.ctype, CTYPE_PRESENCE);
    assert_eq!(
        i.body,
        "{\"state\":\"online\",\"source\":\"daemon\",\"ttl_secs\":60,\"seq\":1782604800}"
    );
    cfg.heartbeat_secs = 0;
    assert_eq!(heartbeat_wait(&cfg), (5, false));
    cfg.topics.clear();
    let mut quiet = daemon("q", 3);
    quiet.beat(&cfg, NOW);
    assert!(quiet.store().pending_outbound().is_empty());
}

#[test]
fn pairing_shows_one_code_on_both_sides() {
    let cfg = config();
    let mut alice = daemon("alice", 1);
    let mut bob = daemon("bob", 2);
    let mut trust = TrustStore::default();
    let a = match alice.handle(&Request::PairStart { topic: None }, &cfg, &trust, true, NOW) {
        Outcome::Announce(ob) => ob,
        other => panic!("{other:?}"),
    };
    bob.ingest("chat", &a.payload, &cfg, &trust, NOW);
    let (_i, w) = build_pair(bob.identity());
    alice.ingest("chat", &w.to_bytes().unwrap(), &cfg, &trust, NOW);
    let row = |d: &mut Daemon, t: &TrustStore| match d.handle(
        &Request::PairList,
        &cfg,
        t,
        true,
        NOW,
    ) {
        Outcome::Reply(Response::Pairs(mut rows)) => rows.remove(0),
        other => panic!("{other:?}"),
    };
    let at_bob = row(&mut bob, &trust);
    let at_alice = row(&mut alice, &trust);
    assert_eq!(at_bob.sas, at_alice.sas);
    assert_eq!(
        at_bob.sas,
        sas(alice.identity().public_key(), bob.identity().public_key())
    );
    assert_eq!(at_bob.name, "alice");
    assert!(at_bob.kem);

    // A second hello under the name does not replace the first.
    let (_i, other) = build_pair(&Identity::from_seed("alice", [8u8; 32]));
    bob.ingest("chat", &other.to_bytes().unwrap(), &cfg, &trust, NOW);
    assert_eq!(row(&mut bob, &trust), at_bob);

    // Confirmation adds both keys.
    let ask = Request::PairConfirm { name: "alice".into() };
    assert!(matches!(
        bob.handle(&ask, &cfg, &trust, true, NOW),
        Outcome::Confirm(n) if n == "alice"
    ));
    assert!(bob.confirm("alice", &mut trust));
    assert_eq!(trust.current_key("alice").as_deref(), Some(alice.identity().public_key()));
    assert_eq!(trust.kem_public_key("alice").as_deref(), Some(alice.identity().kem_ek()));
    assert_eq!(bob.confirmed("alice"), Response::Done);
    assert_eq!(
        failed(bob.handle(&ask, &cfg, &trust, true, NOW)),
        "no pending pairing for 'alice'"
    );
    assert!(!bob.confirm("alice", &mut trust));
}

#[test]
fn a_false_hello_is_recorded() {
    let cfg = config();
    let mut bob = daemon("bob", 2);
    let (_i, mut w) = build_pair(&Identity::from_seed("alice", [1u8; 32]));
    w.sig = Some(agentmsg::wire::b64(b"false"));
    bob.ingest("chat", &w.to_bytes().unwrap(), &cfg, &TrustStore::default(), NOW);
    let rows = bob.store().rejections(10, None, None);
    assert_eq!(rows[0].detail, "pairing hello");
    assert_eq!(rows[0].claimed_sender.as_deref(), Some("alice"));
}

#[test]
fn a_send_is_refused_with_a_reason() {
    let cfg = config();
    let trust = TrustStore::default();
    let mut d = daemon("alice", 1);
    let mut ask = |p: SendParams, c: &Config| {
        failed(d.handle(&Request::Send(p), c, &trust, true, NOW))
    };
    let mut p = params("bob", "x");
    p.topic = Some("elsewhere".into());
    assert_eq!(ask(p, &cfg), "topic 'elsewhere' is not a configured chat topic");
    assert_eq!(ask(params("bob", "x"), &Config::default()), "no chat topic configured");
    let mut small = config();
    small.max_payload = 2;
    assert_eq!(ask(params("bob", "\u{e9}\u{e9}"), &small), "payload exceeds configured maximum");
    let mut p = params("bob", "x");
    p.encrypt = true;
    assert!(!ask(p, &cfg).is_empty());
    let mut p = params("bob", "x");
    p.grant = Some("no token".into());
    assert!(!ask(p, &cfg).is_empty());
    assert_eq!(d.store().message_count(), 0);
}

#[test]
fn a_send_carries_its_attributes() {
    let cfg = config();
    let bob = daemon("bob", 2);
    let trust = knows(&[&bob]);
    let mut d = daemon("alice", 1);
    let mut p = params("bob", "secret");
    p.topic = Some("ops".into());
    p.kind = "query".into();
    p.correlation_id = Some("c".into());
    p.supersedes = Some("s".into());
    p.encrypt = true;
    let ob = published(d.handle_at(
        &Request::Send(p),
        &cfg,
        &trust,
        true,
        &at(1_782_604_800),
    ));
    assert_eq!(ob.topic, "ops");
    assert_eq!(ob.id, "fresh-1");
    let m = d.store().get_message("fresh-1").unwrap();
    assert_eq!(m.kind, "query");
    assert_eq!(m.correlation_id.as_deref(), Some("c"));
    assert_eq!(m.supersedes.as_deref(), Some("s"));
    assert!(m.encrypted);
    assert_ne!(m.body, "secret");
    assert_eq!(
        d.published("fresh-1", false, NOW),
        Response::Sent { id: "fresh-1".into(), delivery_state: "pending".into() }
    );
    assert_eq!(d.store().pending_outbound().len(), 1);
}

#[test]
fn a_reply_goes_to_the_sender() {
    let cfg = config();
    let mut alice = daemon("alice", 1);
    let mut bob = daemon("bob", 2);
    let trust = knows(&[&alice]);
    let ob = published(alice.handle(
        &Request::Send(params("bob", "q")),
        &cfg,
        &trust,
        false,
        NOW,
    ));
    bob.ingest("chat", &ob.payload, &cfg, &trust, NOW).unwrap();
    let back = published(bob.handle(
        &Request::Reply {
            msg_id: ob.id.clone(),
            ctype: CTYPE_TEXT.into(),
            body: "a".into(),
        },
        &cfg,
        &trust,
        false,
        NOW,
    ));
    let m = bob.store().get_message(&back.id).unwrap();
    assert_eq!(m.to, "alice");
    assert_eq!(m.in_reply_to, Some(ob.id));
    let none = Request::Reply {
        msg_id: "zz".into(),
        ctype: CTYPE_TEXT.into(),
        body: "a".into(),
    };
    assert_eq!(
        failed(bob.handle(&none, &cfg, &trust, false, NOW)),
        "no message with id zz"
    );
}

#[test]
fn questions_are_answered() {
    let cfg = config();
    let mut alice = daemon("alice", 1);
    let mut bob = daemon("bob", 2);
    let trust = knows(&[&alice, &bob]);
    let ob = published(alice.handle(
        &Request::Send(params("bob", "q")),
        &cfg,
        &trust,
        false,
        NOW,
    ));
    bob.ingest("chat", &ob.payload, &cfg, &trust, NOW).unwrap();
    let mut ask = |r: Request| bob.handle(&r, &cfg, &trust, true, NOW);
    assert!(matches!(ask(Request::Ping), Outcome::Reply(Response::Pong)));
    assert!(matches!(ask(Request::Connect), Outcome::Connect));
    assert!(matches!(ask(Request::Disconnect), Outcome::Disconnect));
    assert!(matches!(ask(Request::Shutdown), Outcome::Reply(Response::Done)));
    match ask(Request::Hello { ipc_proto: 1 }) {
        Outcome::Reply(Response::Hello { ipc_proto, version, caps: c }) => {
            assert_eq!(ipc_proto, 2);
            assert_eq!(version, VERSION);
            assert_eq!(c, caps());
        }
        other => panic!("{other:?}"),
    }
    match ask(Request::Status) {
        Outcome::Reply(Response::Status(s)) => {
            assert_eq!(s.identity.as_deref(), Some("bob"));
            assert_eq!(s.broker, "broker:8883");
            assert!(s.connected);
            assert_eq!(s.topics, vec!["chat", "ops"]);
            // The message and the receipt for it.
            assert_eq!((s.stored, s.rejected, s.pending_out), (2, 0, 1));
            assert_eq!(s.known_agents, 2);
        }
        other => panic!("{other:?}"),
    }
    for _ in 0..2 {
        assert_eq!(shown(ask(Request::Read { consumer: "c".into(), limit: 5 })).len(), 1);
    }
    assert_eq!(shown(ask(Request::Browse { limit: 5, from: None, to: None, all: false })).len(), 1);
    assert_eq!(
        shown(ask(Request::Transcript { limit: 5, from: None, to: None, peer: None })).len(),
        2
    );
    assert_eq!(
        shown(ask(Request::Receipts { id: None, limit: 5, state: None })).len(),
        1
    );
    assert_eq!(
        shown(ask(Request::Receipts { id: Some(ob.id.clone()), limit: 5, state: None }))[0].id,
        ob.id
    );
    assert!(shown(ask(Request::Receipts { id: Some("zz".into()), limit: 5, state: None }))
        .is_empty());
    assert_eq!(
        failed(ask(Request::Subscribe { consumer: "c".into(), ack: false })),
        "subscribe must be served as a stream"
    );
}

#[test]
fn a_connection_needs_a_complete_configuration() {
    assert!(connect_check(&config(), false).unwrap());
    assert!(!connect_check(&Config::default(), true).unwrap());
    assert!(connect_check(&Config::default(), false).is_err());
}

#[test]
fn kinds_are_parsed_leniently() {
    assert_eq!(parse_kind("query"), MsgKind::Query);
    assert_eq!(parse_kind(""), MsgKind::Message);
    assert_eq!(parse_kind("nonsense"), MsgKind::Message);
}

fn texts(o: Outcome) -> Vec<String> {
    shown(o).into_iter().map(|m| m.body).collect()
}

#[test]
fn browsing_everything_keeps_what_was_sent_to_everyone() {
    let cfg = config();
    let mut alice = daemon("alice", 1);
    let mut bob = daemon("bob", 2);
    let trust = knows(&[&alice, &bob]);
    for (to, body) in [("*", "to all"), ("bob", "to bob"), ("carol", "to carol")] {
        let ob = published(alice.handle(
            &Request::Send(params(to, body)),
            &cfg,
            &trust,
            false,
            NOW,
        ));
        bob.ingest("chat", &ob.payload, &cfg, &trust, NOW).unwrap();
    }
    published(bob.handle(&Request::Send(params("*", "from bob")), &cfg, &trust, false, NOW));
    let mut ask = |to: &str, all: bool| {
        texts(bob.handle(
            &Request::Browse { limit: 10, from: None, to: Some(to.into()), all },
            &cfg,
            &trust,
            false,
            NOW,
        ))
    };
    assert_eq!(ask("bob", true), vec!["to all", "to bob", "from bob"]);
    assert_eq!(ask("bob", false), vec!["to bob", "to all"]);
    assert_eq!(ask("nobody", true), vec!["to all", "from bob"]);
}

#[test]
fn every_acknowledged_message_is_answered() {
    let cfg = config();
    let mut alice = daemon("alice", 1);
    let mut bob = daemon("bob", 2);
    let trust = knows(&[&alice, &bob]);
    let mut ids = Vec::new();
    let mut last = 0;
    for to in ["bob", "*", "bob", "bob"] {
        let ob = published(alice.handle(
            &Request::Send(params(to, "x")),
            &cfg,
            &trust,
            false,
            NOW,
        ));
        alice.mark_delivered(&ob.id, NOW);
        let m = bob.ingest("chat", &ob.payload, &cfg, &trust, NOW).unwrap();
        ids.push(ob.id);
        if ids.len() == 3 {
            last = m.seq;
        }
    }
    for ob in bob.store().pending_outbound() {
        bob.mark_delivered(&ob.id, NOW);
    }
    let ack = Request::Ack { consumer: "bob".into(), seq: last };
    assert_eq!(bob.count_receipts(&ack, &cfg), 2);
    bob.handle(&ack, &cfg, &trust, false, NOW);
    let out = bob.store().pending_outbound();
    assert_eq!(out.len(), 2);
    for ob in &out {
        alice.ingest("chat", &ob.payload, &cfg, &trust, NOW);
    }
    let states: Vec<String> = ids
        .iter()
        .map(|id| alice.store().get_message(id).unwrap().delivery_state)
        .collect();
    assert_eq!(states, vec!["read", "sent", "read", "sent"]);
    // A repeated acknowledgement is answered for its own message.
    assert_eq!(bob.count_receipts(&ack, &cfg), 1);
    bob.handle(&ack, &cfg, &trust, false, NOW);
    let again = bob.store().pending_outbound();
    assert_eq!(again.len(), 3);
    let w = Wrapper::from_bytes(&again[2].payload).unwrap();
    let i = Wrapper::parse_inner(&w.inner_bytes().unwrap()).unwrap();
    assert_eq!(i.receipt.unwrap().ref_id, ids[2]);
    // One for a message to everyone, for an outbound one or for none is not.
    for seq in [3, 2, 0, -1] {
        let ack = Request::Ack { consumer: "bob".into(), seq };
        assert_eq!(bob.count_receipts(&ack, &cfg), 0);
    }
}

#[test]
fn encryption_can_be_required() {
    let mut cfg = config();
    let mut alice = daemon("alice", 1);
    let mut bob = daemon("bob", 2);
    let trust = knows(&[&alice, &bob]);
    let clear = published(alice.handle(
        &Request::Send(params("bob", "clear")),
        &cfg,
        &trust,
        false,
        NOW,
    ));
    cfg.set_security(None, None, Some(true), None);
    // Outbound.
    let stored = alice.store().message_count();
    assert_eq!(
        failed(alice.handle(&Request::Send(params("bob", "x")), &cfg, &trust, true, NOW)),
        "payload encryption is required"
    );
    assert_eq!(alice.store().message_count(), stored);
    // Inbound.
    assert!(bob.ingest("chat", &clear.payload, &cfg, &trust, NOW).is_none());
    assert_eq!(bob.store().message_count(), 0);
    assert_eq!(bob.store().rejections(1, None, None)[0].reason, "encryption_required");
    // What is sealed passes, and so does the receipt for it.
    let mut p = params("bob", "sealed");
    p.encrypt = true;
    let ob = published(alice.handle(&Request::Send(p), &cfg, &trust, true, NOW));
    assert_eq!(
        bob.ingest("chat", &ob.payload, &cfg, &trust, NOW).unwrap().body,
        "sealed"
    );
    let receipt = bob.store().pending_outbound().remove(0);
    alice.ingest("chat", &receipt.payload, &cfg, &trust, NOW);
    assert_eq!(
        alice.store().get_message(&ob.id).unwrap().delivery_state,
        "delivered"
    );
}

#[test]
fn a_consumer_far_behind_is_warned() {
    let cfg = config();
    let trust = TrustStore::default();
    let mut store = Store::new();
    let alice = Identity::from_seed("alice", [1u8; 32]);
    let (mut inner, _) = build(&alice, &BuildOpts::new("bob", CTYPE_TEXT, "x")).unwrap();
    for n in 0..FAR_BEHIND + 1 {
        inner.id = n.to_string();
        store.insert_inbound(&inner, "chat").unwrap();
    }
    let mut bob = Daemon::new(Identity::from_seed("bob", [2u8; 32]), store);
    let mut read = || {
        match bob.handle(
            &Request::Read { consumer: "c".into(), limit: 1 },
            &cfg,
            &trust,
            false,
            NOW,
        ) {
            Outcome::Reply(Response::Messages { consumer_warning, .. }) => consumer_warning,
            other => panic!("{other:?}"),
        }
    };
    assert_eq!(
        read().as_deref(),
        Some("consumer 'c' is 1001 messages behind")
    );
    bob.acknowledge("c", 1, &cfg, NOW);
    let mut read = || {
        match bob.handle(
            &Request::Read { consumer: "c".into(), limit: 1 },
            &cfg,
            &trust,
            false,
            NOW,
        ) {
            Outcome::Reply(Response::Messages { consumer_warning, .. }) => consumer_warning,
            other => panic!("{other:?}"),
        }
    };
    assert_eq!(read(), None);
}
