//! The broker session, local frames and subscriptions.

use agentmsg::clock::{expired_at, fresh_at, timestamp, timestamp_at};
use agentmsg::config::Config;
use agentmsg::error::Error;
use agentmsg::ipc::{
    endpoint_name, frame_len, is_alive, read_frame, write_frame, Response, StreamFrame,
};
use agentmsg::mqtt::{client_id, session, sleep_interruptible, Event, Link, Nap, Reaction};
use agentmsg::paths;
use agentmsg::presence::PresenceBeacon;
use agentmsg::stream::{Lag, Offer, Subscribers};

#[test]
fn a_session_is_planned_from_the_configuration() {
    let mut c = Config::default();
    assert!(matches!(session(&c, "x"), Err(Error::Config(m)) if m == "broker host not set"));
    c.set_broker("b", 1, false);
    assert!(matches!(
        session(&c, "x"),
        Err(Error::Config(m)) if m == "TLS is required (set tls = true)"
    ));
    c.set_broker("b", 1, true);
    c.max_payload = 65536;
    c.set_topic("t").unwrap();
    let s = session(&c, "x").unwrap();
    assert_eq!((s.host.as_str(), s.port), ("b", 1));
    assert_eq!(s.max_packet, 262144);
    assert_eq!(s.credentials, None);
    assert!(!s.clean_session);
    assert_eq!(s.topics, vec!["t"]);
    c.set_credentials("u", "p");
    c.max_payload = 1_000_000;
    let s = session(&c, "x").unwrap();
    assert_eq!(s.max_packet, 2_065_536);
    assert_eq!(s.credentials, Some(("u".to_string(), "p".to_string())));
    c.max_payload = usize::MAX;
    assert_eq!(session(&c, "x").unwrap().max_packet, usize::MAX);
    assert_eq!(client_id("alice", 42), "alice-42");
}

#[test]
fn the_loop_backs_off_and_recovers() {
    let mut l = Link::new();
    for ms in [250, 500, 1000, 2000, 4000, 8000, 16000, 30000, 30000] {
        assert_eq!(l.on_event(Event::Failed, false), Reaction::Pause(ms));
        assert!(!l.connected);
    }
    assert_eq!(l.on_event(Event::Connected, false), Reaction::Subscribe);
    assert!(l.connected);
    assert_eq!(l.on_event(Event::Message, false), Reaction::Deliver);
    assert_eq!(l.on_event(Event::Other, false), Reaction::Continue);
    assert_eq!(l.on_event(Event::Failed, false), Reaction::Pause(250));
    assert_eq!(l.on_event(Event::Connected, true), Reaction::Leave);
    assert!(!l.connected);
}

/// How long a pause sleeps, in which stretches, and whether a stop ended it.
fn nap(total: u64, stop: bool) -> (u64, Vec<u64>, bool) {
    let mut slept = 0;
    let mut slices = Vec::new();
    loop {
        match sleep_interruptible(slept, total, stop) {
            Nap::Stopped => return (slept, slices, true),
            Nap::Over => return (slept, slices, false),
            Nap::Sleep(n) => {
                slices.push(n);
                slept += n;
            }
        }
    }
}

#[test]
fn sleep_interruptible_returns_early_when_stop_already_set() {
    // A long backoff must not be served in full once stop is signalled.
    let (slept, _, stopped) = nap(30 * 1000, true);
    assert!(stopped);
    assert!(slept < 1000);
}

#[test]
fn sleep_interruptible_sleeps_full_duration_when_not_stopped() {
    let (slept, slices, stopped) = nap(150, false);
    assert!(!stopped);
    assert_eq!(slept, 150);
    assert_eq!(slices, vec![100, 50]);
    assert_eq!(nap(0, false), (0, vec![], false));
}

#[test]
fn frames_read_back() {
    let mut out = Vec::new();
    write_frame(&mut out, b"abc");
    assert_eq!(out, vec![3, 0, 0, 0, b'a', b'b', b'c']);
    write_frame(&mut out, b"");
    assert_eq!(read_frame(&out), Some((b"abc".to_vec(), 7)));
    assert_eq!(read_frame(&out[7..]), Some((Vec::new(), 4)));
    assert_eq!(read_frame(&out[..6]), None);
    assert_eq!(read_frame(&[1, 0]), None);
    assert_eq!(frame_len(&[4, 3, 2, 1]), 0x01020304);
}

#[test]
fn the_endpoint_is_named_after_the_agent() {
    assert_eq!(endpoint_name("alice"), "agentmsg-alice.sock");
    assert!(is_alive(&Response::Pong));
    assert!(!is_alive(&Response::Done));
    assert_eq!(paths::store_path(), "messages.db");
    assert_eq!(StreamFrame::Lagged { dropped: 3 }.seq(), None);
}

#[test]
fn every_lost_message_is_told() {
    let mut l = Lag::new();
    assert_eq!(l.report(), None);
    assert!(l.offered(Offer::Taken));
    assert!(l.offered(Offer::Full));
    assert!(l.offered(Offer::Full));
    assert_eq!(l.report(), Some(2));
    assert!(l.reported(Offer::Full));
    assert!(l.offered(Offer::Full));
    assert_eq!(l.report(), Some(3));
    assert!(l.reported(Offer::Taken));
    assert!(l.offered(Offer::Taken));
    assert_eq!(l.report(), None);
    assert!(!l.reported(Offer::Gone));
    assert!(!l.offered(Offer::Gone));
}

#[test]
fn beacons_read_back() {
    let b = PresenceBeacon {
        state: "away".into(),
        source: "agent".into(),
        ttl_secs: -1,
        seq: i64::MIN,
        detail: Some("a\"b".into()),
    };
    assert_eq!(PresenceBeacon::read(&b.json()), Some(b));
    let short = PresenceBeacon::read("{\"state\":\"x\"}").unwrap();
    assert_eq!((short.source.as_str(), short.ttl_secs, short.seq), ("", 0, 0));
    assert_eq!(short.detail, None);
    assert_eq!(PresenceBeacon::read("{}"), None);
    assert_eq!(PresenceBeacon::read("{\"state\":\"x\",\"seq\":1.5}"), None);
}

#[test]
fn times_are_written_and_read_back() {
    let second: i128 = 1_000_000_000;
    let at = 1_782_604_800 * second;
    assert_eq!(timestamp_at(0), "1970-01-01T00:00:00Z");
    assert_eq!(timestamp_at(at), "2026-06-28T00:00:00Z");
    assert_eq!(timestamp_at(at + 500_000_001), "2026-06-28T00:00:00.500000001Z");
    assert_eq!(timestamp_at(-1), "1969-12-31T23:59:59.999999999Z");
    assert!(!expired_at(at + 1, &timestamp_at(at + 1)));
    assert!(expired_at(at + 2, &timestamp_at(at + 1)));
    assert!(fresh_at(at, &timestamp_at(at), 1));
    // The first and the last point with a text, and those beyond.
    let (first, end) = (-62_167_219_200 * second, 253_402_300_800 * second);
    assert_eq!(timestamp_at(first), "0000-01-01T00:00:00Z");
    assert_eq!(timestamp_at(end - 1), "9999-12-31T23:59:59.999999999Z");
    assert_eq!(timestamp_at(first - 1), "1970-01-01T00:00:00Z");
    assert_eq!(timestamp_at(end), "1970-01-01T00:00:00Z");
    assert_eq!(timestamp_at(i128::MAX), "1970-01-01T00:00:00Z");
    assert_eq!(timestamp_at(i128::MIN), "1970-01-01T00:00:00Z");
    // The present is after this was written.
    assert!(expired_at(i128::MAX, &timestamp()));
    assert!(!expired_at(1_700_000_000 * second, &timestamp()));
}

#[test]
fn subscribers_that_are_gone_are_removed() {
    let mut s = Subscribers::new();
    let (a, b, c) = (s.register(), s.register(), s.register());
    assert_eq!((a, b, c), (1, 2, 3));
    assert_eq!(s.reports(), vec![(1, None), (2, None), (3, None)]);
    // The second misses a message, the third is gone.
    let gone = s.settle(&vec![
        (Offer::Taken, Offer::Taken),
        (Offer::Taken, Offer::Full),
        (Offer::Taken, Offer::Gone),
    ]);
    assert_eq!(gone, vec![3]);
    assert_eq!(s.reports(), vec![(1, None), (2, Some(1))]);
    // It misses another, and then is told of both.
    s.settle(&vec![(Offer::Taken, Offer::Taken), (Offer::Full, Offer::Full)]);
    assert_eq!(s.reports(), vec![(1, None), (2, Some(2))]);
    s.settle(&vec![(Offer::Taken, Offer::Taken), (Offer::Taken, Offer::Taken)]);
    assert_eq!(s.reports(), vec![(1, None), (2, None)]);
    // An id is not given twice.
    assert_eq!(s.register(), 4);
    s.deregister(1);
    assert_eq!(s.reports(), vec![(2, None), (4, None)]);
    // A report can find a subscriber gone as well.
    s.settle(&vec![(Offer::Taken, Offer::Full), (Offer::Taken, Offer::Taken)]);
    assert_eq!(
        s.settle(&vec![(Offer::Gone, Offer::Gone), (Offer::Taken, Offer::Taken)]),
        vec![2]
    );
    assert_eq!(s.reports(), vec![(4, None)]);
    let l = Lag::new();
    assert_eq!(l.after(Offer::Taken, Offer::Full).map(|l| l.dropped), Some(1));
    assert_eq!(l.after(Offer::Taken, Offer::Gone), None);
}
