//! The message store.

use agentmsg::error::RejectReason;
use agentmsg::store::{migration, Migration, Outbound, Store};
use agentmsg::wire::{Inner, MsgKind, BROADCAST, CTYPE_TEXT, PROTOCOL_VERSION};

const NOW: &str = "2026-06-28 00:00:00";

fn inner(id: &str, from: &str, to: &str, body: &str) -> Inner {
    Inner {
        id: id.into(),
        v: PROTOCOL_VERSION,
        from: from.into(),
        to: to.into(),
        ts: "2026-06-28T00:00:00Z".into(),
        nonce: "n".into(),
        ctype: CTYPE_TEXT.into(),
        in_reply_to: None,
        body: body.into(),
        kind: MsgKind::default(),
        correlation_id: None,
        supersedes: None,
        enc: None,
        grant: None,
        receipt: None,
    }
}

#[test]
fn dedupe_and_drain_and_ack() {
    let mut s = Store::new();
    assert!(s
        .insert_inbound(&inner("1", "a", "me", "hi"), "t")
        .unwrap()
        .is_some());
    // duplicate id ignored
    assert!(s
        .insert_inbound(&inner("1", "a", "me", "hi"), "t")
        .unwrap()
        .is_none());
    assert!(s
        .insert_inbound(&inner("2", "a", "me", "yo"), "t")
        .unwrap()
        .is_some());

    let batch = s.read_after_cursor("me", 10);
    assert_eq!(batch.len(), 2);
    assert_eq!(batch[0].id, "1"); // oldest first
    s.ack("me", batch[1].seq, NOW);
    // after ack, nothing new
    assert!(s.read_after_cursor("me", 10).is_empty());
}

#[test]
fn browse_is_nondestructive_and_filters() {
    let mut s = Store::new();
    s.insert_inbound(&inner("1", "alice", "me", "a"), "t")
        .unwrap();
    s.insert_inbound(&inner("2", "bob", "me", "b"), "t").unwrap();
    s.insert_inbound(&inner("3", "alice", BROADCAST, "c"), "t")
        .unwrap();

    let recent = s.browse(10, None, None, "in");
    assert_eq!(recent.len(), 3);
    assert_eq!(recent[0].id, "3"); // newest first

    let from_alice = s.browse(10, Some("alice"), None, "in");
    assert_eq!(from_alice.len(), 2);

    // browse did not advance the drain cursor
    assert_eq!(s.read_after_cursor("me", 10).len(), 3);
}

#[test]
fn bounds_evict_oldest() {
    let mut s = Store::new();
    for i in 0..10 {
        s.insert_inbound(&inner(&i.to_string(), "a", "me", "x"), "t")
            .unwrap();
    }
    let evicted = s.enforce_bounds(4, u64::MAX);
    assert_eq!(evicted, 6);
    assert_eq!(s.message_count(), 4);
    let recent = s.browse(10, None, None, "in");
    assert_eq!(recent[0].id, "9"); // newest retained
}

#[test]
fn outbox_roundtrip() {
    let mut s = Store::new();
    s.enqueue_outbound(&Outbound {
        id: "1".into(),
        topic: "t".into(),
        payload: b"raw".to_vec(),
        qos: 1,
        retain: false,
    })
    .unwrap();
    assert_eq!(s.pending_outbound().len(), 1);
    s.mark_delivered("1", NOW);
    assert!(s.pending_outbound().is_empty());
}

#[test]
fn receipts_delivery_state_transitions() {
    let mut s = Store::new();
    // Log an outbound message (pending), then walk the delivery lifecycle.
    s.insert_outbound_log(&inner("m1", "me", "bob", "hi"), "t")
        .unwrap();
    assert_eq!(s.get_message("m1").unwrap().delivery_state, "pending");

    // Broker hand-off -> sent + broker_ack_ts.
    s.mark_delivered("m1", NOW);
    let m = s.get_message("m1").unwrap();
    assert_eq!(m.delivery_state, "sent");
    assert!(m.broker_ack_ts.is_some());

    // Inbound delivery receipt -> delivered.
    s.apply_delivery_receipt("m1", "2026-06-28T00:00:01Z");
    let m = s.get_message("m1").unwrap();
    assert_eq!(m.delivery_state, "delivered");
    assert_eq!(m.delivered_ts.as_deref(), Some("2026-06-28T00:00:01Z"));

    // Inbound read receipt -> read.
    s.apply_read_receipt("m1", "2026-06-28T00:00:02Z");
    let m = s.get_message("m1").unwrap();
    assert_eq!(m.delivery_state, "read");
    assert_eq!(m.read_ts.as_deref(), Some("2026-06-28T00:00:02Z"));

    // outbound_receipts filters on delivery state.
    assert_eq!(s.outbound_receipts(10, None).len(), 1);
    assert_eq!(s.outbound_receipts(10, Some("read")).len(), 1);
    assert!(s.outbound_receipts(10, Some("pending")).is_empty());

    // mark_failed is terminal and read-receipts never downgrade it.
    s.insert_outbound_log(&inner("m2", "me", "bob", "yo"), "t")
        .unwrap();
    s.mark_failed("m2");
    s.apply_read_receipt("m2", "2026-06-28T00:00:03Z");
    assert_eq!(s.get_message("m2").unwrap().delivery_state, "failed");
}

#[test]
fn transcript_is_chronological_both_directions() {
    let mut s = Store::new();
    s.insert_inbound(&inner("1", "bob", "me", "hi"), "t").unwrap();
    s.insert_outbound_log(&inner("2", "me", "bob", "hello back"), "t")
        .unwrap();
    s.insert_inbound(&inner("3", "carol", "me", "unrelated"), "t")
        .unwrap();

    // Full transcript spans both directions, oldest-first.
    let all = s.transcript(10, None, None, None);
    assert_eq!(all.len(), 3);
    assert_eq!(all[0].id, "1");
    assert_eq!(all[1].id, "2");

    // peer filter matches sender OR recipient.
    let with_bob = s.transcript(10, None, None, Some("bob"));
    assert_eq!(with_bob.len(), 2);
    assert!(with_bob.iter().all(|m| m.from == "bob" || m.to == "bob"));
}

#[test]
fn consumers_report_unread() {
    let mut s = Store::new();
    s.insert_inbound(&inner("1", "a", "me", "x"), "t").unwrap();
    s.insert_inbound(&inner("2", "a", "me", "y"), "t").unwrap();
    let batch = s.read_after_cursor("worker", 10);
    s.ack("worker", batch[0].seq, NOW);

    let rows = s.consumers();
    assert_eq!(rows.len(), 1);
    assert_eq!(rows[0].consumer, "worker");
    assert_eq!(rows[0].last_seq, batch[0].seq);
    assert_eq!(rows[0].unread, 1); // one message past the cursor
    assert!(rows[0].last_read_at.is_some()); // stamped on ack
}

#[test]
fn presence_upsert_keeps_highest_seq() {
    let mut s = Store::new();
    s.upsert_presence("alice", "online", "agent", 30, 5, Some("busy"), "t1");
    // A lower-seq beacon must NOT overwrite a newer record.
    s.upsert_presence("alice", "away", "agent", 30, 3, None, "t0");
    let rows = s.list_presence();
    assert_eq!(rows.len(), 1);
    assert_eq!(rows[0].agent, "alice");
    assert_eq!(rows[0].state.as_deref(), Some("online"));
    assert_eq!(rows[0].seq, 5);

    // A higher-or-equal seq beacon updates in place.
    s.upsert_presence("alice", "away", "agent", 30, 6, None, "t2");
    let rows = s.list_presence();
    assert_eq!(rows[0].state.as_deref(), Some("away"));
    assert_eq!(rows[0].seq, 6);
}

#[test]
fn seen_grant_replay_guard() {
    let mut s = Store::new();
    assert!(!s.seen_grant("g1")); // first use: not yet seen
    assert!(s.seen_grant("g1")); // replay: already seen
    assert!(!s.seen_grant("g2"));
}

#[test]
fn outbound_awaiting_receipt_not_evicted() {
    let mut s = Store::new();
    // An outbound message still awaiting its receipt (delivery_state='sent')
    // must survive eviction even when over the message cap.
    s.insert_outbound_log(&inner("out1", "me", "bob", "keep"), "t")
        .unwrap();
    s.mark_delivered("out1", NOW);
    for i in 0..10 {
        s.insert_inbound(&inner(&format!("in{i}"), "a", "me", "x"), "t")
            .unwrap();
    }
    s.enforce_bounds(2, u64::MAX);
    // The pending-receipt outbound row is retained.
    assert!(s.get_message("out1").is_some());
}

#[test]
fn no_more_is_evicted_than_needed() {
    let mut s = Store::new();
    s.insert_inbound(&inner("1", "a", "me", "0123456789"), "t").unwrap();
    s.insert_inbound(&inner("2", "a", "me", "0123456789"), "t").unwrap();
    assert_eq!(s.enforce_bounds(100, 10), 1);
    assert!(s.get_message("1").is_none());
    assert!(s.get_message("2").is_some());

    let mut s = Store::new();
    for i in 0..100 {
        s.insert_inbound(&inner(&i.to_string(), "a", "me", "\u{e9}"), "t")
            .unwrap();
    }
    // One hundred bodies of two bytes each.
    assert_eq!(s.enforce_bounds(100, 200), 0);
    assert_eq!(s.enforce_bounds(100, 199), 1);
    assert_eq!(s.enforce_bounds(98, 20), 89);
    assert_eq!(s.message_count(), 10);
    assert_eq!(s.transcript(1, None, None, None)[0].id, "90");
    // A number is never given twice.
    assert_eq!(
        s.insert_inbound(&inner("next", "a", "me", "x"), "t").unwrap(),
        Some(101)
    );
}

#[test]
fn nothing_left_to_evict_ends_the_eviction() {
    let mut s = Store::new();
    s.insert_outbound_log(&inner("o", "me", "bob", "long body"), "t")
        .unwrap();
    assert_eq!(s.enforce_bounds(0, 0), 0);
    assert_eq!(s.message_count(), 1);
    s.mark_failed("o");
    assert_eq!(s.enforce_bounds(0, 0), 1);
    assert_eq!(s.message_count(), 0);
}

#[test]
fn a_cursor_never_moves_back() {
    let mut s = Store::new();
    assert_eq!(s.cursor("c"), 0);
    s.ack("c", 5, "t1");
    s.ack("c", 3, "t2");
    assert_eq!(s.cursor("c"), 5);
    assert_eq!(s.consumers()[0].last_read_at.as_deref(), Some("t1"));
    s.ack("c", 6, "t3");
    assert_eq!(s.cursor("c"), 6);
    assert_eq!(s.cursor("d"), 0);
}

#[test]
fn reading_in_batches_gives_each_message_once() {
    let mut s = Store::new();
    for i in 0..5 {
        s.insert_inbound(&inner(&i.to_string(), "a", "me", "x"), "t")
            .unwrap();
        s.insert_outbound_log(&inner(&format!("o{i}"), "me", "a", "y"), "t")
            .unwrap();
    }
    let mut seen: Vec<String> = Vec::new();
    loop {
        let batch = s.read_after_cursor("me", 2);
        if batch.is_empty() {
            break;
        }
        assert!(batch.len() <= 2);
        let last = batch[batch.len() - 1].seq;
        seen.extend(batch.into_iter().map(|m| m.id));
        s.ack("me", last, NOW);
    }
    assert_eq!(seen, vec!["0", "1", "2", "3", "4"]);
    assert_eq!(s.max_inbound_seq(), 9);
}

#[test]
fn limits_and_filters() {
    let mut s = Store::new();
    for i in 0..4 {
        s.insert_inbound(&inner(&i.to_string(), "a", "me", "x"), "t")
            .unwrap();
    }
    s.insert_inbound(&inner("b", "a", BROADCAST, "x"), "t").unwrap();
    s.insert_outbound_log(&inner("o", "me", "a", "x"), "t").unwrap();
    assert_eq!(s.browse(-1, None, None, "all").len(), 6);
    assert_eq!(s.browse(0, None, None, "in").len(), 0);
    assert_eq!(s.browse(2, None, None, "in")[1].id, "3");
    assert_eq!(s.browse(10, None, None, "out").len(), 1);
    // A message to everyone is for every recipient when browsing, and only for
    // itself in a transcript.
    assert_eq!(s.browse(10, None, Some("nobody"), "in").len(), 1);
    assert_eq!(s.transcript(10, None, Some("nobody"), None).len(), 0);
    assert_eq!(s.transcript(10, None, Some(BROADCAST), None).len(), 1);
    assert_eq!(s.browse_all(10, None, Some("a")).len(), 2);
    assert_eq!(s.browse_all(1, None, None)[0].id, "0");
    assert_eq!(s.unread("c"), 5);
    assert_eq!(s.covered("me", "c", 3).len(), 3);
    s.ack("c", 2, NOW);
    assert_eq!(s.unread("c"), 3);
    assert_eq!(s.covered("me", "c", 3).len(), 1);
    assert_eq!(s.covered("me", "c", 1)[0].id, "0");
    assert_eq!(s.covered("me", "c", 1).len(), 1);
    assert!(s.covered("me", "c", i64::MIN).is_empty());
    assert!(s.contains_id("b"));
    assert!(!s.contains_id("z"));
    assert_eq!(s.message_by_seq(1).unwrap().id, "0");
    assert!(s.message_by_seq(7).is_none());
}

#[test]
fn a_queued_id_is_queued_once() {
    let mut s = Store::new();
    for payload in [b"one".to_vec(), b"two".to_vec()] {
        s.enqueue_outbound(&Outbound {
            id: "1".into(),
            topic: "t".into(),
            payload,
            qos: 1,
            retain: false,
        })
        .unwrap();
    }
    let out = s.pending_outbound();
    assert_eq!(out.len(), 1);
    assert_eq!(out[0].payload, b"one");
}

#[test]
fn hand_off_comes_before_receipts_only() {
    let mut s = Store::new();
    s.insert_outbound_log(&inner("m", "me", "bob", "hi"), "t").unwrap();
    s.apply_read_receipt("m", "r");
    s.mark_delivered("m", NOW);
    s.apply_delivery_receipt("m", "d");
    let m = s.get_message("m").unwrap();
    assert_eq!(m.delivery_state, "read");
    assert_eq!(m.broker_ack_ts, None);
    assert_eq!(m.delivered_ts, None);
    // An inbound message has no such life.
    s.insert_inbound(&inner("i", "bob", "me", "hi"), "t").unwrap();
    s.mark_failed("i");
    assert_eq!(s.get_message("i").unwrap().delivery_state, "none");
}

#[test]
fn rejections_are_recorded_and_filtered() {
    let mut s = Store::new();
    s.record_rejection(&RejectReason::UnknownSigner, Some("x"), "t", "d", "2026-01-01 00:00:00")
        .unwrap();
    s.record_rejection(&RejectReason::Stale, None, "t", "", "2026-01-02 00:00:00")
        .unwrap();
    assert_eq!(s.rejection_count(), 2);
    let rows = s.rejections(10, None, None);
    assert_eq!(rows[0].reason, "stale");
    assert_eq!(rows[1].seq, 1);
    assert_eq!(rows[1].claimed_sender.as_deref(), Some("x"));
    assert_eq!(rows[1].topic.as_deref(), Some("t"));
    assert_eq!(s.rejections(10, Some("stale"), None).len(), 1);
    assert_eq!(s.rejections(10, None, Some("2026-01-01 00:00:00")).len(), 2);
    assert_eq!(s.rejections(10, None, Some("2026-01-01 00:00:01")).len(), 1);
    assert_eq!(s.rejections(1, None, None).len(), 1);
}

#[test]
fn a_kept_store_is_restored() {
    let mut s = Store::new();
    s.insert_inbound(&inner("1", "a", "me", "x"), "t").unwrap();
    s.insert_inbound(&inner("2", "a", "me", "y"), "t").unwrap();
    s.ack("me", 1, NOW);
    s.record_rejection(&RejectReason::Stale, None, "t", "", NOW).unwrap();
    s.upsert_presence("alice", "online", "agent", 30, 5, None, "t1");
    assert!(!s.seen_grant("g"));

    let mut back = Store::new();
    for m in s.transcript(-1, None, None, None) {
        assert!(back.restore_message(m));
    }
    for c in s.consumers() {
        back.restore_cursor(&c.consumer, c.last_seq, c.last_read_at.as_deref());
    }
    for r in s.rejections(-1, None, None).into_iter().rev() {
        assert!(back.restore_rejection(r));
    }
    for p in s.list_presence() {
        back.restore_presence(p);
    }
    for g in s.used_grants() {
        assert!(!back.seen_grant(&g));
    }
    back.restore_counters(7, 0, 0);

    assert_eq!(
        back.transcript(-1, None, None, None),
        s.transcript(-1, None, None, None)
    );
    assert_eq!(back.consumers(), s.consumers());
    assert_eq!(back.rejections(-1, None, None), s.rejections(-1, None, None));
    assert_eq!(back.list_presence(), s.list_presence());
    assert!(back.seen_grant("g"));
    assert_eq!(
        back.insert_inbound(&inner("3", "a", "me", "z"), "t").unwrap(),
        Some(8)
    );
    // What is out of order or known is not taken over.
    let again = back.message_by_seq(1).unwrap();
    assert!(!back.restore_message(again));
}

#[test]
fn numbers_that_are_used_up_are_an_error() {
    let mut s = Store::new();
    s.restore_counters(i64::MAX, i64::MAX, i64::MAX);
    assert!(s.insert_inbound(&inner("1", "a", "me", "x"), "t").is_err());
    assert!(s.insert_outbound_log(&inner("1", "a", "me", "x"), "t").is_err());
    assert!(s
        .record_rejection(&RejectReason::Stale, None, "t", "", NOW)
        .is_err());
    assert!(s
        .enqueue_outbound(&Outbound {
            id: "1".into(),
            topic: "t".into(),
            payload: Vec::new(),
            qos: 1,
            retain: false,
        })
        .is_err());
    assert_eq!(s.message_count(), 0);
}

#[test]
fn an_old_store_is_upgraded() {
    assert_eq!(migration(0, false), Migration::Create);
    assert_eq!(migration(0, true), Migration::Upgrade);
    assert_eq!(migration(2, true), Migration::Current);
    assert_eq!(migration(3, false), Migration::Current);
}
