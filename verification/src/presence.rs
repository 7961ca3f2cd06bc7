//! The application presence beacon: what an agent says of its own state.

use vstd::prelude::*;
use vstd::string::*;
use vstd::utf8::*;

use crate::json;
use crate::text;
use crate::wire;

verus! {

/// Body of a presence beacon.
#[derive(Debug, PartialEq, Eq)]
pub struct PresenceBeacon {
    pub state: String,
    /// Who speaks: `agent` or `daemon`.
    pub source: String,
    /// For how many seconds the state holds, zero without a limit.
    pub ttl_secs: i64,
    /// Beacons with a higher number replace those with a lower one.
    pub seq: i64,
    pub detail: Option<String>,
}

/// The model of a [`PresenceBeacon`].
pub struct BeaconView {
    pub state: Seq<char>,
    pub source: Seq<char>,
    pub ttl_secs: i64,
    pub seq: i64,
    pub detail: Option<Seq<char>>,
}

impl View for PresenceBeacon {
    type V = BeaconView;

    open spec fn view(&self) -> BeaconView {
        BeaconView {
            state: self.state@,
            source: self.source@,
            ttl_secs: self.ttl_secs,
            seq: self.seq,
            detail: text::opt_text(self.detail),
        }
    }
}

/// The members of a beacon, in the order in which they are written.
pub open spec fn beacon_members(b: BeaconView) -> Seq<(Seq<char>, Seq<char>)> {
    let m0 = json::with_text(wire::no_members(), "state"@, b.state);
    let m1 = json::with_text(m0, "source"@, b.source);
    let m2 = m1.push(("ttl_secs"@, text::decimal_int(b.ttl_secs as int)));
    let m3 = m2.push(("seq"@, text::decimal_int(b.seq as int)));
    json::with_opt_text(m3, "detail"@, b.detail)
}

/// The text of a beacon.
pub open spec fn beacon_text(b: BeaconView) -> Seq<char> {
    json::object_text(beacon_members(b))
}

/// The beacon that a text stands for. Only the state must be there.
pub open spec fn beacon_of(t: Seq<char>) -> Option<BeaconView> {
    match json::fields_of(encode_utf8(t), 5) {
        None => None,
        Some(f) => match (
            json::text_field(f, 0, "state"@),
            json::default_text_field(f, 1, "source"@),
            json::default_integer_field(f, 2, "ttl_secs"@),
            json::default_integer_field(f, 3, "seq"@),
            json::opt_text_field(f, 4, "detail"@),
        ) {
            (Some(state), Some(source), Some(ttl_secs), Some(seq), Some(detail)) => Some(
                BeaconView { state, source, ttl_secs, seq, detail },
            ),
            _ => None,
        },
    }
}

/// The model of an optional beacon.
pub open spec fn opt_beacon(o: Option<PresenceBeacon>) -> Option<BeaconView> {
    match o {
        Some(b) => Some(b@),
        None => None,
    }
}

impl PresenceBeacon {
    /// The text of the beacon, which reads back.
    pub fn json(&self) -> (t: String)
        ensures
            t@ == beacon_text(self@),
            beacon_of(t@) == Some(self@),
    {
        let mut w = json::ObjectWriter::new();
        w.text("state", self.state.as_str());
        w.text("source", self.source.as_str());
        w.integer("ttl_secs", self.ttl_secs);
        w.integer("seq", self.seq);
        w.opt_text("detail", &self.detail);
        let ghost b = self@;
        let ghost ms = beacon_members(b);
        assert(w.members() == ms);
        let t: String = w.finish();
        proof {
            let m0 = json::with_text(wire::no_members(), "state"@, b.state);
            let m1 = json::with_text(m0, "source"@, b.source);
            let m2 = m1.push(("ttl_secs"@, text::decimal_int(b.ttl_secs as int)));
            let m3 = m2.push(("seq"@, text::decimal_int(b.seq as int)));
            json::lemma_members_read_back(ms);
            json::lemma_slot_empty();
            json::lemma_slot_push(wire::no_members(), "state"@, json::json_quoted(b.state));
            json::lemma_slot_push(m0, "source"@, json::json_quoted(b.source));
            json::lemma_slot_push(m1, "ttl_secs"@, text::decimal_int(b.ttl_secs as int));
            json::lemma_slot_push(m2, "seq"@, text::decimal_int(b.seq as int));
            if let Some(d) = b.detail {
                json::lemma_slot_push(m3, "detail"@, json::json_quoted(d));
            }
            reveal_strlit("state");
            reveal_strlit("source");
            reveal_strlit("ttl_secs");
            reveal_strlit("seq");
            reveal_strlit("detail");
            assert("state"@.len() == 5 && "ttl_secs"@.len() == 8 && "seq"@.len() == 3);
            assert("source"@.len() == 6 && "detail"@.len() == 6 && "source"@[0] != "detail"@[0]);
            let f = json::Fields::Object(json::as_read(ms));
            assert(json::text_field(f, 0, "state"@) == Some(b.state));
            assert(json::default_text_field(f, 1, "source"@) == Some(b.source));
            assert(json::default_integer_field(f, 2, "ttl_secs"@) == Some(b.ttl_secs));
            assert(json::default_integer_field(f, 3, "seq"@) == Some(b.seq));
            assert(json::opt_text_field(f, 4, "detail"@) == Some(b.detail));
        }
        t
    }

    /// The beacon in a message body.
    pub fn read(body: &str) -> (r: Option<PresenceBeacon>)
        ensures
            opt_beacon(r) == beacon_of(body@),
    {
        match json::split_fields(body.as_bytes(), 5) {
            None => None,
            Some(f) => {
                match (
                    f.text(0, "state"),
                    f.default_text(1, "source"),
                    f.default_integer(2, "ttl_secs"),
                    f.default_integer(3, "seq"),
                    f.opt_text(4, "detail"),
                ) {
                    (Some(state), Some(source), Some(ttl_secs), Some(seq), Some(detail)) => Some(
                        PresenceBeacon { state, source, ttl_secs, seq, detail },
                    ),
                    _ => None,
                }
            },
        }
    }
}

/// A beacon that was read says what stands under its names; only its state must
/// be there.
pub proof fn a_beacon_is_read_by_its_names(t: Seq<char>, ms: Seq<json::Member>)
    requires
        json::members_of(encode_utf8(t)) == Some(ms),
    ensures
        json::slot_in(ms, "state"@) == json::Slot::Absent ==> beacon_of(t) is None,
        beacon_of(t) matches Some(b) ==> {
            &&& wire::text_under(ms, "state"@, b.state)
            &&& wire::opt_text_under(ms, "detail"@, b.detail)
            &&& json::slot_in(ms, "source"@) == json::Slot::Absent ==> b.source.len() == 0
            &&& json::slot_in(ms, "source"@) matches json::Slot::At(v) ==> json::json_string(v)
                == Some(b.source)
            &&& json::slot_in(ms, "ttl_secs"@) == json::Slot::Absent ==> b.ttl_secs == 0
            &&& json::slot_in(ms, "ttl_secs"@) matches json::Slot::At(v) ==> json::json_integer(v)
                == Some(b.ttl_secs)
            &&& json::slot_in(ms, "seq"@) == json::Slot::Absent ==> b.seq == 0
            &&& json::slot_in(ms, "seq"@) matches json::Slot::At(v) ==> json::json_integer(v)
                == Some(b.seq)
        },
{
}

} // verus!
