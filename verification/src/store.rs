//! Local message store: inbox and outbox, per-consumer cursors, replay dedupe,
//! rejection log, presence records, single-use grants and retention bounds.
//!
//! The store is the state that survives between messages; where it is kept is
//! its user's business. Stamps of the local clock are handed in as text.

use vstd::prelude::*;
use vstd::string::*;
use vstd::utf8::*;

use crate::error::{Error, ErrorView, RejectReason};
use crate::error;
use crate::names;
use crate::names::NameMap;
use crate::text;
use crate::wire;
use crate::wire::{Inner, InnerView};

verus! {

/// A stored message.
#[derive(Debug, PartialEq, Eq)]
pub struct StoredMsg {
    pub seq: i64,
    pub id: String,
    /// `in` or `out`.
    pub direction: String,
    pub from: String,
    pub to: String,
    pub topic: String,
    pub ts: String,
    pub ctype: String,
    pub in_reply_to: Option<String>,
    pub body: String,
    /// Name of the message kind.
    pub kind: String,
    pub correlation_id: Option<String>,
    pub supersedes: Option<String>,
    /// True if this message was encrypted on the wire.
    pub encrypted: bool,
    /// Delivery lifecycle: none, pending, sent, delivered, read or failed.
    pub delivery_state: String,
    pub broker_ack_ts: Option<String>,
    pub delivered_ts: Option<String>,
    pub read_ts: Option<String>,
}

/// The model of a [`StoredMsg`].
pub struct MsgView {
    pub seq: i64,
    pub id: Seq<char>,
    pub direction: Seq<char>,
    pub from: Seq<char>,
    pub to: Seq<char>,
    pub topic: Seq<char>,
    pub ts: Seq<char>,
    pub ctype: Seq<char>,
    pub in_reply_to: Option<Seq<char>>,
    pub body: Seq<char>,
    pub kind: Seq<char>,
    pub correlation_id: Option<Seq<char>>,
    pub supersedes: Option<Seq<char>>,
    pub encrypted: bool,
    pub delivery_state: Seq<char>,
    pub broker_ack_ts: Option<Seq<char>>,
    pub delivered_ts: Option<Seq<char>>,
    pub read_ts: Option<Seq<char>>,
}

impl View for StoredMsg {
    type V = MsgView;

    open spec fn view(&self) -> MsgView {
        MsgView {
            seq: self.seq,
            id: self.id@,
            direction: self.direction@,
            from: self.from@,
            to: self.to@,
            topic: self.topic@,
            ts: self.ts@,
            ctype: self.ctype@,
            in_reply_to: text::opt_text(self.in_reply_to),
            body: self.body@,
            kind: self.kind@,
            correlation_id: text::opt_text(self.correlation_id),
            supersedes: text::opt_text(self.supersedes),
            encrypted: self.encrypted,
            delivery_state: self.delivery_state@,
            broker_ack_ts: text::opt_text(self.broker_ack_ts),
            delivered_ts: text::opt_text(self.delivered_ts),
            read_ts: text::opt_text(self.read_ts),
        }
    }
}

impl Clone for StoredMsg {
    fn clone(&self) -> (r: StoredMsg)
        ensures
            r@ == self@,
    {
        StoredMsg {
            seq: self.seq,
            id: self.id.clone(),
            direction: self.direction.clone(),
            from: self.from.clone(),
            to: self.to.clone(),
            topic: self.topic.clone(),
            ts: self.ts.clone(),
            ctype: self.ctype.clone(),
            in_reply_to: text::copy_opt(&self.in_reply_to),
            body: self.body.clone(),
            kind: self.kind.clone(),
            correlation_id: text::copy_opt(&self.correlation_id),
            supersedes: text::copy_opt(&self.supersedes),
            encrypted: self.encrypted,
            delivery_state: self.delivery_state.clone(),
            broker_ack_ts: text::copy_opt(&self.broker_ack_ts),
            delivered_ts: text::copy_opt(&self.delivered_ts),
            read_ts: text::copy_opt(&self.read_ts),
        }
    }
}

/// The models of a list of messages.
pub open spec fn msg_views(v: Seq<StoredMsg>) -> Seq<MsgView> {
    Seq::new(v.len(), |i: int| v[i]@)
}

/// The model of an optional message.
pub open spec fn opt_msg(o: Option<StoredMsg>) -> Option<MsgView> {
    match o {
        Some(m) => Some(m@),
        None => None,
    }
}

/// An outbound message that awaits hand-off to the broker.
#[derive(Debug, PartialEq, Eq)]
pub struct Outbound {
    pub id: String,
    pub topic: String,
    pub payload: Vec<u8>,
    pub qos: u8,
    pub retain: bool,
}

/// The model of an [`Outbound`] message.
pub struct OutboundView {
    pub id: Seq<char>,
    pub topic: Seq<char>,
    pub payload: Seq<u8>,
    pub qos: u8,
    pub retain: bool,
}

impl View for Outbound {
    type V = OutboundView;

    open spec fn view(&self) -> OutboundView {
        OutboundView {
            id: self.id@,
            topic: self.topic@,
            payload: self.payload@,
            qos: self.qos,
            retain: self.retain,
        }
    }
}

impl Clone for Outbound {
    fn clone(&self) -> (r: Outbound)
        ensures
            r@ == self@,
    {
        Outbound {
            id: self.id.clone(),
            topic: self.topic.clone(),
            payload: text::copy_bytes(self.payload.as_slice()),
            qos: self.qos,
            retain: self.retain,
        }
    }
}

/// The models of a list of outbound messages.
pub open spec fn outbound_views(v: Seq<Outbound>) -> Seq<OutboundView> {
    Seq::new(v.len(), |i: int| v[i]@)
}

/// A recorded rejection.
#[derive(Debug, PartialEq, Eq)]
pub struct RejectionRow {
    pub seq: i64,
    pub at: String,
    pub reason: String,
    pub claimed_sender: Option<String>,
    pub topic: Option<String>,
    pub detail: String,
}

/// The model of a [`RejectionRow`].
pub struct RejectionView {
    pub seq: i64,
    pub at: Seq<char>,
    pub reason: Seq<char>,
    pub claimed_sender: Option<Seq<char>>,
    pub topic: Option<Seq<char>>,
    pub detail: Seq<char>,
}

impl View for RejectionRow {
    type V = RejectionView;

    open spec fn view(&self) -> RejectionView {
        RejectionView {
            seq: self.seq,
            at: self.at@,
            reason: self.reason@,
            claimed_sender: text::opt_text(self.claimed_sender),
            topic: text::opt_text(self.topic),
            detail: self.detail@,
        }
    }
}

impl Clone for RejectionRow {
    fn clone(&self) -> (r: RejectionRow)
        ensures
            r@ == self@,
    {
        RejectionRow {
            seq: self.seq,
            at: self.at.clone(),
            reason: self.reason.clone(),
            claimed_sender: text::copy_opt(&self.claimed_sender),
            topic: text::copy_opt(&self.topic),
            detail: self.detail.clone(),
        }
    }
}

/// The models of a list of rejections.
pub open spec fn rejection_views(v: Seq<RejectionRow>) -> Seq<RejectionView> {
    Seq::new(v.len(), |i: int| v[i]@)
}

/// A consumer's cursor with its backlog.
#[derive(Debug, PartialEq, Eq)]
pub struct ConsumerRow {
    pub consumer: String,
    pub last_seq: i64,
    pub unread: i64,
    pub last_read_at: Option<String>,
}

/// The model of a [`ConsumerRow`].
pub struct ConsumerView {
    pub consumer: Seq<char>,
    pub last_seq: i64,
    pub unread: int,
    pub last_read_at: Option<Seq<char>>,
}

impl View for ConsumerRow {
    type V = ConsumerView;

    open spec fn view(&self) -> ConsumerView {
        ConsumerView {
            consumer: self.consumer@,
            last_seq: self.last_seq,
            unread: self.unread as int,
            last_read_at: text::opt_text(self.last_read_at),
        }
    }
}

/// The models of a list of consumers.
pub open spec fn consumer_views(v: Seq<ConsumerRow>) -> Seq<ConsumerView> {
    Seq::new(v.len(), |i: int| v[i]@)
}

/// An application presence record.
#[derive(Debug, PartialEq, Eq)]
pub struct PresenceRow {
    pub agent: String,
    pub state: Option<String>,
    pub source: Option<String>,
    pub ttl_secs: Option<i64>,
    pub detail: Option<String>,
    pub seq: i64,
    pub last_seen: String,
}

/// The model of a [`PresenceRow`].
pub struct PresenceView {
    pub agent: Seq<char>,
    pub state: Option<Seq<char>>,
    pub source: Option<Seq<char>>,
    pub ttl_secs: Option<i64>,
    pub detail: Option<Seq<char>>,
    pub seq: i64,
    pub last_seen: Seq<char>,
}

impl View for PresenceRow {
    type V = PresenceView;

    open spec fn view(&self) -> PresenceView {
        PresenceView {
            agent: self.agent@,
            state: text::opt_text(self.state),
            source: text::opt_text(self.source),
            ttl_secs: self.ttl_secs,
            detail: text::opt_text(self.detail),
            seq: self.seq,
            last_seen: self.last_seen@,
        }
    }
}

impl Clone for PresenceRow {
    fn clone(&self) -> (r: PresenceRow)
        ensures
            r@ == self@,
    {
        PresenceRow {
            agent: self.agent.clone(),
            state: text::copy_opt(&self.state),
            source: text::copy_opt(&self.source),
            ttl_secs: self.ttl_secs,
            detail: text::copy_opt(&self.detail),
            seq: self.seq,
            last_seen: self.last_seen.clone(),
        }
    }
}

/// The models of a list of presence records.
pub open spec fn presence_views(v: Seq<PresenceRow>) -> Seq<PresenceView> {
    Seq::new(v.len(), |i: int| v[i]@)
}

/// Where a consumer stands.
pub struct Cursor {
    pub last_seq: i64,
    pub updated_at: Option<String>,
}

/// The model of a [`Cursor`].
pub struct CursorView {
    pub last_seq: i64,
    pub updated_at: Option<Seq<char>>,
}

impl View for Cursor {
    type V = CursorView;

    open spec fn view(&self) -> CursorView {
        CursorView { last_seq: self.last_seq, updated_at: text::opt_text(self.updated_at) }
    }
}

/// The model of a [`Store`].
pub struct StoreView {
    /// The messages in the order of their sequence numbers.
    pub messages: Seq<MsgView>,
    /// The highest sequence number that was ever given to a message.
    pub last_seq: i64,
    /// The consumers' cursors by name.
    pub cursors: Map<Seq<char>, CursorView>,
    /// The messages that await hand-off, the oldest first.
    pub outbox: Seq<OutboundView>,
    /// How many messages ever entered the outbox.
    pub last_outbound: i64,
    /// The recorded rejections, the oldest first.
    pub rejections: Seq<RejectionView>,
    /// The highest sequence number that was ever given to a rejection.
    pub last_rejection: i64,
    /// The presence records by agent.
    pub presence: Map<Seq<char>, PresenceView>,
    /// The grants that were used.
    pub seen_grants: Set<Seq<char>>,
}

/// The message store.
pub struct Store {
    messages: Vec<StoredMsg>,
    last_seq: i64,
    cursors: NameMap<Cursor>,
    outbox: Vec<Outbound>,
    last_outbound: i64,
    rejections: Vec<RejectionRow>,
    last_rejection: i64,
    presence: NameMap<PresenceRow>,
    seen_grants: NameMap<bool>,
}

spec fn cursor_views(m: Map<Seq<char>, Cursor>) -> Map<Seq<char>, CursorView> {
    Map::new(|k: Seq<char>| m.contains_key(k), |k: Seq<char>| m[k]@)
}

spec fn presence_map(m: Map<Seq<char>, PresenceRow>) -> Map<Seq<char>, PresenceView> {
    Map::new(|k: Seq<char>| m.contains_key(k), |k: Seq<char>| m[k]@)
}

impl View for Store {
    type V = StoreView;

    closed spec fn view(&self) -> StoreView {
        StoreView {
            messages: msg_views(self.messages@),
            last_seq: self.last_seq,
            cursors: cursor_views(self.cursors@),
            outbox: outbound_views(self.outbox@),
            last_outbound: self.last_outbound,
            rejections: rejection_views(self.rejections@),
            last_rejection: self.last_rejection,
            presence: presence_map(self.presence@),
            seen_grants: self.seen_grants@.dom(),
        }
    }
}

// ---------------------------------------------------------------------------
// What the store's operations mean.
// ---------------------------------------------------------------------------

/// A message with this id is stored.
pub open spec fn has_id(ms: Seq<MsgView>, id: Seq<char>) -> bool {
    exists|i: int| 0 <= i < ms.len() && (#[trigger] ms[i]).id == id
}

/// The stored message with an id.
pub open spec fn with_id(ms: Seq<MsgView>, id: Seq<char>) -> Option<MsgView>
    decreases ms.len(),
{
    if ms.len() == 0 {
        None
    } else if ms.last().id == id {
        Some(ms.last())
    } else {
        with_id(ms.drop_last(), id)
    }
}

/// The stored message with a sequence number.
pub open spec fn with_seq(ms: Seq<MsgView>, seq: i64) -> Option<MsgView>
    decreases ms.len(),
{
    if ms.len() == 0 {
        None
    } else if ms.last().seq == seq {
        Some(ms.last())
    } else {
        with_seq(ms.drop_last(), seq)
    }
}

/// The stored form of a message.
pub open spec fn row_of(
    i: InnerView,
    topic: Seq<char>,
    direction: Seq<char>,
    state: Seq<char>,
    seq: i64,
) -> MsgView {
    MsgView {
        seq,
        id: i.id,
        direction,
        from: i.from,
        to: i.to,
        topic,
        ts: i.ts,
        ctype: i.ctype,
        in_reply_to: i.in_reply_to,
        body: i.body,
        kind: wire::kind_text(i.kind),
        correlation_id: i.correlation_id,
        supersedes: i.supersedes,
        encrypted: i.enc is Some,
        delivery_state: state,
        broker_ack_ts: None,
        delivered_ts: None,
        read_ts: None,
    }
}

/// The store with a message logged under the next sequence number, unless its id
/// is known.
pub open spec fn logged(
    s: StoreView,
    i: InnerView,
    topic: Seq<char>,
    direction: Seq<char>,
    state: Seq<char>,
) -> StoreView {
    if has_id(s.messages, i.id) || s.last_seq == i64::MAX {
        s
    } else {
        let seq = (s.last_seq + 1) as i64;
        StoreView {
            messages: s.messages.push(row_of(i, topic, direction, state, seq)),
            last_seq: seq,
            ..s
        }
    }
}

/// What logging a message returns: its number, nothing for a known id, an error
/// once the numbers are used up.
pub open spec fn logged_seq(s: StoreView, id: Seq<char>) -> Result<Option<i64>, ErrorView> {
    if has_id(s.messages, id) {
        Ok(None)
    } else if s.last_seq == i64::MAX {
        Err(ErrorView::Store("database or disk is full"@))
    } else {
        Ok(Some((s.last_seq + 1) as i64))
    }
}

/// The model of a numbered result.
pub open spec fn seq_view(r: Result<Option<i64>, Error>) -> Result<Option<i64>, ErrorView> {
    match r {
        Ok(o) => Ok(o),
        Err(e) => Err(e@),
    }
}

/// The cursor of a consumer, zero where it has none.
pub open spec fn cursor_of(s: StoreView, consumer: Seq<char>) -> i64 {
    if s.cursors.contains_key(consumer) {
        s.cursors[consumer].last_seq
    } else {
        0
    }
}

/// The store with everything up to `seq` acknowledged. A cursor never moves back.
pub open spec fn acked(s: StoreView, consumer: Seq<char>, seq: i64, now: Seq<char>) -> StoreView {
    if s.cursors.contains_key(consumer) && seq <= s.cursors[consumer].last_seq {
        s
    } else {
        StoreView {
            cursors: s.cursors.insert(
                consumer,
                CursorView { last_seq: seq, updated_at: Some(now) },
            ),
            ..s
        }
    }
}

/// Which messages a reader asks for. An absent condition holds of every message.
pub struct Query {
    pub direction: Option<Seq<char>>,
    pub from: Option<Seq<char>>,
    pub to: Option<Seq<char>>,
    /// A message to everyone satisfies `to`.
    pub to_or_all: bool,
    pub peer: Option<Seq<char>>,
    pub after: Option<i64>,
    pub upto: Option<i64>,
    pub state: Option<Seq<char>>,
}

/// A condition that is absent or met.
pub open spec fn meets(want: Option<Seq<char>>, have: Seq<char>) -> bool {
    want matches Some(w) ==> w == have
}

/// A message is among those asked for.
pub open spec fn matches_query(q: Query, m: MsgView) -> bool {
    &&& meets(q.direction, m.direction)
    &&& meets(q.from, m.from)
    &&& (meets(q.to, m.to) || (q.to_or_all && m.to == wire::BROADCAST@))
    &&& (q.peer matches Some(p) ==> (m.from == p || m.to == p))
    &&& (q.after matches Some(n) ==> m.seq > n)
    &&& (q.upto matches Some(n) ==> m.seq <= n)
    &&& meets(q.state, m.delivery_state)
}

/// The messages asked for, in the order in which they are stored.
pub open spec fn picked(ms: Seq<MsgView>, q: Query) -> Seq<MsgView>
    decreases ms.len(),
{
    if ms.len() == 0 {
        Seq::empty()
    } else if matches_query(q, ms.last()) {
        picked(ms.drop_last(), q).push(ms.last())
    } else {
        picked(ms.drop_last(), q)
    }
}

/// The first `limit` items; all of them where the limit is negative.
pub open spec fn limited<T>(s: Seq<T>, limit: i64) -> Seq<T> {
    if limit < 0 || s.len() <= limit {
        s
    } else {
        s.take(limit as int)
    }
}

/// Every message.
pub open spec fn everything() -> Query {
    Query {
        direction: None,
        from: None,
        to: None,
        to_or_all: false,
        peer: None,
        after: None,
        upto: None,
        state: None,
    }
}

/// What a consumer has not read.
pub open spec fn unread_by(after: i64) -> Query {
    Query { direction: Some("in"@), after: Some(after), ..everything() }
}

/// What an agent was sent in person between two sequence numbers, the first of
/// them left out.
pub open spec fn addressed_to(agent: Seq<char>, after: i64, upto: i64) -> Query {
    Query {
        direction: Some("in"@),
        to: Some(agent),
        after: Some(after),
        upto: Some(upto),
        ..everything()
    }
}

/// Behind which sequence number an acknowledgement up to `seq` covers messages:
/// behind the consumer's cursor, or, where that does not move, only the message
/// with the number itself.
pub open spec fn covered_after(s: StoreView, consumer: Seq<char>, seq: i64) -> i64 {
    if cursor_of(s, consumer) < seq {
        cursor_of(s, consumer)
    } else if seq > 0 {
        (seq - 1) as i64
    } else {
        0
    }
}

/// The query of a browse.
pub open spec fn browsing(
    from: Option<Seq<char>>,
    to: Option<Seq<char>>,
    direction: Seq<char>,
) -> Query {
    Query {
        direction: if direction == "all"@ {
            None
        } else {
            Some(direction)
        },
        from,
        to,
        to_or_all: true,
        ..everything()
    }
}

/// The query of a transcript.
pub open spec fn conversing(
    from: Option<Seq<char>>,
    to: Option<Seq<char>>,
    peer: Option<Seq<char>>,
) -> Query {
    Query { from, to, peer, ..everything() }
}

/// The query of outbound delivery states.
pub open spec fn sent_with(state: Option<Seq<char>>) -> Query {
    Query { direction: Some("out"@), state, ..everything() }
}

/// The highest sequence number of the given messages, zero where there are none.
pub open spec fn highest(ms: Seq<MsgView>) -> i64 {
    if ms.len() == 0 {
        0
    } else {
        ms.last().seq
    }
}

/// A step in the life of an outbound message.
pub enum Step {
    /// Handed to the broker at a time.
    Sent(Seq<char>),
    /// Delivered at a time.
    Delivered(Seq<char>),
    /// Read at a time.
    Read(Seq<char>),
    /// Given up.
    Failed,
}

/// A message after a step. A step applies only to the outbound message with the
/// id, and not where a later state stands: hand-off only before any other step,
/// delivery not after reading or failure, reading not after failure.
pub open spec fn stepped(m: MsgView, id: Seq<char>, step: Step) -> MsgView {
    if m.id != id || m.direction != "out"@ {
        m
    } else {
        match step {
            Step::Sent(now) => if m.delivery_state == "pending"@ || m.delivery_state == "none"@ {
                MsgView { delivery_state: "sent"@, broker_ack_ts: Some(now), ..m }
            } else {
                m
            },
            Step::Delivered(ts) => if m.delivery_state == "read"@ || m.delivery_state
                == "failed"@ {
                m
            } else {
                MsgView { delivery_state: "delivered"@, delivered_ts: Some(ts), ..m }
            },
            Step::Read(ts) => if m.delivery_state == "failed"@ {
                m
            } else {
                MsgView { delivery_state: "read"@, read_ts: Some(ts), ..m }
            },
            Step::Failed => MsgView { delivery_state: "failed"@, ..m },
        }
    }
}

/// The messages after a step.
pub open spec fn all_stepped(ms: Seq<MsgView>, id: Seq<char>, step: Step) -> Seq<MsgView> {
    Seq::new(ms.len(), |i: int| stepped(ms[i], id, step))
}

/// The outbox without a message.
pub open spec fn without(out: Seq<OutboundView>, id: Seq<char>) -> Seq<OutboundView>
    decreases out.len(),
{
    if out.len() == 0 {
        out
    } else if out.last().id == id {
        without(out.drop_last(), id)
    } else {
        without(out.drop_last(), id).push(out.last())
    }
}

/// A message with this id awaits hand-off.
pub open spec fn is_queued(out: Seq<OutboundView>, id: Seq<char>) -> bool {
    exists|i: int| 0 <= i < out.len() && (#[trigger] out[i]).id == id
}

/// The store after hand-off of a message to the broker.
pub open spec fn handed_off(s: StoreView, id: Seq<char>, now: Seq<char>) -> StoreView {
    StoreView {
        messages: all_stepped(s.messages, id, Step::Sent(now)),
        outbox: without(s.outbox, id),
        ..s
    }
}

/// The store with a message queued, unless its id is queued already.
pub open spec fn queued(s: StoreView, o: OutboundView) -> StoreView {
    if is_queued(s.outbox, o.id) || s.last_outbound == i64::MAX {
        s
    } else {
        StoreView {
            outbox: s.outbox.push(o),
            last_outbound: (s.last_outbound + 1) as i64,
            ..s
        }
    }
}

/// The store with a rejection recorded.
pub open spec fn with_rejection(
    s: StoreView,
    code: Seq<char>,
    claimed_sender: Option<Seq<char>>,
    topic: Seq<char>,
    detail: Seq<char>,
    now: Seq<char>,
) -> StoreView {
    if s.last_rejection == i64::MAX {
        s
    } else {
        let seq = (s.last_rejection + 1) as i64;
        StoreView {
            rejections: s.rejections.push(
                RejectionView {
                    seq,
                    at: now,
                    reason: code,
                    claimed_sender,
                    topic: Some(topic),
                    detail,
                },
            ),
            last_rejection: seq,
            ..s
        }
    }
}

/// The rejections with a reason and not before a time, where these are given.
pub open spec fn picked_rejections(
    rs: Seq<RejectionView>,
    reason: Option<Seq<char>>,
    since: Option<Seq<char>>,
) -> Seq<RejectionView>
    decreases rs.len(),
{
    if rs.len() == 0 {
        Seq::empty()
    } else if meets(reason, rs.last().reason) && (since matches Some(s) ==> !text::text_lt(
        rs.last().at,
        s,
    )) {
        picked_rejections(rs.drop_last(), reason, since).push(rs.last())
    } else {
        picked_rejections(rs.drop_last(), reason, since)
    }
}

/// The store with a presence record, unless a newer one stands.
pub open spec fn with_presence(s: StoreView, p: PresenceView) -> StoreView {
    if s.presence.contains_key(p.agent) && p.seq < s.presence[p.agent].seq {
        s
    } else {
        StoreView { presence: s.presence.insert(p.agent, p), ..s }
    }
}

/// An outbound message still awaits a receipt.
pub open spec fn awaits_receipt(m: MsgView) -> bool {
    m.direction == "out"@ && m.delivery_state != "delivered"@ && m.delivery_state != "read"@
        && m.delivery_state != "failed"@ && m.delivery_state != "none"@
}

/// The messages without the `n` oldest of those that may go.
pub open spec fn evicted(ms: Seq<MsgView>, n: nat) -> Seq<MsgView>
    decreases ms.len(),
{
    if ms.len() == 0 || n == 0 {
        ms
    } else if awaits_receipt(ms[0]) {
        seq![ms[0]] + evicted(ms.skip(1), n)
    } else {
        evicted(ms.skip(1), (n - 1) as nat)
    }
}

/// The bytes of all bodies.
pub open spec fn total_bytes(ms: Seq<MsgView>) -> nat
    decreases ms.len(),
{
    if ms.len() == 0 {
        0
    } else {
        total_bytes(ms.drop_last()) + encode_utf8(ms.last().body).len()
    }
}

/// Messages are within both bounds.
pub open spec fn is_within(ms: Seq<MsgView>, max_messages: u64, max_bytes: u64) -> bool {
    ms.len() <= max_messages && total_bytes(ms) <= max_bytes
}

/// The messages, the oldest taken away one by one until they are within both
/// bounds or nothing is left that may go.
pub open spec fn bounded(ms: Seq<MsgView>, max_messages: u64, max_bytes: u64) -> Seq<MsgView>
    decreases ms.len(),
{
    if is_within(ms, max_messages, max_bytes) || evicted(ms, 1).len() >= ms.len() {
        ms
    } else {
        bounded(evicted(ms, 1), max_messages, max_bytes)
    }
}

// ---------------------------------------------------------------------------
// The invariant.
// ---------------------------------------------------------------------------

/// Sequence numbers ascend, from one up to the last that was given; ids differ.
pub open spec fn messages_wf(ms: Seq<MsgView>, last: i64) -> bool {
    &&& last >= 0
    &&& forall|i: int| 0 <= i < ms.len() ==> 1 <= (#[trigger] ms[i]).seq <= last
    &&& forall|i: int, j: int|
        0 <= i < j < ms.len() ==> (#[trigger] ms[i]).seq < (#[trigger] ms[j]).seq && ms[i].id
            != ms[j].id
}

/// Queued ids differ, and the counter has counted every queued message.
pub open spec fn outbox_wf(out: Seq<OutboundView>, last: i64) -> bool {
    &&& out.len() <= last
    &&& forall|i: int, j: int|
        0 <= i < j < out.len() ==> (#[trigger] out[i]).id != (#[trigger] out[j]).id
}

/// Sequence numbers of rejections ascend, from one up to the last given.
pub open spec fn rejections_wf(rs: Seq<RejectionView>, last: i64) -> bool {
    &&& last >= 0
    &&& forall|i: int| 0 <= i < rs.len() ==> 1 <= (#[trigger] rs[i]).seq <= last
    &&& forall|i: int, j: int|
        0 <= i < j < rs.len() ==> (#[trigger] rs[i]).seq < (#[trigger] rs[j]).seq
}

/// The presence record under a name is that of the agent with the name.
pub open spec fn presence_wf(m: Map<Seq<char>, PresenceView>) -> bool {
    forall|k: Seq<char>| #[trigger] m.contains_key(k) ==> m[k].agent == k
}

/// What holds of every store.
pub open spec fn store_wf(s: StoreView) -> bool {
    &&& messages_wf(s.messages, s.last_seq)
    &&& outbox_wf(s.outbox, s.last_outbound)
    &&& rejections_wf(s.rejections, s.last_rejection)
    &&& presence_wf(s.presence)
}

proof fn lemma_count(ms: Seq<MsgView>, last: i64, i: int)
    requires
        messages_wf(ms, last),
        0 <= i < ms.len(),
    ensures
        ms[i].seq >= i + 1,
    decreases i,
{
    if i > 0 {
        lemma_count(ms, last, i - 1);
    }
}

proof fn lemma_message_count(ms: Seq<MsgView>, last: i64)
    requires
        messages_wf(ms, last),
    ensures
        ms.len() <= last,
{
    if ms.len() > 0 {
        lemma_count(ms, last, ms.len() - 1);
    }
}

proof fn lemma_rejection(rs: Seq<RejectionView>, last: i64, i: int)
    requires
        rejections_wf(rs, last),
        0 <= i < rs.len(),
    ensures
        rs[i].seq >= i + 1,
    decreases i,
{
    if i > 0 {
        lemma_rejection(rs, last, i - 1);
    }
}

/// `m` stands in `ms` behind its first message.
spec fn is_later(ms: Seq<MsgView>, m: MsgView) -> bool {
    exists|j: int| 1 <= j < ms.len() && #[trigger] ms[j] == m
}

/// Messages in order stay in order when some of them go.
proof fn lemma_evicted_wf(ms: Seq<MsgView>, n: nat, last: i64)
    requires
        messages_wf(ms, last),
    ensures
        messages_wf(evicted(ms, n), last),
        evicted(ms, n).len() <= ms.len(),
        forall|i: int|
            0 <= i < evicted(ms, n).len() ==> ms.contains(#[trigger] evicted(ms, n)[i]),
    decreases ms.len(),
{
    if ms.len() == 0 || n == 0 {
        assert forall|i: int| 0 <= i < ms.len() implies ms.contains(#[trigger] ms[i]) by {}
    } else {
        let rest = ms.skip(1);
        let m = if awaits_receipt(ms[0]) {
            n
        } else {
            (n - 1) as nat
        };
        assert(messages_wf(rest, last)) by {
            assert forall|i: int, j: int| 0 <= i < j < rest.len() implies (#[trigger] rest[i]).seq
                < (#[trigger] rest[j]).seq && rest[i].id != rest[j].id by {
                assert(rest[i] == ms[i + 1] && rest[j] == ms[j + 1]);
            }
        }
        lemma_evicted_wf(rest, m, last);
        let kept = evicted(rest, m);
        assert forall|i: int| 0 <= i < kept.len() implies is_later(ms, #[trigger] kept[i]) by {
            assert(rest.contains(kept[i]));
            let j = choose|j: int| 0 <= j < rest.len() && rest[j] == kept[i];
            assert(ms[j + 1] == kept[i]);
        }
        let out = evicted(ms, n);
        if awaits_receipt(ms[0]) {
            assert(out == seq![ms[0]] + kept);
            assert forall|i: int, j: int| 0 <= i < j < out.len() implies (#[trigger] out[i]).seq
                < (#[trigger] out[j]).seq && out[i].id != out[j].id by {
                assert(is_later(ms, kept[j - 1]));
                let k = choose|k: int| 1 <= k < ms.len() && #[trigger] ms[k] == kept[j - 1];
                if i == 0 {
                    assert(ms[0].seq < ms[k].seq && ms[0].id != ms[k].id);
                } else {
                    assert(out[i] == kept[i - 1] && out[j] == kept[j - 1]);
                }
            }
            assert forall|i: int| 0 <= i < out.len() implies ms.contains(#[trigger] out[i]) by {
                if i == 0 {
                    assert(ms[0] == out[0]);
                } else {
                    assert(out[i] == kept[i - 1]);
                    assert(is_later(ms, kept[i - 1]));
                }
            }
        } else {
            assert forall|i: int| 0 <= i < out.len() implies ms.contains(#[trigger] out[i]) by {
                assert(is_later(ms, kept[i]));
            }
            assert(out == kept);
        }
    }
}

/// What awaits a receipt at the front is passed over.
proof fn lemma_evicted_behind(p: Seq<MsgView>, r: Seq<MsgView>, n: nat)
    requires
        all_await(p),
    ensures
        evicted(p + r, n) == p + evicted(r, n),
    decreases p.len(),
{
    if p.len() == 0 {
        assert(p + r =~= r);
        assert(p + evicted(r, n) =~= evicted(r, n));
    } else if n > 0 {
        let q = p.skip(1);
        assert forall|i: int| 0 <= i < q.len() implies awaits_receipt(#[trigger] q[i]) by {
            assert(q[i] == p[i + 1]);
        }
        lemma_evicted_behind(q, r, n);
        assert((p + r).skip(1) =~= q + r);
        assert((p + r)[0] == p[0]);
        assert(awaits_receipt(p[0]));
        assert(seq![p[0]] + (q + evicted(r, n)) =~= p + evicted(r, n));
    }
}

proof fn lemma_total_bytes(a: Seq<MsgView>, b: Seq<MsgView>)
    ensures
        total_bytes(a + b) == total_bytes(a) + total_bytes(b),
    decreases b.len(),
{
    if b.len() == 0 {
        assert(a + b =~= a);
    } else {
        assert((a + b).drop_last() =~= a + b.drop_last());
        lemma_total_bytes(a, b.drop_last());
    }
}

/// The first that may go goes first, with the bytes of its body.
proof fn lemma_one_evicted(p: Seq<MsgView>, rest: Seq<MsgView>)
    requires
        all_await(p),
        rest.len() > 0,
        !awaits_receipt(rest[0]),
    ensures
        evicted(p + rest, 1) == p + rest.skip(1),
        total_bytes(p + rest) == total_bytes(p + rest.skip(1)) + encode_utf8(rest[0].body).len(),
{
    let next = rest.skip(1);
    let one = seq![rest[0]];
    lemma_evicted_behind(p, rest, 1);
    assert(evicted(next, 0) == next);
    assert(rest =~= one + next);
    lemma_total_bytes(p, rest);
    lemma_total_bytes(one, next);
    lemma_total_bytes(p, next);
    assert(one.drop_last() =~= Seq::empty());
    assert(total_bytes(one.drop_last()) == 0);
}

/// Messages in order stay in order within their bounds.
pub(crate) proof fn lemma_bounded_wf(ms: Seq<MsgView>, max_messages: u64, max_bytes: u64, last: i64)
    requires
        messages_wf(ms, last),
    ensures
        messages_wf(bounded(ms, max_messages, max_bytes), last),
        bounded(ms, max_messages, max_bytes).len() <= ms.len(),
    decreases ms.len(),
{
    lemma_evicted_wf(ms, 1, last);
    if !(is_within(ms, max_messages, max_bytes) || evicted(ms, 1).len() >= ms.len()) {
        lemma_bounded_wf(evicted(ms, 1), max_messages, max_bytes, last);
    }
}

/// The conditions of a query, borrowed.
struct Filter<'a> {
    direction: Option<&'a str>,
    from: Option<&'a str>,
    to: Option<&'a str>,
    to_or_all: bool,
    peer: Option<&'a str>,
    after: Option<i64>,
    upto: Option<i64>,
    state: Option<&'a str>,
}

impl<'a> Filter<'a> {
    spec fn view(&self) -> Query {
        Query {
            direction: text::opt_str(self.direction),
            from: text::opt_str(self.from),
            to: text::opt_str(self.to),
            to_or_all: self.to_or_all,
            peer: text::opt_str(self.peer),
            after: self.after,
            upto: self.upto,
            state: text::opt_str(self.state),
        }
    }

    fn every() -> (f: Filter<'a>)
        ensures
            f.view() == everything(),
    {
        Filter {
            direction: None,
            from: None,
            to: None,
            to_or_all: false,
            peer: None,
            after: None,
            upto: None,
            state: None,
        }
    }

    fn admits(&self, m: &StoredMsg) -> (r: bool)
        ensures
            r == matches_query(self.view(), m@),
    {
        let to_ok: bool = is_met(self.to, m.to.as_str()) || (self.to_or_all && text::str_eq(
            m.to.as_str(),
            wire::BROADCAST,
        ));
        let peer_ok: bool = match self.peer {
            Some(p) => text::str_eq(m.from.as_str(), p) || text::str_eq(m.to.as_str(), p),
            None => true,
        };
        let after_ok: bool = match self.after {
            Some(n) => m.seq > n,
            None => true,
        };
        let upto_ok: bool = match self.upto {
            Some(n) => m.seq <= n,
            None => true,
        };
        is_met(self.direction, m.direction.as_str()) && is_met(self.from, m.from.as_str()) && to_ok
            && peer_ok && after_ok && upto_ok && is_met(self.state, m.delivery_state.as_str())
    }
}

fn is_met(want: Option<&str>, have: &str) -> (r: bool)
    ensures
        r == meets(text::opt_str(want), have@),
{
    match want {
        Some(w) => text::str_eq(w, have),
        None => true,
    }
}

/// A step with the times it carries, borrowed.
enum StepOf<'a> {
    Sent(&'a str),
    Delivered(&'a str),
    Read(&'a str),
    Failed,
}

impl<'a> StepOf<'a> {
    spec fn view(&self) -> Step {
        match *self {
            StepOf::Sent(t) => Step::Sent(t@),
            StepOf::Delivered(t) => Step::Delivered(t@),
            StepOf::Read(t) => Step::Read(t@),
            StepOf::Failed => Step::Failed,
        }
    }
}

fn take_step(m: &StoredMsg, id: &str, step: &StepOf) -> (r: StoredMsg)
    ensures
        r@ == stepped(m@, id@, step.view()),
{
    let mut n: StoredMsg = m.clone();
    if !text::str_eq(m.id.as_str(), id) || !text::str_eq(m.direction.as_str(), "out") {
        return n;
    }
    let state: &str = m.delivery_state.as_str();
    match step {
        StepOf::Sent(now) => {
            if text::str_eq(state, "pending") || text::str_eq(state, "none") {
                n.delivery_state = text::own("sent");
                n.broker_ack_ts = Some(text::own(now));
            }
        },
        StepOf::Delivered(ts) => {
            if !text::str_eq(state, "read") && !text::str_eq(state, "failed") {
                n.delivery_state = text::own("delivered");
                n.delivered_ts = Some(text::own(ts));
            }
        },
        StepOf::Read(ts) => {
            if !text::str_eq(state, "failed") {
                n.delivery_state = text::own("read");
                n.read_ts = Some(text::own(ts));
            }
        },
        StepOf::Failed => {
            n.delivery_state = text::own("failed");
        },
    }
    n
}

fn waits(m: &StoredMsg) -> (r: bool)
    ensures
        r == awaits_receipt(m@),
{
    let s: &str = m.delivery_state.as_str();
    text::str_eq(m.direction.as_str(), "out") && !text::str_eq(s, "delivered") && !text::str_eq(
        s,
        "read",
    ) && !text::str_eq(s, "failed") && !text::str_eq(s, "none")
}

/// The last `n` of a list in reverse, all where `n` is negative: the first `n` of
/// the reversed list.
fn newest_first(v: &Vec<StoredMsg>, limit: i64) -> (r: Vec<StoredMsg>)
    ensures
        msg_views(r@) == limited(msg_views(v@).reverse(), limit),
{
    let n: usize = if limit < 0 || (v.len() as u128) <= (limit as u128) {
        v.len()
    } else {
        limit as usize
    };
    let ghost rev = msg_views(v@).reverse();
    let mut out: Vec<StoredMsg> = Vec::new();
    let mut i: usize = 0;
    while i < n
        invariant
            i <= n <= v.len(),
            rev == msg_views(v@).reverse(),
            out@.len() == i,
            forall|k: int| 0 <= k < i ==> (#[trigger] out@[k])@ == rev[k],
        decreases n - i,
    {
        out.push(v[v.len() - 1 - i].clone());
        i = i + 1;
    }
    assert(msg_views(out@) =~= limited(rev, limit));
    out
}

fn oldest_first(v: &Vec<StoredMsg>, limit: i64) -> (r: Vec<StoredMsg>)
    ensures
        msg_views(r@) == limited(msg_views(v@), limit),
{
    let n: usize = if limit < 0 || (v.len() as u128) <= (limit as u128) {
        v.len()
    } else {
        limit as usize
    };
    let ghost all = msg_views(v@);
    let mut out: Vec<StoredMsg> = Vec::new();
    let mut i: usize = 0;
    while i < n
        invariant
            i <= n <= v.len(),
            all == msg_views(v@),
            out@.len() == i,
            forall|k: int| 0 <= k < i ==> (#[trigger] out@[k])@ == all[k],
        decreases n - i,
    {
        out.push(v[i].clone());
        i = i + 1;
    }
    assert(msg_views(out@) =~= limited(all, limit));
    out
}

impl Store {
    /// What holds of every store.
    pub closed spec fn wf(&self) -> bool {
        &&& store_wf(self@)
        &&& self.cursors.wf()
        &&& self.presence.wf()
        &&& self.seen_grants.wf()
    }

    /// What [`Store::wf`] says of the model.
    pub proof fn lemma_wf(&self)
        requires
            self.wf(),
        ensures
            store_wf(self@),
    {
    }

    /// An empty store.
    pub fn new() -> (s: Store)
        ensures
            s.wf(),
            s@ == empty_store(),
    {
        let s = Store {
            messages: Vec::new(),
            last_seq: 0,
            cursors: NameMap::new(),
            outbox: Vec::new(),
            last_outbound: 0,
            rejections: Vec::new(),
            last_rejection: 0,
            presence: NameMap::new(),
            seen_grants: NameMap::new(),
        };
        proof {
            assert(s@.messages =~= Seq::empty());
            assert(s@.outbox =~= Seq::empty());
            assert(s@.rejections =~= Seq::empty());
            assert(s@.cursors =~= Map::empty());
            assert(s@.presence =~= Map::empty());
            assert(s@.seen_grants =~= Set::empty());
        }
        s
    }

    /// Has this message id already been stored?
    pub fn contains_id(&self, id: &str) -> (r: bool)
        ensures
            r == has_id(self@.messages, id@),
    {
        let mut i: usize = 0;
        while i < self.messages.len()
            invariant
                i <= self.messages.len(),
                forall|k: int| 0 <= k < i ==> (#[trigger] self@.messages[k]).id != id@,
            decreases self.messages.len() - i,
        {
            if text::str_eq(self.messages[i].id.as_str(), id) {
                assert(self@.messages[i as int].id == id@);
                return true;
            }
            i = i + 1;
        }
        false
    }

    fn log(&mut self, inner: &Inner, topic: &str, direction: &str, state: &str) -> (r: Result<
        Option<i64>,
        Error,
    >)
        requires
            old(self).wf(),
        ensures
            final(self).wf(),
            final(self)@ == logged(old(self)@, inner@, topic@, direction@, state@),
            seq_view(r) == logged_seq(old(self)@, inner@.id),
    {
        if self.contains_id(inner.id.as_str()) {
            return Ok(None);
        }
        if self.last_seq == i64::MAX {
            return Err(Error::Store(text::own("database or disk is full")));
        }
        let seq: i64 = self.last_seq + 1;
        let row = StoredMsg {
            seq,
            id: inner.id.clone(),
            direction: text::own(direction),
            from: inner.from.clone(),
            to: inner.to.clone(),
            topic: text::own(topic),
            ts: inner.ts.clone(),
            ctype: inner.ctype.clone(),
            in_reply_to: text::copy_opt(&inner.in_reply_to),
            body: inner.body.clone(),
            kind: text::own(wire::kind_str(inner.kind)),
            correlation_id: text::copy_opt(&inner.correlation_id),
            supersedes: text::copy_opt(&inner.supersedes),
            encrypted: inner.enc.is_some(),
            delivery_state: text::own(state),
            broker_ack_ts: None,
            delivered_ts: None,
            read_ts: None,
        };
        let ghost before = self@.messages;
        let ghost rv = row@;
        self.messages.push(row);
        self.last_seq = seq;
        proof {
            let after = self@.messages;
            assert(after =~= before.push(rv));
            assert forall|i: int, j: int| 0 <= i < j < after.len() implies (#[trigger] after[i]).seq
                < (#[trigger] after[j]).seq && after[i].id != after[j].id by {
                assert(after[i] == before[i]);
                if j < before.len() {
                    assert(after[j] == before[j]);
                }
            }
        }
        Ok(Some(seq))
    }

    /// Store an accepted inbound message. `Some(seq)` for a new one, `None` if its
    /// id is known.
    pub fn insert_inbound(&mut self, inner: &Inner, topic: &str) -> (r: Result<Option<i64>, Error>)
        requires
            old(self).wf(),
        ensures
            final(self).wf(),
            final(self)@ == logged(old(self)@, inner@, topic@, "in"@, "none"@),
            seq_view(r) == logged_seq(old(self)@, inner@.id),
    {
        self.log(inner, topic, "in", "none")
    }

    /// Record a locally-originated message in the log as `pending`.
    pub fn insert_outbound_log(&mut self, inner: &Inner, topic: &str) -> (r: Result<(), Error>)
        requires
            old(self).wf(),
        ensures
            final(self).wf(),
            final(self)@ == logged(old(self)@, inner@, topic@, "out"@, "pending"@),
            match r {
                Ok(_) => logged_seq(old(self)@, inner@.id) is Ok,
                Err(e) => logged_seq(old(self)@, inner@.id) matches Err(x) && e@ == x,
            },
    {
        match self.log(inner, topic, "out", "pending") {
            Ok(_) => Ok(()),
            Err(e) => Err(e),
        }
    }

    /// Fetch a single message by its sequence number.
    pub fn message_by_seq(&self, seq: i64) -> (r: Option<StoredMsg>)
        ensures
            opt_msg(r) == with_seq(self@.messages, seq),
    {
        let ghost all = self@.messages;
        let mut i: usize = self.messages.len();
        assert(all.take(i as int) =~= all);
        while i > 0
            invariant
                i <= self.messages.len(),
                all == self@.messages,
                with_seq(all, seq) == with_seq(all.take(i as int), seq),
            decreases i,
        {
            assert(all.take(i as int).drop_last() =~= all.take(i - 1));
            if self.messages[i - 1].seq == seq {
                return Some(self.messages[i - 1].clone());
            }
            i = i - 1;
        }
        None
    }

    /// Fetch a single message by its id.
    pub fn get_message(&self, id: &str) -> (r: Option<StoredMsg>)
        ensures
            opt_msg(r) == with_id(self@.messages, id@),
    {
        let ghost all = self@.messages;
        let mut i: usize = self.messages.len();
        assert(all.take(i as int) =~= all);
        while i > 0
            invariant
                i <= self.messages.len(),
                all == self@.messages,
                with_id(all, id@) == with_id(all.take(i as int), id@),
            decreases i,
        {
            assert(all.take(i as int).drop_last() =~= all.take(i - 1));
            if text::str_eq(self.messages[i - 1].id.as_str(), id) {
                return Some(self.messages[i - 1].clone());
            }
            i = i - 1;
        }
        None
    }

    fn pick(&self, f: &Filter) -> (r: Vec<StoredMsg>)
        ensures
            msg_views(r@) == picked(self@.messages, f.view()),
    {
        let ghost all = self@.messages;
        let mut out: Vec<StoredMsg> = Vec::new();
        let mut i: usize = 0;
        assert(msg_views(out@) =~= picked(all.take(0), f.view()));
        while i < self.messages.len()
            invariant
                i <= self.messages.len(),
                all == self@.messages,
                msg_views(out@) == picked(all.take(i as int), f.view()),
            decreases self.messages.len() - i,
        {
            let ghost before = msg_views(out@);
            assert(all.take(i + 1).drop_last() =~= all.take(i as int));
            if f.admits(&self.messages[i]) {
                out.push(self.messages[i].clone());
                assert(msg_views(out@) =~= before.push(all[i as int]));
            }
            i = i + 1;
        }
        assert(all.take(i as int) =~= all);
        out
    }

    // --- Queue drain (cursor and acknowledgement) ----------------------------

    /// Current cursor (last acknowledged sequence number) of a consumer.
    pub fn cursor(&self, consumer: &str) -> (r: i64)
        requires
            self.wf(),
        ensures
            r == cursor_of(self@, consumer@),
    {
        match self.cursors.get(consumer) {
            Some(c) => c.last_seq,
            None => 0,
        }
    }

    /// Inbound messages behind the consumer's cursor, the oldest first. Does not
    /// advance the cursor.
    pub fn read_after_cursor(&self, consumer: &str, limit: i64) -> (r: Vec<StoredMsg>)
        requires
            self.wf(),
        ensures
            msg_views(r@) == limited(
                picked(self@.messages, unread_by(cursor_of(self@, consumer@))),
                limit,
            ),
    {
        let after: i64 = self.cursor(consumer);
        let f = Filter { direction: Some("in"), after: Some(after), ..Filter::every() };
        assert(f.view() == unread_by(after));
        let v: Vec<StoredMsg> = self.pick(&f);
        oldest_first(&v, limit)
    }

    /// How many inbound messages lie behind the consumer's cursor.
    pub fn unread(&self, consumer: &str) -> (r: usize)
        requires
            self.wf(),
        ensures
            r == picked(self@.messages, unread_by(cursor_of(self@, consumer@))).len(),
    {
        let after: i64 = self.cursor(consumer);
        let f = Filter { direction: Some("in"), after: Some(after), ..Filter::every() };
        assert(f.view() == unread_by(after));
        let v: Vec<StoredMsg> = self.pick(&f);
        assert(msg_views(v@).len() == v.len());
        v.len()
    }

    /// The messages to an agent in person that an acknowledgement up to `seq`
    /// covers, the oldest first: those behind the consumer's cursor and not beyond
    /// `seq`, or, where the cursor does not move, the one with that number.
    pub fn covered(&self, agent: &str, consumer: &str, seq: i64) -> (r: Vec<StoredMsg>)
        requires
            self.wf(),
        ensures
            msg_views(r@) == picked(
                self@.messages,
                addressed_to(agent@, covered_after(self@, consumer@, seq), seq),
            ),
    {
        let cursor: i64 = self.cursor(consumer);
        let after: i64 = if cursor < seq {
            cursor
        } else if seq > 0 {
            seq - 1
        } else {
            0
        };
        let f = Filter {
            direction: Some("in"),
            to: Some(agent),
            after: Some(after),
            upto: Some(seq),
            ..Filter::every()
        };
        assert(f.view() == addressed_to(agent@, after, seq));
        self.pick(&f)
    }

    /// Acknowledge up to and including `seq` at `now`. A cursor never moves back.
    pub fn ack(&mut self, consumer: &str, seq: i64, now: &str)
        requires
            old(self).wf(),
        ensures
            final(self).wf(),
            final(self)@ == acked(old(self)@, consumer@, seq, now@),
    {
        let moves: bool = match self.cursors.get(consumer) {
            Some(c) => seq > c.last_seq,
            None => true,
        };
        if moves {
            let ghost before = self.cursors@;
            let c = Cursor { last_seq: seq, updated_at: Some(text::own(now)) };
            let ghost cv = c@;
            self.cursors.put(text::own(consumer), c);
            assert(cursor_views(self.cursors@) =~= cursor_views(before).insert(consumer@, cv));
        }
    }

    /// Highest inbound sequence number currently stored, zero without one.
    pub fn max_inbound_seq(&self) -> (r: i64)
        requires
            self.wf(),
        ensures
            r == highest(
                picked(self@.messages, (Query { direction: Some("in"@), ..everything() })),
            ),
    {
        let f = Filter { direction: Some("in"), ..Filter::every() };
        let v: Vec<StoredMsg> = self.pick(&f);
        if v.len() == 0 {
            0
        } else {
            assert(msg_views(v@).last() == v@.last()@);
            v[v.len() - 1].seq
        }
    }

    /// The consumers in the order of their names, with their backlogs.
    pub fn consumers(&self) -> (r: Vec<ConsumerRow>)
        requires
            self.wf(),
        ensures
            is_consumer_list(consumer_views(r@), self@),
    {
        let mut out: Vec<ConsumerRow> = Vec::new();
        let mut i: usize = 0;
        let ghost names = self.cursors.names();
        let ghost s = self@;
        while i < self.cursors.len()
            invariant
                i <= names.len(),
                names == self.cursors.names(),
                self.wf(),
                s == self@,
                out@.len() == i,
                forall|k: int|
                    0 <= k < i ==> (#[trigger] out@[k])@ == consumer_row(s, names[k]),
            decreases names.len() - i,
        {
            let (name, c) = self.cursors.at(i);
            let f = Filter { direction: Some("in"), after: Some(c.last_seq), ..Filter::every() };
            assert(f.view() == unread_by(c.last_seq));
            let v: Vec<StoredMsg> = self.pick(&f);
            proof {
                lemma_picked_len(s.messages, unread_by(c.last_seq));
                lemma_message_count(s.messages, s.last_seq);
                assert(msg_views(v@).len() == v.len());
            }
            out.push(
                ConsumerRow {
                    consumer: text::own(name),
                    last_seq: c.last_seq,
                    unread: v.len() as i64,
                    last_read_at: text::copy_opt(&c.updated_at),
                },
            );
            i = i + 1;
        }
        proof {
            self.cursors.lemma_names();
            let list = consumer_views(out@);
            let shown = Seq::new(list.len(), |k: int| list[k].consumer);
            assert(shown =~= names);
            assert forall|k: Seq<char>| #[trigger] s.cursors.contains_key(k) implies names.contains(
                k,
            ) by {
                assert(self.cursors@.contains_key(k));
            }
            assert forall|k: int| 0 <= k < names.len() implies s.cursors.contains_key(
                #[trigger] names[k],
            ) by {
                assert(self.cursors@.contains_key(names[k]));
            }
        }
        out
    }

    // --- Browse and transcript -------------------------------------------------

    /// Recent messages, the newest first, filtered by sender and recipient where
    /// these are given (a message to everyone is for every recipient).
    /// `direction` is "in", "out" or "all". No cursor moves.
    pub fn browse(
        &self,
        limit: i64,
        from_filter: Option<&str>,
        to_filter: Option<&str>,
        direction: &str,
    ) -> (r: Vec<StoredMsg>)
        ensures
            msg_views(r@) == limited(
                picked(
                    self@.messages,
                    browsing(text::opt_str(from_filter), text::opt_str(to_filter), direction@),
                ).reverse(),
                limit,
            ),
    {
        let dir: Option<&str> = if text::str_eq(direction, "all") {
            None
        } else {
            Some(direction)
        };
        let f = Filter {
            direction: dir,
            from: from_filter,
            to: to_filter,
            to_or_all: true,
            peer: None,
            after: None,
            upto: None,
            state: None,
        };
        let v: Vec<StoredMsg> = self.pick(&f);
        newest_first(&v, limit)
    }

    /// Messages of both directions, the oldest first, filtered by sender and
    /// recipient where these are given (a message to everyone is for every
    /// recipient). No cursor moves.
    pub fn browse_all(
        &self,
        limit: i64,
        from_filter: Option<&str>,
        to_filter: Option<&str>,
    ) -> (r: Vec<StoredMsg>)
        ensures
            msg_views(r@) == limited(
                picked(
                    self@.messages,
                    browsing(text::opt_str(from_filter), text::opt_str(to_filter), "all"@),
                ),
                limit,
            ),
    {
        let f = Filter {
            from: from_filter,
            to: to_filter,
            to_or_all: true,
            ..Filter::every()
        };
        let v: Vec<StoredMsg> = self.pick(&f);
        oldest_first(&v, limit)
    }

    /// Messages of both directions, the oldest first, filtered by exact sender,
    /// recipient, or a `peer` (sender or recipient).
    pub fn transcript(
        &self,
        limit: i64,
        from_filter: Option<&str>,
        to_filter: Option<&str>,
        peer: Option<&str>,
    ) -> (r: Vec<StoredMsg>)
        ensures
            msg_views(r@) == limited(
                picked(
                    self@.messages,
                    conversing(
                        text::opt_str(from_filter),
                        text::opt_str(to_filter),
                        text::opt_str(peer),
                    ),
                ),
                limit,
            ),
    {
        let f = Filter { from: from_filter, to: to_filter, peer, ..Filter::every() };
        let v: Vec<StoredMsg> = self.pick(&f);
        oldest_first(&v, limit)
    }

    /// Outbound messages with their delivery state, the newest first, filtered by
    /// state where one is given.
    pub fn outbound_receipts(&self, limit: i64, state: Option<&str>) -> (r: Vec<StoredMsg>)
        ensures
            msg_views(r@) == limited(
                picked(self@.messages, sent_with(text::opt_str(state))).reverse(),
                limit,
            ),
    {
        let f = Filter { direction: Some("out"), state, ..Filter::every() };
        let v: Vec<StoredMsg> = self.pick(&f);
        newest_first(&v, limit)
    }
}

impl Store {
    // --- Outbox (durable retry) ----------------------------------------------

    /// Queue a message for hand-off to the broker. One whose id is queued already
    /// is left as it is.
    pub fn enqueue_outbound(&mut self, ob: &Outbound) -> (r: Result<(), Error>)
        requires
            old(self).wf(),
        ensures
            final(self).wf(),
            final(self)@ == queued(old(self)@, ob@),
            match r {
                Ok(_) => is_queued(old(self)@.outbox, ob@.id) || old(self)@.last_outbound
                    < i64::MAX,
                Err(e) => !is_queued(old(self)@.outbox, ob@.id) && old(self)@.last_outbound
                    == i64::MAX && e@ == ErrorView::Store("database or disk is full"@),
            },
    {
        let mut i: usize = 0;
        while i < self.outbox.len()
            invariant
                i <= self.outbox.len(),
                self.wf(),
                *self == *old(self),
                forall|k: int| 0 <= k < i ==> (#[trigger] self@.outbox[k]).id != ob@.id,
            decreases self.outbox.len() - i,
        {
            if text::str_eq(self.outbox[i].id.as_str(), ob.id.as_str()) {
                assert(self@.outbox[i as int].id == ob@.id);
                return Ok(());
            }
            i = i + 1;
        }
        if self.last_outbound == i64::MAX {
            return Err(Error::Store(text::own("database or disk is full")));
        }
        let ghost before = self@.outbox;
        self.outbox.push(ob.clone());
        self.last_outbound = self.last_outbound + 1;
        proof {
            let after = self@.outbox;
            assert(after =~= before.push(ob@));
            assert forall|i: int, j: int| 0 <= i < j < after.len() implies (#[trigger] after[i]).id
                != (#[trigger] after[j]).id by {
                assert(after[i] == before[i]);
                if j < before.len() {
                    assert(after[j] == before[j]);
                }
            }
        }
        Ok(())
    }

    /// The messages that await hand-off, the oldest first.
    pub fn pending_outbound(&self) -> (r: Vec<Outbound>)
        ensures
            outbound_views(r@) == self@.outbox,
    {
        let mut out: Vec<Outbound> = Vec::new();
        let mut i: usize = 0;
        while i < self.outbox.len()
            invariant
                i <= self.outbox.len(),
                out@.len() == i,
                forall|k: int| 0 <= k < i ==> (#[trigger] out@[k])@ == self.outbox@[k]@,
            decreases self.outbox.len() - i,
        {
            out.push(self.outbox[i].clone());
            i = i + 1;
        }
        assert(outbound_views(out@) =~= self@.outbox);
        out
    }

    fn step(&mut self, id: &str, step: StepOf)
        requires
            old(self).wf(),
        ensures
            final(self).wf(),
            final(self)@ == (StoreView {
                messages: all_stepped(old(self)@.messages, id@, step.view()),
                ..old(self)@
            }),
            final(self).outbox == old(self).outbox,
    {
        let ghost before = self@;
        let mut i: usize = 0;
        while i < self.messages.len()
            invariant
                i <= self.messages.len(),
                before == old(self)@,
                self.messages@.len() == before.messages.len(),
                self.last_seq == old(self).last_seq,
                self.cursors == old(self).cursors,
                self.outbox == old(self).outbox,
                self.last_outbound == old(self).last_outbound,
                self.rejections == old(self).rejections,
                self.last_rejection == old(self).last_rejection,
                self.presence == old(self).presence,
                self.seen_grants == old(self).seen_grants,
                forall|k: int|
                    0 <= k < i ==> (#[trigger] self.messages@[k])@ == stepped(
                        before.messages[k],
                        id@,
                        step.view(),
                    ),
                forall|k: int|
                    i <= k < self.messages@.len() ==> (#[trigger] self.messages@[k])@
                        == before.messages[k],
            decreases self.messages.len() - i,
        {
            let m: StoredMsg = take_step(&self.messages[i], id, &step);
            self.messages.set(i, m);
            i = i + 1;
        }
        proof {
            let after = all_stepped(before.messages, id@, step.view());
            assert(self@.messages =~= after);
            assert forall|i: int, j: int| 0 <= i < j < after.len() implies (#[trigger] after[i]).seq
                < (#[trigger] after[j]).seq && after[i].id != after[j].id by {
                assert(before.messages[i].seq < before.messages[j].seq);
            }
        }
    }

    /// The broker took the message at `now`: drop it from the outbox and advance
    /// the log to `sent`, unless a later state stands there.
    pub fn mark_delivered(&mut self, id: &str, now: &str)
        requires
            old(self).wf(),
        ensures
            final(self).wf(),
            final(self)@ == handed_off(old(self)@, id@, now@),
    {
        self.step(id, StepOf::Sent(now));
        let ghost all = self@.outbox;
        let ghost mid = *self;
        let mut kept: Vec<Outbound> = Vec::new();
        let mut i: usize = 0;
        assert(outbound_views(kept@) =~= without(all.take(0), id@));
        while i < self.outbox.len()
            invariant
                i <= self.outbox.len(),
                all == self@.outbox,
                *self == mid,
                outbound_views(kept@) == without(all.take(i as int), id@),
            decreases self.outbox.len() - i,
        {
            assert(all.take(i + 1).drop_last() =~= all.take(i as int));
            if !text::str_eq(self.outbox[i].id.as_str(), id) {
                let ghost before = outbound_views(kept@);
                kept.push(self.outbox[i].clone());
                assert(outbound_views(kept@) =~= before.push(all[i as int]));
            }
            i = i + 1;
        }
        self.outbox = kept;
        proof {
            assert(all.take(i as int) =~= all);
            lemma_without_wf(all, id@, self.last_outbound);
        }
    }

    /// Apply a delivery receipt to the outbound message it refers to.
    pub fn apply_delivery_receipt(&mut self, orig_id: &str, ts: &str)
        requires
            old(self).wf(),
        ensures
            final(self).wf(),
            final(self)@ == (StoreView {
                messages: all_stepped(old(self)@.messages, orig_id@, Step::Delivered(ts@)),
                ..old(self)@
            }),
    {
        self.step(orig_id, StepOf::Delivered(ts));
    }

    /// Apply a read receipt to the outbound message it refers to.
    pub fn apply_read_receipt(&mut self, orig_id: &str, ts: &str)
        requires
            old(self).wf(),
        ensures
            final(self).wf(),
            final(self)@ == (StoreView {
                messages: all_stepped(old(self)@.messages, orig_id@, Step::Read(ts@)),
                ..old(self)@
            }),
    {
        self.step(orig_id, StepOf::Read(ts));
    }

    /// Mark an outbound message as permanently failed.
    pub fn mark_failed(&mut self, id: &str)
        requires
            old(self).wf(),
        ensures
            final(self).wf(),
            final(self)@ == (StoreView {
                messages: all_stepped(old(self)@.messages, id@, Step::Failed),
                ..old(self)@
            }),
    {
        self.step(id, StepOf::Failed);
    }

    // --- Rejection log ---------------------------------------------------------

    /// Record why a message was refused at `now`.
    pub fn record_rejection(
        &mut self,
        reason: &RejectReason,
        claimed_sender: Option<&str>,
        topic: &str,
        detail: &str,
        now: &str,
    ) -> (r: Result<(), Error>)
        requires
            old(self).wf(),
        ensures
            final(self).wf(),
            final(self)@ == with_rejection(
                old(self)@,
                error::reject_code(reason@),
                text::opt_str(claimed_sender),
                topic@,
                detail@,
                now@,
            ),
            match r {
                Ok(_) => old(self)@.last_rejection < i64::MAX,
                Err(e) => old(self)@.last_rejection == i64::MAX && e@ == ErrorView::Store(
                    "database or disk is full"@,
                ),
            },
    {
        if self.last_rejection == i64::MAX {
            return Err(Error::Store(text::own("database or disk is full")));
        }
        let seq: i64 = self.last_rejection + 1;
        let row = RejectionRow {
            seq,
            at: text::own(now),
            reason: text::own(reason.code()),
            claimed_sender: text::own_opt(claimed_sender),
            topic: Some(text::own(topic)),
            detail: text::own(detail),
        };
        let ghost before = self@.rejections;
        let ghost rv = row@;
        self.rejections.push(row);
        self.last_rejection = seq;
        proof {
            let after = self@.rejections;
            assert(after =~= before.push(rv));
            assert forall|i: int, j: int| 0 <= i < j < after.len() implies (#[trigger] after[i]).seq
                < (#[trigger] after[j]).seq by {
                assert(after[i] == before[i]);
                if j < before.len() {
                    assert(after[j] == before[j]);
                }
            }
        }
        Ok(())
    }

    /// How many rejections are recorded.
    pub fn rejection_count(&self) -> (r: i64)
        requires
            self.wf(),
        ensures
            r == self@.rejections.len(),
    {
        proof {
            if self@.rejections.len() > 0 {
                lemma_rejection(
                    self@.rejections,
                    self@.last_rejection,
                    self@.rejections.len() - 1,
                );
            }
        }
        self.rejections.len() as i64
    }

    /// Recent rejections, the newest first, filtered by reason code and by a lower
    /// bound on the time where these are given.
    pub fn rejections(&self, limit: i64, reason: Option<&str>, since: Option<&str>) -> (r: Vec<
        RejectionRow,
    >)
        ensures
            rejection_views(r@) == limited(
                picked_rejections(
                    self@.rejections,
                    text::opt_str(reason),
                    text::opt_str(since),
                ).reverse(),
                limit,
            ),
    {
        let ghost all = self@.rejections;
        let ghost rs = text::opt_str(reason);
        let ghost ss = text::opt_str(since);
        let mut v: Vec<RejectionRow> = Vec::new();
        let mut i: usize = 0;
        assert(rejection_views(v@) =~= picked_rejections(all.take(0), rs, ss));
        while i < self.rejections.len()
            invariant
                i <= self.rejections.len(),
                all == self@.rejections,
                rs == text::opt_str(reason),
                ss == text::opt_str(since),
                rejection_views(v@) == picked_rejections(all.take(i as int), rs, ss),
            decreases self.rejections.len() - i,
        {
            assert(all.take(i + 1).drop_last() =~= all.take(i as int));
            let late: bool = match since {
                Some(s) => !text::text_less(self.rejections[i].at.as_str(), s),
                None => true,
            };
            if is_met(reason, self.rejections[i].reason.as_str()) && late {
                let ghost before = rejection_views(v@);
                v.push(self.rejections[i].clone());
                assert(rejection_views(v@) =~= before.push(all[i as int]));
            }
            i = i + 1;
        }
        assert(all.take(i as int) =~= all);
        let n: usize = if limit < 0 || (v.len() as u128) <= (limit as u128) {
            v.len()
        } else {
            limit as usize
        };
        let ghost rev = rejection_views(v@).reverse();
        let mut out: Vec<RejectionRow> = Vec::new();
        let mut k: usize = 0;
        while k < n
            invariant
                k <= n <= v.len(),
                rev == rejection_views(v@).reverse(),
                out@.len() == k,
                forall|j: int| 0 <= j < k ==> (#[trigger] out@[j])@ == rev[j],
            decreases n - k,
        {
            out.push(v[v.len() - 1 - k].clone());
            k = k + 1;
        }
        assert(rejection_views(out@) =~= limited(rev, limit));
        out
    }

    // --- Application presence --------------------------------------------------

    /// Record an agent's presence, unless a beacon with a higher number stands.
    pub fn upsert_presence(
        &mut self,
        agent: &str,
        state: &str,
        source: &str,
        ttl_secs: i64,
        seq: i64,
        detail: Option<&str>,
        last_seen: &str,
    )
        requires
            old(self).wf(),
        ensures
            final(self).wf(),
            final(self)@ == with_presence(
                old(self)@,
                (PresenceView {
                    agent: agent@,
                    state: Some(state@),
                    source: Some(source@),
                    ttl_secs: Some(ttl_secs),
                    detail: text::opt_str(detail),
                    seq,
                    last_seen: last_seen@,
                }),
            ),
    {
        let row = PresenceRow {
            agent: text::own(agent),
            state: Some(text::own(state)),
            source: Some(text::own(source)),
            ttl_secs: Some(ttl_secs),
            detail: text::own_opt(detail),
            seq,
            last_seen: text::own(last_seen),
        };
        self.put_presence(row);
    }

    fn put_presence(&mut self, row: PresenceRow)
        requires
            old(self).wf(),
        ensures
            final(self).wf(),
            final(self)@ == with_presence(old(self)@, row@),
    {
        let newer: bool = match self.presence.get(row.agent.as_str()) {
            Some(p) => row.seq >= p.seq,
            None => true,
        };
        if newer {
            let ghost before = self.presence@;
            let ghost rv = row@;
            let agent: String = row.agent.clone();
            self.presence.put(agent, row);
            proof {
                assert(presence_map(self.presence@) =~= presence_map(before).insert(rv.agent, rv));
                assert(presence_wf(presence_map(before)));
            }
        }
    }

    /// All presence records in the order of the agents' names.
    pub fn list_presence(&self) -> (r: Vec<PresenceRow>)
        requires
            self.wf(),
        ensures
            is_presence_list(presence_views(r@), self@),
    {
        let mut out: Vec<PresenceRow> = Vec::new();
        let mut i: usize = 0;
        let ghost names = self.presence.names();
        let ghost s = self@;
        while i < self.presence.len()
            invariant
                i <= names.len(),
                names == self.presence.names(),
                self.wf(),
                s == self@,
                out@.len() == i,
                forall|k: int|
                    0 <= k < i ==> (#[trigger] out@[k])@ == s.presence[names[k]]
                        && out@[k]@.agent == names[k],
            decreases names.len() - i,
        {
            let (name, p) = self.presence.at(i);
            assert(self.presence@.contains_key(name@));
            assert(s.presence.contains_key(name@));
            out.push(p.clone());
            i = i + 1;
        }
        proof {
            self.presence.lemma_names();
            let list = presence_views(out@);
            assert(Seq::new(list.len(), |k: int| list[k].agent) =~= names);
            assert forall|k: Seq<char>| #[trigger] s.presence.contains_key(
                k,
            ) implies names.contains(k) by {
                assert(self.presence@.contains_key(k));
            }
            assert forall|k: int| 0 <= k < names.len() implies s.presence.contains_key(
                #[trigger] names[k],
            ) by {
                assert(self.presence@.contains_key(names[k]));
            }
        }
        out
    }

    // --- Grant replay guard ----------------------------------------------------

    /// Record a grant id as used. `true` if it was used before, and the caller
    /// refuses the replay.
    pub fn seen_grant(&mut self, grant_id: &str) -> (r: bool)
        requires
            old(self).wf(),
        ensures
            final(self).wf(),
            r == old(self)@.seen_grants.contains(grant_id@),
            final(self)@ == used_grant(old(self)@, grant_id@),
    {
        if self.seen_grants.get(grant_id).is_some() {
            assert(used_grant(self@, grant_id@).seen_grants =~= self@.seen_grants);
            return true;
        }
        let ghost before = self@.seen_grants;
        self.seen_grants.put(text::own(grant_id), true);
        assert(self@.seen_grants =~= before.insert(grant_id@));
        false
    }

    // --- Bounds and retention ----------------------------------------------------

    fn body_bytes(&self) -> (r: u128)
        requires
            self.wf(),
        ensures
            r == total_bytes(self@.messages),
    {
        let ghost all = self@.messages;
        proof {
            lemma_message_count(all, self.last_seq);
        }
        let mut sum: u128 = 0;
        let mut i: usize = 0;
        while i < self.messages.len()
            invariant
                i <= self.messages.len(),
                all == self@.messages,
                all.len() <= i64::MAX,
                sum == total_bytes(all.take(i as int)),
                sum <= i * usize::MAX,
            decreases self.messages.len() - i,
        {
            let bytes: &[u8] = self.messages[i].body.as_str().as_bytes();
            assert(all.take(i + 1).drop_last() =~= all.take(i as int));
            assert(i * usize::MAX + usize::MAX == (i + 1) * usize::MAX) by (nonlinear_arith);
            assert((i + 1) * usize::MAX <= i64::MAX * usize::MAX) by (nonlinear_arith)
                requires
                    i + 1 <= i64::MAX,
            ;
            sum = sum + (bytes.len() as u128);
            i = i + 1;
        }
        assert(all.take(i as int) =~= all);
        sum
    }

    /// Evict the oldest messages until within the bounds, and no more. Outbound
    /// messages that still await a receipt are never evicted. Returns how many
    /// went.
    pub fn enforce_bounds(&mut self, max_messages: u64, max_bytes: u64) -> (r: u64)
        requires
            old(self).wf(),
        ensures
            final(self).wf(),
            final(self)@ == (StoreView {
                messages: bounded(old(self)@.messages, max_messages, max_bytes),
                ..old(self)@
            }),
            r == old(self)@.messages.len() - final(self)@.messages.len(),
    {
        let ghost all = self@.messages;
        let ghost goal = bounded(all, max_messages, max_bytes);
        let mut bytes: u128 = self.body_bytes();
        let mut kept: Vec<StoredMsg> = Vec::new();
        let mut gone: usize = 0;
        let mut i: usize = 0;
        let total: usize = self.messages.len();
        proof {
            assert(msg_views(kept@) + all.skip(0) =~= all);
        }
        while i < total && ((total - gone) as u128 > max_messages as u128 || bytes
            > max_bytes as u128)
            invariant
                i <= total,
                total == self.messages.len(),
                *self == *old(self),
                all == self@.messages,
                gone <= i,
                kept@.len() == i - gone,
                all_await(msg_views(kept@)),
                bytes == total_bytes(msg_views(kept@) + all.skip(i as int)),
                goal == bounded(msg_views(kept@) + all.skip(i as int), max_messages, max_bytes),
            decreases total - i,
        {
            let ghost p = msg_views(kept@);
            let ghost rest = all.skip(i as int);
            let ghost next = all.skip(i + 1);
            proof {
                assert(rest[0] == all[i as int]);
                assert(rest.skip(1) =~= next);
                assert(rest =~= seq![rest[0]] + next);
            }
            if waits(&self.messages[i]) {
                kept.push(self.messages[i].clone());
                proof {
                    assert(msg_views(kept@) =~= p.push(rest[0]));
                    assert(msg_views(kept@) + next =~= p + rest);
                    assert forall|k: int| 0 <= k < msg_views(kept@).len() implies awaits_receipt(
                        #[trigger] msg_views(kept@)[k],
                    ) by {
                        if k < p.len() {
                            assert(msg_views(kept@)[k] == p[k]);
                        }
                    }
                }
            } else {
                let body: &[u8] = self.messages[i].body.as_str().as_bytes();
                proof {
                    lemma_one_evicted(p, rest);
                    assert((p + rest).len() == total - gone);
                }
                bytes = bytes - (body.len() as u128);
                gone = gone + 1;
            }
            i = i + 1;
        }
        let ghost p = msg_views(kept@);
        let ghost from = i as int;
        proof {
            let rest = all.skip(from);
            assert((p + rest).len() == total - gone);
            if from == total {
                assert(rest =~= Seq::empty());
                lemma_evicted_behind(p, rest, 1);
                assert(evicted(rest, 1) =~= Seq::empty());
            }
            assert(goal == p + rest);
            assert(p + all.subrange(from, from) =~= p);
        }
        while i < total
            invariant
                from <= i <= total,
                total == self.messages.len(),
                *self == *old(self),
                all == self@.messages,
                0 <= from,
                msg_views(kept@) == p + all.subrange(from, i as int),
            decreases total - i,
        {
            let ghost before = msg_views(kept@);
            kept.push(self.messages[i].clone());
            proof {
                assert(msg_views(kept@) =~= before.push(all[i as int]));
                assert(p + all.subrange(from, i + 1) =~= before.push(all[i as int]));
            }
            i = i + 1;
        }
        proof {
            assert(all.subrange(from, total as int) =~= all.skip(from));
            lemma_bounded_wf(all, max_messages, max_bytes, self.last_seq);
            lemma_message_count(all, self.last_seq);
        }
        self.messages = kept;
        gone as u64
    }

    /// Total stored message count.
    pub fn message_count(&self) -> (r: i64)
        requires
            self.wf(),
        ensures
            r == self@.messages.len(),
    {
        proof {
            lemma_message_count(self@.messages, self@.last_seq);
        }
        self.messages.len() as i64
    }
}

/// The store with a grant used.
pub open spec fn used_grant(s: StoreView, id: Seq<char>) -> StoreView {
    StoreView { seen_grants: s.seen_grants.insert(id), ..s }
}

/// `list` holds every presence record, in the order of the agents' names.
pub open spec fn is_presence_list(list: Seq<PresenceView>, s: StoreView) -> bool {
    &&& names::lists(Seq::new(list.len(), |i: int| list[i].agent), s.presence)
    &&& forall|i: int|
        0 <= i < list.len() ==> #[trigger] list[i] == s.presence[list[i].agent]
}

proof fn lemma_without_wf(out: Seq<OutboundView>, id: Seq<char>, last: i64)
    requires
        outbox_wf(out, last),
    ensures
        outbox_wf(without(out, id), last),
        without(out, id).len() <= out.len(),
        forall|i: int|
            0 <= i < without(out, id).len() ==> out.contains(#[trigger] without(out, id)[i]),
    decreases out.len(),
{
    if out.len() > 0 {
        let front = out.drop_last();
        assert forall|i: int, j: int| 0 <= i < j < front.len() implies (#[trigger] front[i]).id != (
        #[trigger] front[j]).id by {
            assert(front[i] == out[i] && front[j] == out[j]);
        }
        lemma_without_wf(front, id, last);
        let kept = without(front, id);
        let res = without(out, id);
        assert forall|i: int| 0 <= i < kept.len() implies is_earlier(out, #[trigger] kept[i]) by {
            assert(front.contains(kept[i]));
            let j = choose|j: int| 0 <= j < front.len() && front[j] == kept[i];
            assert(out[j] == kept[i]);
        }
        assert forall|i: int| 0 <= i < res.len() implies out.contains(#[trigger] res[i]) by {
            if i < kept.len() {
                assert(res[i] == kept[i]);
                assert(is_earlier(out, kept[i]));
            } else {
                assert(res[i] == out[out.len() - 1]);
            }
        }
        assert forall|i: int, j: int| 0 <= i < j < res.len() implies (#[trigger] res[i]).id != (
        #[trigger] res[j]).id by {
            assert(res[i] == kept[i]);
            if j < kept.len() {
                assert(res[j] == kept[j]);
            } else {
                assert(is_earlier(out, kept[i]));
                let k = choose|k: int| 0 <= k < out.len() - 1 && #[trigger] out[k] == kept[i];
                assert(out[k].id != out[out.len() - 1].id);
            }
        }
    }
}

/// `o` stands in `out` before its last message.
spec fn is_earlier(out: Seq<OutboundView>, o: OutboundView) -> bool {
    exists|j: int| 0 <= j < out.len() - 1 && #[trigger] out[j] == o
}

/// A store that holds nothing.
pub open spec fn empty_store() -> StoreView {
    StoreView {
        messages: Seq::empty(),
        last_seq: 0,
        cursors: Map::empty(),
        outbox: Seq::empty(),
        last_outbound: 0,
        rejections: Seq::empty(),
        last_rejection: 0,
        presence: Map::empty(),
        seen_grants: Set::empty(),
    }
}

/// The row of a consumer: its cursor and how many inbound messages lie behind it.
pub open spec fn consumer_row(s: StoreView, consumer: Seq<char>) -> ConsumerView {
    ConsumerView {
        consumer,
        last_seq: s.cursors[consumer].last_seq,
        unread: picked(s.messages, unread_by(s.cursors[consumer].last_seq)).len() as int,
        last_read_at: s.cursors[consumer].updated_at,
    }
}

/// `list` holds the row of every consumer, in the order of their names.
pub open spec fn is_consumer_list(list: Seq<ConsumerView>, s: StoreView) -> bool {
    &&& names::lists(Seq::new(list.len(), |i: int| list[i].consumer), s.cursors)
    &&& forall|i: int|
        0 <= i < list.len() ==> #[trigger] list[i] == consumer_row(s, list[i].consumer)
}

proof fn lemma_picked_len(ms: Seq<MsgView>, q: Query)
    ensures
        picked(ms, q).len() <= ms.len(),
    decreases ms.len(),
{
    if ms.len() > 0 {
        lemma_picked_len(ms.drop_last(), q);
    }
}

// ---------------------------------------------------------------------------
// Restoring a store that was kept elsewhere.
// ---------------------------------------------------------------------------

impl Store {
    /// Take over a kept message. `false`, and nothing changes, unless it comes
    /// behind every message taken over so far and its id is new.
    pub fn restore_message(&mut self, m: StoredMsg) -> (r: bool)
        requires
            old(self).wf(),
        ensures
            final(self).wf(),
            r == (m@.seq > old(self)@.last_seq && !has_id(old(self)@.messages, m@.id)),
            final(self)@ == if r {
                StoreView {
                    messages: old(self)@.messages.push(m@),
                    last_seq: m@.seq,
                    ..old(self)@
                }
            } else {
                old(self)@
            },
    {
        if m.seq <= self.last_seq || self.contains_id(m.id.as_str()) {
            return false;
        }
        let ghost before = self@.messages;
        let ghost mv = m@;
        self.last_seq = m.seq;
        self.messages.push(m);
        proof {
            let after = self@.messages;
            assert(after =~= before.push(mv));
            assert forall|i: int, j: int| 0 <= i < j < after.len() implies (#[trigger] after[i]).seq
                < (#[trigger] after[j]).seq && after[i].id != after[j].id by {
                assert(after[i] == before[i]);
                if j < before.len() {
                    assert(after[j] == before[j]);
                }
            }
        }
        true
    }

    /// Take over a kept rejection. `false`, and nothing changes, unless it comes
    /// behind every rejection taken over so far.
    pub fn restore_rejection(&mut self, row: RejectionRow) -> (r: bool)
        requires
            old(self).wf(),
        ensures
            final(self).wf(),
            r == (row@.seq > old(self)@.last_rejection),
            final(self)@ == if r {
                StoreView {
                    rejections: old(self)@.rejections.push(row@),
                    last_rejection: row@.seq,
                    ..old(self)@
                }
            } else {
                old(self)@
            },
    {
        if row.seq <= self.last_rejection {
            return false;
        }
        let ghost before = self@.rejections;
        let ghost rv = row@;
        self.last_rejection = row.seq;
        self.rejections.push(row);
        proof {
            let after = self@.rejections;
            assert(after =~= before.push(rv));
            assert forall|i: int, j: int| 0 <= i < j < after.len() implies (#[trigger] after[i]).seq
                < (#[trigger] after[j]).seq by {
                assert(after[i] == before[i]);
                if j < before.len() {
                    assert(after[j] == before[j]);
                }
            }
        }
        true
    }

    /// Take over a kept cursor.
    pub fn restore_cursor(&mut self, consumer: &str, last_seq: i64, updated_at: Option<&str>)
        requires
            old(self).wf(),
        ensures
            final(self).wf(),
            final(self)@ == (StoreView {
                cursors: old(self)@.cursors.insert(
                    consumer@,
                    CursorView { last_seq, updated_at: text::opt_str(updated_at) },
                ),
                ..old(self)@
            }),
    {
        let ghost before = self.cursors@;
        let c = Cursor { last_seq, updated_at: text::own_opt(updated_at) };
        let ghost cv = c@;
        self.cursors.put(text::own(consumer), c);
        assert(cursor_views(self.cursors@) =~= cursor_views(before).insert(consumer@, cv));
    }

    /// Take over a kept presence record, unless a newer one stands.
    pub fn restore_presence(&mut self, row: PresenceRow)
        requires
            old(self).wf(),
        ensures
            final(self).wf(),
            final(self)@ == with_presence(old(self)@, row@),
    {
        self.put_presence(row);
    }

    /// Take over the highest numbers that were ever given to a message, to an
    /// entry of the outbox and to a rejection. A number never goes down.
    pub fn restore_counters(&mut self, last_seq: i64, last_outbound: i64, last_rejection: i64)
        requires
            old(self).wf(),
        ensures
            final(self).wf(),
            final(self)@ == (StoreView {
                last_seq: later(old(self)@.last_seq, last_seq),
                last_outbound: later(old(self)@.last_outbound, last_outbound),
                last_rejection: later(old(self)@.last_rejection, last_rejection),
                ..old(self)@
            }),
    {
        if last_seq > self.last_seq {
            self.last_seq = last_seq;
        }
        if last_outbound > self.last_outbound {
            self.last_outbound = last_outbound;
        }
        if last_rejection > self.last_rejection {
            self.last_rejection = last_rejection;
        }
    }

    /// The grants that were used, in ascending order.
    pub fn used_grants(&self) -> (r: Vec<String>)
        requires
            self.wf(),
        ensures
            names::ascending(text::texts(r@)),
            text::texts(r@).to_set() == self@.seen_grants,
    {
        let mut out: Vec<String> = Vec::new();
        let mut i: usize = 0;
        let ghost names = self.seen_grants.names();
        while i < self.seen_grants.len()
            invariant
                i <= names.len(),
                names == self.seen_grants.names(),
                self.wf(),
                out@.len() == i,
                forall|k: int| 0 <= k < i ==> (#[trigger] out@[k])@ == names[k],
            decreases names.len() - i,
        {
            let (name, _v) = self.seen_grants.at(i);
            out.push(text::own(name));
            i = i + 1;
        }
        proof {
            self.seen_grants.lemma_names();
            assert(text::texts(out@) =~= names);
            assert(names.to_set() =~= self@.seen_grants);
        }
        out
    }
}

/// The greater of two numbers.
pub open spec fn later(a: i64, b: i64) -> i64 {
    if b > a {
        b
    } else {
        a
    }
}

/// What a kept store needs before it can be used.
#[derive(Debug, Clone, Copy, PartialEq, Eq, Structural)]
pub enum Migration {
    /// Nothing: it is current.
    Current,
    /// The tables are created.
    Create,
    /// The tables that are missing are created, and the columns that are missing
    /// in the others are added.
    Upgrade,
}

/// What a kept store needs, by its version and by whether it holds a table of
/// messages.
pub fn migration(user_version: i64, has_messages: bool) -> (r: Migration)
    ensures
        r == if user_version >= SCHEMA_VERSION {
            Migration::Current
        } else if has_messages {
            Migration::Upgrade
        } else {
            Migration::Create
        },
{
    if user_version >= SCHEMA_VERSION {
        Migration::Current
    } else if has_messages {
        Migration::Upgrade
    } else {
        Migration::Create
    }
}

/// The version of a store that is current.
pub const SCHEMA_VERSION: i64 = 2;

// ---------------------------------------------------------------------------
// Laws.
// ---------------------------------------------------------------------------

/// A new message is found under its id with the number it was given; a second
/// one with the id leaves the store as it is and gets no number.
pub proof fn a_message_is_stored_once(
    s: StoreView,
    i: InnerView,
    topic: Seq<char>,
    direction: Seq<char>,
    state: Seq<char>,
    j: InnerView,
    topic2: Seq<char>,
    direction2: Seq<char>,
    state2: Seq<char>,
)
    requires
        store_wf(s),
        !has_id(s.messages, i.id),
        s.last_seq < i64::MAX,
        j.id == i.id,
    ensures
        ({
            let after = logged(s, i, topic, direction, state);
            &&& logged_seq(s, i.id) == Ok::<Option<i64>, ErrorView>(
                Some((s.last_seq + 1) as i64),
            )
            &&& has_id(after.messages, i.id)
            &&& with_id(after.messages, i.id) == Some(
                row_of(i, topic, direction, state, (s.last_seq + 1) as i64),
            )
            &&& with_seq(after.messages, (s.last_seq + 1) as i64) == with_id(after.messages, i.id)
            &&& logged_seq(after, j.id) == Ok::<Option<i64>, ErrorView>(None)
            &&& logged(after, j, topic2, direction2, state2) == after
        }),
{
    let after = logged(s, i, topic, direction, state);
    assert(after.messages.last().id == i.id);
    assert(after.messages[after.messages.len() - 1].id == i.id);
}

/// A query gives the stored messages that match, each once and in the order in
/// which they were stored.
pub proof fn a_query_gives_what_matches(ms: Seq<MsgView>, q: Query, last: i64)
    requires
        messages_wf(ms, last),
    ensures
        messages_wf(picked(ms, q), last),
        forall|m: MsgView| #[trigger]
            picked(ms, q).contains(m) <==> ms.contains(m) && matches_query(q, m),
    decreases ms.len(),
{
    let p = picked(ms, q);
    if ms.len() > 0 {
        let front = ms.drop_last();
        let m0 = ms.last();
        assert(messages_wf(front, last)) by {
            assert forall|i: int, j: int| 0 <= i < j < front.len() implies (#[trigger] front[i]).seq
                < (#[trigger] front[j]).seq && front[i].id != front[j].id by {
                assert(front[i] == ms[i] && front[j] == ms[j]);
            }
        }
        a_query_gives_what_matches(front, q, last);
        let pf = picked(front, q);
        assert(ms =~= front.push(m0));
        assert forall|m: MsgView| #[trigger] p.contains(m) <==> ms.contains(m) && matches_query(
            q,
            m,
        ) by {
            if front.contains(m) {
                let k = choose|k: int| 0 <= k < front.len() && front[k] == m;
                assert(ms[k] == m);
            }
            if ms.contains(m) {
                let k = choose|k: int| 0 <= k < ms.len() && ms[k] == m;
                if k < front.len() {
                    assert(front[k] == m);
                } else {
                    assert(m == m0);
                }
            }
            assert(ms[ms.len() - 1] == m0);
            if pf.contains(m) {
                let k = choose|k: int| 0 <= k < pf.len() && pf[k] == m;
                assert(p[k] == m);
            }
            if p.contains(m) {
                let k = choose|k: int| 0 <= k < p.len() && p[k] == m;
                if k < pf.len() {
                    assert(pf[k] == m);
                }
            }
            if matches_query(q, m0) {
                assert(p[p.len() - 1] == m0);
            }
        }
        assert forall|i: int| 0 <= i < p.len() implies 1 <= (#[trigger] p[i]).seq <= last by {
            assert(p.contains(p[i]));
            assert(ms.contains(p[i]));
        }
        assert forall|i: int, j: int| 0 <= i < j < p.len() implies (#[trigger] p[i]).seq < (
        #[trigger] p[j]).seq && p[i].id != p[j].id by {
            assert(p[i] == pf[i]);
            assert(pf.contains(pf[i]));
            let a = choose|a: int| 0 <= a < front.len() && front[a] == pf[i];
            if j < pf.len() {
                assert(p[j] == pf[j]);
            } else {
                assert(p[j] == m0);
                assert(ms[a] == pf[i] && ms[ms.len() - 1] == m0);
            }
        }
    }
}

/// Whoever is asked for, browsing shows what was sent to everyone, in either
/// direction.
pub proof fn a_message_to_everyone_is_browsed(
    ms: Seq<MsgView>,
    last: i64,
    m: MsgView,
    from: Option<Seq<char>>,
    to: Option<Seq<char>>,
)
    requires
        messages_wf(ms, last),
        ms.contains(m),
        m.to == wire::BROADCAST@,
        meets(from, m.from),
    ensures
        picked(ms, browsing(from, to, "all"@)).contains(m),
        picked(ms, browsing(from, to, m.direction)).contains(m),
{
    a_query_gives_what_matches(ms, browsing(from, to, "all"@), last);
    a_query_gives_what_matches(ms, browsing(from, to, m.direction), last);
}

/// A cursor never moves back, and acknowledging for one consumer leaves every
/// other where it is.
pub proof fn a_cursor_never_moves_back(
    s: StoreView,
    consumer: Seq<char>,
    seq: i64,
    now: Seq<char>,
    other: Seq<char>,
)
    requires
        s.cursors.contains_key(consumer) || seq >= 0,
    ensures
        cursor_of(acked(s, consumer, seq, now), consumer) == later(cursor_of(s, consumer), seq),
        other != consumer ==> cursor_of(acked(s, consumer, seq, now), other) == cursor_of(
            s,
            other,
        ),
        acked(s, consumer, seq, now).messages == s.messages,
{
}

proof fn lemma_picked_after(ms: Seq<MsgView>, last: i64, a: i64, n: int)
    requires
        messages_wf(ms, last),
        0 < n <= picked(ms, unread_by(a)).len(),
    ensures
        picked(ms, unread_by(picked(ms, unread_by(a))[n - 1].seq)) == picked(
            ms,
            unread_by(a),
        ).skip(n),
    decreases ms.len(),
{
    let q = unread_by(a);
    let p = picked(ms, q);
    let b = p[n - 1].seq;
    let q2 = unread_by(b);
    let front = ms.drop_last();
    let m0 = ms.last();
    assert(messages_wf(front, last)) by {
        assert forall|i: int, j: int| 0 <= i < j < front.len() implies (#[trigger] front[i]).seq < (
        #[trigger] front[j]).seq && front[i].id != front[j].id by {
            assert(front[i] == ms[i] && front[j] == ms[j]);
        }
    }
    let pf = picked(front, q);
    a_query_gives_what_matches(ms, q, last);
    assert(p.contains(p[n - 1]));
    assert(matches_query(q, p[n - 1]));
    assert(b > a);
    if n <= pf.len() {
        assert(p[n - 1] == pf[n - 1]);
        lemma_picked_after(front, last, a, n);
        a_query_gives_what_matches(front, q, last);
        assert(pf.contains(pf[n - 1]));
        let k = choose|k: int| 0 <= k < front.len() && front[k] == pf[n - 1];
        assert(ms[k].seq < ms[ms.len() - 1].seq);
        if matches_query(q, m0) {
            assert(p =~= pf.push(m0));
            assert(p.skip(n) =~= pf.skip(n).push(m0));
        }
    } else {
        assert(p[n - 1] == m0);
        assert(p.skip(n) =~= Seq::empty());
        lemma_none_after(ms, last, b, ms.len() as int);
        assert(ms.take(ms.len() as int) =~= ms);
    }
}

proof fn lemma_none_after(ms: Seq<MsgView>, last: i64, b: i64, n: int)
    requires
        messages_wf(ms, last),
        0 <= n <= ms.len(),
        ms.len() > 0 ==> ms.last().seq <= b,
    ensures
        picked(ms.take(n), unread_by(b)) == Seq::<MsgView>::empty(),
    decreases n,
{
    if n > 0 {
        assert(ms.take(n).drop_last() =~= ms.take(n - 1));
        lemma_none_after(ms, last, b, n - 1);
        assert(ms.take(n).last() == ms[n - 1]);
        if n < ms.len() {
            assert(ms[n - 1].seq < ms[ms.len() - 1].seq);
        }
    }
}

/// Draining in batches gives every unread message exactly once and in order:
/// once the last of the first `n` is acknowledged, the rest is what is unread.
pub proof fn acknowledged_messages_are_not_read_again(
    s: StoreView,
    consumer: Seq<char>,
    n: int,
    now: Seq<char>,
)
    requires
        store_wf(s),
        0 < n <= picked(s.messages, unread_by(cursor_of(s, consumer))).len(),
    ensures
        ({
            let unread = picked(s.messages, unread_by(cursor_of(s, consumer)));
            let after = acked(s, consumer, unread[n - 1].seq, now);
            picked(after.messages, unread_by(cursor_of(after, consumer))) == unread.skip(n)
        }),
{
    let a = cursor_of(s, consumer);
    let unread = picked(s.messages, unread_by(a));
    a_query_gives_what_matches(s.messages, unread_by(a), s.last_seq);
    assert(unread.contains(unread[n - 1]));
    lemma_picked_after(s.messages, s.last_seq, a, n);
}

/// How far a delivery state is along its life.
pub open spec fn progress(state: Seq<char>) -> int {
    if state == "failed"@ {
        4
    } else if state == "read"@ {
        3
    } else if state == "delivered"@ {
        2
    } else if state == "sent"@ {
        1
    } else {
        0
    }
}

/// No step takes a message back to an earlier delivery state: what failed stays
/// failed, what was read stays read unless it fails, and hand-off comes only
/// before the rest. A step touches no other message and no inbound one.
pub proof fn a_delivery_state_never_goes_back(m: MsgView, id: Seq<char>, step: Step)
    ensures
        progress(stepped(m, id, step).delivery_state) >= progress(m.delivery_state),
        m.id != id || m.direction != "out"@ ==> stepped(m, id, step) == m,
        stepped(m, id, step).seq == m.seq,
        stepped(m, id, step).id == m.id,
        stepped(m, id, step).body == m.body,
{
    reveal_strlit("failed");
    reveal_strlit("read");
    reveal_strlit("delivered");
    reveal_strlit("sent");
    reveal_strlit("pending");
    reveal_strlit("none");
    assert("failed"@.len() == 6 && "read"@.len() == 4 && "delivered"@.len() == 9 && "sent"@.len()
        == 4 && "pending"@.len() == 7 && "none"@.len() == 4);
    assert("read"@[0] == 'r' && "sent"@[0] == 's' && "none"@[0] == 'n');
}

/// A message that is queued and handed off leaves the outbox as it was.
pub proof fn hand_off_undoes_queueing(s: StoreView, o: OutboundView, now: Seq<char>)
    requires
        store_wf(s),
        !is_queued(s.outbox, o.id),
        s.last_outbound < i64::MAX,
    ensures
        queued(s, o).outbox.last() == o,
        handed_off(queued(s, o), o.id, now).outbox == s.outbox,
        !is_queued(handed_off(queued(s, o), o.id, now).outbox, o.id),
{
    let q = s.outbox.push(o);
    assert(q.drop_last() =~= s.outbox);
    lemma_without_absent(s.outbox, o.id);
}

pub proof fn lemma_without_absent(out: Seq<OutboundView>, id: Seq<char>)
    requires
        !is_queued(out, id),
    ensures
        without(out, id) == out,
    decreases out.len(),
{
    if out.len() > 0 {
        assert(out[out.len() - 1].id != id);
        assert forall|i: int| 0 <= i < out.drop_last().len() implies (
        #[trigger] out.drop_last()[i]).id != id by {
            assert(out.drop_last()[i] == out[i]);
        }
        lemma_without_absent(out.drop_last(), id);
        assert(out =~= out.drop_last().push(out.last()));
    }
}

/// Of two presence beacons of an agent the one with the higher number stands,
/// whichever comes first.
pub proof fn the_newest_presence_stands(s: StoreView, a: PresenceView, b: PresenceView)
    requires
        a.agent == b.agent,
        a.seq < b.seq,
    ensures
        with_presence(with_presence(s, a), b).presence == with_presence(s, b).presence,
        with_presence(with_presence(s, b), a).presence == with_presence(s, b).presence,
        with_presence(s, b).presence.contains_key(b.agent),
        with_presence(s, b).presence[b.agent].seq >= b.seq,
{
    assert(with_presence(with_presence(s, a), b).presence =~= with_presence(s, b).presence);
}

/// A grant can be used once: the first use finds it unused, and every use after
/// that finds it used, whatever other grants are used in between.
pub proof fn a_grant_is_used_once(s: StoreView, id: Seq<char>, other: Seq<char>)
    ensures
        used_grant(s, id).seen_grants.contains(id),
        used_grant(used_grant(s, id), other).seen_grants.contains(id),
        other != id ==> used_grant(s, other).seen_grants.contains(id) == s.seen_grants.contains(id),
{
}

/// Everything in `ms` awaits a receipt.
pub open spec fn all_await(ms: Seq<MsgView>) -> bool {
    forall|i: int| 0 <= i < ms.len() ==> awaits_receipt(#[trigger] ms[i])
}

/// Messages went from `a` to `b` by eviction: what awaits a receipt stayed, and
/// where one that may go stayed, everything younger stayed too.
pub open spec fn oldest_went(a: Seq<MsgView>, b: Seq<MsgView>) -> bool {
    &&& forall|m: MsgView| #[trigger] b.contains(m) ==> a.contains(m)
    &&& forall|i: int|
        0 <= i < a.len() && awaits_receipt(#[trigger] a[i]) ==> b.contains(a[i])
    &&& forall|i: int, j: int|
        0 <= i < j < a.len() && b.contains(#[trigger] a[i]) && !awaits_receipt(a[i])
            ==> b.contains(#[trigger] a[j])
}

proof fn lemma_oldest_went(ms: Seq<MsgView>, n: nat, last: i64)
    requires
        messages_wf(ms, last),
    ensures
        oldest_went(ms, evicted(ms, n)),
        evicted(ms, n).len() <= ms.len(),
        evicted(ms, n).len() + n > ms.len() ==> n == 0 || all_await(evicted(ms, n)),
        evicted(ms, n).len() + n >= ms.len(),
    decreases ms.len(),
{
    let out = evicted(ms, n);
    lemma_evicted_wf(ms, n, last);
    assert forall|m: MsgView| #[trigger] out.contains(m) implies ms.contains(m) by {
        let k = choose|k: int| 0 <= k < out.len() && out[k] == m;
        assert(ms.contains(out[k]));
    }
    if ms.len() == 0 || n == 0 {
        assert forall|i: int| 0 <= i < ms.len() implies ms.contains(#[trigger] ms[i]) by {}
    } else {
        let rest = ms.skip(1);
        let m = if awaits_receipt(ms[0]) {
            n
        } else {
            (n - 1) as nat
        };
        assert(messages_wf(rest, last)) by {
            assert forall|i: int, j: int| 0 <= i < j < rest.len() implies (#[trigger] rest[i]).seq
                < (#[trigger] rest[j]).seq && rest[i].id != rest[j].id by {
                assert(rest[i] == ms[i + 1] && rest[j] == ms[j + 1]);
            }
        }
        lemma_oldest_went(rest, m, last);
        let kept = evicted(rest, m);
        assert forall|x: MsgView| kept.contains(x) implies #[trigger] out.contains(x) by {
            let k = choose|k: int| 0 <= k < kept.len() && kept[k] == x;
            if awaits_receipt(ms[0]) {
                assert(out[k + 1] == x);
            } else {
                assert(out[k] == x);
            }
        }
        assert forall|x: MsgView| out.contains(x) && x != ms[0] implies #[trigger] kept.contains(
            x,
        ) by {
            let k = choose|k: int| 0 <= k < out.len() && out[k] == x;
            if awaits_receipt(ms[0]) {
                assert(k > 0 && kept[k - 1] == x);
            } else {
                assert(kept[k] == x);
            }
        }
        assert forall|i: int| 0 <= i < ms.len() && awaits_receipt(
            #[trigger] ms[i],
        ) implies out.contains(ms[i]) by {
            if i == 0 {
                assert(out[0] == ms[0]);
            } else {
                assert(rest[i - 1] == ms[i]);
            }
        }
        assert forall|i: int, j: int|
            0 <= i < j < ms.len() && out.contains(#[trigger] ms[i]) && !awaits_receipt(
                ms[i],
            ) implies out.contains(#[trigger] ms[j]) by {
            assert(rest[j - 1] == ms[j]);
            if i == 0 {
                // The first of them may go, so it went: it has no twin behind it.
                assert(out == kept);
                assert(kept.contains(ms[0]));
                assert(rest.contains(ms[0]));
                let k = choose|k: int| 0 <= k < rest.len() && rest[k] == ms[0];
                assert(ms[k + 1].seq > ms[0].seq);
            } else {
                assert(rest[i - 1] == ms[i]);
                assert(ms[0].seq < ms[i].seq);
                assert(kept.contains(ms[i]));
                assert(kept.contains(rest[j - 1]));
            }
        }
        if out.len() + n > ms.len() {
            if awaits_receipt(ms[0]) {
                assert forall|i: int| 0 <= i < out.len() implies awaits_receipt(#[trigger] out[i]) by {
                    if i > 0 {
                        assert(out[i] == kept[i - 1]);
                    }
                }
            } else if m == 0 {
                assert(kept == rest);
            }
        }
    }
}

proof fn lemma_oldest_twice(a: Seq<MsgView>, b: Seq<MsgView>, c: Seq<MsgView>, last: i64)
    requires
        messages_wf(a, last),
        messages_wf(b, last),
        oldest_went(a, b),
        oldest_went(b, c),
    ensures
        oldest_went(a, c),
{
    assert forall|i: int| 0 <= i < a.len() && awaits_receipt(#[trigger] a[i]) implies c.contains(
        a[i],
    ) by {
        assert(b.contains(a[i]));
        let k = choose|k: int| 0 <= k < b.len() && b[k] == a[i];
        assert(c.contains(b[k]));
    }
    assert forall|i: int, j: int|
        0 <= i < j < a.len() && c.contains(#[trigger] a[i]) && !awaits_receipt(
            a[i],
        ) implies c.contains(#[trigger] a[j]) by {
        assert(b.contains(a[i]));
        assert(b.contains(a[j]));
        let k = choose|k: int| 0 <= k < b.len() && b[k] == a[i];
        let l = choose|l: int| 0 <= l < b.len() && b[l] == a[j];
        assert(a[i].seq < a[j].seq);
        if l <= k {
            assert(b[l].seq <= b[k].seq);
        }
        assert(c.contains(b[k]));
        assert(c.contains(b[l]));
    }
}

/// Enforcing the bounds evicts the oldest first and never what awaits a receipt.
/// Afterwards the store is within both bounds, unless nothing is left that may
/// go.
pub proof fn bounds_evict_the_oldest(
    ms: Seq<MsgView>,
    max_messages: u64,
    max_bytes: u64,
    last: i64,
)
    requires
        messages_wf(ms, last),
    ensures
        ({
            let kept = bounded(ms, max_messages, max_bytes);
            &&& messages_wf(kept, last)
            &&& oldest_went(ms, kept)
            &&& is_within(kept, max_messages, max_bytes) || all_await(kept)
        }),
    decreases ms.len(),
{
    let next = evicted(ms, 1);
    lemma_evicted_wf(ms, 1, last);
    lemma_oldest_went(ms, 1, last);
    if is_within(ms, max_messages, max_bytes) || next.len() >= ms.len() {
        assert forall|i: int| 0 <= i < ms.len() implies ms.contains(#[trigger] ms[i]) by {}
        if next.len() >= ms.len() {
            lemma_none_evicted(ms);
        }
    } else {
        bounds_evict_the_oldest(next, max_messages, max_bytes, last);
        lemma_oldest_twice(ms, next, bounded(next, max_messages, max_bytes), last);
    }
}

/// Where none goes, the messages are the same.
proof fn lemma_none_evicted(ms: Seq<MsgView>)
    ensures
        evicted(ms, 1).len() <= ms.len(),
        evicted(ms, 1).len() == ms.len() ==> evicted(ms, 1) == ms,
    decreases ms.len(),
{
    if ms.len() > 0 {
        if awaits_receipt(ms[0]) {
            lemma_none_evicted(ms.skip(1));
            assert(ms =~= seq![ms[0]] + ms.skip(1));
        } else {
            assert(evicted(ms.skip(1), 0) == ms.skip(1));
        }
    }
}

proof fn lemma_evicted_twice(ms: Seq<MsgView>, n: nat)
    ensures
        evicted(evicted(ms, 1), n) == evicted(ms, n + 1),
    decreases ms.len(),
{
    if ms.len() > 0 {
        let rest = ms.skip(1);
        if awaits_receipt(ms[0]) {
            lemma_evicted_twice(rest, n);
            let one = evicted(ms, 1);
            assert(one == seq![ms[0]] + evicted(rest, 1));
            assert(one[0] == ms[0]);
            assert(one.skip(1) =~= evicted(rest, 1));
            if n == 0 {
                assert(evicted(one, 0) == one);
            }
        } else {
            assert(evicted(rest, 0) == rest);
        }
    }
}

proof fn lemma_evicted_len(ms: Seq<MsgView>, n: nat)
    ensures
        evicted(ms, n).len() <= ms.len(),
    decreases ms.len(),
{
    if ms.len() > 0 && n > 0 {
        if awaits_receipt(ms[0]) {
            lemma_evicted_len(ms.skip(1), n);
        } else {
            lemma_evicted_len(ms.skip(1), (n - 1) as nat);
        }
    }
}

/// Enforcing the bounds evicts no more than it must: wherever fewer of the oldest
/// had gone, the store would still be over a bound.
pub proof fn bounds_evict_no_more_than_needed(
    ms: Seq<MsgView>,
    max_messages: u64,
    max_bytes: u64,
    n: nat,
)
    requires
        evicted(ms, n).len() > bounded(ms, max_messages, max_bytes).len(),
    ensures
        !is_within(evicted(ms, n), max_messages, max_bytes),
    decreases ms.len(),
{
    lemma_evicted_len(ms, n);
    if !(is_within(ms, max_messages, max_bytes) || evicted(ms, 1).len() >= ms.len()) && n > 0 {
        lemma_evicted_twice(ms, (n - 1) as nat);
        bounds_evict_no_more_than_needed(
            evicted(ms, 1),
            max_messages,
            max_bytes,
            (n - 1) as nat,
        );
    }
}

/// A store within its bounds is left as it is.
pub proof fn bounds_that_hold_change_nothing(ms: Seq<MsgView>, max_messages: u64, max_bytes: u64)
    requires
        ms.len() <= max_messages,
        total_bytes(ms) <= max_bytes,
    ensures
        bounded(ms, max_messages, max_bytes) == ms,
{
}

/// A transcript holds a stored message exactly where the message is from the
/// sender and to the recipient that were asked for, and from or to the peer, as
/// far as these are given. It is in the order of the sequence numbers.
pub proof fn a_transcript_is_the_conversation(
    ms: Seq<MsgView>,
    last: i64,
    from: Option<Seq<char>>,
    to: Option<Seq<char>>,
    peer: Option<Seq<char>>,
    limit: i64,
)
    requires
        messages_wf(ms, last),
        limit < 0 || limit >= ms.len(),
    ensures
        ({
            let shown = limited(picked(ms, conversing(from, to, peer)), limit);
            &&& forall|m: MsgView| #[trigger]
                shown.contains(m) <==> ms.contains(m) && (from matches Some(f) ==> m.from == f) && (
                to matches Some(t) ==> m.to == t) && (peer matches Some(p) ==> (m.from == p || m.to
                    == p))
            &&& forall|i: int, j: int|
                0 <= i < j < shown.len() ==> (#[trigger] shown[i]).seq < (#[trigger] shown[j]).seq
        }),
{
    lemma_picked_len(ms, conversing(from, to, peer));
    a_query_gives_what_matches(ms, conversing(from, to, peer), last);
}

/// Browsing shows a stored message exactly where the message has the direction
/// that was asked for, is from the sender and is for the recipient, as far as
/// these are given. What was sent to everyone is for every recipient.
pub proof fn browsing_shows_what_was_asked_for(
    ms: Seq<MsgView>,
    last: i64,
    from: Option<Seq<char>>,
    to: Option<Seq<char>>,
    direction: Seq<char>,
)
    requires
        messages_wf(ms, last),
    ensures
        ({
            let shown = picked(ms, browsing(from, to, direction));
            &&& shown.len() <= ms.len()
            &&& forall|m: MsgView| #[trigger]
                shown.contains(m) <==> ms.contains(m) && (direction == "all"@ || m.direction
                    == direction) && (from matches Some(f) ==> m.from == f) && (to matches Some(t)
                    ==> (m.to == t || m.to == "*"@))
            &&& forall|i: int, j: int|
                0 <= i < j < shown.len() ==> (#[trigger] shown[i]).seq < (#[trigger] shown[j]).seq
        }),
{
    lemma_picked_len(ms, browsing(from, to, direction));
    a_query_gives_what_matches(ms, browsing(from, to, direction), last);
}

/// What is unread behind a number are the inbound messages with higher ones, in
/// their order.
pub proof fn unread_is_what_came_later(ms: Seq<MsgView>, last: i64, after: i64)
    requires
        messages_wf(ms, last),
    ensures
        ({
            let unread = picked(ms, unread_by(after));
            &&& forall|m: MsgView| #[trigger]
                unread.contains(m) <==> ms.contains(m) && m.direction == "in"@ && m.seq > after
            &&& forall|i: int, j: int|
                0 <= i < j < unread.len() ==> (#[trigger] unread[i]).seq < (
                #[trigger] unread[j]).seq
        }),
{
    a_query_gives_what_matches(ms, unread_by(after), last);
}

/// Delivery states are shown of the outbound messages in the state that was asked
/// for, if one was.
pub proof fn delivery_states_are_of_outbound_messages(
    ms: Seq<MsgView>,
    last: i64,
    state: Option<Seq<char>>,
)
    requires
        messages_wf(ms, last),
    ensures
        ({
            let shown = picked(ms, sent_with(state));
            &&& shown.len() <= ms.len()
            &&& forall|m: MsgView| #[trigger]
                shown.contains(m) <==> ms.contains(m) && m.direction == "out"@ && (
                state matches Some(x) ==> m.delivery_state == x)
            &&& forall|i: int, j: int|
                0 <= i < j < shown.len() ==> (#[trigger] shown[i]).seq < (#[trigger] shown[j]).seq
        }),
{
    lemma_picked_len(ms, sent_with(state));
    a_query_gives_what_matches(ms, sent_with(state), last);
}

/// A limit takes from the front: a negative one everything, another one at most
/// as many as it says, and no fewer where there are as many.
pub proof fn a_limit_takes_from_the_front<T>(s: Seq<T>, limit: i64)
    ensures
        limited(s, limit).is_prefix_of(s),
        limit < 0 ==> limited(s, limit).len() == s.len(),
        limit >= 0 && s.len() <= limit ==> limited(s, limit).len() == s.len(),
        limit >= 0 && s.len() > limit ==> limited(s, limit).len() == limit,
{
}

/// The newest first is the oldest first the other way round.
pub proof fn newest_first_descends(ms: Seq<MsgView>, last: i64, q: Query)
    requires
        messages_wf(ms, last),
    ensures
        forall|i: int, j: int|
            0 <= i < j < picked(ms, q).reverse().len() ==> (#[trigger] picked(
                ms,
                q,
            ).reverse()[i]).seq > (#[trigger] picked(ms, q).reverse()[j]).seq,
{
    a_query_gives_what_matches(ms, q, last);
    let p = picked(ms, q);
    assert forall|i: int, j: int| 0 <= i < j < p.reverse().len() implies (
    #[trigger] p.reverse()[i]).seq > (#[trigger] p.reverse()[j]).seq by {
        assert(p[p.len() - 1 - j].seq < p[p.len() - 1 - i].seq);
    }
}

/// Rejections are shown where they have the reason that was asked for and were
/// not recorded before the time that was asked for, as far as these are given, in
/// the order in which they were recorded.
#[verifier::rlimit(40)]
pub proof fn rejections_show_what_was_asked_for(
    rs: Seq<RejectionView>,
    last: i64,
    reason: Option<Seq<char>>,
    since: Option<Seq<char>>,
)
    requires
        rejections_wf(rs, last),
    ensures
        ({
            let shown = picked_rejections(rs, reason, since);
            &&& forall|r: RejectionView| #[trigger]
                shown.contains(r) <==> rs.contains(r) && (reason matches Some(x) ==> r.reason == x)
                    && (since matches Some(t) ==> !text::text_lt(r.at, t))
            &&& forall|i: int, j: int|
                0 <= i < j < shown.len() ==> (#[trigger] shown[i]).seq < (#[trigger] shown[j]).seq
        }),
    decreases rs.len(),
{
    let shown = picked_rejections(rs, reason, since);
    if rs.len() > 0 {
        let front = rs.drop_last();
        let r0 = rs.last();
        assert forall|i: int, j: int| 0 <= i < j < front.len() implies (#[trigger] front[i]).seq < (
        #[trigger] front[j]).seq by {
            assert(front[i] == rs[i] && front[j] == rs[j]);
        }
        rejections_show_what_was_asked_for(front, last, reason, since);
        let sf = picked_rejections(front, reason, since);
        assert(rs[rs.len() - 1] == r0);
        assert forall|r: RejectionView| #[trigger] shown.contains(r) <==> rs.contains(r) && (
        reason matches Some(x) ==> r.reason == x) && (since matches Some(t) ==> !text::text_lt(
            r.at,
            t,
        )) by {
            if front.contains(r) {
                let k = choose|k: int| 0 <= k < front.len() && front[k] == r;
                assert(rs[k] == r);
            }
            if rs.contains(r) {
                let k = choose|k: int| 0 <= k < rs.len() && rs[k] == r;
                if k < front.len() {
                    assert(front[k] == r);
                }
            }
            if sf.contains(r) {
                let k = choose|k: int| 0 <= k < sf.len() && sf[k] == r;
                assert(shown[k] == r);
            }
            if shown.contains(r) {
                let k = choose|k: int| 0 <= k < shown.len() && shown[k] == r;
                if k < sf.len() {
                    assert(sf[k] == r);
                }
            }
            if shown.len() > sf.len() {
                assert(shown[shown.len() - 1] == r0);
            }
        }
        assert forall|i: int, j: int| 0 <= i < j < shown.len() implies (#[trigger] shown[i]).seq < (
        #[trigger] shown[j]).seq by {
            assert(shown[i] == sf[i]);
            assert(sf.contains(sf[i]));
            let k = choose|k: int| 0 <= k < front.len() && front[k] == sf[i];
            assert(rs[k] == sf[i]);
            if j < sf.len() {
                assert(shown[j] == sf[j]);
            }
        }
    }
}

/// A message is found under its id and under its number exactly where one is
/// stored.
pub proof fn a_stored_message_is_found(ms: Seq<MsgView>, last: i64, m: MsgView)
    requires
        messages_wf(ms, last),
    ensures
        with_id(ms, m.id) == Some(m) <==> ms.contains(m),
        with_seq(ms, m.seq) == Some(m) <==> ms.contains(m),
        with_id(ms, m.id) matches Some(x) ==> x.id == m.id && ms.contains(x),
        with_seq(ms, m.seq) matches Some(x) ==> x.seq == m.seq && ms.contains(x),
    decreases ms.len(),
{
    if ms.len() > 0 {
        let front = ms.drop_last();
        assert forall|i: int, j: int| 0 <= i < j < front.len() implies (#[trigger] front[i]).seq < (
        #[trigger] front[j]).seq && front[i].id != front[j].id by {
            assert(front[i] == ms[i] && front[j] == ms[j]);
        }
        a_stored_message_is_found(front, last, m);
        assert(ms[ms.len() - 1] == ms.last());
        if ms.contains(m) {
            let k = choose|k: int| 0 <= k < ms.len() && ms[k] == m;
            if k < front.len() {
                assert(front[k] == m);
                assert(ms[k].id != ms[ms.len() - 1].id && ms[k].seq < ms[ms.len() - 1].seq);
            }
        }
        if front.contains(m) {
            let k = choose|k: int| 0 <= k < front.len() && front[k] == m;
            assert(ms[k] == m);
        }
        if let Some(x) = with_id(front, m.id) {
            let k = choose|k: int| 0 <= k < front.len() && front[k] == x;
            assert(ms[k] == x);
        }
        if let Some(x) = with_seq(front, m.seq) {
            let k = choose|k: int| 0 <= k < front.len() && front[k] == x;
            assert(ms[k] == x);
        }
    }
}

/// Logging a new message adds it behind all others with what it says, under the
/// next number, and changes nothing else of the store.
pub proof fn a_logged_message_says_what_was_sent(
    s: StoreView,
    i: InnerView,
    topic: Seq<char>,
    direction: Seq<char>,
    state: Seq<char>,
)
    requires
        !has_id(s.messages, i.id),
        s.last_seq < i64::MAX,
    ensures
        ({
            let after = logged(s, i, topic, direction, state);
            let m = after.messages.last();
            &&& after.messages.len() == s.messages.len() + 1
            &&& after.messages.drop_last() == s.messages
            &&& after.last_seq == s.last_seq + 1
            &&& m.seq == s.last_seq + 1
            &&& m.id == i.id
            &&& m.direction == direction
            &&& m.from == i.from
            &&& m.to == i.to
            &&& m.topic == topic
            &&& m.ts == i.ts
            &&& m.ctype == i.ctype
            &&& m.in_reply_to == i.in_reply_to
            &&& m.body == i.body
            &&& wire::kind_named(m.kind) == Some(i.kind)
            &&& m.correlation_id == i.correlation_id
            &&& m.supersedes == i.supersedes
            &&& m.encrypted == (i.enc is Some)
            &&& m.delivery_state == state
            &&& m.broker_ack_ts is None && m.delivered_ts is None && m.read_ts is None
            &&& after.cursors == s.cursors
            &&& after.outbox == s.outbox
            &&& after.last_outbound == s.last_outbound
            &&& after.rejections == s.rejections
            &&& after.last_rejection == s.last_rejection
            &&& after.presence == s.presence
            &&& after.seen_grants == s.seen_grants
        }),
{
    let after = logged(s, i, topic, direction, state);
    assert(after.messages.drop_last() =~= s.messages);
    wire::kind_is_found_by_its_name(i.kind);
}

/// Acknowledging sets the consumer's cursor and its time where it moves, and
/// changes nothing else of the store.
pub proof fn acknowledging_sets_the_cursor_only(
    s: StoreView,
    consumer: Seq<char>,
    seq: i64,
    now: Seq<char>,
    other: Seq<char>,
)
    requires
        other != consumer,
    ensures
        ({
            let after = acked(s, consumer, seq, now);
            &&& after.cursors.contains_key(consumer)
            &&& (!s.cursors.contains_key(consumer) || seq > s.cursors[consumer].last_seq)
                ==> after.cursors[consumer].last_seq == seq && after.cursors[consumer].updated_at
                == Some(now)
            &&& s.cursors.contains_key(consumer) && seq <= s.cursors[consumer].last_seq
                ==> after.cursors[consumer] == s.cursors[consumer]
            &&& after.cursors.contains_key(other) == s.cursors.contains_key(other)
            &&& s.cursors.contains_key(other) ==> after.cursors[other] == s.cursors[other]
            &&& after.messages == s.messages
            &&& after.last_seq == s.last_seq
            &&& after.outbox == s.outbox
            &&& after.last_outbound == s.last_outbound
            &&& after.rejections == s.rejections
            &&& after.last_rejection == s.last_rejection
            &&& after.presence == s.presence
            &&& after.seen_grants == s.seen_grants
        }),
{
}

/// A consumer's row tells where it stands and how many inbound messages came
/// later.
pub proof fn a_consumer_row_counts_the_unread(s: StoreView, consumer: Seq<char>)
    requires
        store_wf(s),
        s.cursors.contains_key(consumer),
    ensures
        ({
            let row = consumer_row(s, consumer);
            let at = s.cursors[consumer].last_seq;
            &&& row.consumer == consumer
            &&& row.last_seq == at
            &&& row.last_read_at == s.cursors[consumer].updated_at
            &&& row.unread == later_inbound(s.messages, at)
        }),
{
    lemma_later_inbound(s.messages, s.cursors[consumer].last_seq);
}

/// How many inbound messages have a higher number.
pub open spec fn later_inbound(ms: Seq<MsgView>, at: i64) -> int
    decreases ms.len(),
{
    if ms.len() == 0 {
        0
    } else {
        later_inbound(ms.drop_last(), at) + if ms.last().direction == "in"@ && ms.last().seq > at {
            1int
        } else {
            0int
        }
    }
}

pub(crate) proof fn lemma_later_inbound(ms: Seq<MsgView>, at: i64)
    ensures
        picked(ms, unread_by(at)).len() == later_inbound(ms, at),
    decreases ms.len(),
{
    if ms.len() > 0 {
        lemma_later_inbound(ms.drop_last(), at);
    }
}

/// The highest inbound number is at least that of every inbound message, and that
/// of one of them, or zero where there is none.
pub proof fn the_highest_number_is_of_the_latest(ms: Seq<MsgView>, last: i64, m: MsgView)
    requires
        messages_wf(ms, last),
        ms.contains(m),
        m.direction == "in"@,
    ensures
        ({
            let inbound = picked(ms, (Query { direction: Some("in"@), ..everything() }));
            &&& highest(inbound) >= m.seq
            &&& exists|x: MsgView|
                ms.contains(x) && x.direction == "in"@ && #[trigger] x.seq == highest(inbound)
        }),
{
    let q = Query { direction: Some("in"@), ..everything() };
    let inbound = picked(ms, q);
    a_query_gives_what_matches(ms, q, last);
    assert(inbound.contains(m));
    let k = choose|k: int| 0 <= k < inbound.len() && inbound[k] == m;
    if k < inbound.len() - 1 {
        assert(inbound[k].seq < inbound[inbound.len() - 1].seq);
    }
    assert(inbound.contains(inbound.last()));
    assert(inbound.last().seq == highest(inbound));
}

/// A hand-off makes a message that waits for it sent, with its time, and touches
/// no other.
pub proof fn a_hand_off_is_noted(m: MsgView, id: Seq<char>, now: Seq<char>)
    ensures
        ({
            let after = stepped(m, id, Step::Sent(now));
            let applies = m.id == id && m.direction == "out"@ && (m.delivery_state == "pending"@
                || m.delivery_state == "none"@);
            &&& applies ==> after == (MsgView {
                delivery_state: "sent"@,
                broker_ack_ts: Some(now),
                ..m
            })
            &&& !applies ==> after == m
        }),
{
}

/// A delivery receipt makes an outbound message delivered, with its time, unless
/// it was read or failed.
pub proof fn a_delivery_is_noted(m: MsgView, id: Seq<char>, ts: Seq<char>)
    ensures
        ({
            let after = stepped(m, id, Step::Delivered(ts));
            let applies = m.id == id && m.direction == "out"@ && m.delivery_state != "read"@
                && m.delivery_state != "failed"@;
            &&& applies ==> after == (MsgView {
                delivery_state: "delivered"@,
                delivered_ts: Some(ts),
                ..m
            })
            &&& !applies ==> after == m
        }),
{
}

/// A read receipt makes an outbound message read, with its time, unless it
/// failed.
pub proof fn a_reading_is_noted(m: MsgView, id: Seq<char>, ts: Seq<char>)
    ensures
        ({
            let after = stepped(m, id, Step::Read(ts));
            let applies = m.id == id && m.direction == "out"@ && m.delivery_state != "failed"@;
            &&& applies ==> after == (MsgView { delivery_state: "read"@, read_ts: Some(ts), ..m })
            &&& !applies ==> after == m
        }),
{
}

/// A failure is the end of an outbound message.
pub proof fn a_failure_is_final(m: MsgView, id: Seq<char>, step: Step)
    requires
        m.id == id,
        m.direction == "out"@,
    ensures
        stepped(m, id, Step::Failed) == (MsgView { delivery_state: "failed"@, ..m }),
        stepped(stepped(m, id, Step::Failed), id, step) == stepped(m, id, Step::Failed),
{
    reveal_strlit("failed");
    reveal_strlit("pending");
    reveal_strlit("none");
    assert("failed"@.len() == 6 && "pending"@.len() == 7 && "none"@.len() == 4);
}

/// A step leaves every other message of the store as it is, and how many there
/// are.
pub proof fn a_step_touches_one_message(ms: Seq<MsgView>, id: Seq<char>, step: Step, k: int)
    requires
        0 <= k < ms.len(),
    ensures
        all_stepped(ms, id, step).len() == ms.len(),
        ms[k].id != id || ms[k].direction != "out"@ ==> all_stepped(ms, id, step)[k] == ms[k],
        all_stepped(ms, id, step)[k] == stepped(ms[k], id, step),
{
}

/// Queueing puts a message behind those that wait already, as it is, and changes
/// nothing else of the store; one whose id waits already is not queued again.
pub proof fn queueing_is_first_come_first_served(s: StoreView, o: OutboundView)
    requires
        s.last_outbound < i64::MAX,
    ensures
        is_queued(queued(s, o).outbox, o.id),
        is_queued(s.outbox, o.id) ==> queued(s, o) == s,
        !is_queued(s.outbox, o.id) ==> queued(s, o).outbox == s.outbox.push(o),
        queued(s, o).messages == s.messages,
        queued(s, o).cursors == s.cursors,
        queued(s, o).rejections == s.rejections,
        queued(s, o).presence == s.presence,
        queued(s, o).seen_grants == s.seen_grants,
{
    if !is_queued(s.outbox, o.id) {
        assert(queued(s, o).outbox[s.outbox.len() as int].id == o.id);
    }
}

/// Handing a message off takes it and no other out of the outbox, and keeps the
/// order of those that wait.
pub proof fn a_hand_off_takes_one(out: Seq<OutboundView>, id: Seq<char>, o: OutboundView)
    ensures
        without(out, id).contains(o) <==> out.contains(o) && o.id != id,
        out.len() > 0 && out[0].id != id ==> without(out, id).len() > 0 && without(out, id)[0]
            == out[0],
    decreases out.len(),
{
    if out.len() > 0 {
        let front = out.drop_last();
        a_hand_off_takes_one(front, id, o);
        let w = without(front, id);
        let all = without(out, id);
        assert(out[out.len() - 1] == out.last());
        if out.contains(o) {
            let k = choose|k: int| 0 <= k < out.len() && out[k] == o;
            if k < front.len() {
                assert(front[k] == o);
            }
        }
        if front.contains(o) {
            let k = choose|k: int| 0 <= k < front.len() && front[k] == o;
            assert(out[k] == o);
        }
        if w.contains(o) {
            let k = choose|k: int| 0 <= k < w.len() && w[k] == o;
            assert(all[k] == o);
        }
        if all.contains(o) {
            let k = choose|k: int| 0 <= k < all.len() && all[k] == o;
            if k < w.len() {
                assert(w[k] == o);
            }
        }
        if out.last().id != id {
            assert(all[all.len() - 1] == out.last());
        }
        if out[0].id != id && front.len() > 0 {
            assert(front[0] == out[0]);
            assert(all[0] == w[0]);
        }
    }
}

/// A recorded rejection says why, of whom, where and when, under the next number,
/// and changes nothing else of the store.
pub proof fn a_rejection_is_recorded(
    s: StoreView,
    code: Seq<char>,
    sender: Option<Seq<char>>,
    topic: Seq<char>,
    detail: Seq<char>,
    now: Seq<char>,
)
    requires
        s.last_rejection < i64::MAX,
    ensures
        ({
            let after = with_rejection(s, code, sender, topic, detail, now);
            let r = after.rejections.last();
            &&& after.rejections.len() == s.rejections.len() + 1
            &&& after.rejections.drop_last() == s.rejections
            &&& r.seq == s.last_rejection + 1
            &&& after.last_rejection == s.last_rejection + 1
            &&& r.at == now
            &&& r.reason == code
            &&& r.claimed_sender == sender
            &&& r.topic == Some(topic)
            &&& r.detail == detail
            &&& after.messages == s.messages
            &&& after.last_seq == s.last_seq
            &&& after.cursors == s.cursors
            &&& after.outbox == s.outbox
            &&& after.last_outbound == s.last_outbound
            &&& after.presence == s.presence
            &&& after.seen_grants == s.seen_grants
        }),
{
    let after = with_rejection(s, code, sender, topic, detail, now);
    assert(after.rejections.drop_last() =~= s.rejections);
}

/// A presence beacon replaces one with the same number or a lower one, and not one
/// with a higher number; it touches no other agent and nothing else of the store.
pub proof fn a_beacon_replaces_older_ones(s: StoreView, p: PresenceView, other: Seq<char>)
    requires
        other != p.agent,
    ensures
        ({
            let after = with_presence(s, p);
            &&& after.presence.contains_key(p.agent)
            &&& !s.presence.contains_key(p.agent) || s.presence[p.agent].seq <= p.seq
                ==> after.presence[p.agent] == p
            &&& s.presence.contains_key(p.agent) && s.presence[p.agent].seq > p.seq
                ==> after.presence[p.agent] == s.presence[p.agent]
            &&& after.presence.contains_key(other) == s.presence.contains_key(other)
            &&& s.presence.contains_key(other) ==> after.presence[other] == s.presence[other]
            &&& after.messages == s.messages
            &&& after.outbox == s.outbox
            &&& after.cursors == s.cursors
            &&& after.rejections == s.rejections
            &&& after.seen_grants == s.seen_grants
        }),
{
}

/// The bytes of all bodies are those of each added up.
pub proof fn bytes_add_up(ms: Seq<MsgView>, m: MsgView)
    ensures
        total_bytes(Seq::<MsgView>::empty()) == 0,
        total_bytes(ms.push(m)) == total_bytes(ms) + encode_utf8(m.body).len(),
{
    assert(ms.push(m).drop_last() =~= ms);
}

/// What the bounds leave: no more messages than allowed and no more bytes, or only
/// outbound messages whose delivery is not settled. Whatever went could go, and
/// everything younger than a message that could have gone and stayed, stayed.
pub proof fn bounds_leave_what_is_allowed(
    ms: Seq<MsgView>,
    max_messages: u64,
    max_bytes: u64,
    last: i64,
    k: int,
)
    requires
        messages_wf(ms, last),
        0 <= k < ms.len(),
    ensures
        ({
            let kept = bounded(ms, max_messages, max_bytes);
            let unsettled = |m: MsgView|
                m.direction == "out"@ && m.delivery_state != "delivered"@ && m.delivery_state
                    != "read"@ && m.delivery_state != "failed"@ && m.delivery_state != "none"@;
            &&& (kept.len() <= max_messages && total_bytes(kept) <= max_bytes) || (forall|i: int|
                0 <= i < kept.len() ==> unsettled(#[trigger] kept[i]))
            &&& unsettled(ms[k]) ==> kept.contains(ms[k])
            &&& forall|j: int|
                k < j < ms.len() && kept.contains(ms[k]) && !unsettled(ms[k]) ==> kept.contains(
                    #[trigger] ms[j],
                )
            &&& forall|i: int| 0 <= i < kept.len() ==> ms.contains(#[trigger] kept[i])
        }),
{
    let kept = bounded(ms, max_messages, max_bytes);
    bounds_evict_the_oldest(ms, max_messages, max_bytes, last);
    assert(kept.contains(ms[k]) ==> kept.contains(ms[k]));
    assert forall|i: int| 0 <= i < kept.len() implies ms.contains(#[trigger] kept[i]) by {
        assert(kept.contains(kept[i]));
    }
    if !is_within(kept, max_messages, max_bytes) {
        assert forall|i: int| 0 <= i < kept.len() implies awaits_receipt(#[trigger] kept[i]) by {}
    }
}

proof fn lemma_first_that_goes(ms: Seq<MsgView>, j: int) -> (k: int)
    requires
        0 <= j <= ms.len(),
        all_await(ms.take(j)),
    ensures
        j <= k <= ms.len(),
        all_await(ms.take(k)),
        k < ms.len() ==> !awaits_receipt(ms[k]),
    decreases ms.len() - j,
{
    if j < ms.len() && awaits_receipt(ms[j]) {
        assert(ms.take(j + 1) =~= ms.take(j).push(ms[j]));
        assert forall|i: int| 0 <= i < j + 1 implies awaits_receipt(#[trigger] ms.take(j + 1)[i]) by {
            if i < j {
                assert(ms.take(j)[i] == ms[i]);
            }
        }
        lemma_first_that_goes(ms, j + 1)
    } else {
        j
    }
}

proof fn lemma_one_goes(ms: Seq<MsgView>, last: i64) -> (j: int)
    requires
        messages_wf(ms, last),
        evicted(ms, 1).len() < ms.len(),
    ensures
        0 <= j < ms.len(),
        !evicted(ms, 1).contains(ms[j]),
        evicted(ms, 1).len() + 1 == ms.len(),
        total_bytes(evicted(ms, 1)) + encode_utf8(ms[j].body).len() == total_bytes(ms),
{
    let next = evicted(ms, 1);
    assert(ms.take(0) =~= Seq::empty());
    let j = lemma_first_that_goes(ms, 0);
    let p = ms.take(j);
    let rest = ms.skip(j);
    assert(p + rest =~= ms);
    if j == ms.len() {
        assert(rest =~= Seq::empty());
        lemma_evicted_behind(p, rest, 1);
        assert(p + evicted(rest, 1) =~= ms);
    }
    lemma_one_evicted(p, rest);
    assert(rest[0] == ms[j]);
    if next.contains(ms[j]) {
        let n = choose|n: int| 0 <= n < next.len() && next[n] == ms[j];
        if n < j {
            assert(next[n] == ms[n]);
        } else {
            assert(next[n] == ms[n + 1]);
        }
    }
    j
}

/// Nothing goes in vain: where a message went, there is one that went and whose
/// return would break a bound again.
#[verifier::rlimit(40)]
pub proof fn nothing_is_evicted_in_vain(
    ms: Seq<MsgView>,
    max_messages: u64,
    max_bytes: u64,
    last: i64,
    k: int,
)
    requires
        messages_wf(ms, last),
        0 <= k < ms.len(),
        !bounded(ms, max_messages, max_bytes).contains(ms[k]),
    ensures
        ({
            let kept = bounded(ms, max_messages, max_bytes);
            exists|j: int|
                0 <= j < ms.len() && !kept.contains(#[trigger] ms[j]) && (kept.len() + 1
                    > max_messages || total_bytes(kept) + encode_utf8(ms[j].body).len()
                    > max_bytes)
        }),
    decreases ms.len(),
{
    let kept = bounded(ms, max_messages, max_bytes);
    let next = evicted(ms, 1);
    assert(ms.contains(ms[k]));
    let j = lemma_one_goes(ms, last);
    lemma_evicted_wf(ms, 1, last);
    assert(kept == bounded(next, max_messages, max_bytes));
    if is_within(next, max_messages, max_bytes) || evicted(next, 1).len() >= next.len() {
        assert(kept == next);
        assert(!kept.contains(ms[j]));
    } else {
        let n = lemma_one_goes(next, last);
        let after = evicted(next, 1);
        lemma_evicted_wf(next, 1, last);
        bounds_evict_the_oldest(after, max_messages, max_bytes, last);
        assert(kept == bounded(after, max_messages, max_bytes));
        assert(!kept.contains(next[n]));
        nothing_is_evicted_in_vain(next, max_messages, max_bytes, last, n);
        let l = choose|l: int|
            0 <= l < next.len() && !kept.contains(#[trigger] next[l]) && (kept.len() + 1
                > max_messages || total_bytes(kept) + encode_utf8(next[l].body).len() > max_bytes);
        assert(ms.contains(next[l]));
        let i = choose|i: int| 0 <= i < ms.len() && ms[i] == next[l];
        assert(!kept.contains(ms[i]));
    }
}

/// What logging returns: the number under which the message then stands, nothing
/// for a known id, and an error only where the numbers are used up.
pub proof fn a_logged_message_stands_under_its_number(
    s: StoreView,
    i: InnerView,
    topic: Seq<char>,
    direction: Seq<char>,
    state: Seq<char>,
)
    ensures
        ({
            let r = logged_seq(s, i.id);
            let after = logged(s, i, topic, direction, state);
            &&& r matches Ok(Some(n)) ==> after.messages.len() == s.messages.len() + 1
                && after.messages.last().seq == n && after.messages.last().id == i.id && n
                == s.last_seq + 1
            &&& r == Ok::<Option<i64>, ErrorView>(None) <==> has_id(s.messages, i.id)
            &&& r is Err <==> !has_id(s.messages, i.id) && s.last_seq == i64::MAX
            &&& !(r matches Ok(Some(_))) ==> after == s
        }),
{
}

/// A new store holds nothing, and what holds of every store holds of it.
pub proof fn a_new_store_is_empty(consumer: Seq<char>, id: Seq<char>)
    ensures
        ({
            let s = empty_store();
            &&& s.messages.len() == 0 && s.outbox.len() == 0 && s.rejections.len() == 0
            &&& s.last_seq == 0 && s.last_outbound == 0 && s.last_rejection == 0
            &&& !s.cursors.contains_key(consumer) && !s.presence.contains_key(id)
            &&& !s.seen_grants.contains(id)
            &&& store_wf(s)
        }),
{
}

/// The model of a stored message holds every field of it.
pub proof fn a_stored_message_is_seen_as_it_is(v: StoredMsg)
    ensures
        v@.seq == v.seq,
        v@.id == v.id@,
        v@.direction == v.direction@,
        v@.from == v.from@,
        v@.to == v.to@,
        v@.topic == v.topic@,
        v@.ts == v.ts@,
        v@.ctype == v.ctype@,
        v.in_reply_to matches Some(x) ==> v@.in_reply_to == Some(x@),
        v.in_reply_to is None ==> v@.in_reply_to is None,
        v@.body == v.body@,
        v@.kind == v.kind@,
        v.correlation_id matches Some(x) ==> v@.correlation_id == Some(x@),
        v.correlation_id is None ==> v@.correlation_id is None,
        v.supersedes matches Some(x) ==> v@.supersedes == Some(x@),
        v.supersedes is None ==> v@.supersedes is None,
        v@.encrypted == v.encrypted,
        v@.delivery_state == v.delivery_state@,
        v.broker_ack_ts matches Some(x) ==> v@.broker_ack_ts == Some(x@),
        v.broker_ack_ts is None ==> v@.broker_ack_ts is None,
        v.delivered_ts matches Some(x) ==> v@.delivered_ts == Some(x@),
        v.delivered_ts is None ==> v@.delivered_ts is None,
        v.read_ts matches Some(x) ==> v@.read_ts == Some(x@),
        v.read_ts is None ==> v@.read_ts is None,
{
}

} // verus!
