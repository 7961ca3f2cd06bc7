//! Decisions of the resident daemon: what an inbound payload changes, what a
//! request is answered, and what is queued for the broker.
//!
//! The daemon's state is its identity, its message store and the peers that
//! await confirmation. Sockets, the broker session, files and the clock belong
//! to its user, who hands in what they give and carries out what is returned.

use vstd::prelude::*;
use vstd::string::*;
use vstd::utf8::*;

use crate::clock;
use crate::config;
use crate::config::{Config, ConfigView};
use crate::error;
use crate::error::{Error, ErrorView, RejectInfoView, RejectReason, RejectView};
use crate::grant;
use crate::identity;
use crate::identity::{Identity, IdentityView};
use crate::ipc;
use crate::ipc::{
    PairRow, ParamsView, PendingPairView, Request, RequestView, Response, ResponseView, SendParams,
    StatusInfo, StatusView,
};
use crate::message;
use crate::message::{BuildOpts, Fresh, FreshView, OptsView, Policy};
use crate::names;
use crate::names::NameMap;
use crate::pair;
use crate::pair::HelloView;
use crate::presence;
use crate::presence::{BeaconView, PresenceBeacon};
use crate::store;
use crate::store::{MsgView, Outbound, OutboundView, PresenceView, Step, Store, StoreView, StoredMsg};
use crate::text;
use crate::token;
use crate::trust;
use crate::trust::{KnownAgentView, TrustStore, TrustView};
use crate::wire;
use crate::wire::{Inner, InnerView, MsgKind, Receipt, ReceiptStatus, ReceiptView, Wrapper};

verus! {

/// Version that the handshake reports.
pub const VERSION: &'static str = "0.2.2";

/// A peer seen on a pairing topic, awaiting confirmation.
#[derive(Debug, PartialEq, Eq)]
pub struct PendingPair {
    pub name: String,
    pub public_key: Vec<u8>,
    pub kem_public_key: Option<Vec<u8>>,
    /// The short authentication string that both operators compare.
    pub sas: String,
    pub first_seen: String,
}

/// The model of a [`PendingPair`].
pub struct PendingView {
    pub name: Seq<char>,
    pub public_key: Seq<u8>,
    pub kem_public_key: Option<Seq<u8>>,
    pub sas: Seq<char>,
    pub first_seen: Seq<char>,
}

impl View for PendingPair {
    type V = PendingView;

    open spec fn view(&self) -> PendingView {
        PendingView {
            name: self.name@,
            public_key: self.public_key@,
            kem_public_key: token::opt_bytes(self.kem_public_key),
            sas: self.sas@,
            first_seen: self.first_seen@,
        }
    }
}

/// What the clock and chance contribute to one step of the daemon.
pub struct Moment {
    /// The clock, in nanoseconds since 1970.
    pub now: i128,
    /// The clock as the store writes it.
    pub stamp: String,
    /// What a message built in this step is made with.
    pub fresh: Fresh,
    /// What the read receipts of this step are made with, one each.
    pub receipts: Vec<Fresh>,
}

/// The model of a [`Moment`].
pub struct MomentView {
    pub now: i128,
    pub stamp: Seq<char>,
    pub fresh: FreshView,
    pub receipts: Seq<FreshView>,
}

/// The models of a list of values.
pub open spec fn fresh_views(v: Seq<Fresh>) -> Seq<FreshView> {
    Seq::new(v.len(), |i: int| v[i]@)
}

impl View for Moment {
    type V = MomentView;

    open spec fn view(&self) -> MomentView {
        MomentView {
            now: self.now,
            stamp: self.stamp@,
            fresh: self.fresh@,
            receipts: fresh_views(self.receipts@),
        }
    }
}

/// A moment with `stamp` as the clock of the store, all of whose values are as a
/// message is made with.
pub open spec fn is_moment(m: MomentView, stamp: Seq<char>) -> bool {
    &&& clock::in_time_range(m.now)
    &&& m.stamp == stamp
    &&& message::is_drawn(m.fresh)
    &&& forall|i: int| 0 <= i < m.receipts.len() ==> message::is_drawn(#[trigger] m.receipts[i])
}

/// The present moment, with `stamp` as the clock of the store and values for `n`
/// receipts.
fn moment(stamp: &str, n: usize) -> (m: Moment)
    ensures
        is_moment(m@, stamp@),
        m@.receipts.len() == n,
{
    let mut receipts: Vec<Fresh> = Vec::new();
    let mut i: usize = 0;
    while i < n
        invariant
            i <= n,
            receipts@.len() == i,
            forall|k: int| 0 <= k < i ==> message::is_drawn((#[trigger] receipts@[k])@),
        decreases n - i,
    {
        receipts.push(message::draw());
        i = i + 1;
    }
    let m = Moment {
        now: clock::now_nanos(),
        stamp: text::own(stamp),
        fresh: message::draw(),
        receipts,
    };
    assert forall|k: int| 0 <= k < m@.receipts.len() implies message::is_drawn(
        #[trigger] m@.receipts[k],
    ) by {
        assert(m@.receipts[k] == m.receipts@[k]@);
    }
    m
}

/// The model of a [`Daemon`].
pub struct DaemonView {
    pub identity: IdentityView,
    pub store: StoreView,
    /// The peers that await confirmation, by name.
    pub pending: Map<Seq<char>, PendingView>,
}

/// The daemon's state.
pub struct Daemon {
    identity: Identity,
    store: Store,
    pending: NameMap<PendingPair>,
}

spec fn pending_views(m: Map<Seq<char>, PendingPair>) -> Map<Seq<char>, PendingView> {
    Map::new(|k: Seq<char>| m.contains_key(k), |k: Seq<char>| m[k]@)
}

impl View for Daemon {
    type V = DaemonView;

    closed spec fn view(&self) -> DaemonView {
        DaemonView {
            identity: self.identity@,
            store: self.store@,
            pending: pending_views(self.pending@),
        }
    }
}

/// Every pending peer stands under its own name.
pub open spec fn pending_wf(m: Map<Seq<char>, PendingView>) -> bool {
    forall|k: Seq<char>| #[trigger] m.contains_key(k) ==> m[k].name == k
}

/// What holds of every daemon.
pub open spec fn daemon_wf(d: DaemonView) -> bool {
    &&& identity::is_whole(d.identity)
    &&& store::store_wf(d.store)
    &&& pending_wf(d.pending)
}

// ---------------------------------------------------------------------------
// What an inbound payload changes.
// ---------------------------------------------------------------------------

/// The daemon's own message came back from a shared topic.
pub open spec fn is_echo(raw: Seq<u8>, me: Seq<char>) -> bool {
    wire::wrapper_of(raw) matches Some(w) && message::claimed_sender(w) == Some(me)
}

/// The message in a payload, before any check.
pub open spec fn peeked(raw: Seq<u8>) -> Option<InnerView> {
    match wire::wrapper_of(raw) {
        None => None,
        Some(w) => match wire::unbase64(w.msg) {
            None => None,
            Some(b) => wire::inner_of(b),
        },
    }
}

/// The daemon with a rejection recorded.
pub open spec fn refused(
    d: DaemonView,
    reason: RejectView,
    sender: Option<Seq<char>>,
    topic: Seq<char>,
    detail: Seq<char>,
    stamp: Seq<char>,
) -> DaemonView {
    DaemonView {
        store: store::with_rejection(
            d.store,
            error::reject_code(reason),
            sender,
            topic,
            detail,
            stamp,
        ),
        ..d
    }
}

/// The pending entry of a hello.
pub open spec fn pending_of(me: IdentityView, h: HelloView, ts: Seq<char>) -> PendingView {
    PendingView {
        name: h.name,
        public_key: h.public_key,
        kem_public_key: h.kem_public_key,
        sas: pair::sas_of(me.public_key, h.public_key),
        first_seen: ts,
    }
}

/// The daemon after a pairing hello: a valid one makes its sender pending, unless
/// the name is pending already.
pub open spec fn greeted(
    d: DaemonView,
    raw: Seq<u8>,
    peek: InnerView,
    topic: Seq<char>,
    stamp: Seq<char>,
) -> DaemonView {
    match message::hello_verdict(raw) {
        Ok(h) => if d.pending.contains_key(h.name) {
            d
        } else {
            DaemonView {
                pending: d.pending.insert(h.name, pending_of(d.identity, h, peek.ts)),
                ..d
            }
        },
        Err(e) => refused(d, e, Some(peek.from), topic, "pairing hello"@, stamp),
    }
}

/// The store after a presence beacon.
pub open spec fn noticed(s: StoreView, i: InnerView) -> StoreView {
    match presence::beacon_of(i.body) {
        None => s,
        Some(b) => store::with_presence(
            s,
            PresenceView {
                agent: i.from,
                state: Some(b.state),
                source: Some(b.source),
                ttl_secs: Some(b.ttl_secs),
                detail: b.detail,
                seq: b.seq,
                last_seen: i.ts,
            },
        ),
    }
}

/// The store after a receipt.
pub open spec fn receipted(s: StoreView, i: InnerView) -> StoreView {
    match i.receipt {
        None => s,
        Some(r) => StoreView {
            messages: store::all_stepped(
                s.messages,
                r.ref_id,
                match r.status {
                    ReceiptStatus::Delivered => Step::Delivered(i.ts),
                    ReceiptStatus::Read => Step::Read(i.ts),
                },
            ),
            ..s
        },
    }
}

/// The outbox entry of a message.
pub open spec fn outbound_of(
    id: IdentityView,
    i: InnerView,
    topic: Seq<char>,
    unsigned: bool,
) -> OutboundView {
    OutboundView {
        id: i.id,
        topic,
        payload: wire::wrapper_bytes(message::wrapped(id, i, unsigned)),
        qos: 1,
        retain: false,
    }
}

/// The message of an automatic receipt.
pub open spec fn receipt_opts(to: Seq<char>, ref_id: Seq<char>, status: ReceiptStatus) -> OptsView {
    OptsView {
        kind: MsgKind::Receipt,
        receipt: Some(ReceiptView { ref_id, status }),
        ..message::plain_opts(to, wire::CTYPE_RECEIPT@, ""@)
    }
}

/// The store with a receipt logged and queued.
pub open spec fn with_receipt(
    s: StoreView,
    id: IdentityView,
    to: Seq<char>,
    ref_id: Seq<char>,
    status: ReceiptStatus,
    topic: Seq<char>,
    f: FreshView,
) -> StoreView {
    let i = message::plain_inner(id, receipt_opts(to, ref_id, status), f);
    store::queued(
        store::logged(s, i, topic, "out"@, "pending"@),
        outbound_of(id, i, topic, false),
    )
}

/// The store with an accepted message, kept within its bounds.
pub open spec fn kept(s: StoreView, i: InnerView, topic: Seq<char>, cfg: ConfigView) -> StoreView {
    let s1 = store::logged(s, i, topic, "in"@, "none"@);
    StoreView { messages: store::bounded(s1.messages, cfg.max_messages, cfg.max_bytes), ..s1 }
}

/// The daemon with an accepted message stored, and the message to push to
/// subscribers. A message with a known id changes nothing. A direct message is
/// answered by a delivery receipt where these are on.
pub open spec fn stored(
    d: DaemonView,
    i: InnerView,
    topic: Seq<char>,
    cfg: ConfigView,
    m: MomentView,
) -> (DaemonView, Option<MsgView>) {
    match store::logged_seq(d.store, i.id) {
        Ok(Some(seq)) => {
            let s = kept(d.store, i, topic, cfg);
            let s2 = if cfg.auto_receipts && i.to == d.identity.name && i.to != wire::BROADCAST@ {
                with_receipt(
                    s,
                    d.identity,
                    i.from,
                    i.id,
                    ReceiptStatus::Delivered,
                    topic,
                    m.fresh,
                )
            } else {
                s
            };
            (DaemonView { store: s2, ..d }, store::with_seq(s.messages, seq))
        },
        _ => (d, None),
    }
}

/// The daemon after a message that passed verification.
pub open spec fn accepted(
    d: DaemonView,
    i: InnerView,
    topic: Seq<char>,
    cfg: ConfigView,
    t: TrustView,
    m: MomentView,
) -> (DaemonView, Option<MsgView>) {
    if i.ctype == wire::CTYPE_PRESENCE@ {
        (DaemonView { store: noticed(d.store, i), ..d }, None)
    } else if i.kind == MsgKind::Receipt || i.ctype == wire::CTYPE_RECEIPT@ {
        (DaemonView { store: receipted(d.store, i), ..d }, None)
    } else if cfg.require_encryption && i.enc is None {
        (refused(d, RejectView::EncryptionRequired, Some(i.from), topic, ""@, m.stamp), None)
    } else {
        match used_claim(i, t, m.now) {
            Some(id) => if d.store.seen_grants.contains(id) {
                (
                    refused(d, RejectView::ReplayedGrant, Some(i.from), topic, ""@, m.stamp),
                    None,
                )
            } else {
                stored(
                    DaemonView { store: store::used_grant(d.store, id), ..d },
                    i,
                    topic,
                    cfg,
                    m,
                )
            },
            None => stored(d, i, topic, cfg, m),
        }
    }
}

/// The id of the valid grant that a message carries.
pub open spec fn used_claim(i: InnerView, t: TrustView, now: i128) -> Option<Seq<char>> {
    match i.grant {
        None => None,
        Some(g) => match grant::grant_verdict(now, g, t) {
            Ok(c) => Some(c.id),
            Err(_) => None,
        },
    }
}

/// What the configuration accepts.
pub open spec fn policy_of(cfg: ConfigView) -> Policy {
    Policy {
        freshness_secs: cfg.freshness_secs,
        max_payload: cfg.max_payload,
        allow_unsigned: cfg.allow_unsigned,
        accept_v1: cfg.accept_v1,
    }
}

/// The daemon after an inbound payload, and the message to push to subscribers.
///
/// The daemon's own messages are passed over. A pairing hello is self-signed and
/// does not go through the trust store. Everything else is verified: a presence
/// beacon and a receipt are applied and not stored, cleartext is refused where
/// encryption is required, a grant is used once, and what is refused is recorded.
pub open spec fn ingested(
    d: DaemonView,
    topic: Seq<char>,
    raw: Seq<u8>,
    cfg: ConfigView,
    t: TrustView,
    m: MomentView,
) -> (DaemonView, Option<MsgView>) {
    if is_echo(raw, d.identity.name) {
        (d, None)
    } else if peeked(raw) matches Some(p) && p.ctype == wire::CTYPE_PAIR@ {
        (greeted(d, raw, peeked(raw)->0, topic, m.stamp), None)
    } else {
        match message::verdict(m.now, raw, d.identity, t, policy_of(cfg)) {
            Ok(i) => accepted(d, i, topic, cfg, t, m),
            Err(info) => (
                refused(d, info.reason, info.claimed_sender, topic, ""@, m.stamp),
                None,
            ),
        }
    }
}

// ---------------------------------------------------------------------------
// What a request is answered.
// ---------------------------------------------------------------------------

/// The kind with a name; anything unknown is a plain message.
pub open spec fn kind_of(s: Seq<char>) -> MsgKind {
    match wire::kind_named(s) {
        Some(k) => k,
        None => MsgKind::Message,
    }
}

/// The topic to publish on: a configured one that was asked for, else the first.
pub open spec fn chosen_topic(cfg: ConfigView, topic: Option<Seq<char>>) -> Result<
    Seq<char>,
    Seq<char>,
> {
    match topic {
        Some(t) => if cfg.topics.contains(t) {
            Ok(t)
        } else {
            Err("topic '"@ + t + "' is not a configured chat topic"@)
        },
        None => if cfg.topics.len() > 0 {
            Ok(cfg.topics[0])
        } else {
            Err("no chat topic configured"@)
        },
    }
}

/// What is built for a send request, and on which topic it goes out, or why the
/// request is refused.
pub open spec fn send_plan(cfg: ConfigView, t: TrustView, p: ParamsView) -> Result<
    (Seq<char>, OptsView),
    Seq<char>,
> {
    match chosen_topic(cfg, p.topic) {
        Err(m) => Err(m),
        Ok(topic) => if encode_utf8(p.body).len() > cfg.max_payload {
            Err("payload exceeds configured maximum"@)
        } else if cfg.require_encryption && !p.encrypt {
            Err(error::reject_text(RejectView::EncryptionRequired))
        } else {
            match attached_grant(p) {
                Err(e) => Err(error::error_text(e)),
                Ok(g) => if p.encrypt && trust::trusted_kem_key(t, p.to) is None {
                    Err(error::reject_text(RejectView::UnknownRecipientKey))
                } else {
                    Ok(
                        (
                            topic,
                            OptsView {
                                kind: kind_of(p.kind),
                                in_reply_to: p.in_reply_to,
                                correlation_id: p.correlation_id,
                                supersedes: p.supersedes,
                                grant: g,
                                encrypt_to: if p.encrypt {
                                    trust::trusted_kem_key(t, p.to)
                                } else {
                                    None
                                },
                                unsigned: p.unsigned,
                                ..message::plain_opts(p.to, p.ctype, p.body)
                            },
                        ),
                    )
                },
            }
        },
    }
}

/// The grant that a send request attaches.
pub open spec fn attached_grant(p: ParamsView) -> Result<Option<wire::GrantView>, ErrorView> {
    match p.grant {
        None => Ok(None),
        Some(tok) => match grant::grant_token_of(tok) {
            Ok(g) => Ok(Some(g)),
            Err(e) => Err(e),
        },
    }
}

/// The daemon after a message is logged and queued, and the entry to publish, or
/// why it could not be queued.
pub open spec fn posted(d: DaemonView, i: InnerView, topic: Seq<char>, unsigned: bool) -> (
    DaemonView,
    OutcomeView,
) {
    let s = store::logged(d.store, i, topic, "out"@, "pending"@);
    let ob = outbound_of(d.identity, i, topic, unsigned);
    (
        DaemonView { store: store::queued(s, ob), ..d },
        if !store::is_queued(s.outbox, ob.id) && s.last_outbound == i64::MAX {
            failure(error::error_text(ErrorView::Store("database or disk is full"@)))
        } else {
            OutcomeView::Publish(ob)
        },
    )
}

/// An error reply.
pub open spec fn failure(message: Seq<char>) -> OutcomeView {
    OutcomeView::Reply(ResponseView::Error { message })
}

/// The daemon after a send request, and what is done about it.
pub open spec fn sent(
    d: DaemonView,
    cfg: ConfigView,
    t: TrustView,
    p: ParamsView,
    f: FreshView,
) -> (DaemonView, OutcomeView) {
    match send_plan(cfg, t, p) {
        Err(m) => (d, failure(m)),
        Ok((topic, o)) => match message::inner_built(d.identity, o, f) {
            Err(e) => (d, failure(error::reject_text(e))),
            Ok(i) => posted(d, i, topic, o.unsigned),
        },
    }
}

/// A reply to a stored message goes to its sender.
pub open spec fn reply_params(to: Seq<char>, id: Seq<char>, ctype: Seq<char>, body: Seq<char>)
    -> ParamsView {
    ParamsView {
        to,
        ctype,
        body,
        in_reply_to: Some(id),
        topic: None,
        kind: ""@,
        correlation_id: None,
        supersedes: None,
        encrypt: false,
        grant: None,
        unsigned: false,
    }
}

/// The store with a presence beacon queued.
pub open spec fn with_beacon(
    s: StoreView,
    id: IdentityView,
    topic: Seq<char>,
    b: BeaconView,
    f: FreshView,
) -> StoreView {
    let o = message::plain_opts(wire::BROADCAST@, wire::CTYPE_PRESENCE@, presence::beacon_text(b));
    store::queued(s, outbound_of(id, message::plain_inner(id, o, f), topic, false))
}

/// The messages that an acknowledgement up to `seq` is answered for: every direct
/// inbound message that it newly covers, or, where it is a repeated one, the
/// direct inbound message with that number. None where receipts are off.
pub open spec fn receipts_due(
    d: DaemonView,
    consumer: Seq<char>,
    seq: i64,
    cfg: ConfigView,
) -> Seq<MsgView> {
    if !cfg.auto_receipts || d.identity.name == wire::BROADCAST@ {
        Seq::empty()
    } else {
        store::picked(
            d.store.messages,
            store::addressed_to(
                d.identity.name,
                store::covered_after(d.store, consumer, seq),
                seq,
            ),
        )
    }
}

/// The store with a read receipt logged and queued for each of `ms`.
pub open spec fn with_read_receipts(
    s: StoreView,
    id: IdentityView,
    ms: Seq<MsgView>,
    fs: Seq<FreshView>,
) -> StoreView
    decreases ms.len(),
{
    if ms.len() == 0 {
        s
    } else {
        let x = ms.last();
        with_receipt(
            with_read_receipts(s, id, ms.drop_last(), fs),
            id,
            x.from,
            x.id,
            ReceiptStatus::Read,
            x.topic,
            fs[ms.len() - 1],
        )
    }
}

/// The daemon with everything up to a sequence number acknowledged for a
/// consumer, and answered by read receipts.
pub open spec fn acknowledged(
    d: DaemonView,
    consumer: Seq<char>,
    seq: i64,
    cfg: ConfigView,
    m: MomentView,
) -> DaemonView {
    DaemonView {
        store: with_read_receipts(
            store::acked(d.store, consumer, seq, m.stamp),
            d.identity,
            receipts_due(d, consumer, seq, cfg),
            m.receipts,
        ),
        ..d
    }
}

/// How many read receipts a request is answered with.
pub open spec fn receipts_needed(d: DaemonView, req: RequestView, cfg: ConfigView) -> nat {
    match req {
        RequestView::Ack { consumer, seq } => receipts_due(d, consumer, seq, cfg).len(),
        _ => 0,
    }
}

/// A consumer is far behind with more unread messages than this.
pub const FAR_BEHIND: usize = 1000;

/// The remark on a consumer with so many unread messages.
pub open spec fn behind_text(consumer: Seq<char>, unread: nat) -> Option<Seq<char>> {
    if unread > FAR_BEHIND {
        Some("consumer '"@ + consumer + "' is "@ + text::decimal(unread) + " messages behind"@)
    } else {
        None
    }
}

/// What the daemon reports of itself.
pub open spec fn is_status(
    s: StatusView,
    d: DaemonView,
    cfg: ConfigView,
    t: TrustView,
    connected: bool,
) -> bool {
    &&& s.identity == Some(d.identity.name)
    &&& s.fingerprint == Some(wire::fingerprint_of(d.identity.public_key))
    &&& s.broker == config::endpoint_of(cfg)
    &&& s.connected == connected
    &&& s.topics == cfg.topics
    &&& s.stored == d.store.messages.len()
    &&& s.rejected == d.store.rejections.len()
    &&& s.pending_out == d.store.outbox.len()
    &&& exists|list: Seq<KnownAgentView>|
        #![trigger trust::is_listing(list, t.agents, true)]
        trust::is_listing(list, t.agents, true) && s.known_agents == list.len()
    &&& s.ipc_proto == ipc::IPC_PROTO_VERSION
    &&& store::is_presence_list(s.presence, d.store)
    &&& s.allow_unsigned == cfg.allow_unsigned
    &&& s.accept_v1 == cfg.accept_v1
    &&& s.require_encryption == cfg.require_encryption
    &&& s.auto_receipts == cfg.auto_receipts
}

/// A pending peer as it is shown.
pub open spec fn pair_row(p: PendingView) -> PairRow {
    PairRow {
        name: p.name,
        fingerprint: wire::fingerprint_of(p.public_key),
        sas: p.sas,
        kem: p.kem_public_key is Some,
    }
}

/// `rows` shows every pending peer, in the order of their names.
pub open spec fn is_pair_list(rows: Seq<PairRow>, d: DaemonView) -> bool {
    &&& names::lists(Seq::new(rows.len(), |i: int| rows[i].name), d.pending)
    &&& forall|i: int|
        0 <= i < rows.len() ==> #[trigger] rows[i] == pair_row(d.pending[rows[i].name])
}

/// What is done about a request.
#[derive(Debug, PartialEq, Eq)]
pub enum Outcome {
    /// The answer.
    Reply(Response),
    /// Publish the entry where the session is up, then ask
    /// [`Daemon::published`] for the answer.
    Publish(Outbound),
    /// Publish the entry where the session is up; the answer is
    /// [`Response::Done`] either way.
    Announce(Outbound),
    /// Connect the broker session; the answer is [`Response::Done`] or the error.
    Connect,
    /// Disconnect the broker session; the answer is [`Response::Done`].
    Disconnect,
    /// Let [`Daemon::confirm`] add the peer to the trust store and keep that
    /// store, then ask [`Daemon::confirmed`] for the answer.
    Confirm(String),
}

/// The model of an [`Outcome`].
pub enum OutcomeView {
    Reply(ResponseView),
    Publish(OutboundView),
    Announce(OutboundView),
    Connect,
    Disconnect,
    Confirm(Seq<char>),
}

impl View for Outcome {
    type V = OutcomeView;

    open spec fn view(&self) -> OutcomeView {
        match *self {
            Outcome::Reply(r) => OutcomeView::Reply(r@),
            Outcome::Publish(o) => OutcomeView::Publish(o@),
            Outcome::Announce(o) => OutcomeView::Announce(o@),
            Outcome::Connect => OutcomeView::Connect,
            Outcome::Disconnect => OutcomeView::Disconnect,
            Outcome::Confirm(n) => OutcomeView::Confirm(n@),
        }
    }
}

/// A reply with messages.
pub open spec fn messages(msgs: Seq<MsgView>) -> OutcomeView {
    OutcomeView::Reply(ResponseView::Messages { msgs, consumer_warning: None })
}

/// The outcome is an error reply with this message.
pub open spec fn is_failure(out: OutcomeView, m: Seq<char>) -> bool {
    out == failure(m)
}

/// What the daemon can do, as the handshake lists it.
pub open spec fn capabilities() -> Seq<Seq<char>> {
    seq![
        "send"@,
        "subscribe"@,
        "transcript"@,
        "rejections"@,
        "consumers"@,
        "receipts"@,
        "reply"@,
        "presence"@,
        "grants"@,
        "encryption"@,
        "unsigned"@,
    ]
}

/// The messages that a receipts request shows.
pub open spec fn receipt_rows(
    s: StoreView,
    id: Option<Seq<char>>,
    limit: i64,
    state: Option<Seq<char>>,
) -> Seq<MsgView> {
    match id {
        Some(id) => match store::with_id(s.messages, id) {
            Some(m) => seq![m],
            None => Seq::empty(),
        },
        None => store::limited(
            store::picked(s.messages, store::sent_with(state)).reverse(),
            limit,
        ),
    }
}

/// The daemon after a pairing start, and what is done about it.
pub open spec fn announced(d: DaemonView, topic: Seq<char>, f: FreshView) -> (
    DaemonView,
    OutcomeView,
) {
    let i = message::plain_inner(d.identity, message::hello_opts(d.identity), f);
    let ob = outbound_of(d.identity, i, topic, false);
    (
        DaemonView { store: store::queued(d.store, ob), ..d },
        if !store::is_queued(d.store.outbox, ob.id) && d.store.last_outbound == i64::MAX {
            failure(error::error_text(ErrorView::Store("database or disk is full"@)))
        } else {
            OutcomeView::Announce(ob)
        },
    )
}

/// `out` is what is done about a request, and `d2` the daemon after it.
pub open spec fn handled(
    d: DaemonView,
    req: RequestView,
    cfg: ConfigView,
    t: TrustView,
    connected: bool,
    m: MomentView,
    out: OutcomeView,
    d2: DaemonView,
) -> bool {
    match req {
        RequestView::Ping => d2 == d && out == OutcomeView::Reply(ResponseView::Pong),
        RequestView::Status => d2 == d && (out matches OutcomeView::Reply(ResponseView::Status(s))
            && is_status(s, d, cfg, t, connected)),
        RequestView::Hello { ipc_proto } => d2 == d && out == OutcomeView::Reply(
            ResponseView::Hello {
                ipc_proto: ipc::IPC_PROTO_VERSION,
                version: VERSION@,
                caps: capabilities(),
            },
        ),
        RequestView::Send(p) => (d2, out) == sent(d, cfg, t, p, m.fresh),
        RequestView::Read { consumer, limit } => {
            let unread = store::picked(
                d.store.messages,
                store::unread_by(store::cursor_of(d.store, consumer)),
            );
            d2 == d && out == OutcomeView::Reply(
                ResponseView::Messages {
                    msgs: store::limited(unread, limit),
                    consumer_warning: behind_text(consumer, unread.len()),
                },
            )
        },
        RequestView::Ack { consumer, seq } => d2 == acknowledged(d, consumer, seq, cfg, m) && out
            == OutcomeView::Reply(ResponseView::Done),
        RequestView::Subscribe { consumer, ack } => d2 == d && is_failure(
            out,
            "subscribe must be served as a stream"@,
        ),
        RequestView::Browse { limit, from, to, all } => d2 == d && out == messages(
            if all {
                store::limited(
                    store::picked(d.store.messages, store::browsing(from, to, "all"@)),
                    limit,
                )
            } else {
                store::limited(
                    store::picked(d.store.messages, store::browsing(from, to, "in"@)).reverse(),
                    limit,
                )
            },
        ),
        RequestView::Transcript { limit, from, to, peer } => d2 == d && out == messages(
            store::limited(
                store::picked(d.store.messages, store::conversing(from, to, peer)),
                limit,
            ),
        ),
        RequestView::Rejections { limit, reason, since } => d2 == d && out == OutcomeView::Reply(
            ResponseView::Rejections(
                store::limited(
                    store::picked_rejections(d.store.rejections, reason, since).reverse(),
                    limit,
                ),
            ),
        ),
        RequestView::Consumers => d2 == d && (out matches OutcomeView::Reply(
            ResponseView::Consumers(rows),
        ) && store::is_consumer_list(rows, d.store)),
        RequestView::Receipts { id, limit, state } => d2 == d && out == messages(
            receipt_rows(d.store, id, limit, state),
        ),
        RequestView::Reply { msg_id, ctype, body } => match store::with_id(
            d.store.messages,
            msg_id,
        ) {
            None => d2 == d && is_failure(out, "no message with id "@ + msg_id),
            Some(x) => (d2, out) == sent(
                d,
                cfg,
                t,
                reply_params(x.from, msg_id, ctype, body),
                m.fresh,
            ),
        },
        RequestView::Presence { state, ttl_secs, detail } => match chosen_topic(cfg, None) {
            Err(e) => d2 == d && is_failure(out, e),
            Ok(topic) => d2 == (DaemonView {
                store: with_beacon(
                    d.store,
                    d.identity,
                    topic,
                    BeaconView {
                        state,
                        source: "agent"@,
                        ttl_secs: match ttl_secs {
                            Some(n) => n,
                            None => 0,
                        },
                        seq: clock::epoch_seconds(m.now) as i64,
                        detail,
                    },
                    m.fresh,
                ),
                ..d
            }) && out == OutcomeView::Reply(ResponseView::Done),
        },
        RequestView::PresenceList => d2 == d && (out matches OutcomeView::Reply(
            ResponseView::Presence(rows),
        ) && store::is_presence_list(rows, d.store)),
        RequestView::PairStart { topic } => match chosen_topic(cfg, topic) {
            Err(e) => d2 == d && is_failure(out, e),
            Ok(t) => (d2, out) == announced(d, t, m.fresh),
        },
        RequestView::PairList => d2 == d && (out matches OutcomeView::Reply(
            ResponseView::Pairs(rows),
        ) && is_pair_list(rows, d)),
        RequestView::PairConfirm { name } => d2 == d && if d.pending.contains_key(name) {
            out == OutcomeView::Confirm(name)
        } else {
            is_failure(out, "no pending pairing for '"@ + name + "'"@)
        },
        RequestView::Connect => d2 == d && out == OutcomeView::Connect,
        RequestView::Disconnect => d2 == d && out == OutcomeView::Disconnect,
        RequestView::Shutdown => d2 == d && out == OutcomeView::Reply(ResponseView::Done),
    }
}

// ---------------------------------------------------------------------------
// The daemon.
// ---------------------------------------------------------------------------

/// Map the name of a kind to the kind; anything unknown is a plain message.
pub fn parse_kind(s: &str) -> (r: MsgKind)
    ensures
        r == kind_of(s@),
{
    match wire::kind_by_name(s) {
        Some(k) => k,
        None => MsgKind::Message,
    }
}

/// What the daemon can do, as the handshake lists it.
pub fn caps() -> (r: Vec<String>)
    ensures
        text::texts(r@) == capabilities(),
{
    let mut v: Vec<String> = Vec::new();
    v.push(text::own("send"));
    v.push(text::own("subscribe"));
    v.push(text::own("transcript"));
    v.push(text::own("rejections"));
    v.push(text::own("consumers"));
    v.push(text::own("receipts"));
    v.push(text::own("reply"));
    v.push(text::own("presence"));
    v.push(text::own("grants"));
    v.push(text::own("encryption"));
    v.push(text::own("unsigned"));
    assert(text::texts(v@) =~= capabilities());
    v
}

fn fail(message: String) -> (r: Outcome)
    ensures
        r@ == failure(message@),
{
    Outcome::Reply(Response::Error { message })
}

fn show(msgs: Vec<StoredMsg>) -> (r: Outcome)
    ensures
        r@ == messages(store::msg_views(msgs@)),
{
    Outcome::Reply(Response::Messages { msgs, consumer_warning: None })
}

fn behind(consumer: &str, unread: usize) -> (r: Option<String>)
    ensures
        text::opt_text(r) == behind_text(consumer@, unread as nat),
{
    if unread > FAR_BEHIND {
        let n: String = text::decimal_u64(unread as u64);
        let mut s: String = text::concat3("consumer '", consumer, "' is ");
        s.append(n.as_str());
        s.append(" messages behind");
        Some(s)
    } else {
        None
    }
}

fn pick_topic(cfg: &Config, topic: Option<&str>) -> (r: Result<String, String>)
    ensures
        match r {
            Ok(t) => chosen_topic(cfg@, text::opt_str(topic)) == Ok::<Seq<char>, Seq<char>>(t@),
            Err(m) => chosen_topic(cfg@, text::opt_str(topic)) == Err::<Seq<char>, Seq<char>>(m@),
        },
{
    match topic {
        Some(t) => {
            if cfg.has_topic(t) {
                Ok(text::own(t))
            } else {
                Err(text::concat3("topic '", t, "' is not a configured chat topic"))
            }
        },
        None => match cfg.primary_topic() {
            Some(t) => Ok(text::own(t)),
            None => Err(text::own("no chat topic configured")),
        },
    }
}

/// The outbox entry of a message in its wrapper.
fn entry(inner: &Inner, wrapper: &Wrapper, topic: &str) -> (r: Outbound)
    ensures
        r@ == (OutboundView {
            id: inner@.id,
            topic: topic@,
            payload: wire::wrapper_bytes(wrapper@),
            qos: 1,
            retain: false,
        }),
{
    let payload: Vec<u8> = match wrapper.to_bytes() {
        Ok(b) => b,
        Err(_) => Vec::new(),
    };
    Outbound { id: inner.id.clone(), topic: text::own(topic), payload, qos: 1, retain: false }
}

/// Build, log and queue a receipt to `to`.
fn enqueue_receipt(
    id: &Identity,
    st: &mut Store,
    to: &str,
    ref_id: &str,
    status: ReceiptStatus,
    topic: &str,
    fresh: &Fresh,
)
    requires
        old(st).wf(),
    ensures
        final(st).wf(),
        final(st)@ == with_receipt(old(st)@, id@, to@, ref_id@, status, topic@, fresh@),
{
    let mut opts = BuildOpts::new(to, wire::CTYPE_RECEIPT, "");
    opts.kind = MsgKind::Receipt;
    opts.receipt = Some(Receipt { ref_id: text::own(ref_id), status });
    assert(opts@ == receipt_opts(to@, ref_id@, status));
    match message::build_with(id, &opts, fresh) {
        Ok((inner, wrapper)) => {
            let ob: Outbound = entry(&inner, &wrapper, topic);
            assert(ob@ == outbound_of(id@, inner@, topic@, false));
            let _ = st.insert_outbound_log(&inner, topic);
            let _ = st.enqueue_outbound(&ob);
        },
        Err(_) => {},
    }
}

/// Build and queue a presence beacon.
fn enqueue_presence(
    id: &Identity,
    st: &mut Store,
    topic: &str,
    beacon: &PresenceBeacon,
    fresh: &Fresh,
)
    requires
        old(st).wf(),
    ensures
        final(st).wf(),
        final(st)@ == with_beacon(old(st)@, id@, topic@, beacon@, fresh@),
{
    let body: String = beacon.json();
    let opts = BuildOpts::new(wire::BROADCAST, wire::CTYPE_PRESENCE, body.as_str());
    match message::build_with(id, &opts, fresh) {
        Ok((inner, wrapper)) => {
            let ob: Outbound = entry(&inner, &wrapper, topic);
            assert(ob@ == outbound_of(id@, inner@, topic@, false));
            let _ = st.enqueue_outbound(&ob);
        },
        Err(_) => {},
    }
}

/// The options of a send request, on the topic where it goes out.
fn plan_send<'a>(cfg: &Config, trust: &TrustStore, p: &'a SendParams) -> (r: Result<
    (String, BuildOpts<'a>),
    String,
>)
    requires
        trust.wf(),
    ensures
        match r {
            Ok(x) => send_plan(cfg@, trust@, p@) == Ok::<(Seq<char>, OptsView), Seq<char>>(
                (x.0@, x.1@),
            ),
            Err(m) => send_plan(cfg@, trust@, p@) == Err::<(Seq<char>, OptsView), Seq<char>>(m@),
        },
{
    let topic: String = match pick_topic(cfg, text::borrow_opt(&p.topic)) {
        Ok(t) => t,
        Err(m) => {
            return Err(m);
        },
    };
    if p.body.as_str().as_bytes().len() > cfg.max_payload {
        return Err(text::own("payload exceeds configured maximum"));
    }
    if cfg.require_encryption && !p.encrypt {
        return Err(RejectReason::EncryptionRequired.message());
    }
    let mut opts = BuildOpts::new(p.to.as_str(), p.ctype.as_str(), p.body.as_str());
    if let Some(tok) = &p.grant {
        match grant::decode_token(tok.as_str()) {
            Ok(sg) => {
                opts.grant = Some(sg);
            },
            Err(e) => {
                return Err(e.message());
            },
        }
    }
    if p.encrypt {
        match trust.kem_public_key(p.to.as_str()) {
            Some(ek) => {
                opts.encrypt_to = Some(ek);
            },
            None => {
                return Err(RejectReason::UnknownRecipientKey.message());
            },
        }
    }
    opts.in_reply_to = text::copy_opt(&p.in_reply_to);
    opts.kind = parse_kind(p.kind.as_str());
    opts.correlation_id = text::copy_opt(&p.correlation_id);
    opts.supersedes = text::copy_opt(&p.supersedes);
    opts.unsigned = p.unsigned;
    Ok((topic, opts))
}

impl Daemon {
    /// What holds of every daemon.
    pub closed spec fn wf(&self) -> bool {
        &&& daemon_wf(self@)
        &&& self.store.wf()
        &&& self.pending.wf()
    }

    /// What [`Daemon::wf`] says of the model.
    pub proof fn lemma_wf(&self)
        requires
            self.wf(),
        ensures
            daemon_wf(self@),
    {
    }

    /// A daemon without pending peers.
    pub fn new(identity: Identity, store: Store) -> (d: Daemon)
        requires
            identity::is_whole(identity@),
            store.wf(),
        ensures
            d.wf(),
            d@ == (DaemonView { identity: identity@, store: store@, pending: Map::empty() }),
    {
        proof {
            store.lemma_wf();
        }
        let d = Daemon { identity, store, pending: NameMap::new() };
        assert(d@.pending =~= Map::empty());
        d
    }

    /// Who the daemon is.
    pub fn identity(&self) -> (r: &Identity)
        ensures
            r@ == self@.identity,
    {
        &self.identity
    }

    /// The daemon's message store.
    pub fn store(&self) -> (r: &Store)
        requires
            self.wf(),
        ensures
            r@ == self@.store,
            r.wf(),
    {
        &self.store
    }

    fn refuse(
        &mut self,
        reason: &RejectReason,
        sender: Option<&str>,
        topic: &str,
        detail: &str,
        stamp: &str,
    )
        requires
            old(self).wf(),
        ensures
            final(self).wf(),
            final(self)@ == refused(
                old(self)@,
                reason@,
                text::opt_str(sender),
                topic@,
                detail@,
                stamp@,
            ),
    {
        let _ = self.store.record_rejection(reason, sender, topic, detail, stamp);
        proof {
            self.store.lemma_wf();
        }
    }

    fn greet(&mut self, payload: &[u8], peek: &Inner, topic: &str, stamp: &str)
        requires
            old(self).wf(),
        ensures
            final(self).wf(),
            final(self)@ == greeted(old(self)@, payload@, peek@, topic@, stamp@),
    {
        match message::verify_pair(payload) {
            Ok(hello) => {
                if self.pending.get(hello.name.as_str()).is_some() {
                    assert(self@.pending.contains_key(hello.name@));
                    return ;
                }
                let sas: String = pair::sas(
                    self.identity.public_key(),
                    hello.public_key.as_slice(),
                );
                let ghost h = hello@;
                let key: String = hello.name.clone();
                let p = PendingPair {
                    name: hello.name,
                    public_key: hello.public_key,
                    kem_public_key: hello.kem_public_key,
                    sas,
                    first_seen: peek.ts.clone(),
                };
                let ghost pv = p@;
                let ghost before = self.pending@;
                assert(pv == pending_of(self@.identity, h, peek@.ts));
                self.pending.put(key, p);
                proof {
                    assert(pending_views(self.pending@) =~= pending_views(before).insert(
                        h.name,
                        pv,
                    ));
                    assert(pending_wf(pending_views(before)));
                }
            },
            Err(reason) => {
                self.refuse(&reason, Some(peek.from.as_str()), topic, "pairing hello", stamp);
            },
        }
    }

    fn keep(&mut self, inner: &Inner, topic: &str, cfg: &Config, m: &Moment) -> (r: Option<
        StoredMsg,
    >)
        requires
            old(self).wf(),
        ensures
            final(self).wf(),
            (final(self)@, store::opt_msg(r)) == stored(
                old(self)@,
                inner@,
                topic@,
                cfg@,
                m@,
            ),
    {
        match self.store.insert_inbound(inner, topic) {
            Ok(Some(seq)) => {
                let _ = self.store.enforce_bounds(cfg.max_messages, cfg.max_bytes);
                let pushed: Option<StoredMsg> = self.store.message_by_seq(seq);
                if cfg.auto_receipts && text::str_eq(
                    inner.to.as_str(),
                    self.identity.agent_name(),
                ) && !inner.is_broadcast() {
                    enqueue_receipt(
                        &self.identity,
                        &mut self.store,
                        inner.from.as_str(),
                        inner.id.as_str(),
                        ReceiptStatus::Delivered,
                        topic,
                        &m.fresh,
                    );
                }
                proof {
                    self.store.lemma_wf();
                }
                pushed
            },
            Ok(None) => None,
            Err(_) => None,
        }
    }

    fn accept(
        &mut self,
        inner: &Inner,
        topic: &str,
        cfg: &Config,
        trust: &TrustStore,
        m: &Moment,
    ) -> (r: Option<StoredMsg>)
        requires
            old(self).wf(),
            trust.wf(),
        ensures
            final(self).wf(),
            (final(self)@, store::opt_msg(r)) == accepted(
                old(self)@,
                inner@,
                topic@,
                cfg@,
                trust@,
                m@,
            ),
    {
        if text::str_eq(inner.ctype.as_str(), wire::CTYPE_PRESENCE) {
            if let Some(b) = PresenceBeacon::read(inner.body.as_str()) {
                self.store.upsert_presence(
                    inner.from.as_str(),
                    b.state.as_str(),
                    b.source.as_str(),
                    b.ttl_secs,
                    b.seq,
                    text::borrow_opt(&b.detail),
                    inner.ts.as_str(),
                );
                proof {
                    self.store.lemma_wf();
                }
            }
            return None;
        }
        if inner.kind == MsgKind::Receipt || text::str_eq(
            inner.ctype.as_str(),
            wire::CTYPE_RECEIPT,
        ) {
            if let Some(rcpt) = &inner.receipt {
                match rcpt.status {
                    ReceiptStatus::Delivered => {
                        self.store.apply_delivery_receipt(
                            rcpt.ref_id.as_str(),
                            inner.ts.as_str(),
                        );
                    },
                    ReceiptStatus::Read => {
                        self.store.apply_read_receipt(rcpt.ref_id.as_str(), inner.ts.as_str());
                    },
                }
                proof {
                    self.store.lemma_wf();
                }
            }
            return None;
        }
        if cfg.require_encryption && inner.enc.is_none() {
            self.refuse(
                &RejectReason::EncryptionRequired,
                Some(inner.from.as_str()),
                topic,
                "",
                m.stamp.as_str(),
            );
            return None;
        }
        if let Some(sg) = &inner.grant {
            if let Ok(claims) = grant::verify_at(m.now, sg, trust) {
                let ghost before = self@;
                if self.store.seen_grant(claims.id.as_str()) {
                    proof {
                        assert(self@.store.seen_grants =~= before.store.seen_grants);
                        assert(self@ == before);
                    }
                    self.refuse(
                        &RejectReason::ReplayedGrant,
                        Some(inner.from.as_str()),
                        topic,
                        "",
                        m.stamp.as_str(),
                    );
                    return None;
                }
                proof {
                    self.store.lemma_wf();
                }
            }
        }
        self.keep(inner, topic, cfg, m)
    }

    /// Take an inbound payload, with the clock and chance of a given moment.
    /// Returns the message to push to subscribers.
    pub fn ingest_at(
        &mut self,
        topic: &str,
        payload: &[u8],
        cfg: &Config,
        trust: &TrustStore,
        m: &Moment,
    ) -> (r: Option<StoredMsg>)
        requires
            old(self).wf(),
            trust.wf(),
            clock::in_time_range(m.now),
        ensures
            final(self).wf(),
            (final(self)@, store::opt_msg(r)) == ingested(
                old(self)@,
                topic@,
                payload@,
                cfg@,
                trust@,
                m@,
            ),
    {
        if let Ok(w) = Wrapper::from_bytes(payload) {
            if let Some(kid) = &w.kid {
                if let Some((name, _fp)) = wire::split_kid(kid.as_str()) {
                    if text::str_eq(name, self.identity.agent_name()) {
                        return None;
                    }
                }
            }
            if let Ok(b) = w.inner_bytes() {
                if let Ok(peek) = Wrapper::parse_inner(b.as_slice()) {
                    if text::str_eq(peek.ctype.as_str(), wire::CTYPE_PAIR) {
                        self.greet(payload, &peek, topic, m.stamp.as_str());
                        return None;
                    }
                }
            }
        }
        let p = Policy {
            freshness_secs: cfg.freshness_secs,
            max_payload: cfg.max_payload,
            allow_unsigned: cfg.allow_unsigned,
            accept_v1: cfg.accept_v1,
        };
        match message::verify_at(m.now, payload, &self.identity, trust, &p) {
            Ok(inner) => self.accept(&inner, topic, cfg, trust, m),
            Err(info) => {
                self.refuse(
                    &info.reason,
                    text::borrow_opt(&info.claimed_sender),
                    topic,
                    "",
                    m.stamp.as_str(),
                );
                None
            },
        }
    }

    /// Take an inbound payload now. `stamp` is the clock of the store. Returns the
    /// message to push to subscribers.
    pub fn ingest(
        &mut self,
        topic: &str,
        payload: &[u8],
        cfg: &Config,
        trust: &TrustStore,
        stamp: &str,
    ) -> (r: Option<StoredMsg>)
        requires
            old(self).wf(),
            trust.wf(),
        ensures
            final(self).wf(),
            exists|m: MomentView|
                is_moment(m, stamp@) && (
                    final(self)@,
                    store::opt_msg(r),
                ) == #[trigger] ingested(old(self)@, topic@, payload@, cfg@, trust@, m),
    {
        let m: Moment = moment(stamp, 0);
        let ghost mv = m@;
        let r: Option<StoredMsg> = self.ingest_at(topic, payload, cfg, trust, &m);
        assert((self@, store::opt_msg(r)) == ingested(
            old(self)@,
            topic@,
            payload@,
            cfg@,
            trust@,
            mv,
        ));
        r
    }

    /// How many read receipts a request is answered with.
    pub fn count_receipts(&self, req: &Request, cfg: &Config) -> (n: usize)
        requires
            self.wf(),
        ensures
            n == receipts_needed(self@, req@, cfg@),
    {
        match req {
            Request::Ack { consumer, seq } => self.due(consumer.as_str(), *seq, cfg).len(),
            _ => 0,
        }
    }

    fn due(&self, consumer: &str, seq: i64, cfg: &Config) -> (r: Vec<StoredMsg>)
        requires
            self.wf(),
        ensures
            store::msg_views(r@) == receipts_due(self@, consumer@, seq, cfg@),
            r@.len() == receipts_due(self@, consumer@, seq, cfg@).len(),
    {
        if !cfg.auto_receipts || text::str_eq(self.identity.agent_name(), wire::BROADCAST) {
            let none: Vec<StoredMsg> = Vec::new();
            assert(store::msg_views(none@) =~= Seq::empty());
            none
        } else {
            let v: Vec<StoredMsg> = self.store.covered(self.identity.agent_name(), consumer, seq);
            assert(store::msg_views(v@).len() == v@.len());
            v
        }
    }

    /// Acknowledge everything up to a sequence number for a consumer, with the
    /// clock and chance of a given moment.
    pub fn acknowledge_at(&mut self, consumer: &str, seq: i64, cfg: &Config, m: &Moment)
        requires
            old(self).wf(),
            m@.receipts.len() >= receipts_due(old(self)@, consumer@, seq, cfg@).len(),
        ensures
            final(self).wf(),
            final(self)@ == acknowledged(old(self)@, consumer@, seq, cfg@, m@),
    {
        let ghost d = self@;
        let ghost all = receipts_due(d, consumer@, seq, cfg@);
        let ghost s0 = store::acked(d.store, consumer@, seq, m@.stamp);
        let due: Vec<StoredMsg> = self.due(consumer, seq, cfg);
        self.store.ack(consumer, seq, m.stamp.as_str());
        proof {
            self.store.lemma_wf();
            assert(all.take(0) =~= Seq::empty());
        }
        let mut i: usize = 0;
        while i < due.len()
            invariant
                i <= due.len(),
                d == old(self)@,
                store::msg_views(due@) == all,
                m@.receipts.len() >= due@.len(),
                self.wf(),
                self@.identity == d.identity,
                self@.pending == d.pending,
                self@.store == with_read_receipts(
                    s0,
                    d.identity,
                    all.take(i as int),
                    m@.receipts,
                ),
            decreases due.len() - i,
        {
            proof {
                assert(all.take(i + 1).drop_last() =~= all.take(i as int));
                assert(all.take(i + 1).last() == due@[i as int]@);
                assert(m@.receipts[i as int] == m.receipts@[i as int]@);
            }
            enqueue_receipt(
                &self.identity,
                &mut self.store,
                due[i].from.as_str(),
                due[i].id.as_str(),
                ReceiptStatus::Read,
                due[i].topic.as_str(),
                &m.receipts[i],
            );
            proof {
                self.store.lemma_wf();
            }
            i = i + 1;
        }
        assert(all.take(i as int) =~= all);
    }

    /// Acknowledge everything up to a sequence number for a consumer now: a frame
    /// of its subscription was delivered. `stamp` is the clock of the store.
    pub fn acknowledge(&mut self, consumer: &str, seq: i64, cfg: &Config, stamp: &str)
        requires
            old(self).wf(),
        ensures
            final(self).wf(),
            exists|m: MomentView|
                is_moment(m, stamp@) && m.receipts.len() == receipts_due(
                    old(self)@,
                    consumer@,
                    seq,
                    cfg@,
                ).len() && final(self)@ == #[trigger] acknowledged(
                    old(self)@,
                    consumer@,
                    seq,
                    cfg@,
                    m,
                ),
    {
        let n: usize = self.due(consumer, seq, cfg).len();
        let m: Moment = moment(stamp, n);
        let ghost mv = m@;
        self.acknowledge_at(consumer, seq, cfg, &m);
        assert(self@ == acknowledged(old(self)@, consumer@, seq, cfg@, mv));
    }

    fn post(&mut self, inner: &Inner, wrapper: &Wrapper, topic: &str, unsigned: bool) -> (r: Outcome)
        requires
            old(self).wf(),
            wrapper@ == message::wrapped(old(self)@.identity, inner@, unsigned),
        ensures
            final(self).wf(),
            (final(self)@, r@) == posted(old(self)@, inner@, topic@, unsigned),
    {
        let ob: Outbound = entry(inner, wrapper, topic);
        assert(ob@ == outbound_of(self@.identity, inner@, topic@, unsigned));
        let _ = self.store.insert_outbound_log(inner, topic);
        match self.store.enqueue_outbound(&ob) {
            Ok(_) => {
                proof {
                    self.store.lemma_wf();
                }
                Outcome::Publish(ob)
            },
            Err(e) => {
                proof {
                    self.store.lemma_wf();
                }
                fail(e.message())
            },
        }
    }

    fn send(&mut self, p: &SendParams, cfg: &Config, trust: &TrustStore, fresh: &Fresh) -> (r:
        Outcome)
        requires
            old(self).wf(),
            trust.wf(),
        ensures
            final(self).wf(),
            (final(self)@, r@) == sent(old(self)@, cfg@, trust@, p@, fresh@),
    {
        match plan_send(cfg, trust, p) {
            Err(m) => fail(m),
            Ok((topic, opts)) => {
                match message::build_with(&self.identity, &opts, fresh) {
                    Err(e) => fail(e.message()),
                    Ok((inner, wrapper)) => self.post(
                        &inner,
                        &wrapper,
                        topic.as_str(),
                        opts.unsigned,
                    ),
                }
            },
        }
    }

    /// The answer to a send request once its entry was published or not, at the
    /// time `stamp` of the store's clock.
    pub fn published(&mut self, id: &str, ok: bool, stamp: &str) -> (r: Response)
        requires
            old(self).wf(),
        ensures
            final(self).wf(),
            final(self)@ == (if ok {
                handed_over(old(self)@, id@, stamp@)
            } else {
                old(self)@
            }),
            r@ == (ResponseView::Sent {
                id: id@,
                delivery_state: if ok {
                    "sent"@
                } else {
                    "pending"@
                },
            }),
    {
        let state: String = if ok {
            self.mark_delivered(id, stamp);
            text::own("sent")
        } else {
            text::own("pending")
        };
        Response::Sent { id: text::own(id), delivery_state: state }
    }

    /// The broker took a queued message at the time `stamp` of the store's clock.
    pub fn mark_delivered(&mut self, id: &str, stamp: &str)
        requires
            old(self).wf(),
        ensures
            final(self).wf(),
            final(self)@ == handed_over(old(self)@, id@, stamp@),
    {
        self.store.mark_delivered(id, stamp);
        proof {
            self.store.lemma_wf();
        }
    }

    fn status(&self, cfg: &Config, trust: &TrustStore, connected: bool) -> (r: StatusInfo)
        requires
            self.wf(),
            trust.wf(),
        ensures
            is_status(r@, self@, cfg@, trust@, connected),
    {
        let out: Vec<Outbound> = self.store.pending_outbound();
        let agents: Vec<trust::KnownAgent> = trust.list();
        proof {
            assert(store::outbound_views(out@).len() == out@.len());
            assert(trust::agent_views(agents@).len() == agents@.len());
            assert(trust::is_listing(trust::agent_views(agents@), trust@.agents, true));
        }
        StatusInfo {
            identity: Some(text::own(self.identity.agent_name())),
            fingerprint: Some(wire::fingerprint(self.identity.public_key())),
            broker: cfg.endpoint(),
            connected,
            topics: text::copy_texts(&cfg.topics),
            stored: self.store.message_count(),
            rejected: self.store.rejection_count(),
            pending_out: out.len() as i64,
            known_agents: agents.len(),
            ipc_proto: ipc::IPC_PROTO_VERSION,
            presence: self.store.list_presence(),
            allow_unsigned: cfg.allow_unsigned,
            accept_v1: cfg.accept_v1,
            require_encryption: cfg.require_encryption,
            auto_receipts: cfg.auto_receipts,
        }
    }

    fn receipts(&self, id: Option<&str>, limit: i64, state: Option<&str>) -> (r: Vec<StoredMsg>)
        ensures
            store::msg_views(r@) == receipt_rows(
                self@.store,
                text::opt_str(id),
                limit,
                text::opt_str(state),
            ),
    {
        match id {
            Some(id) => {
                let mut v: Vec<StoredMsg> = Vec::new();
                if let Some(m) = self.store.get_message(id) {
                    v.push(m);
                }
                assert(store::msg_views(v@) =~= receipt_rows(
                    self@.store,
                    Some(id@),
                    limit,
                    text::opt_str(state),
                ));
                v
            },
            None => self.store.outbound_receipts(limit, state),
        }
    }

    fn pair_start(&mut self, topic: &str, fresh: &Fresh) -> (r: Outcome)
        requires
            old(self).wf(),
        ensures
            final(self).wf(),
            (final(self)@, r@) == announced(old(self)@, topic@, fresh@),
    {
        let (inner, wrapper) = message::build_pair_with(&self.identity, fresh);
        let ob: Outbound = entry(&inner, &wrapper, topic);
        assert(ob@ == outbound_of(self@.identity, inner@, topic@, false));
        match self.store.enqueue_outbound(&ob) {
            Ok(_) => {
                proof {
                    self.store.lemma_wf();
                }
                Outcome::Announce(ob)
            },
            Err(e) => {
                proof {
                    self.store.lemma_wf();
                }
                fail(e.message())
            },
        }
    }

    fn pair_list(&self) -> (r: Vec<PendingPairView>)
        requires
            self.wf(),
        ensures
            is_pair_list(ipc::pair_rows(r@), self@),
    {
        let mut out: Vec<PendingPairView> = Vec::new();
        let mut i: usize = 0;
        let ghost names = self.pending.names();
        let ghost d = self@;
        while i < self.pending.len()
            invariant
                i <= names.len(),
                names == self.pending.names(),
                self.wf(),
                d == self@,
                out@.len() == i,
                forall|k: int|
                    0 <= k < i ==> (#[trigger] out@[k])@ == pair_row(d.pending[names[k]])
                        && out@[k]@.name == names[k],
            decreases names.len() - i,
        {
            let (name, p) = self.pending.at(i);
            assert(d.pending.contains_key(name@));
            out.push(
                PendingPairView {
                    name: p.name.clone(),
                    fingerprint: wire::fingerprint(p.public_key.as_slice()),
                    sas: p.sas.clone(),
                    kem: p.kem_public_key.is_some(),
                },
            );
            i = i + 1;
        }
        proof {
            self.pending.lemma_names();
            let rows = ipc::pair_rows(out@);
            assert(Seq::new(rows.len(), |k: int| rows[k].name) =~= names);
            assert forall|k: Seq<char>| #[trigger] d.pending.contains_key(
                k,
            ) implies names.contains(k) by {
                assert(self.pending@.contains_key(k));
            }
            assert forall|k: int| 0 <= k < names.len() implies d.pending.contains_key(
                #[trigger] names[k],
            ) by {
                assert(self.pending@.contains_key(names[k]));
            }
        }
        out
    }

    /// Add a pending peer with both its keys to the trust store. `false`, and
    /// nothing changes, where no such peer is pending.
    pub fn confirm(&self, name: &str, trust: &mut TrustStore) -> (r: bool)
        requires
            self.wf(),
            old(trust).wf(),
        ensures
            final(trust).wf(),
            r == self@.pending.contains_key(name@),
            final(trust)@.authorities == old(trust)@.authorities,
            final(trust)@.agents == (if r {
                old(trust)@.agents.insert(
                    name@,
                    trust::record_of(
                        self@.pending[name@].public_key,
                        self@.pending[name@].kem_public_key,
                    ),
                )
            } else {
                old(trust)@.agents
            }),
            r ==> trust::trusted_key(final(trust)@, name@) == Some(
                self@.pending[name@].public_key,
            ) && trust::trusted_kem_key(final(trust)@, name@)
                == self@.pending[name@].kem_public_key,
    {
        match self.pending.get(name) {
            None => false,
            Some(p) => {
                assert(self@.pending.contains_key(name@));
                let kem: Option<&[u8]> = match &p.kem_public_key {
                    Some(k) => Some(k.as_slice()),
                    None => None,
                };
                trust.add_with_kem(p.name.as_str(), p.public_key.as_slice(), kem);
                true
            },
        }
    }

    /// The trust store with a confirmed peer was kept: the peer is no longer
    /// pending.
    pub fn confirmed(&mut self, name: &str) -> (r: Response)
        requires
            old(self).wf(),
        ensures
            final(self).wf(),
            final(self)@ == (DaemonView {
                pending: old(self)@.pending.remove(name@),
                ..old(self)@
            }),
            r@ == ResponseView::Done,
    {
        let ghost before = self.pending@;
        let _ = self.pending.remove(name);
        proof {
            assert(pending_views(self.pending@) =~= pending_views(before).remove(name@));
            assert(pending_wf(pending_views(before)));
        }
        Response::Done
    }

    /// Decide what is done about a request, with the clock and chance of a given
    /// moment. `connected` says whether the broker session is up.
    pub fn handle_at(
        &mut self,
        req: &Request,
        cfg: &Config,
        trust: &TrustStore,
        connected: bool,
        m: &Moment,
    ) -> (r: Outcome)
        requires
            old(self).wf(),
            trust.wf(),
            clock::in_time_range(m.now),
            m@.receipts.len() >= receipts_needed(old(self)@, req@, cfg@),
        ensures
            final(self).wf(),
            handled(old(self)@, req@, cfg@, trust@, connected, m@, r@, final(self)@),
    {
        match req {
            Request::Ping => Outcome::Reply(Response::Pong),
            Request::Status => Outcome::Reply(
                Response::Status(self.status(cfg, trust, connected)),
            ),
            Request::Hello { .. } => Outcome::Reply(
                Response::Hello {
                    ipc_proto: ipc::IPC_PROTO_VERSION,
                    version: text::own(VERSION),
                    caps: caps(),
                },
            ),
            Request::Connect => Outcome::Connect,
            Request::Disconnect => Outcome::Disconnect,
            Request::Shutdown => Outcome::Reply(Response::Done),
            Request::Send(p) => self.send(p, cfg, trust, &m.fresh),
            Request::Read { consumer, limit } => {
                let unread: usize = self.store.unread(consumer.as_str());
                Outcome::Reply(
                    Response::Messages {
                        msgs: self.store.read_after_cursor(consumer.as_str(), *limit),
                        consumer_warning: behind(consumer.as_str(), unread),
                    },
                )
            },
            Request::Ack { consumer, seq } => {
                self.acknowledge_at(consumer.as_str(), *seq, cfg, m);
                Outcome::Reply(Response::Done)
            },
            Request::Browse { limit, from, to, all } => {
                if *all {
                    show(
                        self.store.browse_all(
                            *limit,
                            text::borrow_opt(from),
                            text::borrow_opt(to),
                        ),
                    )
                } else {
                    show(
                        self.store.browse(
                            *limit,
                            text::borrow_opt(from),
                            text::borrow_opt(to),
                            "in",
                        ),
                    )
                }
            },
            Request::Transcript { limit, from, to, peer } => show(
                self.store.transcript(
                    *limit,
                    text::borrow_opt(from),
                    text::borrow_opt(to),
                    text::borrow_opt(peer),
                ),
            ),
            Request::Rejections { limit, reason, since } => Outcome::Reply(
                Response::Rejections(
                    self.store.rejections(
                        *limit,
                        text::borrow_opt(reason),
                        text::borrow_opt(since),
                    ),
                ),
            ),
            Request::Consumers => Outcome::Reply(Response::Consumers(self.store.consumers())),
            Request::Receipts { id, limit, state } => show(
                self.receipts(text::borrow_opt(id), *limit, text::borrow_opt(state)),
            ),
            Request::Reply { msg_id, ctype, body } => {
                match self.store.get_message(msg_id.as_str()) {
                    None => fail(text::concat2("no message with id ", msg_id.as_str())),
                    Some(answered) => {
                        let p = SendParams {
                            to: answered.from,
                            ctype: ctype.clone(),
                            body: body.clone(),
                            in_reply_to: Some(msg_id.clone()),
                            topic: None,
                            kind: text::own(""),
                            correlation_id: None,
                            supersedes: None,
                            encrypt: false,
                            grant: None,
                            unsigned: false,
                        };
                        self.send(&p, cfg, trust, &m.fresh)
                    },
                }
            },
            Request::Presence { state, ttl_secs, detail } => {
                match pick_topic(cfg, None) {
                    Err(e) => fail(e),
                    Ok(topic) => {
                        let ttl: i64 = match ttl_secs {
                            Some(n) => *n,
                            None => 0,
                        };
                        let beacon = PresenceBeacon {
                            state: state.clone(),
                            source: text::own("agent"),
                            ttl_secs: ttl,
                            seq: clock::seq_at(m.now),
                            detail: text::copy_opt(detail),
                        };
                        enqueue_presence(
                            &self.identity,
                            &mut self.store,
                            topic.as_str(),
                            &beacon,
                            &m.fresh,
                        );
                        proof {
                            self.store.lemma_wf();
                        }
                        Outcome::Reply(Response::Done)
                    },
                }
            },
            Request::PresenceList => Outcome::Reply(
                Response::Presence(self.store.list_presence()),
            ),
            Request::PairStart { topic } => {
                match pick_topic(cfg, text::borrow_opt(topic)) {
                    Err(e) => fail(e),
                    Ok(t) => self.pair_start(t.as_str(), &m.fresh),
                }
            },
            Request::PairList => Outcome::Reply(Response::Pairs(self.pair_list())),
            Request::PairConfirm { name } => {
                if self.pending.get(name.as_str()).is_some() {
                    assert(self@.pending.contains_key(name@));
                    Outcome::Confirm(name.clone())
                } else {
                    fail(text::concat3("no pending pairing for '", name.as_str(), "'"))
                }
            },
            Request::Subscribe { .. } => fail(text::own("subscribe must be served as a stream")),
        }
    }

    /// Decide what is done about a request now. `stamp` is the clock of the store,
    /// and `connected` says whether the broker session is up.
    pub fn handle(
        &mut self,
        req: &Request,
        cfg: &Config,
        trust: &TrustStore,
        connected: bool,
        stamp: &str,
    ) -> (r: Outcome)
        requires
            old(self).wf(),
            trust.wf(),
        ensures
            final(self).wf(),
            exists|m: MomentView|
                is_moment(m, stamp@) && m.receipts.len() == receipts_needed(
                    old(self)@,
                    req@,
                    cfg@,
                ) && #[trigger] handled(
                    old(self)@,
                    req@,
                    cfg@,
                    trust@,
                    connected,
                    m,
                    r@,
                    final(self)@,
                ),
    {
        let n: usize = self.count_receipts(req, cfg);
        let m: Moment = moment(stamp, n);
        let ghost mv = m@;
        let r: Outcome = self.handle_at(req, cfg, trust, connected, &m);
        assert(handled(old(self)@, req@, cfg@, trust@, connected, mv, r@, self@));
        r
    }

    /// Queue the beacon of a heartbeat on the primary topic, with the clock and
    /// chance of a given moment. Nothing without a topic.
    pub fn beat_at(&mut self, cfg: &Config, m: &Moment)
        requires
            old(self).wf(),
            cfg@.heartbeat_secs <= MAX_HEARTBEAT,
            clock::in_time_range(m.now),
        ensures
            final(self).wf(),
            final(self)@ == beaten(old(self)@, cfg@, m@),
    {
        if let Some(topic) = cfg.primary_topic() {
            let beacon = PresenceBeacon {
                state: text::own("online"),
                source: text::own("daemon"),
                ttl_secs: ttl_of(cfg.heartbeat_secs),
                seq: clock::seq_at(m.now),
                detail: None,
            };
            enqueue_presence(&self.identity, &mut self.store, topic, &beacon, &m.fresh);
            proof {
                self.store.lemma_wf();
            }
        }
    }

    /// Queue the beacon of a heartbeat now. `stamp` is the clock of the store.
    pub fn beat(&mut self, cfg: &Config, stamp: &str)
        requires
            old(self).wf(),
            cfg@.heartbeat_secs <= MAX_HEARTBEAT,
        ensures
            final(self).wf(),
            exists|m: MomentView|
                is_moment(m, stamp@) && final(self)@ == #[trigger] beaten(
                    old(self)@,
                    cfg@,
                    m,
                ),
    {
        let m: Moment = moment(stamp, 0);
        let ghost mv = m@;
        self.beat_at(cfg, &m);
        assert(self@ == beaten(old(self)@, cfg@, mv));
    }
}

/// The longest heartbeat interval in seconds: three times it is still within the
/// machine's range.
pub const MAX_HEARTBEAT: u64 = 6148914691236517205;

/// The signed number with the bits of an unsigned one.
pub open spec fn as_signed(n: int) -> int {
    if n > i64::MAX {
        n - 0x1_0000_0000_0000_0000
    } else {
        n
    }
}

/// Three heartbeat intervals.
fn ttl_of(secs: u64) -> (r: i64)
    requires
        secs <= MAX_HEARTBEAT,
    ensures
        r == as_signed(secs * 3),
{
    let n: u64 = secs * 3;
    if n > 0x7fff_ffff_ffff_ffff {
        ((n - 0x8000_0000_0000_0000) as i64) + i64::MIN
    } else {
        n as i64
    }
}

/// The daemon with the beacon of a heartbeat queued: it is online for three
/// intervals.
pub open spec fn beaten(d: DaemonView, cfg: ConfigView, m: MomentView) -> DaemonView {
    if cfg.topics.len() == 0 {
        d
    } else {
        DaemonView {
            store: with_beacon(
                d.store,
                d.identity,
                cfg.topics[0],
                BeaconView {
                    state: "online"@,
                    source: "daemon"@,
                    ttl_secs: as_signed(cfg.heartbeat_secs * 3) as i64,
                    seq: clock::epoch_seconds(m.now) as i64,
                    detail: None,
                },
                m.fresh,
            ),
            ..d
        }
    }
}

/// The daemon after the broker took a message.
pub open spec fn handed_over(d: DaemonView, id: Seq<char>, stamp: Seq<char>) -> DaemonView {
    DaemonView { store: store::handed_off(d.store, id, stamp), ..d }
}

/// How long the heartbeat sleeps, in seconds, and whether it beats then. An
/// interval of zero switches it off; the configuration is looked at again after a
/// while.
pub fn heartbeat_wait(cfg: &Config) -> (r: (u64, bool))
    ensures
        r == if cfg@.heartbeat_secs == 0 {
            (5u64, false)
        } else {
            (cfg@.heartbeat_secs, true)
        },
{
    if cfg.heartbeat_secs == 0 {
        (5, false)
    } else {
        (cfg.heartbeat_secs, true)
    }
}

/// Whether a connection is to be opened: not where one is open, and only with a
/// complete configuration.
pub fn connect_check(cfg: &Config, open: bool) -> (r: Result<bool, Error>)
    ensures
        match r {
            Ok(b) => b == !open && (open || config::connectable(cfg@)),
            Err(e) => !open && !config::connectable(cfg@) && e@ == ErrorView::Config(
                "broker host, credentials and at least one topic must be set"@,
            ),
        },
{
    if open {
        return Ok(false);
    }
    if !cfg.is_connectable() {
        return Err(
            Error::Config(
                text::own("broker host, credentials and at least one topic must be set"),
            ),
        );
    }
    Ok(true)
}

// ---------------------------------------------------------------------------
// Laws.
// ---------------------------------------------------------------------------

/// The name of a kind stands for that kind.
pub proof fn a_kind_is_parsed_from_its_name(k: MsgKind)
    ensures
        kind_of(wire::kind_text(k)) == k,
{
    wire::kind_is_found_by_its_name(k);
}

/// The daemon's own messages come back from a shared topic and change nothing.
pub proof fn own_messages_are_passed_over(
    d: DaemonView,
    topic: Seq<char>,
    raw: Seq<u8>,
    cfg: ConfigView,
    t: TrustView,
    m: MomentView,
)
    requires
        is_echo(raw, d.identity.name),
    ensures
        ingested(d, topic, raw, cfg, t, m) == (d, None::<MsgView>),
{
}

/// A payload goes through verification: it is neither the daemon's own nor a
/// pairing hello.
pub open spec fn is_verified(d: DaemonView, raw: Seq<u8>) -> bool {
    !is_echo(raw, d.identity.name) && !(peeked(raw) matches Some(p) && p.ctype
        == wire::CTYPE_PAIR@)
}

/// A verified message is one to be stored: neither a presence beacon nor a
/// receipt.
pub open spec fn is_content(i: InnerView) -> bool {
    i.ctype != wire::CTYPE_PRESENCE@ && i.kind != MsgKind::Receipt && i.ctype
        != wire::CTYPE_RECEIPT@
}

/// A refused message leaves nothing behind but a record of who claimed to send
/// it, on which topic, and why it was refused.
pub proof fn a_refused_message_is_only_recorded(
    d: DaemonView,
    topic: Seq<char>,
    raw: Seq<u8>,
    cfg: ConfigView,
    t: TrustView,
    m: MomentView,
    info: RejectInfoView,
)
    requires
        is_verified(d, raw),
        message::verdict(m.now, raw, d.identity, t, policy_of(cfg)) == Err::<
            InnerView,
            RejectInfoView,
        >(info),
        d.store.last_rejection < i64::MAX,
    ensures
        ({
            let (d2, pushed) = ingested(d, topic, raw, cfg, t, m);
            &&& pushed is None
            &&& d2.identity == d.identity && d2.pending == d.pending
            &&& d2.store == (StoreView {
                rejections: d2.store.rejections,
                last_rejection: d2.store.last_rejection,
                ..d.store
            })
            &&& d2.store.rejections == d.store.rejections.push(
                store::RejectionView {
                    seq: (d.store.last_rejection + 1) as i64,
                    at: m.stamp,
                    reason: error::reject_code(info.reason),
                    claimed_sender: info.claimed_sender,
                    topic: Some(topic),
                    detail: ""@,
                },
            )
        }),
{
}

/// A message that is stored already changes nothing when it comes again.
pub proof fn a_known_message_changes_nothing(
    d: DaemonView,
    topic: Seq<char>,
    raw: Seq<u8>,
    cfg: ConfigView,
    t: TrustView,
    m: MomentView,
    i: InnerView,
)
    requires
        is_verified(d, raw),
        message::verdict(m.now, raw, d.identity, t, policy_of(cfg)) == Ok::<
            InnerView,
            RejectInfoView,
        >(i),
        is_content(i),
        cfg.require_encryption ==> i.enc is Some,
        i.grant is None,
        store::has_id(d.store.messages, i.id),
    ensures
        ingested(d, topic, raw, cfg, t, m) == (d, None::<MsgView>),
{
}

/// Every grant of an accepted message is used up: a message with a grant that was
/// used before is refused as a replay and not stored, and one whose grant is new
/// leaves it used.
pub proof fn a_grant_works_once(
    d: DaemonView,
    topic: Seq<char>,
    raw: Seq<u8>,
    cfg: ConfigView,
    t: TrustView,
    m: MomentView,
    i: InnerView,
)
    requires
        is_verified(d, raw),
        message::verdict(m.now, raw, d.identity, t, policy_of(cfg)) == Ok::<
            InnerView,
            RejectInfoView,
        >(i),
        is_content(i),
        cfg.require_encryption ==> i.enc is Some,
        i.grant is Some,
    ensures
        used_claim(i, t, m.now) is Some,
        ({
            let id = used_claim(i, t, m.now)->0;
            let (d2, pushed) = ingested(d, topic, raw, cfg, t, m);
            &&& d2.store.seen_grants.contains(id)
            &&& d.store.seen_grants.contains(id) ==> pushed is None && d2 == refused(
                d,
                RejectView::ReplayedGrant,
                Some(i.from),
                topic,
                ""@,
                m.stamp,
            )
        }),
{
    let w = wire::wrapper_of(raw)->0;
    assert(message::wrapper_verdict(m.now, w, d.identity, t, policy_of(cfg)) == Ok::<
        InnerView,
        RejectView,
    >(i));
    let id = used_claim(i, t, m.now)->0;
    let d1 = DaemonView { store: store::used_grant(d.store, id), ..d };
    if !d.store.seen_grants.contains(id) {
        let (d2, pushed) = stored(d1, i, topic, cfg, m);
        assert(d2.store.seen_grants == d1.store.seen_grants);
    }
}

/// Where encryption is required, a request to send a message in cleartext is
/// answered by an error and changes nothing.
pub proof fn cleartext_is_not_sent_where_encryption_is_required(
    d: DaemonView,
    cfg: ConfigView,
    t: TrustView,
    p: ParamsView,
    f: FreshView,
)
    requires
        cfg.require_encryption,
        !p.encrypt,
    ensures
        sent(d, cfg, t, p, f).0 == d,
        sent(d, cfg, t, p, f).1 matches OutcomeView::Reply(ResponseView::Error { message: _ }),
{
}

/// Where encryption is required, a message that came in cleartext is refused and
/// not stored.
pub proof fn cleartext_is_refused_where_encryption_is_required(
    d: DaemonView,
    topic: Seq<char>,
    raw: Seq<u8>,
    cfg: ConfigView,
    t: TrustView,
    m: MomentView,
    i: InnerView,
)
    requires
        is_verified(d, raw),
        message::verdict(m.now, raw, d.identity, t, policy_of(cfg)) == Ok::<
            InnerView,
            RejectInfoView,
        >(i),
        is_content(i),
        cfg.require_encryption,
        i.enc is None,
    ensures
        ingested(d, topic, raw, cfg, t, m) == (
            refused(d, RejectView::EncryptionRequired, Some(i.from), topic, ""@, m.stamp),
            None::<MsgView>,
        ),
{
}

/// A read warns exactly where its consumer is far behind.
pub proof fn a_consumer_far_behind_is_warned(
    d: DaemonView,
    consumer: Seq<char>,
    limit: i64,
    cfg: ConfigView,
    t: TrustView,
    connected: bool,
    m: MomentView,
    out: OutcomeView,
    d2: DaemonView,
)
    requires
        handled(
            d,
            RequestView::Read { consumer, limit },
            cfg,
            t,
            connected,
            m,
            out,
            d2,
        ),
    ensures
        out matches OutcomeView::Reply(ResponseView::Messages { msgs: _, consumer_warning })
            && (consumer_warning is Some <==> store::picked(
            d.store.messages,
            store::unread_by(store::cursor_of(d.store, consumer)),
        ).len() > FAR_BEHIND),
{
}

/// The outbox entries of read receipts for messages, one each.
pub open spec fn read_receipts(id: IdentityView, ms: Seq<MsgView>, fs: Seq<FreshView>) -> Seq<
    OutboundView,
> {
    Seq::new(
        ms.len(),
        |k: int|
            outbound_of(
                id,
                message::plain_inner(
                    id,
                    receipt_opts(ms[k].from, ms[k].id, ReceiptStatus::Read),
                    fs[k],
                ),
                ms[k].topic,
                false,
            ),
    )
}

/// The ids of values differ from each other and from those of queued messages.
pub open spec fn are_new(out: Seq<OutboundView>, fs: Seq<FreshView>) -> bool {
    &&& forall|k: int| 0 <= k < fs.len() ==> !store::is_queued(out, (#[trigger] fs[k]).id)
    &&& forall|k: int, l: int|
        0 <= k < l < fs.len() ==> (#[trigger] fs[k]).id != (#[trigger] fs[l]).id
}

proof fn lemma_read_receipts(
    s: StoreView,
    id: IdentityView,
    ms: Seq<MsgView>,
    fs: Seq<FreshView>,
    n: int,
)
    requires
        0 <= n <= ms.len() <= fs.len(),
        are_new(s.outbox, fs),
        s.last_outbound + ms.len() <= i64::MAX,
    ensures
        ({
            let s2 = with_read_receipts(s, id, ms.take(n), fs);
            &&& s2.outbox == s.outbox + read_receipts(id, ms.take(n), fs)
            &&& s2.last_outbound == s.last_outbound + n
            &&& s2.cursors == s.cursors
        }),
    decreases n,
{
    let now = ms.take(n);
    if n == 0 {
        assert(s.outbox + read_receipts(id, now, fs) =~= s.outbox);
    } else {
        lemma_read_receipts(s, id, ms, fs, n - 1);
        let before = ms.take(n - 1);
        assert(now.drop_last() =~= before);
        let s1 = with_read_receipts(s, id, before, fs);
        let f = fs[n - 1];
        assert forall|k: int| 0 <= k < s1.outbox.len() implies (#[trigger] s1.outbox[k]).id != f.id by {
            if k < s.outbox.len() {
                assert(s1.outbox[k] == s.outbox[k]);
                assert(!store::is_queued(s.outbox, f.id));
            } else {
                let j = k - s.outbox.len();
                assert(s1.outbox[k] == read_receipts(id, before, fs)[j]);
                assert(fs[j].id != f.id);
            }
        }
        assert(!store::is_queued(s1.outbox, f.id));
        let x = now.last();
        let entry = outbound_of(
            id,
            message::plain_inner(id, receipt_opts(x.from, x.id, ReceiptStatus::Read), f),
            x.topic,
            false,
        );
        assert(read_receipts(id, now, fs) =~= read_receipts(id, before, fs).push(entry));
        assert(s.outbox + read_receipts(id, before, fs).push(entry) =~= (s.outbox + read_receipts(
            id,
            before,
            fs,
        )).push(entry));
    }
}

/// Acknowledging answers every direct message that it newly covers, and always the
/// one with the number itself, by a read receipt to its sender, in the order of
/// the messages.
pub proof fn every_acknowledged_message_is_answered(
    d: DaemonView,
    consumer: Seq<char>,
    seq: i64,
    cfg: ConfigView,
    m: MomentView,
)
    requires
        daemon_wf(d),
        receipts_due(d, consumer, seq, cfg).len() <= m.receipts.len(),
        are_new(d.store.outbox, m.receipts),
        d.store.last_outbound + receipts_due(d, consumer, seq, cfg).len() <= i64::MAX,
    ensures
        acknowledged(d, consumer, seq, cfg, m).store.outbox == d.store.outbox + read_receipts(
            d.identity,
            receipts_due(d, consumer, seq, cfg),
            m.receipts,
        ),
        cfg.auto_receipts && d.identity.name != wire::BROADCAST@ ==> forall|x: MsgView| #[trigger]
            receipts_due(d, consumer, seq, cfg).contains(x) <==> d.store.messages.contains(x)
                && x.direction == "in"@ && x.to == d.identity.name && (x.seq == seq
                || store::cursor_of(d.store, consumer) < x.seq <= seq),
        !cfg.auto_receipts ==> receipts_due(d, consumer, seq, cfg).len() == 0,
{
    let due = receipts_due(d, consumer, seq, cfg);
    let s = store::acked(d.store, consumer, seq, m.stamp);
    lemma_read_receipts(s, d.identity, due, m.receipts, due.len() as int);
    assert(due.take(due.len() as int) =~= due);
    store::a_query_gives_what_matches(
        d.store.messages,
        store::addressed_to(
            d.identity.name,
            store::covered_after(d.store, consumer, seq),
            seq,
        ),
        d.store.last_seq,
    );
    if cfg.auto_receipts && d.identity.name != wire::BROADCAST@ {
        assert forall|x: MsgView| #[trigger] due.contains(x) <==> d.store.messages.contains(x)
            && x.direction == "in"@ && x.to == d.identity.name && (x.seq == seq
            || store::cursor_of(d.store, consumer) < x.seq <= seq) by {
            if d.store.messages.contains(x) {
                let k = choose|k: int|
                    0 <= k < d.store.messages.len() && d.store.messages[k] == x;
                assert(d.store.messages[k].seq >= 1);
            }
        }
    }
}

/// A repeated acknowledgement is answered for the direct message with its number
/// and for no other.
pub proof fn a_repeated_acknowledgement_is_answered_for_its_message(
    d: DaemonView,
    consumer: Seq<char>,
    seq: i64,
    cfg: ConfigView,
)
    requires
        daemon_wf(d),
        seq <= store::cursor_of(d.store, consumer),
    ensures
        receipts_due(d, consumer, seq, cfg).len() <= 1,
        forall|x: MsgView| #[trigger]
            receipts_due(d, consumer, seq, cfg).contains(x) ==> x.seq == seq,
{
    let due = receipts_due(d, consumer, seq, cfg);
    store::a_query_gives_what_matches(
        d.store.messages,
        store::addressed_to(
            d.identity.name,
            store::covered_after(d.store, consumer, seq),
            seq,
        ),
        d.store.last_seq,
    );
    assert forall|x: MsgView| #[trigger] due.contains(x) implies x.seq == seq by {
        let k = choose|k: int| 0 <= k < d.store.messages.len() && d.store.messages[k] == x;
        assert(d.store.messages[k].seq >= 1);
    }
    if due.len() > 1 {
        assert(due.contains(due[0]) && due.contains(due[1]));
        assert(due[0].seq < due[1].seq);
    }
}

/// A new message is stored under the next number and pushed to subscribers, and
/// where it is a direct one its sender gets a delivery receipt, if these are on.
/// Nothing of it is evicted at once, since the bounds hold.
pub proof fn a_new_message_is_stored_and_answered(
    d: DaemonView,
    topic: Seq<char>,
    raw: Seq<u8>,
    cfg: ConfigView,
    t: TrustView,
    m: MomentView,
    i: InnerView,
)
    requires
        daemon_wf(d),
        is_verified(d, raw),
        message::verdict(m.now, raw, d.identity, t, policy_of(cfg)) == Ok::<
            InnerView,
            RejectInfoView,
        >(i),
        is_content(i),
        cfg.require_encryption ==> i.enc is Some,
        i.grant is None,
        !store::has_id(d.store.messages, i.id),
        d.store.last_seq < i64::MAX,
        d.store.messages.len() < cfg.max_messages,
        store::total_bytes(d.store.messages) + encode_utf8(i.body).len() <= cfg.max_bytes,
    ensures
        ({
            let seq = (d.store.last_seq + 1) as i64;
            let row = store::row_of(i, topic, "in"@, "none"@, seq);
            let (d2, pushed) = ingested(d, topic, raw, cfg, t, m);
            let direct = i.to == d.identity.name && i.to != wire::BROADCAST@;
            let receipt = message::plain_inner(
                d.identity,
                receipt_opts(i.from, i.id, ReceiptStatus::Delivered),
                m.fresh,
            );
            &&& pushed == Some(row)
            &&& d2.store.messages.len() > d.store.messages.len()
            &&& d2.store.messages.take(d.store.messages.len() as int + 1) == d.store.messages.push(row)
            &&& !(cfg.auto_receipts && direct) ==> d2.store.outbox == d.store.outbox
            &&& cfg.auto_receipts && direct && !store::is_queued(d.store.outbox, m.fresh.id)
                && d.store.last_outbound < i64::MAX ==> d2.store.outbox == d.store.outbox.push(
                outbound_of(d.identity, receipt, topic, false),
            )
        }),
{
    let seq = (d.store.last_seq + 1) as i64;
    let row = store::row_of(i, topic, "in"@, "none"@, seq);
    let s1 = store::logged(d.store, i, topic, "in"@, "none"@);
    assert(s1.messages.drop_last() =~= d.store.messages);
    store::bounds_that_hold_change_nothing(s1.messages, cfg.max_messages, cfg.max_bytes);
    assert(s1.messages.last() == row);
    let s = kept(d.store, i, topic, cfg);
    assert(s.messages == s1.messages);
    let (d2, pushed) = ingested(d, topic, raw, cfg, t, m);
    assert((d2, pushed) == stored(d, i, topic, cfg, m));
    if cfg.auto_receipts && i.to == d.identity.name && i.to != wire::BROADCAST@ {
        let receipt = message::plain_inner(
            d.identity,
            receipt_opts(i.from, i.id, ReceiptStatus::Delivered),
            m.fresh,
        );
        let s2 = store::logged(s, receipt, topic, "out"@, "pending"@);
        assert(d2.store.messages == s2.messages);
        if s2.messages.len() > s.messages.len() {
            assert(s2.messages.take(s.messages.len() as int) =~= s.messages);
        } else {
            assert(s2.messages.take(s.messages.len() as int) =~= s.messages);
        }
    } else {
        assert(d2.store.messages.take(s.messages.len() as int) =~= s.messages);
    }
}

proof fn lemma_content_types_differ()
    ensures
        wire::CTYPE_RECEIPT@ != wire::CTYPE_PAIR@,
        wire::CTYPE_RECEIPT@ != wire::CTYPE_PRESENCE@,
        wire::CTYPE_PAIR@ != wire::CTYPE_PRESENCE@,
{
    reveal_strlit("application/agentmsg-presence");
    reveal_strlit("application/agentmsg-receipt");
    reveal_strlit("application/agentmsg-pair");
    assert("application/agentmsg-presence"@.len() == 29);
    assert("application/agentmsg-receipt"@.len() == 28);
    assert("application/agentmsg-pair"@.len() == 25);
}

/// What one agent sends, another that trusts it receives: the message is stored
/// as the sender wrote it, under the sender's name, and pushed to subscribers.
pub proof fn a_sent_message_arrives(
    b: IdentityView,
    o: OptsView,
    f: FreshView,
    i: InnerView,
    w: wire::WrapperView,
    a: DaemonView,
    topic: Seq<char>,
    raw: Seq<u8>,
    cfg: ConfigView,
    t: TrustView,
    m: MomentView,
)
    requires
        message::is_built(b, o, f, i, w),
        wire::wrapper_of(raw) == Some(w),
        identity::is_whole(b),
        daemon_wf(a),
        !b.name.contains('#'),
        b.name != a.identity.name,
        cfg.require_encryption ==> o.encrypt_to is Some,
        !o.unsigned,
        o.grant is None,
        o.kind != MsgKind::Receipt,
        o.ctype != wire::CTYPE_PAIR@,
        o.ctype != wire::CTYPE_PRESENCE@,
        o.ctype != wire::CTYPE_RECEIPT@,
        o.encrypt_to matches Some(ek) ==> message::secret_arrives(a.identity, ek, f.secret),
        trust::trusted_key(t, b.name) == Some(b.public_key),
        clock::is_fresh(m.now, f.ts, cfg.freshness_secs),
        encode_utf8(i.body).len() <= cfg.max_payload,
        !store::has_id(a.store.messages, f.id),
        a.store.last_seq < i64::MAX,
        a.store.messages.len() < cfg.max_messages,
        store::total_bytes(a.store.messages) + encode_utf8(o.body).len() <= cfg.max_bytes,
    ensures
        ({
            let seq = (a.store.last_seq + 1) as i64;
            let row = MsgView {
                seq,
                id: f.id,
                direction: "in"@,
                from: b.name,
                to: o.to,
                topic,
                ts: f.ts,
                ctype: o.ctype,
                in_reply_to: o.in_reply_to,
                body: o.body,
                kind: wire::kind_text(o.kind),
                correlation_id: o.correlation_id,
                supersedes: o.supersedes,
                encrypted: o.encrypt_to is Some,
                delivery_state: "none"@,
                broker_ack_ts: None,
                delivered_ts: None,
                read_ts: None,
            };
            let (a2, pushed) = ingested(a, topic, raw, cfg, t, m);
            &&& pushed == Some(row)
            &&& a2.store.messages.contains(row)
        }),
{
    let r = message::as_received(i, o);
    reveal_strlit("ML-KEM-768.AES-256-GCM");
    reveal_strlit("application/agentmsg-pair");
    assert("ML-KEM-768.AES-256-GCM"@.len() == 22);
    assert("application/agentmsg-pair"@.len() == 25);
    message::signed_message_is_received(
        b,
        o,
        f,
        i,
        w,
        raw,
        m.now,
        a.identity,
        t,
        policy_of(cfg),
    );
    wire::kid_splits_into_name_and_fingerprint(b.name, b.public_key);
    assert(message::claimed_sender(w) == Some(b.name));
    assert(peeked(raw) == Some(i));
    a_new_message_is_stored_and_answered(a, topic, raw, cfg, t, m, r);
    let (a2, pushed) = ingested(a, topic, raw, cfg, t, m);
    let n = a.store.messages.len() as int;
    assert(a2.store.messages.take(n + 1)[n] == pushed->0);
    assert(a2.store.messages[n] == pushed->0);
}

/// A receipt that one daemon sends arrives at the other and moves the message it
/// refers to: to delivered, or to read.
pub proof fn a_receipt_marks_its_message(
    b: IdentityView,
    status: ReceiptStatus,
    ref_id: Seq<char>,
    f: FreshView,
    i: InnerView,
    w: wire::WrapperView,
    a: DaemonView,
    topic: Seq<char>,
    raw: Seq<u8>,
    cfg: ConfigView,
    t: TrustView,
    m: MomentView,
)
    requires
        message::is_built(b, receipt_opts(a.identity.name, ref_id, status), f, i, w),
        wire::wrapper_of(raw) == Some(w),
        identity::is_whole(b),
        daemon_wf(a),
        !b.name.contains('#'),
        b.name != a.identity.name,
        trust::trusted_key(t, b.name) == Some(b.public_key),
        clock::is_fresh(m.now, f.ts, cfg.freshness_secs),
    ensures
        ingested(a, topic, raw, cfg, t, m) == (
            (DaemonView {
                store: StoreView {
                    messages: store::all_stepped(
                        a.store.messages,
                        ref_id,
                        match status {
                            ReceiptStatus::Delivered => Step::Delivered(f.ts),
                            ReceiptStatus::Read => Step::Read(f.ts),
                        },
                    ),
                    ..a.store
                },
                ..a
            }),
            None::<MsgView>,
        ),
{
    let o = receipt_opts(a.identity.name, ref_id, status);
    lemma_content_types_differ();
    reveal_strlit("");
    assert(""@ =~= Seq::<char>::empty());
    assert(encode_utf8(""@).len() == 0);
    message::signed_message_is_received(
        b,
        o,
        f,
        i,
        w,
        raw,
        m.now,
        a.identity,
        t,
        policy_of(cfg),
    );
    wire::kid_splits_into_name_and_fingerprint(b.name, b.public_key);
    assert(message::claimed_sender(w) == Some(b.name));
    assert(peeked(raw) == Some(i));
}

/// What is sent goes out on a configured topic: the one that was asked for, or
/// the first.
pub proof fn a_message_goes_to_a_configured_topic(
    d: DaemonView,
    cfg: ConfigView,
    t: TrustView,
    p: ParamsView,
    f: FreshView,
    ob: OutboundView,
)
    requires
        sent(d, cfg, t, p, f).1 == OutcomeView::Publish(ob),
    ensures
        cfg.topics.contains(ob.topic),
        p.topic matches Some(asked) ==> ob.topic == asked,
        p.topic is None ==> ob.topic == cfg.topics[0],
        encode_utf8(p.body).len() <= cfg.max_payload,
{
}

/// Of several hellos under one name the first stands until it is confirmed.
pub proof fn the_first_hello_stands(
    d: DaemonView,
    raw: Seq<u8>,
    peek: InnerView,
    topic: Seq<char>,
    stamp: Seq<char>,
    name: Seq<char>,
)
    requires
        d.pending.contains_key(name),
    ensures
        greeted(d, raw, peek, topic, stamp).pending.contains_key(name),
        greeted(d, raw, peek, topic, stamp).pending[name] == d.pending[name],
{
}

/// Two daemons that see each other's hello show the same code, whichever came
/// first.
pub proof fn both_sides_show_one_code(
    a: IdentityView,
    b: IdentityView,
    ha: HelloView,
    hb: HelloView,
    ta: Seq<char>,
    tb: Seq<char>,
)
    requires
        ha.public_key == a.public_key,
        hb.public_key == b.public_key,
    ensures
        pending_of(a, hb, tb).sas == pending_of(b, ha, ta).sas,
{
    pair::sas_is_symmetric(a.public_key, b.public_key);
}

proof fn lemma_stepped_with_id(ms: Seq<MsgView>, id: Seq<char>, step: Step)
    ensures
        store::with_id(store::all_stepped(ms, id, step), id) == match store::with_id(ms, id) {
            Some(m) => Some(store::stepped(m, id, step)),
            None => None,
        },
    decreases ms.len(),
{
    let after = store::all_stepped(ms, id, step);
    if ms.len() > 0 {
        assert(after.drop_last() =~= store::all_stepped(ms.drop_last(), id, step));
        assert(after.last() == store::stepped(ms.last(), id, step));
        lemma_stepped_with_id(ms.drop_last(), id, step);
    }
}

/// The delivery state of a message in the log.
pub open spec fn state_of(d: DaemonView, id: Seq<char>) -> Option<Seq<char>> {
    match store::with_id(d.store.messages, id) {
        Some(m) => Some(m.delivery_state),
        None => None,
    }
}

/// The life of a message: queued it is pending, handed to the broker it is sent
/// and out of the outbox, and receipts make it delivered and read.
pub proof fn a_message_lives_through_its_states(
    d: DaemonView,
    i: InnerView,
    topic: Seq<char>,
    unsigned: bool,
    stamp: Seq<char>,
    r1: InnerView,
    r2: InnerView,
)
    requires
        daemon_wf(d),
        !store::has_id(d.store.messages, i.id),
        !store::is_queued(d.store.outbox, i.id),
        d.store.last_seq < i64::MAX,
        d.store.last_outbound < i64::MAX,
        r1.receipt == Some(ReceiptView { ref_id: i.id, status: ReceiptStatus::Delivered }),
        r2.receipt == Some(ReceiptView { ref_id: i.id, status: ReceiptStatus::Read }),
    ensures
        ({
            let ob = outbound_of(d.identity, i, topic, unsigned);
            let (d1, out) = posted(d, i, topic, unsigned);
            let d2 = handed_over(d1, i.id, stamp);
            let d3 = DaemonView { store: receipted(d2.store, r1), ..d2 };
            let d4 = DaemonView { store: receipted(d3.store, r2), ..d3 };
            &&& out == OutcomeView::Publish(ob)
            &&& d1.store.outbox == d.store.outbox.push(ob)
            &&& state_of(d1, i.id) == Some("pending"@)
            &&& d2.store.outbox == d.store.outbox
            &&& state_of(d2, i.id) == Some("sent"@)
            &&& state_of(d3, i.id) == Some("delivered"@)
            &&& state_of(d4, i.id) == Some("read"@)
        }),
{
    let ob = outbound_of(d.identity, i, topic, unsigned);
    let s1 = store::logged(d.store, i, topic, "out"@, "pending"@);
    let (d1, out) = posted(d, i, topic, unsigned);
    let d2 = handed_over(d1, i.id, stamp);
    assert(store::outbox_wf(s1.outbox, s1.last_outbound));
    assert(d1.store.outbox.drop_last() =~= d.store.outbox);
    store::lemma_without_absent(d.store.outbox, i.id);
    assert(s1.messages.last().id == i.id);
    lemma_stepped_with_id(d1.store.messages, i.id, Step::Sent(stamp));
    lemma_stepped_with_id(d2.store.messages, i.id, Step::Delivered(r1.ts));
    let d3 = DaemonView { store: receipted(d2.store, r1), ..d2 };
    lemma_stepped_with_id(d3.store.messages, i.id, Step::Read(r2.ts));
    reveal_strlit("failed");
    reveal_strlit("read");
    reveal_strlit("delivered");
    reveal_strlit("sent");
    assert("failed"@.len() == 6 && "read"@.len() == 4 && "delivered"@.len() == 9 && "sent"@.len()
        == 4);
    assert("read"@[0] != "sent"@[0]);
}

/// A request that only asks leaves the daemon as it is: reading, browsing and
/// listing move no cursor and change no message.
pub open spec fn only_asks(req: RequestView) -> bool {
    match req {
        RequestView::Send(_) => false,
        RequestView::Ack { .. } => false,
        RequestView::Reply { .. } => false,
        RequestView::Presence { .. } => false,
        RequestView::PairStart { .. } => false,
        _ => true,
    }
}

/// Requests that only ask change nothing.
pub proof fn questions_change_nothing(
    d: DaemonView,
    req: RequestView,
    cfg: ConfigView,
    t: TrustView,
    connected: bool,
    m: MomentView,
    out: OutcomeView,
    d2: DaemonView,
)
    requires
        handled(d, req, cfg, t, connected, m, out, d2),
        only_asks(req),
    ensures
        d2 == d,
{
}

/// As many read receipts are made ready as an acknowledgement is answered with,
/// and none for any other request.
pub proof fn receipts_are_made_ready_for_acknowledgements(
    d: DaemonView,
    req: RequestView,
    cfg: ConfigView,
)
    ensures
        receipts_needed(d, req, cfg) == match req {
            RequestView::Ack { consumer, seq } => receipts_due(d, consumer, seq, cfg).len(),
            _ => 0,
        },
        !cfg.auto_receipts ==> receipts_needed(d, req, cfg) == 0,
{
}

} // verus!
