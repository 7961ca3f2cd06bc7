//! What the daemon promises of whole requests and whole deliveries, stated on
//! what comes in and what comes out: the fields of messages, of answers and of
//! the store.

use vstd::prelude::*;
use vstd::string::*;
use vstd::utf8::*;

use crate::clock;
use crate::config::ConfigView;
use crate::daemon;
use crate::daemon::{DaemonView, MomentView, OutcomeView};
use crate::error;
use crate::error::{ErrorView, RejectInfoView};
use crate::grant;
use crate::identity::IdentityView;
use crate::ipc::{ParamsView, RequestView, ResponseView};
use crate::kem;
use crate::message;
use crate::message::FreshView;
use crate::presence;
use crate::presence::BeaconView;
use crate::store;
use crate::store::{MsgView, OutboundView, RejectionView, StoreView};
use crate::text;
use crate::trust;
use crate::trust::TrustView;
use crate::wire;
use crate::wire::{GrantView, InnerView, MsgKind, ReceiptStatus, WrapperView};

verus! {

/// The payload is the wrapper `w` around the exact bytes of the message `i`.
pub open spec fn bears(payload: Seq<u8>, w: WrapperView, i: InnerView) -> bool {
    payload == wire::wrapper_bytes(w) && w.msg == wire::base64url(wire::inner_json(i))
}

/// The wrapper is signed by `id` over the exact bytes of the message.
pub open spec fn is_signed_by(id: IdentityView, w: WrapperView, i: InnerView) -> bool {
    &&& w.v == 2
    &&& w.alg == "ML-DSA-65"@
    &&& w.kid == Some(id.name + seq!['#'] + wire::fingerprint_of(id.public_key))
    &&& w.sig == Some(
        wire::base64url(crate::crypto::ml_dsa_signature(id.seed, wire::inner_json(i))),
    )
}

// ---------------------------------------------------------------------------
// Sending.
// ---------------------------------------------------------------------------

/// A published message says what the request asked for. Recipient, kind, links
/// and attached grant are those of the request, the grant being the one that its
/// token stands for; in cleartext the body and the content type are the
/// request's, and an encrypted body is sealed to the key known for the recipient.
#[verifier::rlimit(40)]
pub proof fn a_published_message_says_what_was_asked(
    d: DaemonView,
    p: ParamsView,
    cfg: ConfigView,
    t: TrustView,
    connected: bool,
    m: MomentView,
    ob: OutboundView,
    d2: DaemonView,
)
    requires
        daemon::handled(
            d,
            RequestView::Send(p),
            cfg,
            t,
            connected,
            m,
            OutcomeView::Publish(ob),
            d2,
        ),
    ensures
        ob.id == m.fresh.id,
        ob.qos == 1,
        !ob.retain,
        cfg.topics.contains(ob.topic),
        p.topic matches Some(asked) ==> ob.topic == asked,
        p.topic is None ==> ob.topic == cfg.topics[0],
        exists|w: WrapperView, i: InnerView|
            {
                &&& #[trigger] bears(ob.payload, w, i)
                &&& i.id == m.fresh.id
                &&& i.v == 2
                &&& i.from == d.identity.name
                &&& i.to == p.to
                &&& i.ts == m.fresh.ts
                &&& i.nonce == wire::base64url(m.fresh.nonce)
                &&& i.in_reply_to == p.in_reply_to
                &&& i.correlation_id == p.correlation_id
                &&& i.supersedes == p.supersedes
                &&& i.receipt is None
                &&& wire::kind_named(p.kind) matches Some(k) ==> i.kind == k
                &&& wire::kind_named(p.kind) is None ==> i.kind == MsgKind::Message
                &&& p.grant is None ==> i.grant is None
                &&& p.grant matches Some(token) ==> i.grant is Some && grant::grant_token_of(token)
                    == Ok::<GrantView, ErrorView>(i.grant->0)
                &&& !p.encrypt ==> i.enc is None && i.body == p.body && i.ctype == p.ctype
                &&& p.encrypt ==> (trust::trusted_kem_key(t, p.to) matches Some(ek)
                    && i.enc matches Some(e) && e.ptype == p.ctype && e.recipient_kid
                    == wire::fingerprint_of(ek) && e.kem_ct == wire::base64url(
                    kem::ml_kem_encapsulated(ek, m.fresh.secret).0,
                ) && e.nonce == wire::base64url(m.fresh.aead_nonce) && i.body == wire::base64url(
                    kem::aes_gcm_sealed(
                        kem::ml_kem_encapsulated(ek, m.fresh.secret).1,
                        m.fresh.aead_nonce,
                        encode_utf8(
                            m.fresh.id + "|"@ + d.identity.name + "|"@ + p.to + "|"@ + m.fresh.ts,
                        ),
                        encode_utf8(p.body),
                    ),
                ))
                &&& !p.unsigned ==> is_signed_by(d.identity, w, i)
                &&& p.unsigned ==> w.v == 2 && w.alg == "none"@ && w.kid is None && w.sig is None
            },
{
    let plan = daemon::send_plan(cfg, t, p);
    let (topic, o) = plan->Ok_0;
    let i = message::inner_built(d.identity, o, m.fresh)->Ok_0;
    let w = message::wrapped(d.identity, i, o.unsigned);
    assert(bears(ob.payload, w, i));
}

/// A sent message is logged as one that waits for the broker, with what it says,
/// and queued behind those that wait already; nothing else changes.
pub proof fn a_sent_message_is_logged_and_queued(
    d: DaemonView,
    p: ParamsView,
    cfg: ConfigView,
    t: TrustView,
    connected: bool,
    m: MomentView,
    ob: OutboundView,
    d2: DaemonView,
)
    requires
        daemon::handled(
            d,
            RequestView::Send(p),
            cfg,
            t,
            connected,
            m,
            OutcomeView::Publish(ob),
            d2,
        ),
        !store::has_id(d.store.messages, m.fresh.id),
        !store::is_queued(d.store.outbox, m.fresh.id),
        d.store.last_seq < i64::MAX,
    ensures
        d2.identity == d.identity,
        d2.pending == d.pending,
        d2.store.outbox == d.store.outbox.push(ob),
        d2.store.messages.len() == d.store.messages.len() + 1,
        d2.store.messages.drop_last() == d.store.messages,
        ({
            let x = d2.store.messages.last();
            &&& x.seq == d.store.last_seq + 1
            &&& x.id == ob.id
            &&& x.direction == "out"@
            &&& x.from == d.identity.name
            &&& x.to == p.to
            &&& x.topic == ob.topic
            &&& x.ts == m.fresh.ts
            &&& x.in_reply_to == p.in_reply_to
            &&& x.correlation_id == p.correlation_id
            &&& x.supersedes == p.supersedes
            &&& wire::kind_named(p.kind) is Some ==> wire::kind_named(x.kind) == wire::kind_named(
                p.kind,
            )
            &&& wire::kind_named(p.kind) is None ==> x.kind == "message"@
            &&& x.encrypted == p.encrypt
            &&& !p.encrypt ==> x.body == p.body && x.ctype == p.ctype
            &&& x.delivery_state == "pending"@
            &&& x.broker_ack_ts is None && x.delivered_ts is None && x.read_ts is None
        }),
        d2.store.cursors == d.store.cursors,
        d2.store.rejections == d.store.rejections,
        d2.store.presence == d.store.presence,
        d2.store.seen_grants == d.store.seen_grants,
{
    let (topic, o) = daemon::send_plan(cfg, t, p)->Ok_0;
    let i = message::inner_built(d.identity, o, m.fresh)->Ok_0;
    store::a_logged_message_says_what_was_sent(d.store, i, topic, "out"@, "pending"@);
}

/// A request to send in cleartext is published exactly where its topic, or some
/// topic, is configured, its body is within the limit, cleartext is allowed and
/// the token of its grant is one. What is wrong is told in this order, and
/// nothing changes then.
pub proof fn a_cleartext_request_is_sent_or_refused(
    d: DaemonView,
    p: ParamsView,
    cfg: ConfigView,
    t: TrustView,
    connected: bool,
    m: MomentView,
    out: OutcomeView,
    d2: DaemonView,
)
    requires
        daemon::handled(d, RequestView::Send(p), cfg, t, connected, m, out, d2),
        !p.encrypt,
        d.store.last_outbound < i64::MAX,
    ensures
        ({
            let elsewhere = p.topic matches Some(asked) && !cfg.topics.contains(asked);
            let nowhere = p.topic is None && cfg.topics.len() == 0;
            let long = encode_utf8(p.body).len() > cfg.max_payload;
            let garbled = p.grant matches Some(token) && grant::grant_token_of(token) is Err;
            &&& out is Publish <==> !elsewhere && !nowhere && !long && !cfg.require_encryption
                && !garbled
            &&& out !is Publish ==> d2 == d && (out matches OutcomeView::Reply(
                ResponseView::Error { message },
            ) && {
                &&& elsewhere ==> message == "topic '"@ + p.topic->0
                    + "' is not a configured chat topic"@
                &&& nowhere ==> message == "no chat topic configured"@
                &&& !elsewhere && !nowhere && long ==> message
                    == "payload exceeds configured maximum"@
                &&& !elsewhere && !nowhere && !long && cfg.require_encryption ==> message
                    == "payload encryption is required"@
            })
        }),
{
}

/// A request to send encrypted is refused where no key is known for its
/// recipient, and where it is for everyone; nothing changes then.
pub proof fn an_encrypted_request_needs_the_recipients_key(
    d: DaemonView,
    p: ParamsView,
    cfg: ConfigView,
    t: TrustView,
    connected: bool,
    m: MomentView,
    out: OutcomeView,
    d2: DaemonView,
)
    requires
        daemon::handled(d, RequestView::Send(p), cfg, t, connected, m, out, d2),
        p.encrypt,
        trust::trusted_kem_key(t, p.to) is None || p.to == "*"@,
    ensures
        d2 == d,
        out matches OutcomeView::Reply(ResponseView::Error { .. }),
{
}

/// A published reply goes to the sender of the message that it answers, on the
/// first topic, in cleartext and signed, and says what the request says.
#[verifier::rlimit(40)]
pub proof fn a_published_reply_says_what_was_asked(
    d: DaemonView,
    msg_id: Seq<char>,
    ctype: Seq<char>,
    body: Seq<char>,
    cfg: ConfigView,
    t: TrustView,
    connected: bool,
    m: MomentView,
    ob: OutboundView,
    d2: DaemonView,
)
    requires
        daemon::daemon_wf(d),
        daemon::handled(
            d,
            RequestView::Reply { msg_id, ctype, body },
            cfg,
            t,
            connected,
            m,
            OutcomeView::Publish(ob),
            d2,
        ),
    ensures
        ob.topic == cfg.topics[0],
        exists|x: MsgView, w: WrapperView, i: InnerView|
            {
                &&& #[trigger] d.store.messages.contains(x)
                &&& x.id == msg_id
                &&& #[trigger] bears(ob.payload, w, i)
                &&& is_signed_by(d.identity, w, i)
                &&& i.id == m.fresh.id
                &&& i.from == d.identity.name
                &&& i.to == x.from
                &&& i.ts == m.fresh.ts
                &&& i.in_reply_to == Some(msg_id)
                &&& i.body == body
                &&& i.ctype == ctype
                &&& i.kind == MsgKind::Message
                &&& i.correlation_id is None
                &&& i.supersedes is None
                &&& i.enc is None
                &&& i.grant is None
                &&& i.receipt is None
            },
{
    let x = store::with_id(d.store.messages, msg_id)->0;
    store::a_stored_message_is_found(d.store.messages, d.store.last_seq, MsgView { id: msg_id, ..x });
    let p = daemon::reply_params(x.from, msg_id, ctype, body);
    a_published_message_says_what_was_asked(d, p, cfg, t, connected, m, ob, d2);
    let (w, i) = choose|w: WrapperView, i: InnerView|
        {
            &&& #[trigger] bears(ob.payload, w, i)
            &&& i.id == m.fresh.id
            &&& i.from == d.identity.name
            &&& i.to == p.to
            &&& i.ts == m.fresh.ts
            &&& i.in_reply_to == p.in_reply_to
            &&& i.correlation_id == p.correlation_id
            &&& i.supersedes == p.supersedes
            &&& i.receipt is None
            &&& wire::kind_named(p.kind) matches Some(k) ==> i.kind == k
            &&& wire::kind_named(p.kind) is None ==> i.kind == MsgKind::Message
            &&& p.grant is None ==> i.grant is None
            &&& !p.encrypt ==> i.enc is None && i.body == p.body && i.ctype == p.ctype
            &&& !p.unsigned ==> is_signed_by(d.identity, w, i)
        };
    reveal_strlit("");
    reveal_strlit("message");
    reveal_strlit("command");
    reveal_strlit("query");
    reveal_strlit("result");
    reveal_strlit("ack");
    reveal_strlit("error");
    reveal_strlit("grant");
    reveal_strlit("receipt");
    assert(""@.len() == 0);
    assert("message"@.len() == 7 && "command"@.len() == 7 && "receipt"@.len() == 7);
    assert("query"@.len() == 5 && "error"@.len() == 5 && "grant"@.len() == 5);
    assert("result"@.len() == 6 && "ack"@.len() == 3);
    assert(d.store.messages.contains(x));
    assert(bears(ob.payload, w, i));
}

/// A reply to a message that is not stored is refused and changes nothing.
pub proof fn only_a_stored_message_is_answered(
    d: DaemonView,
    msg_id: Seq<char>,
    ctype: Seq<char>,
    body: Seq<char>,
    cfg: ConfigView,
    t: TrustView,
    connected: bool,
    m: MomentView,
    out: OutcomeView,
    d2: DaemonView,
)
    requires
        daemon::daemon_wf(d),
        daemon::handled(
            d,
            RequestView::Reply { msg_id, ctype, body },
            cfg,
            t,
            connected,
            m,
            out,
            d2,
        ),
        !store::has_id(d.store.messages, msg_id),
    ensures
        d2 == d,
        out == OutcomeView::Reply(
            ResponseView::Error { message: "no message with id "@ + msg_id },
        ),
{
    if let Some(x) = store::with_id(d.store.messages, msg_id) {
        store::a_stored_message_is_found(
            d.store.messages,
            d.store.last_seq,
            MsgView { id: msg_id, ..x },
        );
        let k = choose|k: int| 0 <= k < d.store.messages.len() && d.store.messages[k] == x;
        assert(d.store.messages[k].id == msg_id);
    }
}

// ---------------------------------------------------------------------------
// Receiving.
// ---------------------------------------------------------------------------

/// An accepted message is one to be stored: it passed verification, is neither a
/// presence beacon nor a receipt, is encrypted where that is required, and bears
/// no grant or one that was not used yet.
pub open spec fn is_welcome(
    d: DaemonView,
    raw: Seq<u8>,
    cfg: ConfigView,
    t: TrustView,
    m: MomentView,
    i: InnerView,
) -> bool {
    &&& daemon::is_verified(d, raw)
    &&& message::verdict(m.now, raw, d.identity, t, daemon::policy_of(cfg)) == Ok::<
        InnerView,
        RejectInfoView,
    >(i)
    &&& i.ctype != "application/agentmsg-presence"@
    &&& i.ctype != "application/agentmsg-receipt"@
    &&& i.kind != MsgKind::Receipt
    &&& cfg.require_encryption ==> i.enc is Some
    &&& i.grant matches Some(g) ==> (grant::grant_verdict(m.now, g, t) matches Ok(c) ==> !(
    d.store.seen_grants.contains(c.id)))
}

/// An outbound message whose delivery is not settled.
pub open spec fn is_unsettled(x: MsgView) -> bool {
    &&& x.direction == "out"@
    &&& x.delivery_state != "delivered"@
    &&& x.delivery_state != "read"@
    &&& x.delivery_state != "failed"@
    &&& x.delivery_state != "none"@
}

/// Where no receipt is due, storing an accepted message keeps the store within
/// its bounds: no more messages and no more bytes of bodies than configured,
/// unless every message left is an outbound one that awaits its receipt. What is
/// left was there before or is the new message; whatever awaits its receipt
/// stayed; of the rest the oldest went, and no more of them than had to.
#[verifier::rlimit(40)]
pub proof fn storing_keeps_the_bounds(
    d: DaemonView,
    topic: Seq<char>,
    raw: Seq<u8>,
    cfg: ConfigView,
    t: TrustView,
    m: MomentView,
    i: InnerView,
    all: Seq<MsgView>,
    k: int,
)
    requires
        daemon::daemon_wf(d),
        is_welcome(d, raw, cfg, t, m, i),
        !store::has_id(d.store.messages, i.id),
        d.store.last_seq < i64::MAX,
        !cfg.auto_receipts || i.to != d.identity.name || i.to == "*"@,
        all.len() == d.store.messages.len() + 1,
        all.drop_last() == d.store.messages,
        all.last().seq == d.store.last_seq + 1,
        all.last().id == i.id,
        all.last().direction == "in"@,
        all.last().from == i.from,
        all.last().to == i.to,
        all.last().topic == topic,
        all.last().ts == i.ts,
        all.last().ctype == i.ctype,
        all.last().in_reply_to == i.in_reply_to,
        all.last().body == i.body,
        all.last().kind == wire::kind_text(i.kind),
        all.last().correlation_id == i.correlation_id,
        all.last().supersedes == i.supersedes,
        all.last().encrypted == (i.enc is Some),
        all.last().delivery_state == "none"@,
        all.last().broker_ack_ts is None,
        all.last().delivered_ts is None,
        all.last().read_ts is None,
        0 <= k < all.len(),
    ensures
        ({
            let left = daemon::ingested(d, topic, raw, cfg, t, m).0.store.messages;
            &&& (left.len() <= cfg.max_messages && store::total_bytes(left) <= cfg.max_bytes) || (
            forall|j: int| 0 <= j < left.len() ==> is_unsettled(#[trigger] left[j]))
            &&& forall|j: int| 0 <= j < left.len() ==> all.contains(#[trigger] left[j])
            &&& is_unsettled(all[k]) ==> left.contains(all[k])
            &&& left.contains(all[k]) && !is_unsettled(all[k]) ==> forall|j: int|
                k < j < all.len() ==> left.contains(#[trigger] all[j])
            &&& !left.contains(all[k]) ==> exists|j: int|
                0 <= j < all.len() && !left.contains(#[trigger] all[j]) && (left.len() + 1
                    > cfg.max_messages || store::total_bytes(left) + encode_utf8(
                    all[j].body,
                ).len() > cfg.max_bytes)
            &&& (d.store.messages.len() < cfg.max_messages && store::total_bytes(d.store.messages)
                + encode_utf8(i.body).len() <= cfg.max_bytes) ==> left == all
        }),
{
    lemma_kept(d, topic, raw, cfg, t, m, i, all);
    lemma_appended_wf(d.store, all);
    store::bounds_leave_what_is_allowed(
        all,
        cfg.max_messages,
        cfg.max_bytes,
        (d.store.last_seq + 1) as i64,
        k,
    );
    if !store::bounded(all, cfg.max_messages, cfg.max_bytes).contains(all[k]) {
        store::nothing_is_evicted_in_vain(
            all,
            cfg.max_messages,
            cfg.max_bytes,
            (d.store.last_seq + 1) as i64,
            k,
        );
    }
    if d.store.messages.len() < cfg.max_messages && store::total_bytes(d.store.messages)
        + encode_utf8(i.body).len() <= cfg.max_bytes {
        store::bounds_that_hold_change_nothing(all, cfg.max_messages, cfg.max_bytes);
    }
}

proof fn lemma_appended_wf(s: StoreView, all: Seq<MsgView>)
    requires
        store::store_wf(s),
        s.last_seq < i64::MAX,
        all.len() == s.messages.len() + 1,
        all.drop_last() == s.messages,
        all.last().seq == s.last_seq + 1,
        !store::has_id(s.messages, all.last().id),
    ensures
        store::messages_wf(all, (s.last_seq + 1) as i64),
{
    assert forall|a: int| 0 <= a < all.len() implies 1 <= (#[trigger] all[a]).seq <= s.last_seq
        + 1 by {
        if a < s.messages.len() {
            assert(all[a] == s.messages[a]);
        }
    }
    assert forall|a: int, b: int| 0 <= a < b < all.len() implies (#[trigger] all[a]).seq < (
    #[trigger] all[b]).seq && all[a].id != all[b].id by {
        assert(all[a] == s.messages[a]);
        if b < s.messages.len() {
            assert(all[b] == s.messages[b]);
        }
    }
}

#[verifier::rlimit(40)]
proof fn lemma_kept(
    d: DaemonView,
    topic: Seq<char>,
    raw: Seq<u8>,
    cfg: ConfigView,
    t: TrustView,
    m: MomentView,
    i: InnerView,
    all: Seq<MsgView>,
)
    requires
        is_welcome(d, raw, cfg, t, m, i),
        !store::has_id(d.store.messages, i.id),
        d.store.last_seq < i64::MAX,
        all.len() == d.store.messages.len() + 1,
        all.drop_last() == d.store.messages,
        all.last() == store::row_of(i, topic, "in"@, "none"@, (d.store.last_seq + 1) as i64),
    ensures
        ({
            let d2 = daemon::ingested(d, topic, raw, cfg, t, m).0;
            let left = store::bounded(all, cfg.max_messages, cfg.max_bytes);
            let direct = cfg.auto_receipts && i.to == d.identity.name && i.to != "*"@;
            let r = message::plain_inner(
                d.identity,
                daemon::receipt_opts(i.from, i.id, ReceiptStatus::Delivered),
                m.fresh,
            );
            &&& !direct ==> d2.store.messages == left && d2.store.outbox == d.store.outbox
                && d2.store.last_outbound == d.store.last_outbound && d2.store.last_seq
                == d.store.last_seq + 1
            &&& direct ==> {
                let s1 = StoreView {
                    messages: left,
                    last_seq: (d.store.last_seq + 1) as i64,
                    seen_grants: d2.store.seen_grants,
                    ..d.store
                };
                d2.store == store::queued(
                    store::logged(s1, r, topic, "out"@, "pending"@),
                    daemon::outbound_of(d.identity, r, topic, false),
                )
            }
        }),
{
    assert(all =~= d.store.messages.push(all.last()));
    let d1 = match daemon::used_claim(i, t, m.now) {
        Some(id) => DaemonView { store: store::used_grant(d.store, id), ..d },
        None => d,
    };
    assert(daemon::ingested(d, topic, raw, cfg, t, m) == daemon::stored(d1, i, topic, cfg, m));
    assert(d1.store.messages == d.store.messages);
}

/// Where receipts are on, a new message to this agent is answered: the message
/// is stored within the bounds as it is without receipts, and behind it the
/// receipt is logged and queued on the topic where the message came. The receipt
/// goes to the sender, names the message and says that it was delivered.
#[verifier::rlimit(40)]
pub proof fn a_direct_message_is_answered(
    d: DaemonView,
    topic: Seq<char>,
    raw: Seq<u8>,
    cfg: ConfigView,
    t: TrustView,
    m: MomentView,
    i: InnerView,
)
    requires
        daemon::daemon_wf(d),
        is_welcome(d, raw, cfg, t, m, i),
        !store::has_id(d.store.messages, i.id),
        !store::has_id(d.store.messages, m.fresh.id),
        m.fresh.id != i.id,
        !store::is_queued(d.store.outbox, m.fresh.id),
        d.store.last_seq + 1 < i64::MAX,
        d.store.last_outbound < i64::MAX,
        cfg.auto_receipts,
        i.to == d.identity.name,
        i.to != "*"@,
    ensures
        ({
            let d2 = daemon::ingested(d, topic, raw, cfg, t, m).0;
            let off = ConfigView { auto_receipts: false, ..cfg };
            let without = daemon::ingested(d, topic, raw, off, t, m).0;
            let x = d2.store.messages.last();
            let ob = d2.store.outbox.last();
            &&& d2.store.messages.len() == without.store.messages.len() + 1
            &&& d2.store.messages.drop_last() == without.store.messages
            &&& x.id == m.fresh.id
            &&& x.direction == "out"@
            &&& x.from == d.identity.name
            &&& x.to == i.from
            &&& x.topic == topic
            &&& x.delivery_state == "pending"@
            &&& x.kind == "receipt"@
            &&& d2.store.outbox.len() == d.store.outbox.len() + 1
            &&& d2.store.outbox.drop_last() == d.store.outbox
            &&& ob.id == m.fresh.id
            &&& ob.topic == topic
            &&& exists|w: WrapperView, r: InnerView|
                #[trigger] bears(ob.payload, w, r) && is_signed_by(d.identity, w, r)
                    && is_receipt_for(r, i.from, i.id, ReceiptStatus::Delivered) && r.from
                    == d.identity.name && r.id == m.fresh.id && r.ts == m.fresh.ts
        }),
{
    let seq = (d.store.last_seq + 1) as i64;
    let row = store::row_of(i, topic, "in"@, "none"@, seq);
    let all = d.store.messages.push(row);
    let off = ConfigView { auto_receipts: false, ..cfg };
    assert(all.drop_last() =~= d.store.messages);
    assert(daemon::policy_of(off) == daemon::policy_of(cfg));
    assert(is_welcome(d, raw, off, t, m, i));
    lemma_kept(d, topic, raw, cfg, t, m, i, all);
    lemma_kept(d, topic, raw, off, t, m, i, all);
    lemma_appended_wf(d.store, all);
    let left = store::bounded(all, cfg.max_messages, cfg.max_bytes);
    store::bounds_leave_what_is_allowed(all, cfg.max_messages, cfg.max_bytes, seq, 0);
    assert(!store::has_id(left, m.fresh.id)) by {
        if store::has_id(left, m.fresh.id) {
            let j = choose|j: int| 0 <= j < left.len() && (#[trigger] left[j]).id == m.fresh.id;
            assert(all.contains(left[j]));
            let n = choose|n: int| 0 <= n < all.len() && all[n] == left[j];
            if n < d.store.messages.len() {
                assert(d.store.messages[n].id == m.fresh.id);
            }
        }
    }
    let d2 = daemon::ingested(d, topic, raw, cfg, t, m).0;
    let r = message::plain_inner(
        d.identity,
        daemon::receipt_opts(i.from, i.id, ReceiptStatus::Delivered),
        m.fresh,
    );
    let ob = daemon::outbound_of(d.identity, r, topic, false);
    assert(d2.store.outbox.drop_last() =~= d.store.outbox);
    assert(d2.store.outbox.last() == ob);
    assert(d2.store.messages.drop_last() =~= left);
    assert(bears(ob.payload, message::wrapped(d.identity, r, false), r));
}

/// `r` is a receipt to `to` for the message `ref_id`.
pub open spec fn is_receipt_for(
    r: InnerView,
    to: Seq<char>,
    ref_id: Seq<char>,
    status: ReceiptStatus,
) -> bool {
    &&& r.v == 2
    &&& r.to == to
    &&& r.kind == MsgKind::Receipt
    &&& r.ctype == "application/agentmsg-receipt"@
    &&& r.body == ""@
    &&& r.receipt matches Some(x) && x.ref_id == ref_id && x.status == status
    &&& r.in_reply_to is None
    &&& r.correlation_id is None
    &&& r.supersedes is None
    &&& r.enc is None
    &&& r.grant is None
}

/// What is not for this agent alone, and everything where receipts are off, is
/// not answered.
pub proof fn no_receipt_where_none_is_due(
    d: DaemonView,
    topic: Seq<char>,
    raw: Seq<u8>,
    cfg: ConfigView,
    t: TrustView,
    m: MomentView,
    i: InnerView,
)
    requires
        is_welcome(d, raw, cfg, t, m, i),
        !cfg.auto_receipts || i.to != d.identity.name || i.to == "*"@,
    ensures
        daemon::ingested(d, topic, raw, cfg, t, m).0.store.outbox == d.store.outbox,
{
}

/// What is pushed to subscribers is the stored message, with the next number and
/// what the sender wrote; a message with a known id is not pushed and changes no
/// message.
#[verifier::rlimit(40)]
pub proof fn the_stored_message_is_pushed(
    d: DaemonView,
    topic: Seq<char>,
    raw: Seq<u8>,
    cfg: ConfigView,
    t: TrustView,
    m: MomentView,
    i: InnerView,
)
    requires
        daemon::daemon_wf(d),
        is_welcome(d, raw, cfg, t, m, i),
        d.store.last_seq < i64::MAX,
    ensures
        ({
            let (d2, pushed) = daemon::ingested(d, topic, raw, cfg, t, m);
            &&& store::has_id(d.store.messages, i.id) ==> pushed is None && d2.store.messages
                == d.store.messages && d2.store.outbox == d.store.outbox
            &&& pushed matches Some(x) ==> {
                &&& x.seq == d.store.last_seq + 1
                &&& x.id == i.id
                &&& x.direction == "in"@
                &&& x.from == i.from
                &&& x.to == i.to
                &&& x.topic == topic
                &&& x.ts == i.ts
                &&& x.ctype == i.ctype
                &&& x.in_reply_to == i.in_reply_to
                &&& x.body == i.body
                &&& wire::kind_named(x.kind) == Some(i.kind)
                &&& x.correlation_id == i.correlation_id
                &&& x.supersedes == i.supersedes
                &&& x.encrypted == (i.enc is Some)
            }
            &&& !store::has_id(d.store.messages, i.id) && d.store.messages.len() < cfg.max_messages
                && store::total_bytes(d.store.messages) + encode_utf8(i.body).len()
                <= cfg.max_bytes ==> pushed is Some
        }),
{
    wire::kind_is_found_by_its_name(i.kind);
    if !store::has_id(d.store.messages, i.id) {
        let seq = (d.store.last_seq + 1) as i64;
        let row = store::row_of(i, topic, "in"@, "none"@, seq);
        let all = d.store.messages.push(row);
        assert(all.drop_last() =~= d.store.messages);
        lemma_kept(d, topic, raw, cfg, t, m, i, all);
        lemma_appended_wf(d.store, all);
        let left = store::bounded(all, cfg.max_messages, cfg.max_bytes);
        store::bounds_leave_what_is_allowed(all, cfg.max_messages, cfg.max_bytes, seq, 0);
        store::lemma_bounded_wf(all, cfg.max_messages, cfg.max_bytes, seq);
        let d1 = match daemon::used_claim(i, t, m.now) {
            Some(id) => DaemonView { store: store::used_grant(d.store, id), ..d },
            None => d,
        };
        assert(daemon::ingested(d, topic, raw, cfg, t, m) == daemon::stored(d1, i, topic, cfg, m));
        let pushed = daemon::ingested(d, topic, raw, cfg, t, m).1;
        assert(pushed == store::with_seq(left, seq));
        if let Some(x) = pushed {
            store::a_stored_message_is_found(left, seq, MsgView { seq, ..x });
            assert(left.contains(x));
            let j = choose|j: int| 0 <= j < left.len() && left[j] == x;
            assert(all.contains(left[j]));
            let n = choose|n: int| 0 <= n < all.len() && all[n] == x;
            if n < d.store.messages.len() {
                assert(d.store.messages[n].seq <= d.store.last_seq);
            }
            assert(x == row);
        }
        if d.store.messages.len() < cfg.max_messages && store::total_bytes(d.store.messages)
            + encode_utf8(i.body).len() <= cfg.max_bytes {
            store::bounds_that_hold_change_nothing(all, cfg.max_messages, cfg.max_bytes);
            assert(all.last().seq == seq);
        }
    }
}

proof fn lemma_kid_names(w: WrapperView, name: Seq<char>, fp: Seq<char>)
    requires
        w.kid == Some(name + seq!['#'] + fp),
        !name.contains('#'),
    ensures
        message::claimed_sender(w) == Some(name),
{
    let kid = name + seq!['#'] + fp;
    let n = name.len() as int;
    kid.index_of_first_ensures('#');
    assert(kid[n] == '#');
    assert(kid.contains('#'));
    let k = kid.index_of_first('#').unwrap();
    if k < n {
        assert(name[k] == kid[k]);
        assert(name.contains('#'));
    }
    assert(kid.take(n) =~= name);
}

/// What comes under the daemon's own name changes nothing, and what comes under
/// another name and is no pairing hello is verified.
pub proof fn only_others_are_listened_to(
    d: DaemonView,
    topic: Seq<char>,
    raw: Seq<u8>,
    cfg: ConfigView,
    t: TrustView,
    m: MomentView,
    w: WrapperView,
    name: Seq<char>,
    fp: Seq<char>,
)
    requires
        wire::wrapper_of(raw) == Some(w),
        w.kid == Some(name + seq!['#'] + fp),
        !name.contains('#'),
    ensures
        name == d.identity.name ==> daemon::ingested(d, topic, raw, cfg, t, m) == (
            d,
            None::<MsgView>,
        ),
        name != d.identity.name && !(wire::unbase64(w.msg) matches Some(b) && (wire::inner_of(
            b,
        ) matches Some(i) && i.ctype == "application/agentmsg-pair"@)) ==> daemon::is_verified(
            d,
            raw,
        ),
{
    lemma_kid_names(w, name, fp);
}

/// A valid pairing hello of another agent makes its sender pending, with the name
/// and the keys that it advertises, the code of both keys and the time of the
/// hello, unless the name is pending already; it needs no trust and changes
/// nothing else.
#[verifier::rlimit(40)]
pub proof fn a_hello_makes_its_sender_pending(
    d: DaemonView,
    topic: Seq<char>,
    raw: Seq<u8>,
    cfg: ConfigView,
    t: TrustView,
    m: MomentView,
    w: WrapperView,
    name: Seq<char>,
    fp: Seq<char>,
    b: Seq<u8>,
    i: InnerView,
)
    requires
        wire::wrapper_of(raw) == Some(w),
        w.kid == Some(name + seq!['#'] + fp),
        !name.contains('#'),
        name != d.identity.name,
        wire::unbase64(w.msg) == Some(b),
        wire::inner_of(b) == Some(i),
        i.ctype == "application/agentmsg-pair"@,
    ensures
        ({
            let (d2, pushed) = daemon::ingested(d, topic, raw, cfg, t, m);
            &&& pushed is None
            &&& d2.identity == d.identity
            &&& message::hello_verdict(raw) matches Ok(h) ==> {
                &&& d2.store == d.store
                &&& d2.pending.contains_key(h.name)
                &&& d2.pending.dom() == d.pending.dom().insert(h.name)
                &&& d.pending.contains_key(h.name) ==> d2.pending == d.pending
                &&& !d.pending.contains_key(h.name) ==> {
                    let x = d2.pending[h.name];
                    &&& x.name == h.name
                    &&& x.public_key == h.public_key
                    &&& x.kem_public_key == h.kem_public_key
                    &&& x.sas == crate::pair::sas_of(d.identity.public_key, h.public_key)
                    &&& x.first_seen == i.ts
                }
                &&& forall|n: Seq<char>| #[trigger]
                    d.pending.contains_key(n) ==> d2.pending[n] == d.pending[n]
            }
            &&& message::hello_verdict(raw) matches Err(e) ==> d2.pending == d.pending
                && d2.store.messages == d.store.messages && d2.store.outbox == d.store.outbox && (
            d.store.last_rejection < i64::MAX ==> {
                let r = d2.store.rejections.last();
                &&& d2.store.rejections.len() == d.store.rejections.len() + 1
                &&& r.reason == error::reject_code(e)
                &&& r.claimed_sender == Some(i.from)
                &&& r.topic == Some(topic)
                &&& r.detail == "pairing hello"@
                &&& r.at == m.stamp
            })
        }),
{
    lemma_kid_names(w, name, fp);
    let (d2, pushed) = daemon::ingested(d, topic, raw, cfg, t, m);
    if let Ok(h) = message::hello_verdict(raw) {
        assert(d2.pending.dom() =~= d.pending.dom().insert(h.name));
    }
}

/// The last rejection of `s2` is recorded behind those of `s`, and all else stands.
pub open spec fn is_recorded(
    s: StoreView,
    s2: StoreView,
    reason: Seq<char>,
    sender: Option<Seq<char>>,
    topic: Seq<char>,
    at: Seq<char>,
) -> bool {
    let r = s2.rejections.last();
    &&& s2.rejections.len() == s.rejections.len() + 1
    &&& s2.rejections.drop_last() == s.rejections
    &&& r.seq == s.last_rejection + 1
    &&& r.reason == reason
    &&& r.claimed_sender == sender
    &&& r.topic == Some(topic)
    &&& r.at == at
    &&& r.detail == ""@
    &&& s2.messages == s.messages
    &&& s2.outbox == s.outbox
    &&& s2.cursors == s.cursors
    &&& s2.presence == s.presence
    &&& s2.seen_grants == s.seen_grants
}

/// What is recorded behind others leaves them as they are.
proof fn lemma_recorded_last(rs: Seq<RejectionView>)
    ensures
        forall|r: RejectionView| (#[trigger] rs.push(r)).drop_last() == rs,
{
    assert forall|r: RejectionView| (#[trigger] rs.push(r)).drop_last() == rs by {
        assert(rs.push(r).drop_last() =~= rs);
    }
}

/// The configuration decides about a signed message of a known agent: one with a
/// longer body than configured, or from further off than the configured window,
/// is refused and only recorded, under its sender and with its reason.
#[verifier::rlimit(40)]
pub proof fn the_configuration_limits_size_and_age(
    d: DaemonView,
    topic: Seq<char>,
    raw: Seq<u8>,
    cfg: ConfigView,
    t: TrustView,
    m: MomentView,
    w: WrapperView,
    pk: Seq<u8>,
    b: Seq<u8>,
    sig: Seq<u8>,
    i: InnerView,
)
    requires
        wire::wrapper_of(raw) == Some(w),
        w.v == 2,
        w.alg == "ML-DSA-65"@,
        wire::inner_of(b) == Some(i),
        message::is_authentic(w, t, i.from, pk, b, sig),
        !i.from.contains('#'),
        i.from != d.identity.name,
        i.ctype != "application/agentmsg-pair"@,
        i.enc is None,
        i.grant is None,
        d.store.last_rejection < i64::MAX,
    ensures
        ({
            let (d2, pushed) = daemon::ingested(d, topic, raw, cfg, t, m);
            let long = encode_utf8(i.body).len() > cfg.max_payload;
            let off = cfg.freshness_secs > 0 && !(clock::rfc3339_nanos(i.ts) matches Some(at) && (at
                - m.now) < (cfg.freshness_secs + 1) * 1_000_000_000 && (m.now - at) < (
            cfg.freshness_secs + 1) * 1_000_000_000);
            &&& long ==> pushed is None && is_recorded(
                d.store,
                d2.store,
                "too_large"@,
                Some(i.from),
                topic,
                m.stamp,
            )
            &&& !long && off ==> pushed is None && is_recorded(
                d.store,
                d2.store,
                "stale"@,
                Some(i.from),
                topic,
                m.stamp,
            )
            &&& !long && !off ==> message::verdict(
                m.now,
                raw,
                d.identity,
                t,
                daemon::policy_of(cfg),
            ) is Ok
        }),
{
    message::an_authentic_message_is_given_out_whole(
        m.now,
        raw,
        d.identity,
        t,
        daemon::policy_of(cfg),
        w,
        pk,
        b,
        sig,
        i,
    );
    lemma_kid_names(w, i.from, wire::fingerprint_of(pk));
    lemma_recorded_last(d.store.rejections);
}

/// The configuration decides about unsigned messages and about those of the first
/// version: where it does not allow them they are refused and only recorded.
pub proof fn the_configuration_limits_what_is_understood(
    d: DaemonView,
    topic: Seq<char>,
    raw: Seq<u8>,
    cfg: ConfigView,
    t: TrustView,
    m: MomentView,
    w: WrapperView,
)
    requires
        wire::wrapper_of(raw) == Some(w),
        daemon::is_verified(d, raw),
        d.store.last_rejection < i64::MAX,
    ensures
        ({
            let (d2, pushed) = daemon::ingested(d, topic, raw, cfg, t, m);
            let sender = message::claimed_sender(w);
            &&& w.v == 1 && !cfg.accept_v1 ==> pushed is None && is_recorded(
                d.store,
                d2.store,
                "unsupported_version"@,
                sender,
                topic,
                m.stamp,
            )
            &&& w.v == 2 && w.alg == "none"@ && !cfg.allow_unsigned ==> pushed is None
                && is_recorded(
                d.store,
                d2.store,
                "unsigned_not_allowed"@,
                sender,
                topic,
                m.stamp,
            )
        }),
{
    lemma_recorded_last(d.store.rejections);
}

/// An accepted message in cleartext where encryption is required, and one whose
/// grant was used before, are refused and only recorded, under their sender.
pub proof fn a_refusal_behind_verification_is_recorded(
    d: DaemonView,
    topic: Seq<char>,
    raw: Seq<u8>,
    cfg: ConfigView,
    t: TrustView,
    m: MomentView,
    i: InnerView,
)
    requires
        daemon::is_verified(d, raw),
        message::verdict(m.now, raw, d.identity, t, daemon::policy_of(cfg)) == Ok::<
            InnerView,
            RejectInfoView,
        >(i),
        i.ctype != "application/agentmsg-presence"@,
        i.ctype != "application/agentmsg-receipt"@,
        i.kind != MsgKind::Receipt,
        d.store.last_rejection < i64::MAX,
    ensures
        ({
            let (d2, pushed) = daemon::ingested(d, topic, raw, cfg, t, m);
            let bare = cfg.require_encryption && i.enc is None;
            let again = i.grant matches Some(g) && (grant::grant_verdict(m.now, g, t) matches Ok(c)
                && d.store.seen_grants.contains(c.id));
            &&& bare ==> pushed is None && is_recorded(
                d.store,
                d2.store,
                "encryption_required"@,
                Some(i.from),
                topic,
                m.stamp,
            )
            &&& !bare && again ==> pushed is None && is_recorded(
                d.store,
                d2.store,
                "replayed_grant"@,
                Some(i.from),
                topic,
                m.stamp,
            )
            &&& !bare && !again ==> d2.store.rejections == d.store.rejections
            &&& !bare ==> (i.grant matches Some(g) ==> (grant::grant_verdict(
                m.now,
                g,
                t,
            ) matches Ok(c) ==> d2.store.seen_grants.contains(c.id)))
        }),
{
    lemma_recorded_last(d.store.rejections);
    if let Some(id) = daemon::used_claim(i, t, m.now) {
        let d1 = DaemonView { store: store::used_grant(d.store, id), ..d };
        assert(daemon::stored(d1, i, topic, cfg, m).0.store.seen_grants == d1.store.seen_grants);
        assert(daemon::stored(d1, i, topic, cfg, m).0.store.rejections == d1.store.rejections);
    } else {
        assert(daemon::stored(d, i, topic, cfg, m).0.store.rejections == d.store.rejections);
    }
}

/// An accepted presence beacon is noted as what its sender says of itself, at its
/// timestamp, unless a beacon of that sender with a higher number stands. It is
/// not stored as a message and not pushed.
#[verifier::rlimit(40)]
pub proof fn an_accepted_beacon_is_noted(
    d: DaemonView,
    topic: Seq<char>,
    raw: Seq<u8>,
    cfg: ConfigView,
    t: TrustView,
    m: MomentView,
    i: InnerView,
    b: BeaconView,
)
    requires
        daemon::is_verified(d, raw),
        message::verdict(m.now, raw, d.identity, t, daemon::policy_of(cfg)) == Ok::<
            InnerView,
            RejectInfoView,
        >(i),
        i.ctype == "application/agentmsg-presence"@,
        presence::beacon_of(i.body) == Some(b),
    ensures
        ({
            let (d2, pushed) = daemon::ingested(d, topic, raw, cfg, t, m);
            let newer = !d.store.presence.contains_key(i.from) || d.store.presence[i.from].seq
                <= b.seq;
            &&& pushed is None
            &&& d2.identity == d.identity && d2.pending == d.pending
            &&& d2.store.messages == d.store.messages
            &&& d2.store.outbox == d.store.outbox
            &&& d2.store.rejections == d.store.rejections
            &&& d2.store.cursors == d.store.cursors
            &&& d2.store.presence.contains_key(i.from)
            &&& !newer ==> d2.store.presence == d.store.presence
            &&& newer ==> {
                let x = d2.store.presence[i.from];
                &&& x.agent == i.from
                &&& x.state == Some(b.state)
                &&& x.source == Some(b.source)
                &&& x.ttl_secs == Some(b.ttl_secs)
                &&& x.detail == b.detail
                &&& x.seq == b.seq
                &&& x.last_seen == i.ts
            }
            &&& forall|n: Seq<char>|
                n != i.from ==> (#[trigger] d2.store.presence.contains_key(n)
                    == d.store.presence.contains_key(n)) && (d.store.presence.contains_key(n)
                    ==> d2.store.presence[n] == d.store.presence[n])
        }),
{
}

/// An accepted receipt makes the outbound message that it names delivered or
/// read, at the receipt's timestamp, and changes nothing else. A message that was
/// read does not become delivered, and one that failed becomes neither.
pub proof fn an_accepted_receipt_is_noted(
    d: DaemonView,
    topic: Seq<char>,
    raw: Seq<u8>,
    cfg: ConfigView,
    t: TrustView,
    m: MomentView,
    i: InnerView,
    r: wire::ReceiptView,
    k: int,
)
    requires
        daemon::is_verified(d, raw),
        message::verdict(m.now, raw, d.identity, t, daemon::policy_of(cfg)) == Ok::<
            InnerView,
            RejectInfoView,
        >(i),
        i.ctype != "application/agentmsg-presence"@,
        i.kind == MsgKind::Receipt || i.ctype == "application/agentmsg-receipt"@,
        i.receipt == Some(r),
        0 <= k < d.store.messages.len(),
    ensures
        ({
            let (d2, pushed) = daemon::ingested(d, topic, raw, cfg, t, m);
            let x = d.store.messages[k];
            let y = d2.store.messages[k];
            let named = x.id == r.ref_id && x.direction == "out"@ && x.delivery_state != "failed"@;
            &&& pushed is None
            &&& d2.identity == d.identity && d2.pending == d.pending
            &&& d2.store.messages.len() == d.store.messages.len()
            &&& d2.store.outbox == d.store.outbox
            &&& d2.store.cursors == d.store.cursors
            &&& d2.store.rejections == d.store.rejections
            &&& d2.store.presence == d.store.presence
            &&& !named ==> y == x
            &&& named && r.status == ReceiptStatus::Read ==> y == (MsgView {
                delivery_state: "read"@,
                read_ts: Some(i.ts),
                ..x
            })
            &&& named && r.status == ReceiptStatus::Delivered && x.delivery_state == "read"@ ==> y
                == x
            &&& named && r.status == ReceiptStatus::Delivered && x.delivery_state != "read"@ ==> y
                == (MsgView { delivery_state: "delivered"@, delivered_ts: Some(i.ts), ..x })
        }),
{
}

// ---------------------------------------------------------------------------
// Acknowledging, presence and pairing.
// ---------------------------------------------------------------------------

proof fn lemma_receipts_move_no_cursor(
    s: StoreView,
    id: IdentityView,
    ms: Seq<MsgView>,
    fs: Seq<FreshView>,
)
    ensures
        daemon::with_read_receipts(s, id, ms, fs).cursors == s.cursors,
        daemon::with_read_receipts(s, id, ms, fs).rejections == s.rejections,
        daemon::with_read_receipts(s, id, ms, fs).presence == s.presence,
        daemon::with_read_receipts(s, id, ms, fs).seen_grants == s.seen_grants,
    decreases ms.len(),
{
    if ms.len() > 0 {
        lemma_receipts_move_no_cursor(s, id, ms.drop_last(), fs);
    }
}

/// An acknowledgement moves the consumer's cursor up to the number and never
/// back, touches no other consumer's, and is answered as done.
pub proof fn an_acknowledgement_moves_the_cursor(
    d: DaemonView,
    consumer: Seq<char>,
    seq: i64,
    other: Seq<char>,
    cfg: ConfigView,
    t: TrustView,
    connected: bool,
    m: MomentView,
    out: OutcomeView,
    d2: DaemonView,
)
    requires
        daemon::handled(
            d,
            RequestView::Ack { consumer, seq },
            cfg,
            t,
            connected,
            m,
            out,
            d2,
        ),
        other != consumer,
    ensures
        out == OutcomeView::Reply(ResponseView::Done),
        d2.identity == d.identity,
        d2.pending == d.pending,
        d2.store.cursors.contains_key(consumer),
        !d.store.cursors.contains_key(consumer) || d.store.cursors[consumer].last_seq < seq
            ==> d2.store.cursors[consumer].last_seq == seq
            && d2.store.cursors[consumer].updated_at == Some(m.stamp),
        d.store.cursors.contains_key(consumer) && d.store.cursors[consumer].last_seq >= seq
            ==> d2.store.cursors[consumer] == d.store.cursors[consumer],
        d2.store.cursors.contains_key(other) == d.store.cursors.contains_key(other),
        d.store.cursors.contains_key(other) ==> d2.store.cursors[other] == d.store.cursors[other],
        d2.store.rejections == d.store.rejections,
        d2.store.presence == d.store.presence,
        d2.store.seen_grants == d.store.seen_grants,
{
    lemma_receipts_move_no_cursor(
        store::acked(d.store, consumer, seq, m.stamp),
        d.identity,
        daemon::receipts_due(d, consumer, seq, cfg),
        m.receipts,
    );
}

/// Where receipts are on, an acknowledgement queues one signed read receipt for
/// each direct message that it newly covers, and for the one with its number, in
/// their order: to the sender of the message, on the topic where the message
/// came. Nothing is queued where receipts are off.
#[verifier::rlimit(40)]
pub proof fn read_receipts_name_what_was_read(
    d: DaemonView,
    consumer: Seq<char>,
    seq: i64,
    cfg: ConfigView,
    t: TrustView,
    connected: bool,
    m: MomentView,
    out: OutcomeView,
    d2: DaemonView,
    due: Seq<MsgView>,
    k: int,
)
    requires
        daemon::daemon_wf(d),
        daemon::handled(
            d,
            RequestView::Ack { consumer, seq },
            cfg,
            t,
            connected,
            m,
            out,
            d2,
        ),
        cfg.auto_receipts,
        d.identity.name != "*"@,
        forall|x: MsgView| #[trigger]
            due.contains(x) <==> d.store.messages.contains(x) && x.direction == "in"@ && x.to
                == d.identity.name && (x.seq == seq || store::cursor_of(d.store, consumer) < x.seq
                <= seq),
        forall|i: int, j: int|
            0 <= i < j < due.len() ==> (#[trigger] due[i]).seq < (#[trigger] due[j]).seq,
        due.len() <= m.receipts.len(),
        daemon::are_new(d.store.outbox, m.receipts),
        d.store.last_outbound + due.len() <= i64::MAX,
        0 <= k < due.len(),
    ensures
        d2.store.outbox.len() == d.store.outbox.len() + due.len(),
        d2.store.outbox.take(d.store.outbox.len() as int) == d.store.outbox,
        ({
            let ob = d2.store.outbox[d.store.outbox.len() + k];
            &&& ob.id == m.receipts[k].id
            &&& ob.topic == due[k].topic
            &&& exists|w: WrapperView, r: InnerView|
                #[trigger] bears(ob.payload, w, r) && is_signed_by(d.identity, w, r)
                    && is_receipt_for(r, due[k].from, due[k].id, ReceiptStatus::Read) && r.from
                    == d.identity.name && r.id == m.receipts[k].id && r.ts == m.receipts[k].ts
        }),
{
    let owed = daemon::receipts_due(d, consumer, seq, cfg);
    let q = store::addressed_to(
        d.identity.name,
        store::covered_after(d.store, consumer, seq),
        seq,
    );
    store::a_query_gives_what_matches(d.store.messages, q, d.store.last_seq);
    assert forall|x: MsgView| #[trigger] owed.contains(x) <==> due.contains(x) by {
        if d.store.messages.contains(x) {
            let n = choose|n: int| 0 <= n < d.store.messages.len() && d.store.messages[n] == x;
            assert(d.store.messages[n].seq >= 1);
        }
        assert(due.contains(x) <==> d.store.messages.contains(x) && x.direction == "in"@ && x.to
            == d.identity.name && (x.seq == seq || store::cursor_of(d.store, consumer) < x.seq
            <= seq));
    }
    lemma_same_order(owed, due);
    daemon::every_acknowledged_message_is_answered(d, consumer, seq, cfg, m);
    let receipts = daemon::read_receipts(d.identity, owed, m.receipts);
    assert(d2.store.outbox.take(d.store.outbox.len() as int) =~= d.store.outbox);
    let ob = d2.store.outbox[d.store.outbox.len() + k];
    assert(ob == receipts[k]);
    let r = message::plain_inner(
        d.identity,
        daemon::receipt_opts(due[k].from, due[k].id, ReceiptStatus::Read),
        m.receipts[k],
    );
    assert(bears(ob.payload, message::wrapped(d.identity, r, false), r));
}

/// Ascending sequences of the same messages are the same.
proof fn lemma_same_order(a: Seq<MsgView>, b: Seq<MsgView>)
    requires
        forall|x: MsgView| #[trigger] a.contains(x) <==> b.contains(x),
        forall|i: int, j: int|
            0 <= i < j < a.len() ==> (#[trigger] a[i]).seq < (#[trigger] a[j]).seq,
        forall|i: int, j: int|
            0 <= i < j < b.len() ==> (#[trigger] b[i]).seq < (#[trigger] b[j]).seq,
    ensures
        a == b,
    decreases a.len(),
{
    if a.len() == 0 {
        if b.len() > 0 {
            assert(b.contains(b[0]));
            assert(a.contains(b[0]));
        }
        assert(a =~= b);
    } else {
        assert(a.contains(a.last()));
        let n = choose|n: int| 0 <= n < b.len() && b[n] == a.last();
        assert(b.contains(b.last()));
        assert(a.contains(b.last()));
        let l = choose|l: int| 0 <= l < a.len() && a[l] == b.last();
        assert(a.last() == b.last()) by {
            if l < a.len() - 1 {
                assert(a[l].seq < a[a.len() - 1].seq);
            }
            if n < b.len() - 1 {
                assert(b[n].seq < b[b.len() - 1].seq);
            }
        }
        let (p, q) = (a.drop_last(), b.drop_last());
        assert forall|x: MsgView| #[trigger] p.contains(x) <==> q.contains(x) by {
            if p.contains(x) {
                let i = choose|i: int| 0 <= i < p.len() && p[i] == x;
                assert(a[i] == x);
                assert(a.contains(x));
                let j = choose|j: int| 0 <= j < b.len() && b[j] == x;
                assert(a[i].seq < a[a.len() - 1].seq);
                assert(q[j] == x);
            }
            if q.contains(x) {
                let i = choose|i: int| 0 <= i < q.len() && q[i] == x;
                assert(b[i] == x);
                assert(b.contains(x));
                assert(a.contains(x));
                let j = choose|j: int| 0 <= j < a.len() && a[j] == x;
                assert(b[i].seq < b[b.len() - 1].seq);
                assert(p[j] == x);
            }
        }
        lemma_same_order(p, q);
        assert(a =~= p.push(a.last()));
        assert(b =~= q.push(b.last()));
    }
}

/// The payload is a signed beacon of `id` to everyone.
pub open spec fn is_beacon_of(
    payload: Seq<u8>,
    id: IdentityView,
    f: FreshView,
    b: BeaconView,
    w: WrapperView,
    i: InnerView,
) -> bool {
    &&& bears(payload, w, i)
    &&& is_signed_by(id, w, i)
    &&& i.id == f.id
    &&& i.v == 2
    &&& i.from == id.name
    &&& i.to == "*"@
    &&& i.ts == f.ts
    &&& i.kind == MsgKind::Message
    &&& i.ctype == "application/agentmsg-presence"@
    &&& i.body == presence::beacon_text(b)
    &&& i.in_reply_to is None && i.correlation_id is None && i.supersedes is None
    &&& i.enc is None && i.grant is None && i.receipt is None
}

/// A presence request queues a beacon to everyone on the first topic, with the
/// state and the detail of the request, as said by the agent, for as long as the
/// request says, and numbered by the seconds of the clock. Without a topic it is
/// refused.
pub proof fn a_presence_request_is_announced(
    d: DaemonView,
    state: Seq<char>,
    ttl_secs: Option<i64>,
    detail: Option<Seq<char>>,
    cfg: ConfigView,
    t: TrustView,
    connected: bool,
    m: MomentView,
    out: OutcomeView,
    d2: DaemonView,
)
    requires
        daemon::handled(
            d,
            RequestView::Presence { state, ttl_secs, detail },
            cfg,
            t,
            connected,
            m,
            out,
            d2,
        ),
        !store::is_queued(d.store.outbox, m.fresh.id),
        d.store.last_outbound < i64::MAX,
        0 <= m.now < 0x8000_0000_0000_0000 * 1_000_000_000,
    ensures
        cfg.topics.len() == 0 ==> d2 == d && out == OutcomeView::Reply(
            ResponseView::Error { message: "no chat topic configured"@ },
        ),
        cfg.topics.len() > 0 ==> {
            let ob = d2.store.outbox.last();
            &&& out == OutcomeView::Reply(ResponseView::Done)
            &&& d2.store.messages == d.store.messages
            &&& d2.store.presence == d.store.presence
            &&& d2.store.outbox.len() == d.store.outbox.len() + 1
            &&& d2.store.outbox.drop_last() == d.store.outbox
            &&& ob.id == m.fresh.id
            &&& ob.topic == cfg.topics[0]
            &&& exists|b: BeaconView, w: WrapperView, i: InnerView|
                {
                    &&& #[trigger] is_beacon_of(ob.payload, d.identity, m.fresh, b, w, i)
                    &&& b.state == state
                    &&& b.source == "agent"@
                    &&& b.detail == detail
                    &&& ttl_secs matches Some(n) ==> b.ttl_secs == n
                    &&& ttl_secs is None ==> b.ttl_secs == 0
                    &&& b.seq * 1_000_000_000 <= m.now < (b.seq + 1) * 1_000_000_000
                }
        },
{
    if cfg.topics.len() > 0 {
        let b = BeaconView {
            state,
            source: "agent"@,
            ttl_secs: match ttl_secs {
                Some(n) => n,
                None => 0,
            },
            seq: clock::epoch_seconds(m.now) as i64,
            detail,
        };
        lemma_beacon_queued(d, cfg.topics[0], b, m.fresh, d2);
        let i = message::plain_inner(
            d.identity,
            message::plain_opts(
                wire::BROADCAST@,
                wire::CTYPE_PRESENCE@,
                presence::beacon_text(b),
            ),
            m.fresh,
        );
        let w = message::wrapped(d.identity, i, false);
        assert(is_beacon_of(d2.store.outbox.last().payload, d.identity, m.fresh, b, w, i));
    }
}

proof fn lemma_beacon_queued(
    d: DaemonView,
    topic: Seq<char>,
    b: BeaconView,
    f: FreshView,
    d2: DaemonView,
)
    requires
        d2.store == daemon::with_beacon(d.store, d.identity, topic, b, f),
        !store::is_queued(d.store.outbox, f.id),
        d.store.last_outbound < i64::MAX,
    ensures
        ({
            let i = message::plain_inner(
                d.identity,
                message::plain_opts(
                    wire::BROADCAST@,
                    wire::CTYPE_PRESENCE@,
                    presence::beacon_text(b),
                ),
                f,
            );
            &&& d2.store.outbox == d.store.outbox.push(
                daemon::outbound_of(d.identity, i, topic, false),
            )
            &&& d2.store.outbox.drop_last() == d.store.outbox
            &&& d2.store.messages == d.store.messages
            &&& d2.store.presence == d.store.presence
        }),
{
    assert(d2.store.outbox.drop_last() =~= d.store.outbox);
}

/// A heartbeat says to everyone on the first topic that the daemon is online, for
/// three intervals from now. Without a topic nothing is said.
pub proof fn a_heartbeat_says_online(d: DaemonView, cfg: ConfigView, m: MomentView)
    requires
        !store::is_queued(d.store.outbox, m.fresh.id),
        d.store.last_outbound < i64::MAX,
        0 <= m.now < 0x8000_0000_0000_0000 * 1_000_000_000,
        cfg.heartbeat_secs * 3 <= i64::MAX,
    ensures
        ({
            let d2 = daemon::beaten(d, cfg, m);
            let ob = d2.store.outbox.last();
            &&& cfg.topics.len() == 0 ==> d2 == d
            &&& cfg.topics.len() > 0 ==> {
                &&& d2.identity == d.identity && d2.pending == d.pending
                &&& d2.store.messages == d.store.messages
                &&& d2.store.presence == d.store.presence
                &&& d2.store.outbox.len() == d.store.outbox.len() + 1
                &&& d2.store.outbox.drop_last() == d.store.outbox
                &&& ob.id == m.fresh.id
                &&& ob.topic == cfg.topics[0]
                &&& exists|b: BeaconView, w: WrapperView, i: InnerView|
                    {
                        &&& #[trigger] is_beacon_of(ob.payload, d.identity, m.fresh, b, w, i)
                        &&& b.state == "online"@
                        &&& b.source == "daemon"@
                        &&& b.detail is None
                        &&& b.ttl_secs == 3 * cfg.heartbeat_secs
                        &&& b.seq * 1_000_000_000 <= m.now < (b.seq + 1) * 1_000_000_000
                    }
            }
        }),
{
    if cfg.topics.len() > 0 {
        let d2 = daemon::beaten(d, cfg, m);
        let b = BeaconView {
            state: "online"@,
            source: "daemon"@,
            ttl_secs: daemon::as_signed(cfg.heartbeat_secs * 3) as i64,
            seq: clock::epoch_seconds(m.now) as i64,
            detail: None,
        };
        lemma_beacon_queued(d, cfg.topics[0], b, m.fresh, d2);
        let i = message::plain_inner(
            d.identity,
            message::plain_opts(
                wire::BROADCAST@,
                wire::CTYPE_PRESENCE@,
                presence::beacon_text(b),
            ),
            m.fresh,
        );
        let w = message::wrapped(d.identity, i, false);
        assert(is_beacon_of(d2.store.outbox.last().payload, d.identity, m.fresh, b, w, i));
    }
}

/// A pairing start announces this agent on the topic that was asked for, or on
/// the first: a signed hello to everyone with its name and both of its keys. The
/// hello is queued and not logged as a message.
pub proof fn a_pairing_start_announces_both_keys(
    d: DaemonView,
    topic: Option<Seq<char>>,
    cfg: ConfigView,
    t: TrustView,
    connected: bool,
    m: MomentView,
    ob: OutboundView,
    d2: DaemonView,
)
    requires
        daemon::handled(
            d,
            RequestView::PairStart { topic },
            cfg,
            t,
            connected,
            m,
            OutcomeView::Announce(ob),
            d2,
        ),
        !store::is_queued(d.store.outbox, m.fresh.id),
    ensures
        topic matches Some(asked) ==> ob.topic == asked && cfg.topics.contains(asked),
        topic is None ==> ob.topic == cfg.topics[0] && cfg.topics.len() > 0,
        d2.store.outbox == d.store.outbox.push(ob),
        d2.store.messages == d.store.messages,
        d2.pending == d.pending,
        exists|body: crate::token::BodyView, w: WrapperView, i: InnerView|
            {
                &&& #[trigger] bears(ob.payload, w, i)
                &&& is_signed_by(d.identity, w, i)
                &&& i.id == m.fresh.id
                &&& i.from == d.identity.name
                &&& i.to == "*"@
                &&& i.ctype == "application/agentmsg-pair"@
                &&& i.kind == MsgKind::Message
                &&& i.enc is None && i.grant is None && i.receipt is None
                &&& i.body == #[trigger] crate::token::body_text(body)
                &&& body.name == d.identity.name
                &&& body.pk == wire::base64url(d.identity.public_key)
                &&& body.kem_pk == Some(wire::base64url(d.identity.kem_ek))
            },
{
    let i = message::plain_inner(d.identity, message::hello_opts(d.identity), m.fresh);
    let w = message::wrapped(d.identity, i, false);
    let body = message::hello_body(d.identity);
    assert(bears(ob.payload, w, i));
    assert(i.body == crate::token::body_text(body));
}

/// The broker took a message: it leaves the outbox, and it becomes sent, at the
/// time, where it was pending. No other message and nothing else changes.
pub proof fn a_handed_over_message_is_sent(
    d: DaemonView,
    id: Seq<char>,
    stamp: Seq<char>,
    k: int,
    o: OutboundView,
)
    requires
        0 <= k < d.store.messages.len(),
    ensures
        ({
            let d2 = daemon::handed_over(d, id, stamp);
            let x = d.store.messages[k];
            let y = d2.store.messages[k];
            &&& d2.store.messages.len() == d.store.messages.len()
            &&& d2.store.outbox.contains(o) <==> d.store.outbox.contains(o) && o.id != id
            &&& x.id == id && x.direction == "out"@ && x.delivery_state == "pending"@ ==> y == (
            MsgView { delivery_state: "sent"@, broker_ack_ts: Some(stamp), ..x })
            &&& x.id != id || x.direction != "out"@ || x.delivery_state == "sent"@
                || x.delivery_state == "delivered"@ || x.delivery_state == "read"@
                || x.delivery_state == "failed"@ ==> y == x
            &&& d2.identity == d.identity && d2.pending == d.pending
            &&& d2.store.cursors == d.store.cursors
            &&& d2.store.rejections == d.store.rejections
            &&& d2.store.presence == d.store.presence
        }),
{
    store::a_hand_off_takes_one(d.store.outbox, id, o);
    reveal_strlit("pending");
    reveal_strlit("none");
    reveal_strlit("sent");
    reveal_strlit("delivered");
    reveal_strlit("read");
    reveal_strlit("failed");
    assert("pending"@.len() == 7 && "none"@.len() == 4 && "sent"@.len() == 4 && "read"@.len() == 4);
    assert("delivered"@.len() == 9 && "failed"@.len() == 6);
    assert("none"@[0] != "sent"@[0] && "none"@[0] != "read"@[0]);
}

// ---------------------------------------------------------------------------
// Answers.
// ---------------------------------------------------------------------------

/// `shown` is the beginning of a list of messages of which `belongs` tells which
/// are in it: only these are shown, no more than the limit, and one that is left
/// out came behind a full list. The list ascends or descends by number.
pub open spec fn is_page(
    shown: Seq<MsgView>,
    ms: Seq<MsgView>,
    belongs: spec_fn(MsgView) -> bool,
    limit: i64,
    ascending: bool,
) -> bool {
    &&& forall|x: MsgView| #[trigger] shown.contains(x) ==> ms.contains(x) && belongs(x)
    &&& limit >= 0 ==> shown.len() <= limit
    &&& forall|x: MsgView| #[trigger]
        ms.contains(x) && belongs(x) && !shown.contains(x) ==> limit >= 0 && shown.len() == limit
            && forall|i: int|
            0 <= i < shown.len() ==> if ascending {
                (#[trigger] shown[i]).seq < x.seq
            } else {
                shown[i].seq > x.seq
            }
    &&& forall|i: int, j: int|
        0 <= i < j < shown.len() ==> if ascending {
            (#[trigger] shown[i]).seq < (#[trigger] shown[j]).seq
        } else {
            shown[i].seq > shown[j].seq
        }
}

#[verifier::rlimit(40)]
proof fn lemma_page(
    whole: Seq<MsgView>,
    ms: Seq<MsgView>,
    belongs: spec_fn(MsgView) -> bool,
    limit: i64,
)
    requires
        forall|x: MsgView| #[trigger] whole.contains(x) <==> ms.contains(x) && belongs(x),
        forall|i: int, j: int|
            0 <= i < j < whole.len() ==> (#[trigger] whole[i]).seq < (#[trigger] whole[j]).seq,
    ensures
        is_page(store::limited(whole, limit), ms, belongs, limit, true),
        is_page(store::limited(whole.reverse(), limit), ms, belongs, limit, false),
{
    let up = store::limited(whole, limit);
    let back = whole.reverse();
    let down = store::limited(back, limit);
    assert forall|x: MsgView| #[trigger] up.contains(x) implies ms.contains(x) && belongs(x) by {
        let i = choose|i: int| 0 <= i < up.len() && up[i] == x;
        assert(whole[i] == x);
        assert(whole.contains(x));
    }
    assert forall|x: MsgView| #[trigger] down.contains(x) implies ms.contains(x) && belongs(x) by {
        let i = choose|i: int| 0 <= i < down.len() && down[i] == x;
        assert(whole[whole.len() - 1 - i] == x);
        assert(whole.contains(x));
    }
    assert forall|x: MsgView| #[trigger]
        ms.contains(x) && belongs(x) && !up.contains(x) implies limit >= 0 && up.len() == limit
        && forall|i: int| 0 <= i < up.len() ==> (#[trigger] up[i]).seq < x.seq by {
        assert(whole.contains(x));
        let n = choose|n: int| 0 <= n < whole.len() && whole[n] == x;
        if n < up.len() {
            assert(up[n] == x);
        }
        assert forall|i: int| 0 <= i < up.len() implies (#[trigger] up[i]).seq < x.seq by {
            assert(up[i] == whole[i]);
        }
    }
    assert forall|x: MsgView| #[trigger]
        ms.contains(x) && belongs(x) && !down.contains(x) implies limit >= 0 && down.len() == limit
        && forall|i: int| 0 <= i < down.len() ==> (#[trigger] down[i]).seq > x.seq by {
        assert(whole.contains(x));
        let n = choose|n: int| 0 <= n < whole.len() && whole[n] == x;
        let l = whole.len() - 1 - n;
        assert(back[l] == x);
        if l < down.len() {
            assert(down[l] == x);
        }
        assert forall|i: int| 0 <= i < down.len() implies (#[trigger] down[i]).seq > x.seq by {
            assert(down[i] == whole[whole.len() - 1 - i]);
        }
    }
    assert forall|i: int, j: int| 0 <= i < j < down.len() implies (#[trigger] down[i]).seq > (
    #[trigger] down[j]).seq by {
        assert(down[i] == whole[whole.len() - 1 - i]);
        assert(down[j] == whole[whole.len() - 1 - j]);
    }
    assert forall|i: int, j: int| 0 <= i < j < up.len() implies (#[trigger] up[i]).seq < (
    #[trigger] up[j]).seq by {
        assert(up[i] == whole[i] && up[j] == whole[j]);
    }
}

/// A transcript is answered with the stored messages from the sender and to the
/// recipient that were asked for, and from or to the peer, as far as these are
/// given, the oldest first.
pub proof fn a_transcript_is_answered(
    d: DaemonView,
    limit: i64,
    from: Option<Seq<char>>,
    to: Option<Seq<char>>,
    peer: Option<Seq<char>>,
    cfg: ConfigView,
    t: TrustView,
    connected: bool,
    m: MomentView,
    out: OutcomeView,
    d2: DaemonView,
)
    requires
        daemon::daemon_wf(d),
        daemon::handled(
            d,
            RequestView::Transcript { limit, from, to, peer },
            cfg,
            t,
            connected,
            m,
            out,
            d2,
        ),
    ensures
        d2 == d,
        out matches OutcomeView::Reply(ResponseView::Messages { msgs, consumer_warning })
            && consumer_warning is None && is_page(
            msgs,
            d.store.messages,
            |x: MsgView|
                (from matches Some(f) ==> x.from == f) && (to matches Some(r) ==> x.to == r) && (
                peer matches Some(p) ==> (x.from == p || x.to == p)),
            limit,
            true,
        ),
{
    let belongs = |x: MsgView|
        (from matches Some(f) ==> x.from == f) && (to matches Some(r) ==> x.to == r) && (
        peer matches Some(p) ==> (x.from == p || x.to == p));
    let q = store::conversing(from, to, peer);
    store::a_query_gives_what_matches(d.store.messages, q, d.store.last_seq);
    lemma_page(store::picked(d.store.messages, q), d.store.messages, belongs, limit);
}

/// A browse is answered with the inbound messages, or with all where all are
/// asked for, from the sender and for the recipient, as far as these are given;
/// what was sent to everyone is for every recipient. The newest come first, and
/// where all are asked for the oldest.
pub proof fn a_browse_is_answered(
    d: DaemonView,
    limit: i64,
    from: Option<Seq<char>>,
    to: Option<Seq<char>>,
    all: bool,
    cfg: ConfigView,
    t: TrustView,
    connected: bool,
    m: MomentView,
    out: OutcomeView,
    d2: DaemonView,
)
    requires
        daemon::daemon_wf(d),
        daemon::handled(
            d,
            RequestView::Browse { limit, from, to, all },
            cfg,
            t,
            connected,
            m,
            out,
            d2,
        ),
    ensures
        d2 == d,
        out matches OutcomeView::Reply(ResponseView::Messages { msgs, consumer_warning })
            && consumer_warning is None && is_page(
            msgs,
            d.store.messages,
            |x: MsgView|
                (all || x.direction == "in"@) && (from matches Some(f) ==> x.from == f) && (
                to matches Some(r) ==> (x.to == r || x.to == "*"@)),
            limit,
            all,
        ),
{
    let belongs = |x: MsgView|
        (all || x.direction == "in"@) && (from matches Some(f) ==> x.from == f) && (
        to matches Some(r) ==> (x.to == r || x.to == "*"@));
    reveal_strlit("in");
    reveal_strlit("all");
    assert("in"@.len() == 2 && "all"@.len() == 3);
    let q = store::browsing(
        from,
        to,
        if all {
            "all"@
        } else {
            "in"@
        },
    );
    store::a_query_gives_what_matches(d.store.messages, q, d.store.last_seq);
    lemma_page(store::picked(d.store.messages, q), d.store.messages, belongs, limit);
}

/// A read is answered with the inbound messages behind the consumer's cursor, the
/// oldest first, and warns where more than a thousand are there.
pub proof fn a_read_is_answered(
    d: DaemonView,
    consumer: Seq<char>,
    limit: i64,
    cfg: ConfigView,
    t: TrustView,
    connected: bool,
    m: MomentView,
    out: OutcomeView,
    d2: DaemonView,
)
    requires
        daemon::daemon_wf(d),
        daemon::handled(
            d,
            RequestView::Read { consumer, limit },
            cfg,
            t,
            connected,
            m,
            out,
            d2,
        ),
    ensures
        d2 == d,
        ({
            let at: i64 = if d.store.cursors.contains_key(consumer) {
                d.store.cursors[consumer].last_seq
            } else {
                0
            };
            let unread = store::later_inbound(d.store.messages, at);
            out matches OutcomeView::Reply(ResponseView::Messages { msgs, consumer_warning }) && {
                &&& is_page(
                    msgs,
                    d.store.messages,
                    |x: MsgView| x.direction == "in"@ && x.seq > at,
                    limit,
                    true,
                )
                &&& unread <= 1000 ==> consumer_warning is None
                &&& unread > 1000 ==> consumer_warning == Some(
                    "consumer '"@ + consumer + "' is "@ + text::decimal(unread as nat)
                        + " messages behind"@,
                )
            }
        }),
{
    let at = store::cursor_of(d.store, consumer);
    let belongs = |x: MsgView| x.direction == "in"@ && x.seq > at;
    let q = store::unread_by(at);
    store::a_query_gives_what_matches(d.store.messages, q, d.store.last_seq);
    store::lemma_later_inbound(d.store.messages, at);
    lemma_page(store::picked(d.store.messages, q), d.store.messages, belongs, limit);
}

/// What was read and acknowledged is not read again, and what came later is: a
/// read behind an acknowledgement gives the inbound messages above its number.
pub proof fn a_read_behind_an_acknowledgement(
    d: DaemonView,
    consumer: Seq<char>,
    seq: i64,
    limit: i64,
    cfg: ConfigView,
    t: TrustView,
    connected: bool,
    m: MomentView,
    out: OutcomeView,
    d2: DaemonView,
    m2: MomentView,
    out2: OutcomeView,
    d3: DaemonView,
)
    requires
        daemon::daemon_wf(d),
        daemon::daemon_wf(d2),
        daemon::handled(d, RequestView::Ack { consumer, seq }, cfg, t, connected, m, out, d2),
        daemon::handled(
            d2,
            RequestView::Read { consumer, limit },
            cfg,
            t,
            connected,
            m2,
            out2,
            d3,
        ),
    ensures
        out2 matches OutcomeView::Reply(ResponseView::Messages { msgs, .. }) && forall|x: MsgView| #[trigger]
            msgs.contains(x) ==> x.direction == "in"@ && x.seq > seq,
{
    let other = consumer.push('.');
    assert(other.len() != consumer.len());
    an_acknowledgement_moves_the_cursor(
        d,
        consumer,
        seq,
        other,
        cfg,
        t,
        connected,
        m,
        out,
        d2,
    );
    a_read_is_answered(d2, consumer, limit, cfg, t, connected, m2, out2, d3);
}

/// Rejections are answered with those of the reason that was asked for and not
/// from before the time, as far as these are given, the newest first and no more
/// than the limit.
#[verifier::rlimit(40)]
pub proof fn rejections_are_answered(
    d: DaemonView,
    limit: i64,
    reason: Option<Seq<char>>,
    since: Option<Seq<char>>,
    cfg: ConfigView,
    t: TrustView,
    connected: bool,
    m: MomentView,
    out: OutcomeView,
    d2: DaemonView,
)
    requires
        daemon::daemon_wf(d),
        daemon::handled(
            d,
            RequestView::Rejections { limit, reason, since },
            cfg,
            t,
            connected,
            m,
            out,
            d2,
        ),
    ensures
        d2 == d,
        out matches OutcomeView::Reply(ResponseView::Rejections(rows)) && {
            &&& forall|r: RejectionView| #[trigger]
                rows.contains(r) ==> d.store.rejections.contains(r) && (reason matches Some(x)
                    ==> r.reason == x) && (since matches Some(s) ==> !text::text_lt(r.at, s))
            &&& limit >= 0 ==> rows.len() <= limit
            &&& forall|r: RejectionView| #[trigger]
                d.store.rejections.contains(r) && (reason matches Some(x) ==> r.reason == x) && (
                since matches Some(s) ==> !text::text_lt(r.at, s)) && !rows.contains(r) ==> limit
                    >= 0 && rows.len() == limit && forall|i: int|
                    0 <= i < rows.len() ==> (#[trigger] rows[i]).seq > r.seq
            &&& forall|i: int, j: int|
                0 <= i < j < rows.len() ==> (#[trigger] rows[i]).seq > (#[trigger] rows[j]).seq
        },
{
    store::rejections_show_what_was_asked_for(
        d.store.rejections,
        d.store.last_rejection,
        reason,
        since,
    );
    let whole = store::picked_rejections(d.store.rejections, reason, since);
    let back = whole.reverse();
    let rows = store::limited(back, limit);
    assert forall|r: RejectionView| #[trigger] rows.contains(r) implies whole.contains(r) by {
        let i = choose|i: int| 0 <= i < rows.len() && rows[i] == r;
        assert(whole[whole.len() - 1 - i] == r);
    }
    assert forall|r: RejectionView| #[trigger]
        d.store.rejections.contains(r) && (reason matches Some(x) ==> r.reason == x) && (
        since matches Some(s) ==> !text::text_lt(r.at, s)) && !rows.contains(r) implies limit >= 0
        && rows.len() == limit && forall|i: int|
        0 <= i < rows.len() ==> (#[trigger] rows[i]).seq > r.seq by {
        assert(whole.contains(r));
        let n = choose|n: int| 0 <= n < whole.len() && whole[n] == r;
        let l = whole.len() - 1 - n;
        assert(back[l] == r);
        if l < rows.len() {
            assert(rows[l] == r);
        }
        assert forall|i: int| 0 <= i < rows.len() implies (#[trigger] rows[i]).seq > r.seq by {
            assert(rows[i] == whole[whole.len() - 1 - i]);
        }
    }
    assert forall|i: int, j: int| 0 <= i < j < rows.len() implies (#[trigger] rows[i]).seq > (
    #[trigger] rows[j]).seq by {
        assert(rows[i] == whole[whole.len() - 1 - i]);
        assert(rows[j] == whole[whole.len() - 1 - j]);
    }
}

/// A question for receipts is answered with the message of the id, where one is
/// given, and else with the outbound messages in the state, if one is given, the
/// newest first.
#[verifier::rlimit(40)]
pub proof fn receipts_are_answered(
    d: DaemonView,
    id: Option<Seq<char>>,
    limit: i64,
    state: Option<Seq<char>>,
    cfg: ConfigView,
    t: TrustView,
    connected: bool,
    m: MomentView,
    out: OutcomeView,
    d2: DaemonView,
)
    requires
        daemon::daemon_wf(d),
        daemon::handled(
            d,
            RequestView::Receipts { id, limit, state },
            cfg,
            t,
            connected,
            m,
            out,
            d2,
        ),
    ensures
        d2 == d,
        out matches OutcomeView::Reply(ResponseView::Messages { msgs, consumer_warning })
            && consumer_warning is None && {
            &&& id matches Some(n) ==> msgs.len() <= 1 && forall|x: MsgView| #[trigger]
                msgs.contains(x) <==> d.store.messages.contains(x) && x.id == n
            &&& id is None ==> is_page(
                msgs,
                d.store.messages,
                |x: MsgView|
                    x.direction == "out"@ && (state matches Some(s) ==> x.delivery_state == s),
                limit,
                false,
            )
        },
{
    let ms = d.store.messages;
    match id {
        Some(n) => {
            let msgs = daemon::receipt_rows(d.store, id, limit, state);
            assert forall|x: MsgView| #[trigger] msgs.contains(x) <==> ms.contains(x) && x.id == n by {
                store::a_stored_message_is_found(ms, d.store.last_seq, x);
                if msgs.len() > 0 {
                    let y = msgs[0];
                    assert(store::with_id(ms, n) == Some(y));
                    store::a_stored_message_is_found(
                        ms,
                        d.store.last_seq,
                        MsgView { id: n, ..y },
                    );
                }
                if ms.contains(x) && x.id == n {
                    assert(msgs == seq![x]);
                    assert(msgs[0] == x);
                }
            }
        },
        None => {
            let belongs = |x: MsgView|
                x.direction == "out"@ && (state matches Some(s) ==> x.delivery_state == s);
            let q = store::sent_with(state);
            store::a_query_gives_what_matches(ms, q, d.store.last_seq);
            lemma_page(store::picked(ms, q), ms, belongs, limit);
        },
    }
}

/// The consumers are answered each with where it stands, when it moved there, and
/// how many inbound messages came later, in the order of their names.
pub proof fn consumers_are_answered(
    d: DaemonView,
    consumer: Seq<char>,
    cfg: ConfigView,
    t: TrustView,
    connected: bool,
    m: MomentView,
    out: OutcomeView,
    d2: DaemonView,
)
    requires
        daemon::daemon_wf(d),
        daemon::handled(d, RequestView::Consumers, cfg, t, connected, m, out, d2),
        d.store.cursors.contains_key(consumer),
    ensures
        d2 == d,
        out matches OutcomeView::Reply(ResponseView::Consumers(rows)) && {
            &&& exists|i: int|
                0 <= i < rows.len() && (#[trigger] rows[i]).consumer == consumer
                    && rows[i].last_seq == d.store.cursors[consumer].last_seq
                    && rows[i].last_read_at == d.store.cursors[consumer].updated_at
                    && rows[i].unread == store::later_inbound(
                    d.store.messages,
                    d.store.cursors[consumer].last_seq,
                )
            &&& forall|i: int|
                0 <= i < rows.len() ==> d.store.cursors.contains_key(
                    (#[trigger] rows[i]).consumer,
                )
            &&& forall|i: int, j: int|
                0 <= i < j < rows.len() ==> text::text_lt(
                    (#[trigger] rows[i]).consumer,
                    (#[trigger] rows[j]).consumer,
                )
        },
{
    let rows = out->Reply_0->Consumers_0;
    let ns = Seq::new(rows.len(), |i: int| rows[i].consumer);
    assert(ns.contains(consumer));
    let i = choose|i: int| 0 <= i < ns.len() && ns[i] == consumer;
    assert(rows[i].consumer == consumer);
    store::a_consumer_row_counts_the_unread(d.store, consumer);
    assert forall|i: int| 0 <= i < rows.len() implies d.store.cursors.contains_key(
        (#[trigger] rows[i]).consumer,
    ) by {
        assert(ns[i] == rows[i].consumer);
    }
    assert forall|i: int, j: int| 0 <= i < j < rows.len() implies text::text_lt(
        (#[trigger] rows[i]).consumer,
        (#[trigger] rows[j]).consumer,
    ) by {
        assert(ns[i] == rows[i].consumer && ns[j] == rows[j].consumer);
    }
}

/// The pending peers are answered each with its name, the fingerprint of its key,
/// its code and whether it announced an encryption key.
pub proof fn pending_peers_are_answered(
    d: DaemonView,
    name: Seq<char>,
    cfg: ConfigView,
    t: TrustView,
    connected: bool,
    m: MomentView,
    out: OutcomeView,
    d2: DaemonView,
)
    requires
        daemon::daemon_wf(d),
        daemon::handled(d, RequestView::PairList, cfg, t, connected, m, out, d2),
        d.pending.contains_key(name),
    ensures
        d2 == d,
        out matches OutcomeView::Reply(ResponseView::Pairs(rows)) && {
            &&& exists|i: int|
                0 <= i < rows.len() && (#[trigger] rows[i]).name == name && rows[i].fingerprint
                    == wire::fingerprint_of(d.pending[name].public_key) && rows[i].sas
                    == d.pending[name].sas && rows[i].kem == (d.pending[name].kem_public_key
                    is Some)
            &&& forall|i: int|
                0 <= i < rows.len() ==> d.pending.contains_key((#[trigger] rows[i]).name)
        },
{
    let rows = out->Reply_0->Pairs_0;
    let ns = Seq::new(rows.len(), |i: int| rows[i].name);
    assert(ns.contains(name));
    let i = choose|i: int| 0 <= i < ns.len() && ns[i] == name;
    assert(rows[i].name == name);
    assert forall|i: int| 0 <= i < rows.len() implies d.pending.contains_key(
        (#[trigger] rows[i]).name,
    ) by {
        assert(ns[i] == rows[i].name);
    }
}

/// The presence of agents is answered with the record of each.
pub proof fn presence_is_answered(
    d: DaemonView,
    agent: Seq<char>,
    cfg: ConfigView,
    t: TrustView,
    connected: bool,
    m: MomentView,
    out: OutcomeView,
    d2: DaemonView,
)
    requires
        daemon::daemon_wf(d),
        daemon::handled(d, RequestView::PresenceList, cfg, t, connected, m, out, d2),
        d.store.presence.contains_key(agent),
    ensures
        d2 == d,
        out matches OutcomeView::Reply(ResponseView::Presence(rows)) && {
            &&& rows.contains(d.store.presence[agent])
            &&& forall|i: int|
                0 <= i < rows.len() ==> d.store.presence.contains_key((#[trigger] rows[i]).agent)
                    && rows[i] == d.store.presence[rows[i].agent]
        },
{
    let rows = out->Reply_0->Presence_0;
    let ns = Seq::new(rows.len(), |i: int| rows[i].agent);
    assert(ns.contains(agent));
    let i = choose|i: int| 0 <= i < ns.len() && ns[i] == agent;
    assert(rows[i] == d.store.presence[rows[i].agent]);
    assert forall|i: int| 0 <= i < rows.len() implies d.store.presence.contains_key(
        (#[trigger] rows[i]).agent,
    ) && rows[i] == d.store.presence[rows[i].agent] by {
        assert(ns[i] == rows[i].agent);
    }
}

/// The status counts what is stored, refused and waiting, names this agent and
/// its key, and tells the configuration as it is.
pub proof fn the_status_is_answered(
    d: DaemonView,
    cfg: ConfigView,
    t: TrustView,
    connected: bool,
    m: MomentView,
    out: OutcomeView,
    d2: DaemonView,
)
    requires
        daemon::handled(d, RequestView::Status, cfg, t, connected, m, out, d2),
    ensures
        d2 == d,
        out matches OutcomeView::Reply(ResponseView::Status(s)) && {
            &&& s.identity == Some(d.identity.name)
            &&& s.fingerprint == Some(wire::fingerprint_of(d.identity.public_key))
            &&& cfg.broker_host.len() > 0 ==> s.broker == cfg.broker_host + ":"@ + text::decimal(
                cfg.broker_port as nat,
            )
            &&& cfg.broker_host.len() == 0 ==> s.broker.len() == 0
            &&& s.connected == connected
            &&& s.topics == cfg.topics
            &&& s.stored == d.store.messages.len()
            &&& s.rejected == d.store.rejections.len()
            &&& s.pending_out == d.store.outbox.len()
            &&& s.ipc_proto == 2
            &&& s.allow_unsigned == cfg.allow_unsigned
            &&& s.accept_v1 == cfg.accept_v1
            &&& s.require_encryption == cfg.require_encryption
            &&& s.auto_receipts == cfg.auto_receipts
            &&& forall|i: int|
                0 <= i < s.presence.len() ==> #[trigger] s.presence[i]
                    == d.store.presence[s.presence[i].agent]
        },
{
}

/// The simple requests: what each is answered, whatever the daemon's state, and
/// that a peer is confirmed only where it is pending.
pub proof fn simple_requests_are_answered(
    d: DaemonView,
    req: RequestView,
    cfg: ConfigView,
    t: TrustView,
    connected: bool,
    m: MomentView,
    out: OutcomeView,
    d2: DaemonView,
)
    requires
        daemon::handled(d, req, cfg, t, connected, m, out, d2),
    ensures
        req == RequestView::Ping ==> d2 == d && out == OutcomeView::Reply(ResponseView::Pong),
        req == RequestView::Connect ==> d2 == d && out == OutcomeView::Connect,
        req == RequestView::Disconnect ==> d2 == d && out == OutcomeView::Disconnect,
        req == RequestView::Shutdown ==> d2 == d && out == OutcomeView::Reply(ResponseView::Done),
        req matches RequestView::Hello { ipc_proto: _ } ==> d2 == d && (out matches
            OutcomeView::Reply(ResponseView::Hello { ipc_proto, version, caps }) && ipc_proto == 2
            && version == "0.2.2"@ && caps.len() == 11 && caps.contains("send"@)),
        req matches RequestView::PairConfirm { name } ==> d2 == d && if d.pending.contains_key(
            name,
        ) {
            out == OutcomeView::Confirm(name)
        } else {
            out == OutcomeView::Reply(
                ResponseView::Error { message: "no pending pairing for '"@ + name + "'"@ },
            )
        },
        req matches RequestView::Subscribe { .. } ==> d2 == d && out == OutcomeView::Reply(
            ResponseView::Error { message: "subscribe must be served as a stream"@ },
        ),
{
    assert(daemon::capabilities()[0] == "send"@);
}

/// A pairing start needs a configured topic: the one that was asked for, or some.
pub proof fn a_pairing_start_needs_a_topic(
    d: DaemonView,
    topic: Option<Seq<char>>,
    cfg: ConfigView,
    t: TrustView,
    connected: bool,
    m: MomentView,
    out: OutcomeView,
    d2: DaemonView,
)
    requires
        daemon::handled(d, RequestView::PairStart { topic }, cfg, t, connected, m, out, d2),
        d.store.last_outbound < i64::MAX,
    ensures
        ({
            let elsewhere = topic matches Some(asked) && !cfg.topics.contains(asked);
            let nowhere = topic is None && cfg.topics.len() == 0;
            &&& out is Announce <==> !elsewhere && !nowhere
            &&& elsewhere ==> d2 == d && out == OutcomeView::Reply(
                ResponseView::Error {
                    message: "topic '"@ + topic->0 + "' is not a configured chat topic"@,
                },
            )
            &&& nowhere ==> d2 == d && out == OutcomeView::Reply(
                ResponseView::Error { message: "no chat topic configured"@ },
            )
        }),
{
}

} // verus!
