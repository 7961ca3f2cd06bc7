//! What the command line prints for a reader: one text per row, and the rows of
//! a list one below the other.

use vstd::prelude::*;
use vstd::string::*;

use crate::config::{Config, ConfigView};
use crate::ipc::{PairRow, PendingPairView, StatusInfo, StatusView};
use crate::store;
use crate::store::{
    ConsumerRow, ConsumerView, MsgView, PresenceRow, PresenceView, RejectionRow, RejectionView,
    StoredMsg,
};
use crate::text;
use crate::trust;
use crate::trust::{KnownAgent, KnownAgentView};
use crate::wire;

verus! {

/// The debug text that std gives a list of strings: the quoted and escaped
/// strings in square brackets.
pub uninterp spec fn debug_list(v: Seq<Seq<char>>) -> Seq<char>;

/// Calls std's `format!` with `{:?}` on a list of strings. The text is a function
/// of the strings alone.
#[verifier::external_body]
fn debug_texts(v: &Vec<String>) -> (r: String)
    ensures
        r@ == debug_list(text::texts(v@)),
{
    format!("{:?}", v)
}

/// The text of a truth value.
pub open spec fn bool_text(b: bool) -> Seq<char> {
    if b {
        "true"@
    } else {
        "false"@
    }
}

fn bool_str(b: bool) -> (r: &'static str)
    ensures
        r@ == bool_text(b),
{
    if b {
        "true"
    } else {
        "false"
    }
}

/// An optional text, or a stand-in.
pub open spec fn text_or(o: Option<Seq<char>>, other: Seq<char>) -> Seq<char> {
    match o {
        Some(s) => s,
        None => other,
    }
}

fn str_or<'a>(o: &'a Option<String>, other: &'a str) -> (r: &'a str)
    ensures
        r@ == text_or(text::opt_text(*o), other@),
{
    match o {
        Some(s) => s.as_str(),
        None => other,
    }
}

/// The rows of a list one below the other, or a remark that there are none.
pub open spec fn listed(rows: Seq<Seq<char>>, none: Seq<char>) -> Seq<char> {
    if rows.len() == 0 {
        none
    } else {
        text::joined(rows, "\n"@)
    }
}

fn list(rows: &Vec<String>, none: &str) -> (r: String)
    ensures
        r@ == listed(text::texts(rows@), none@),
{
    if rows.len() == 0 {
        text::own(none)
    } else {
        text::join(rows, "\n")
    }
}

/// A message as it is shown.
pub open spec fn message_text(m: MsgView) -> Seq<char> {
    "#"@ + text::decimal_int(m.seq as int) + " ["@ + m.ts + "] "@ + m.from + " -> "@ + m.to + " ("@
        + m.ctype + "/"@ + m.kind + ")"@ + (if m.encrypted {
        " [enc]"@
    } else {
        ""@
    }) + (match m.in_reply_to {
        Some(r) => " reply-to="@ + r,
        None => ""@,
    }) + "\n    "@ + m.body
}

fn message_row(m: &StoredMsg) -> (r: String)
    ensures
        r@ == message_text(m@),
{
    let seq: String = text::decimal_i64(m.seq);
    let reply: String = match &m.in_reply_to {
        Some(id) => text::concat2(" reply-to=", id.as_str()),
        None => text::own(""),
    };
    let mut s: String = text::concat3("#", seq.as_str(), " [");
    s.append(m.ts.as_str());
    s.append("] ");
    s.append(m.from.as_str());
    s.append(" -> ");
    s.append(m.to.as_str());
    s.append(" (");
    s.append(m.ctype.as_str());
    s.append("/");
    s.append(m.kind.as_str());
    s.append(")");
    s.append(
        if m.encrypted {
            " [enc]"
        } else {
            ""
        },
    );
    s.append(reply.as_str());
    s.append("\n    ");
    s.append(m.body.as_str());
    s
}

/// Messages as they are shown.
pub open spec fn messages_text(ms: Seq<MsgView>) -> Seq<char> {
    listed(Seq::new(ms.len(), |i: int| message_text(ms[i])), "(no messages)"@)
}

/// Messages as they are shown.
pub fn show_messages(ms: &Vec<StoredMsg>) -> (r: String)
    ensures
        r@ == messages_text(store::msg_views(ms@)),
{
    let mut rows: Vec<String> = Vec::new();
    let mut i: usize = 0;
    while i < ms.len()
        invariant
            i <= ms.len(),
            rows@.len() == i,
            forall|k: int| 0 <= k < i ==> (#[trigger] rows@[k])@ == message_text(ms@[k]@),
        decreases ms.len() - i,
    {
        rows.push(message_row(&ms[i]));
        i = i + 1;
    }
    proof {
        let v = store::msg_views(ms@);
        assert(text::texts(rows@) =~= Seq::new(v.len(), |i: int| message_text(v[i])));
    }
    list(&rows, "(no messages)")
}

/// The delivery state of a message as it is shown.
pub open spec fn receipt_text(m: MsgView) -> Seq<char> {
    m.id + " "@ + m.delivery_state + " (to "@ + m.to + ") sent="@ + m.ts + " delivered="@
        + text_or(m.delivered_ts, "-"@) + " read="@ + text_or(m.read_ts, "-"@)
}

fn receipt_row(m: &StoredMsg) -> (r: String)
    ensures
        r@ == receipt_text(m@),
{
    let mut s: String = text::concat3(m.id.as_str(), " ", m.delivery_state.as_str());
    s.append(" (to ");
    s.append(m.to.as_str());
    s.append(") sent=");
    s.append(m.ts.as_str());
    s.append(" delivered=");
    s.append(str_or(&m.delivered_ts, "-"));
    s.append(" read=");
    s.append(str_or(&m.read_ts, "-"));
    s
}

/// Delivery states as they are shown.
pub open spec fn receipts_text(ms: Seq<MsgView>) -> Seq<char> {
    listed(Seq::new(ms.len(), |i: int| receipt_text(ms[i])), "(no outbound messages)"@)
}

/// Delivery states as they are shown.
pub fn show_receipts(ms: &Vec<StoredMsg>) -> (r: String)
    ensures
        r@ == receipts_text(store::msg_views(ms@)),
{
    let mut rows: Vec<String> = Vec::new();
    let mut i: usize = 0;
    while i < ms.len()
        invariant
            i <= ms.len(),
            rows@.len() == i,
            forall|k: int| 0 <= k < i ==> (#[trigger] rows@[k])@ == receipt_text(ms@[k]@),
        decreases ms.len() - i,
    {
        rows.push(receipt_row(&ms[i]));
        i = i + 1;
    }
    proof {
        let v = store::msg_views(ms@);
        assert(text::texts(rows@) =~= Seq::new(v.len(), |i: int| receipt_text(v[i])));
    }
    list(&rows, "(no outbound messages)")
}

/// A rejection as it is shown.
pub open spec fn rejection_text(r: RejectionView) -> Seq<char> {
    "#"@ + text::decimal_int(r.seq as int) + " ["@ + r.at + "] "@ + r.reason + " from="@ + text_or(
        r.claimed_sender,
        "?"@,
    ) + " topic="@ + text_or(r.topic, ""@) + " — "@ + r.detail
}

fn rejection_row(x: &RejectionRow) -> (r: String)
    ensures
        r@ == rejection_text(x@),
{
    let seq: String = text::decimal_i64(x.seq);
    let mut s: String = text::concat3("#", seq.as_str(), " [");
    s.append(x.at.as_str());
    s.append("] ");
    s.append(x.reason.as_str());
    s.append(" from=");
    s.append(str_or(&x.claimed_sender, "?"));
    s.append(" topic=");
    s.append(str_or(&x.topic, ""));
    s.append(" — ");
    s.append(x.detail.as_str());
    s
}

/// Rejections as they are shown.
pub open spec fn rejections_text(rs: Seq<RejectionView>) -> Seq<char> {
    listed(Seq::new(rs.len(), |i: int| rejection_text(rs[i])), "(no rejections)"@)
}

/// Rejections as they are shown.
pub fn show_rejections(rs: &Vec<RejectionRow>) -> (r: String)
    ensures
        r@ == rejections_text(store::rejection_views(rs@)),
{
    let mut rows: Vec<String> = Vec::new();
    let mut i: usize = 0;
    while i < rs.len()
        invariant
            i <= rs.len(),
            rows@.len() == i,
            forall|k: int| 0 <= k < i ==> (#[trigger] rows@[k])@ == rejection_text(rs@[k]@),
        decreases rs.len() - i,
    {
        rows.push(rejection_row(&rs[i]));
        i = i + 1;
    }
    proof {
        let v = store::rejection_views(rs@);
        assert(text::texts(rows@) =~= Seq::new(v.len(), |i: int| rejection_text(v[i])));
    }
    list(&rows, "(no rejections)")
}

/// A consumer as it is shown.
pub open spec fn consumer_text(c: ConsumerView) -> Seq<char> {
    c.consumer + "  last_seq="@ + text::decimal_int(c.last_seq as int) + " unread="@
        + text::decimal_int(c.unread) + " last_read="@ + text_or(c.last_read_at, "-"@)
}

fn consumer_row(c: &ConsumerRow) -> (r: String)
    ensures
        r@ == consumer_text(c@),
{
    let last: String = text::decimal_i64(c.last_seq);
    let unread: String = text::decimal_i64(c.unread);
    let mut s: String = text::concat3(c.consumer.as_str(), "  last_seq=", last.as_str());
    s.append(" unread=");
    s.append(unread.as_str());
    s.append(" last_read=");
    s.append(str_or(&c.last_read_at, "-"));
    s
}

/// Consumers as they are shown.
pub open spec fn consumers_text(cs: Seq<ConsumerView>) -> Seq<char> {
    listed(Seq::new(cs.len(), |i: int| consumer_text(cs[i])), "(no consumers)"@)
}

/// Consumers as they are shown.
pub fn show_consumers(cs: &Vec<ConsumerRow>) -> (r: String)
    ensures
        r@ == consumers_text(store::consumer_views(cs@)),
{
    let mut rows: Vec<String> = Vec::new();
    let mut i: usize = 0;
    while i < cs.len()
        invariant
            i <= cs.len(),
            rows@.len() == i,
            forall|k: int| 0 <= k < i ==> (#[trigger] rows@[k])@ == consumer_text(cs@[k]@),
        decreases cs.len() - i,
    {
        rows.push(consumer_row(&cs[i]));
        i = i + 1;
    }
    proof {
        let v = store::consumer_views(cs@);
        assert(text::texts(rows@) =~= Seq::new(v.len(), |i: int| consumer_text(v[i])));
    }
    list(&rows, "(no consumers)")
}

/// A presence record as it is shown.
pub open spec fn presence_text(p: PresenceView) -> Seq<char> {
    p.agent + "  "@ + text_or(p.state, "?"@) + " (source="@ + text_or(p.source, ""@) + ", seq="@
        + text::decimal_int(p.seq as int) + ", last_seen="@ + p.last_seen + ")"@ + (
    match p.detail {
        Some(d) => " — "@ + d,
        None => ""@,
    })
}

fn presence_row(p: &PresenceRow) -> (r: String)
    ensures
        r@ == presence_text(p@),
{
    let seq: String = text::decimal_i64(p.seq);
    let detail: String = match &p.detail {
        Some(d) => text::concat2(" — ", d.as_str()),
        None => text::own(""),
    };
    let mut s: String = text::concat3(p.agent.as_str(), "  ", str_or(&p.state, "?"));
    s.append(" (source=");
    s.append(str_or(&p.source, ""));
    s.append(", seq=");
    s.append(seq.as_str());
    s.append(", last_seen=");
    s.append(p.last_seen.as_str());
    s.append(")");
    s.append(detail.as_str());
    s
}

/// Presence records as they are shown.
pub open spec fn presences_text(ps: Seq<PresenceView>) -> Seq<char> {
    listed(Seq::new(ps.len(), |i: int| presence_text(ps[i])), "(no presence records)"@)
}

/// Presence records as they are shown.
pub fn show_presence(ps: &Vec<PresenceRow>) -> (r: String)
    ensures
        r@ == presences_text(store::presence_views(ps@)),
{
    let mut rows: Vec<String> = Vec::new();
    let mut i: usize = 0;
    while i < ps.len()
        invariant
            i <= ps.len(),
            rows@.len() == i,
            forall|k: int| 0 <= k < i ==> (#[trigger] rows@[k])@ == presence_text(ps@[k]@),
        decreases ps.len() - i,
    {
        rows.push(presence_row(&ps[i]));
        i = i + 1;
    }
    proof {
        let v = store::presence_views(ps@);
        assert(text::texts(rows@) =~= Seq::new(v.len(), |i: int| presence_text(v[i])));
    }
    list(&rows, "(no presence records)")
}

/// A pending peer as it is shown.
pub open spec fn pair_text(p: PairRow) -> Seq<char> {
    p.name + "  SAS "@ + p.sas + "  ("@ + p.fingerprint + (if p.kem {
        " +kem"@
    } else {
        ""@
    }) + ")\n    compare the SAS with the peer, then: agentmsg pair confirm "@ + p.name
}

fn pair_line(p: &PendingPairView) -> (r: String)
    ensures
        r@ == pair_text(p@),
{
    let mut s: String = text::concat3(p.name.as_str(), "  SAS ", p.sas.as_str());
    s.append("  (");
    s.append(p.fingerprint.as_str());
    s.append(
        if p.kem {
            " +kem"
        } else {
            ""
        },
    );
    s.append(")\n    compare the SAS with the peer, then: agentmsg pair confirm ");
    s.append(p.name.as_str());
    s
}

/// Pending peers as they are shown.
pub open spec fn pairs_text(ps: Seq<PairRow>) -> Seq<char> {
    listed(
        Seq::new(ps.len(), |i: int| pair_text(ps[i])),
        "(no peers pairing — ask the peer to run `agentmsg pair start`)"@,
    )
}

/// Pending peers as they are shown.
pub fn show_pairs(ps: &Vec<PendingPairView>) -> (r: String)
    ensures
        r@ == pairs_text(crate::ipc::pair_rows(ps@)),
{
    let mut rows: Vec<String> = Vec::new();
    let mut i: usize = 0;
    while i < ps.len()
        invariant
            i <= ps.len(),
            rows@.len() == i,
            forall|k: int| 0 <= k < i ==> (#[trigger] rows@[k])@ == pair_text(ps@[k]@),
        decreases ps.len() - i,
    {
        rows.push(pair_line(&ps[i]));
        i = i + 1;
    }
    proof {
        let v = crate::ipc::pair_rows(ps@);
        assert(text::texts(rows@) =~= Seq::new(v.len(), |i: int| pair_text(v[i])));
    }
    list(&rows, "(no peers pairing — ask the peer to run `agentmsg pair start`)")
}

/// A known agent as it is shown.
pub open spec fn agent_text(a: KnownAgentView) -> Seq<char> {
    wire::fingerprint_of(a.public_key) + "  "@ + a.name
}

/// Known agents as they are shown, or a remark that there are none.
pub open spec fn agents_text(list: Seq<KnownAgentView>, none: Seq<char>) -> Seq<char> {
    listed(Seq::new(list.len(), |i: int| agent_text(list[i])), none)
}

/// Known agents as they are shown, or a remark that there are none.
pub fn show_agents(agents: &Vec<KnownAgent>, none: &str) -> (r: String)
    ensures
        r@ == agents_text(trust::agent_views(agents@), none@),
{
    let mut rows: Vec<String> = Vec::new();
    let mut i: usize = 0;
    while i < agents.len()
        invariant
            i <= agents.len(),
            rows@.len() == i,
            forall|k: int| 0 <= k < i ==> (#[trigger] rows@[k])@ == agent_text(agents@[k]@),
        decreases agents.len() - i,
    {
        let fp: String = agents[i].fingerprint();
        rows.push(text::concat3(fp.as_str(), "  ", agents[i].name.as_str()));
        i = i + 1;
    }
    proof {
        let v = trust::agent_views(agents@);
        assert(text::texts(rows@) =~= Seq::new(v.len(), |i: int| agent_text(v[i])));
    }
    list(&rows, none)
}

/// The security flags in one line.
pub open spec fn security_text(
    allow_unsigned: bool,
    accept_v1: bool,
    require_encryption: bool,
    auto_receipts: bool,
) -> Seq<char> {
    "allow_unsigned="@ + bool_text(allow_unsigned) + " accept_v1="@ + bool_text(accept_v1)
        + " require_encryption="@ + bool_text(require_encryption) + " auto_receipts="@ + bool_text(
        auto_receipts,
    )
}

fn security_line(
    allow_unsigned: bool,
    accept_v1: bool,
    require_encryption: bool,
    auto_receipts: bool,
) -> (r: String)
    ensures
        r@ == security_text(allow_unsigned, accept_v1, require_encryption, auto_receipts),
{
    let mut s: String = text::concat3(
        "allow_unsigned=",
        bool_str(allow_unsigned),
        " accept_v1=",
    );
    s.append(bool_str(accept_v1));
    s.append(" require_encryption=");
    s.append(bool_str(require_encryption));
    s.append(" auto_receipts=");
    s.append(bool_str(auto_receipts));
    s
}

/// The status of a running daemon as it is shown.
pub open spec fn status_text(s: StatusView) -> Seq<char> {
    "identity:  "@ + text_or(s.identity, ""@) + "\nbroker:    "@ + s.broker + "\nconnected: "@
        + bool_text(s.connected) + "\ntopics:    "@ + debug_list(s.topics) + "\nstored:    "@
        + text::decimal_int(s.stored) + "\nrejected:  "@ + text::decimal_int(s.rejected)
        + "\npending:   "@ + text::decimal_int(s.pending_out) + "\nknown:     "@
        + text::decimal_int(s.known_agents) + " agent(s)\nsecurity:  "@ + security_text(
        s.allow_unsigned,
        s.accept_v1,
        s.require_encryption,
        s.auto_receipts,
    ) + (if s.presence.len() == 0 {
        ""@
    } else {
        "\npresence:  "@ + text::decimal(s.presence.len()) + " record(s)"@
    })
}

/// The status of a running daemon as it is shown.
pub fn show_status(x: &StatusInfo) -> (r: String)
    ensures
        r@ == status_text(x@),
{
    let topics: String = debug_texts(&x.topics);
    let stored: String = text::decimal_i64(x.stored);
    let rejected: String = text::decimal_i64(x.rejected);
    let pending: String = text::decimal_i64(x.pending_out);
    let known: String = text::decimal_u64(x.known_agents as u64);
    let security: String = security_line(
        x.allow_unsigned,
        x.accept_v1,
        x.require_encryption,
        x.auto_receipts,
    );
    let presence: String = if x.presence.len() == 0 {
        text::own("")
    } else {
        let n: String = text::decimal_u64(x.presence.len() as u64);
        text::concat3("\npresence:  ", n.as_str(), " record(s)")
    };
    let mut s: String = text::concat3("identity:  ", str_or(&x.identity, ""), "\nbroker:    ");
    s.append(x.broker.as_str());
    s.append("\nconnected: ");
    s.append(bool_str(x.connected));
    s.append("\ntopics:    ");
    s.append(topics.as_str());
    s.append("\nstored:    ");
    s.append(stored.as_str());
    s.append("\nrejected:  ");
    s.append(rejected.as_str());
    s.append("\npending:   ");
    s.append(pending.as_str());
    s.append("\nknown:     ");
    s.append(known.as_str());
    s.append(" agent(s)\nsecurity:  ");
    s.append(security.as_str());
    s.append(presence.as_str());
    assert(store::presence_views(x.presence@).len() == x.presence@.len());
    s
}

/// What is shown where no daemon runs.
pub open spec fn down_text(identity: Option<Seq<char>>, broker: Seq<char>) -> Seq<char> {
    "daemon:    not running\nidentity:  "@ + text_or(identity, ""@) + "\nbroker:    "@ + broker
}

/// What is shown where no daemon runs.
pub fn show_down(identity: &Option<String>, broker: &str) -> (r: String)
    ensures
        r@ == down_text(text::opt_text(*identity), broker@),
{
    let mut s: String = text::concat3(
        "daemon:    not running\nidentity:  ",
        str_or(identity, ""),
        "\nbroker:    ",
    );
    s.append(broker);
    s
}

/// The configuration as it is shown. The password is not.
pub open spec fn config_text(c: ConfigView) -> Seq<char> {
    "broker:   "@ + c.broker_host + ":"@ + text::decimal(c.broker_port as nat) + " (tls="@
        + bool_text(c.tls) + ")\nuser:     "@ + c.username + " (password "@ + (
    if c.password.len() == 0 {
        "unset"@
    } else {
        "set"@
    }) + ")\ntopics:   "@ + debug_list(c.topics) + "\nstore:    max "@ + text::decimal(
        c.max_messages as nat,
    ) + " msgs / "@ + text::decimal(c.max_bytes as nat) + " bytes\nsecurity: "@ + security_text(
        c.allow_unsigned,
        c.accept_v1,
        c.require_encryption,
        c.auto_receipts,
    )
}

/// The configuration as it is shown. The password is not.
pub fn show_config(c: &Config) -> (r: String)
    ensures
        r@ == config_text(c@),
{
    let port: String = text::decimal_u64(c.broker_port as u64);
    let topics: String = debug_texts(&c.topics);
    let messages: String = text::decimal_u64(c.max_messages);
    let bytes: String = text::decimal_u64(c.max_bytes);
    let security: String = security_line(
        c.allow_unsigned,
        c.accept_v1,
        c.require_encryption,
        c.auto_receipts,
    );
    let mut s: String = text::concat3("broker:   ", c.broker_host.as_str(), ":");
    s.append(port.as_str());
    s.append(" (tls=");
    s.append(bool_str(c.tls));
    s.append(")\nuser:     ");
    s.append(c.username.as_str());
    s.append(" (password ");
    s.append(
        if c.password.as_str().is_empty() {
            "unset"
        } else {
            "set"
        },
    );
    s.append(")\ntopics:   ");
    s.append(topics.as_str());
    s.append("\nstore:    max ");
    s.append(messages.as_str());
    s.append(" msgs / ");
    s.append(bytes.as_str());
    s.append(" bytes\nsecurity: ");
    s.append(security.as_str());
    s
}

/// What is shown once the broker is set.
pub open spec fn broker_text(c: ConfigView) -> Seq<char> {
    "broker set to "@ + c.broker_host + ":"@ + text::decimal(c.broker_port as nat) + " (tls="@
        + bool_text(c.tls) + ")"@
}

/// What is shown once the broker is set.
pub fn show_broker(c: &Config) -> (r: String)
    ensures
        r@ == broker_text(c@),
{
    let port: String = text::decimal_u64(c.broker_port as u64);
    let mut s: String = text::concat3("broker set to ", c.broker_host.as_str(), ":");
    s.append(port.as_str());
    s.append(" (tls=");
    s.append(bool_str(c.tls));
    s.append(")");
    s
}

/// What is shown once a topic is added.
pub fn show_topics(c: &Config) -> (r: String)
    ensures
        r@ == "topics: "@ + debug_list(c@.topics),
{
    let topics: String = debug_texts(&c.topics);
    text::concat2("topics: ", topics.as_str())
}

/// What is shown once the security flags are set.
pub open spec fn flags_text(c: ConfigView) -> Seq<char> {
    "allow_unsigned:     "@ + bool_text(c.allow_unsigned) + "\naccept_v1:          "@ + bool_text(
        c.accept_v1,
    ) + "\nrequire_encryption: "@ + bool_text(c.require_encryption) + "\nauto_receipts:      "@
        + bool_text(c.auto_receipts)
}

/// What is shown once the security flags are set.
pub fn show_flags(c: &Config) -> (r: String)
    ensures
        r@ == flags_text(c@),
{
    let mut s: String = text::concat3(
        "allow_unsigned:     ",
        bool_str(c.allow_unsigned),
        "\naccept_v1:          ",
    );
    s.append(bool_str(c.accept_v1));
    s.append("\nrequire_encryption: ");
    s.append(bool_str(c.require_encryption));
    s.append("\nauto_receipts:      ");
    s.append(bool_str(c.auto_receipts));
    s
}

/// An identity or an authority with its token, as it is shown.
pub open spec fn key_text(name: Seq<char>, fp: Seq<char>, token: Seq<char>) -> Seq<char> {
    "name:        "@ + name + "\nfingerprint: "@ + fp + "\ntoken:       "@ + token
}

/// An identity or an authority with its token, as it is shown.
pub fn show_key(name: &str, fp: &str, token: &str) -> (r: String)
    ensures
        r@ == key_text(name@, fp@, token@),
{
    let mut s: String = text::concat3("name:        ", name, "\nfingerprint: ");
    s.append(fp);
    s.append("\ntoken:       ");
    s.append(token);
    s
}

// ---------------------------------------------------------------------------
// What is shown.
// ---------------------------------------------------------------------------

/// A text between two others.
pub open spec fn between(a: Seq<char>, part: Seq<char>, b: Seq<char>) -> Seq<char> {
    a + part + b
}

/// The text holds the part.
pub open spec fn shows(t: Seq<char>, part: Seq<char>) -> bool {
    exists|a: Seq<char>, b: Seq<char>| t == #[trigger] between(a, part, b)
}

/// The first `n` pieces, one behind the other.
spec fn strung(ps: Seq<Seq<char>>, n: int) -> Seq<char>
    decreases n,
{
    if n <= 0 {
        Seq::empty()
    } else if n == 1 {
        ps[0]
    } else {
        strung(ps, n - 1) + ps[n - 1]
    }
}

proof fn lemma_strung(ps: Seq<Seq<char>>, i: int, n: int)
    requires
        0 <= i <= n <= ps.len(),
    ensures
        strung(ps, n) == strung(ps, i) + strung(ps.subrange(i, n), n - i),
    decreases n - i,
{
    let mid = ps.subrange(i, n);
    if i == n {
        assert(strung(ps, n) =~= strung(ps, i) + strung(mid, 0));
    } else {
        lemma_strung(ps, i, n - 1);
        let before = ps.subrange(i, n - 1);
        lemma_same_pieces(mid, before, n - 1 - i);
        let (a, b, c) = (strung(ps, i), strung(mid, n - 1 - i), ps[n - 1]);
        assert(mid[n - 1 - i] == c);
        assert(strung(ps, n) =~= strung(ps, n - 1) + c);
        assert(strung(mid, n - i) =~= b + c);
        assert((a + b) + c =~= a + (b + c));
    }
}

proof fn lemma_same_pieces(a: Seq<Seq<char>>, b: Seq<Seq<char>>, n: int)
    requires
        n <= a.len(),
        n <= b.len(),
        forall|i: int| 0 <= i < n ==> #[trigger] a[i] == b[i],
    ensures
        strung(a, n) == strung(b, n),
    decreases n,
{
    if n > 0 {
        assert(a[n - 1] == b[n - 1]);
        lemma_same_pieces(a, b, n - 1);
    }
}

proof fn lemma_piece(ps: Seq<Seq<char>>, i: int, j: int)
    requires
        0 <= i <= j <= ps.len(),
    ensures
        shows(strung(ps, ps.len() as int), strung(ps.subrange(i, j), j - i)),
{
    let n = ps.len() as int;
    lemma_strung(ps, j, n);
    lemma_strung(ps, i, j);
    assert(strung(ps, n) == between(
        strung(ps, i),
        strung(ps.subrange(i, j), j - i),
        strung(ps.subrange(j, n), n - j),
    ));
}

/// A message is shown with its number, time, sender and recipient, content type
/// and kind, whether it was encrypted, what it answers, and its body at the end.
#[verifier::rlimit(40)]
pub proof fn a_message_is_shown_with_what_it_says(m: MsgView)
    ensures
        ({
            let t = message_text(m);
            &&& shows(t, "#"@ + text::decimal_int(m.seq as int) + " ["@)
            &&& shows(t, " ["@ + m.ts + "] "@)
            &&& shows(t, "] "@ + m.from + " -> "@ + m.to + " ("@)
            &&& shows(t, " ("@ + m.ctype + "/"@ + m.kind + ")"@)
            &&& m.encrypted ==> shows(t, ")"@ + " [enc]"@)
            &&& m.in_reply_to matches Some(r) ==> shows(t, " reply-to="@ + r)
            &&& shows(t, "\n    "@ + m.body)
            &&& t.skip(t.len() - m.body.len()) == m.body
        }),
{
    let t = message_text(m);
    let n = text::decimal_int(m.seq as int);
    let enc = if m.encrypted {
        " [enc]"@
    } else {
        ""@
    };
    let reply = match m.in_reply_to {
        Some(r) => " reply-to="@ + r,
        None => ""@,
    };
    let ps = seq![
        "#"@,
        n,
        " ["@,
        m.ts,
        "] "@,
        m.from,
        " -> "@,
        m.to,
        " ("@,
        m.ctype,
        "/"@,
        m.kind,
        ")"@,
        enc,
        reply,
        "\n    "@,
        m.body,
    ];
    reveal_with_fuel(strung, 18);
    assert(t == strung(ps, 17));
    lemma_piece(ps, 0, 3);
    lemma_piece(ps, 2, 5);
    lemma_piece(ps, 4, 9);
    lemma_piece(ps, 8, 13);
    lemma_piece(ps, 12, 14);
    lemma_piece(ps, 14, 15);
    lemma_piece(ps, 15, 17);
    assert(t.skip(t.len() - m.body.len()) =~= m.body);
}

/// A delivery state is shown with the message's id, its recipient and all its times.
#[verifier::rlimit(40)]
pub proof fn a_delivery_state_is_shown_with_its_times(m: MsgView)
    ensures
        ({
            let t = receipt_text(m);
            &&& shows(t, m.id + " "@ + m.delivery_state + " (to "@)
            &&& shows(t, " (to "@ + m.to + ") sent="@)
            &&& shows(t, ") sent="@ + m.ts + " delivered="@)
            &&& shows(
                t,
                " delivered="@ + (match m.delivered_ts { Some(v) => v, None => "-"@ }) + " read="@,
            )
            &&& shows(t, " read="@ + (match m.read_ts { Some(v) => v, None => "-"@ }))
        }),
{
    let t = receipt_text(m);
    let ps = seq![
        m.id,
        " "@,
        m.delivery_state,
        " (to "@,
        m.to,
        ") sent="@,
        m.ts,
        " delivered="@,
        (match m.delivered_ts { Some(v) => v, None => "-"@ }),
        " read="@,
        (match m.read_ts { Some(v) => v, None => "-"@ }),
    ];
    reveal_with_fuel(strung, 12);
    assert(t == strung(ps, 11));
    lemma_piece(ps, 0, 4);
    lemma_piece(ps, 3, 6);
    lemma_piece(ps, 5, 8);
    lemma_piece(ps, 7, 10);
    lemma_piece(ps, 9, 11);
}

/// A rejection is shown with its number, time, reason, sender, topic and detail.
#[verifier::rlimit(40)]
pub proof fn a_rejection_is_shown_with_its_reason(r: RejectionView)
    ensures
        ({
            let t = rejection_text(r);
            &&& shows(t, "#"@ + text::decimal_int(r.seq as int) + " ["@)
            &&& shows(t, " ["@ + r.at + "] "@)
            &&& shows(t, "] "@ + r.reason + " from="@)
            &&& shows(
                t,
                " from="@ + (match r.claimed_sender { Some(v) => v, None => "?"@ }) + " topic="@,
            )
            &&& shows(t, " topic="@ + (match r.topic { Some(v) => v, None => ""@ }) + " — "@)
            &&& shows(t, " — "@ + r.detail)
        }),
{
    let t = rejection_text(r);
    let ps = seq![
        "#"@,
        text::decimal_int(r.seq as int),
        " ["@,
        r.at,
        "] "@,
        r.reason,
        " from="@,
        (match r.claimed_sender { Some(v) => v, None => "?"@ }),
        " topic="@,
        (match r.topic { Some(v) => v, None => ""@ }),
        " — "@,
        r.detail,
    ];
    reveal_with_fuel(strung, 13);
    assert(t == strung(ps, 12));
    lemma_piece(ps, 0, 3);
    lemma_piece(ps, 2, 5);
    lemma_piece(ps, 4, 7);
    lemma_piece(ps, 6, 9);
    lemma_piece(ps, 8, 11);
    lemma_piece(ps, 10, 12);
}

/// A consumer is shown with where it stands, what it has not read and when it read.
pub proof fn a_consumer_is_shown_with_where_it_stands(c: ConsumerView)
    ensures
        ({
            let t = consumer_text(c);
            &&& shows(t, c.consumer + "  last_seq="@)
            &&& shows(t, "  last_seq="@ + text::decimal_int(c.last_seq as int) + " unread="@)
            &&& shows(t, " unread="@ + text::decimal_int(c.unread) + " last_read="@)
            &&& shows(t, " last_read="@ + (match c.last_read_at { Some(v) => v, None => "-"@ }))
        }),
{
    let t = consumer_text(c);
    let ps = seq![
        c.consumer,
        "  last_seq="@,
        text::decimal_int(c.last_seq as int),
        " unread="@,
        text::decimal_int(c.unread),
        " last_read="@,
        (match c.last_read_at { Some(v) => v, None => "-"@ }),
    ];
    reveal_with_fuel(strung, 8);
    assert(t == strung(ps, 7));
    lemma_piece(ps, 0, 2);
    lemma_piece(ps, 1, 4);
    lemma_piece(ps, 3, 6);
    lemma_piece(ps, 5, 7);
}

/// A presence record is shown with the agent, its state, who said so, and when.
#[verifier::rlimit(40)]
pub proof fn presence_is_shown_with_its_source(p: PresenceView)
    ensures
        ({
            let t = presence_text(p);
            &&& shows(
                t,
                p.agent + "  "@ + (match p.state { Some(v) => v, None => "?"@ }) + " (source="@,
            )
            &&& shows(t, " (source="@ + (match p.source { Some(v) => v, None => ""@ }) + ", seq="@)
            &&& shows(t, ", seq="@ + text::decimal_int(p.seq as int) + ", last_seen="@)
            &&& shows(t, ", last_seen="@ + p.last_seen + ")"@)
            &&& shows(t, ")"@ + (match p.detail { Some(d) => " — "@ + d, None => ""@ }))
        }),
{
    let t = presence_text(p);
    let ps = seq![
        p.agent,
        "  "@,
        (match p.state { Some(v) => v, None => "?"@ }),
        " (source="@,
        (match p.source { Some(v) => v, None => ""@ }),
        ", seq="@,
        text::decimal_int(p.seq as int),
        ", last_seen="@,
        p.last_seen,
        ")"@,
        (match p.detail { Some(d) => " — "@ + d, None => ""@ }),
    ];
    reveal_with_fuel(strung, 12);
    assert(t == strung(ps, 11));
    lemma_piece(ps, 0, 4);
    lemma_piece(ps, 3, 6);
    lemma_piece(ps, 5, 8);
    lemma_piece(ps, 7, 10);
    lemma_piece(ps, 9, 11);
}

/// A pending peer is shown with its code and the fingerprint of its key.
pub proof fn a_pending_peer_is_shown_with_its_code(p: PairRow)
    ensures
        ({
            let t = pair_text(p);
            &&& shows(t, p.name + "  SAS "@ + p.sas + "  ("@)
            &&& shows(
                t,
                "  ("@ + p.fingerprint
                    + (if p.kem { " +kem"@ } else { ""@ }) + ")\n    compare the SAS with the peer, then: agentmsg pair confirm "@,
            )
            &&& shows(
                t,
                ")\n    compare the SAS with the peer, then: agentmsg pair confirm "@ + p.name,
            )
        }),
{
    let t = pair_text(p);
    let ps = seq![
        p.name,
        "  SAS "@,
        p.sas,
        "  ("@,
        p.fingerprint,
        (if p.kem { " +kem"@ } else { ""@ }),
        ")\n    compare the SAS with the peer, then: agentmsg pair confirm "@,
        p.name,
    ];
    reveal_with_fuel(strung, 9);
    assert(t == strung(ps, 8));
    lemma_piece(ps, 0, 4);
    lemma_piece(ps, 3, 7);
    lemma_piece(ps, 6, 8);
}

/// A known agent is shown by its fingerprint and its name.
pub proof fn an_agent_is_shown_by_its_fingerprint(a: KnownAgentView)
    ensures
        ({
            let t = agent_text(a);
            &&& shows(t, wire::fingerprint_of(a.public_key) + "  "@ + a.name)
        }),
{
    let t = agent_text(a);
    let ps = seq![
        wire::fingerprint_of(a.public_key),
        "  "@,
        a.name,
    ];
    reveal_with_fuel(strung, 4);
    assert(t == strung(ps, 3));
    lemma_piece(ps, 0, 3);
}

/// Every security flag is shown under its name.
pub proof fn every_flag_is_shown_under_its_name(
    allow_unsigned: bool,
    accept_v1: bool,
    require_encryption: bool,
    auto_receipts: bool,
)
    ensures
        ({
            let t = security_text(allow_unsigned, accept_v1, require_encryption, auto_receipts);
            &&& shows(
                t,
                "allow_unsigned="@ + (if allow_unsigned { "true"@ } else { "false"@ })
                    + " accept_v1="@,
            )
            &&& shows(
                t,
                " accept_v1="@ + (if accept_v1 { "true"@ } else { "false"@ })
                    + " require_encryption="@,
            )
            &&& shows(
                t,
                " require_encryption="@ + (if require_encryption { "true"@ } else { "false"@ })
                    + " auto_receipts="@,
            )
            &&& shows(t, " auto_receipts="@ + (if auto_receipts { "true"@ } else { "false"@ }))
        }),
{
    let t = security_text(allow_unsigned, accept_v1, require_encryption, auto_receipts);
    let ps = seq![
        "allow_unsigned="@,
        (if allow_unsigned { "true"@ } else { "false"@ }),
        " accept_v1="@,
        (if accept_v1 { "true"@ } else { "false"@ }),
        " require_encryption="@,
        (if require_encryption { "true"@ } else { "false"@ }),
        " auto_receipts="@,
        (if auto_receipts { "true"@ } else { "false"@ }),
    ];
    reveal_with_fuel(strung, 9);
    assert(t == strung(ps, 8));
    lemma_piece(ps, 0, 3);
    lemma_piece(ps, 2, 5);
    lemma_piece(ps, 4, 7);
    lemma_piece(ps, 6, 8);
}

/// Flags that were set are shown each under its name.
pub proof fn set_flags_are_shown_under_their_names(c: ConfigView)
    ensures
        ({
            let t = flags_text(c);
            &&& shows(
                t,
                "allow_unsigned:     "@ + (if c.allow_unsigned { "true"@ } else { "false"@ })
                    + "\naccept_v1:          "@,
            )
            &&& shows(
                t,
                "\naccept_v1:          "@ + (if c.accept_v1 { "true"@ } else { "false"@ })
                    + "\nrequire_encryption: "@,
            )
            &&& shows(
                t,
                "\nrequire_encryption: "@
                    + (if c.require_encryption { "true"@ } else { "false"@ })
                    + "\nauto_receipts:      "@,
            )
            &&& shows(
                t,
                "\nauto_receipts:      "@ + (if c.auto_receipts { "true"@ } else { "false"@ }),
            )
        }),
{
    let t = flags_text(c);
    let ps = seq![
        "allow_unsigned:     "@,
        (if c.allow_unsigned { "true"@ } else { "false"@ }),
        "\naccept_v1:          "@,
        (if c.accept_v1 { "true"@ } else { "false"@ }),
        "\nrequire_encryption: "@,
        (if c.require_encryption { "true"@ } else { "false"@ }),
        "\nauto_receipts:      "@,
        (if c.auto_receipts { "true"@ } else { "false"@ }),
    ];
    reveal_with_fuel(strung, 9);
    assert(t == strung(ps, 8));
    lemma_piece(ps, 0, 3);
    lemma_piece(ps, 2, 5);
    lemma_piece(ps, 4, 7);
    lemma_piece(ps, 6, 8);
}

/// A broker is shown with its host, its port and whether TLS is on.
pub proof fn a_broker_is_shown_as_it_is(c: ConfigView)
    ensures
        ({
            let t = broker_text(c);
            &&& shows(
                t,
                "broker set to "@ + c.broker_host + ":"@ + text::decimal(c.broker_port as nat)
                    + " (tls="@,
            )
            &&& shows(t, " (tls="@ + (if c.tls { "true"@ } else { "false"@ }) + ")"@)
        }),
{
    let t = broker_text(c);
    let ps = seq![
        "broker set to "@,
        c.broker_host,
        ":"@,
        text::decimal(c.broker_port as nat),
        " (tls="@,
        (if c.tls { "true"@ } else { "false"@ }),
        ")"@,
    ];
    reveal_with_fuel(strung, 8);
    assert(t == strung(ps, 7));
    lemma_piece(ps, 0, 5);
    lemma_piece(ps, 4, 7);
}

/// A key is shown with its owner's name, its fingerprint and its token.
pub proof fn a_key_is_shown_with_its_token(name: Seq<char>, fp: Seq<char>, token: Seq<char>)
    ensures
        ({
            let t = key_text(name, fp, token);
            &&& shows(t, "name:        "@ + name + "\nfingerprint: "@)
            &&& shows(t, "\nfingerprint: "@ + fp + "\ntoken:       "@)
            &&& shows(t, "\ntoken:       "@ + token)
        }),
{
    let t = key_text(name, fp, token);
    let ps = seq![
        "name:        "@,
        name,
        "\nfingerprint: "@,
        fp,
        "\ntoken:       "@,
        token,
    ];
    reveal_with_fuel(strung, 7);
    assert(t == strung(ps, 6));
    lemma_piece(ps, 0, 3);
    lemma_piece(ps, 2, 5);
    lemma_piece(ps, 4, 6);
}

/// The configuration is shown with the broker, the user, the topics, the bounds
/// and the flags, and of the password only whether there is one.
#[verifier::rlimit(40)]
pub proof fn the_configuration_is_shown_under_its_names(c: ConfigView)
    ensures
        ({
            let t = config_text(c);
            &&& shows(
                t,
                "broker:   "@ + c.broker_host + ":"@ + text::decimal(c.broker_port as nat)
                    + " (tls="@,
            )
            &&& shows(t, " (tls="@ + (if c.tls { "true"@ } else { "false"@ }) + ")\nuser:     "@)
            &&& shows(t, ")\nuser:     "@ + c.username + " (password "@)
            &&& shows(
                t,
                " (password "@
                    + (if c.password.len() == 0 { "unset"@ } else { "set"@ }) + ")\ntopics:   "@,
            )
            &&& shows(t, ")\ntopics:   "@ + debug_list(c.topics) + "\nstore:    max "@)
            &&& shows(
                t,
                "\nstore:    max "@ + text::decimal(c.max_messages as nat) + " msgs / "@
                    + text::decimal(c.max_bytes as nat) + " bytes\nsecurity: "@,
            )
            &&& shows(
                t,
                " bytes\nsecurity: "@
                    + security_text(c.allow_unsigned, c.accept_v1, c.require_encryption, c.auto_receipts),
            )
        }),
{
    let t = config_text(c);
    let ps = seq![
        "broker:   "@,
        c.broker_host,
        ":"@,
        text::decimal(c.broker_port as nat),
        " (tls="@,
        (if c.tls { "true"@ } else { "false"@ }),
        ")\nuser:     "@,
        c.username,
        " (password "@,
        (if c.password.len() == 0 { "unset"@ } else { "set"@ }),
        ")\ntopics:   "@,
        debug_list(c.topics),
        "\nstore:    max "@,
        text::decimal(c.max_messages as nat),
        " msgs / "@,
        text::decimal(c.max_bytes as nat),
        " bytes\nsecurity: "@,
        security_text(c.allow_unsigned, c.accept_v1, c.require_encryption, c.auto_receipts),
    ];
    reveal_with_fuel(strung, 19);
    assert(t == strung(ps, 18));
    lemma_piece(ps, 0, 5);
    lemma_piece(ps, 4, 7);
    lemma_piece(ps, 6, 9);
    lemma_piece(ps, 8, 11);
    lemma_piece(ps, 10, 13);
    lemma_piece(ps, 12, 17);
    lemma_piece(ps, 16, 18);
}

/// The status is shown with everything that it counts, each under its name.
#[verifier::rlimit(40)]
pub proof fn the_status_is_shown_under_its_names(s: StatusView)
    ensures
        ({
            let t = status_text(s);
            &&& shows(
                t,
                "identity:  "@ + (match s.identity { Some(v) => v, None => ""@ })
                    + "\nbroker:    "@,
            )
            &&& shows(t, "\nbroker:    "@ + s.broker + "\nconnected: "@)
            &&& shows(
                t,
                "\nconnected: "@ + (if s.connected { "true"@ } else { "false"@ })
                    + "\ntopics:    "@,
            )
            &&& shows(t, "\ntopics:    "@ + debug_list(s.topics) + "\nstored:    "@)
            &&& shows(t, "\nstored:    "@ + text::decimal_int(s.stored) + "\nrejected:  "@)
            &&& shows(t, "\nrejected:  "@ + text::decimal_int(s.rejected) + "\npending:   "@)
            &&& shows(t, "\npending:   "@ + text::decimal_int(s.pending_out) + "\nknown:     "@)
            &&& shows(
                t,
                "\nknown:     "@ + text::decimal_int(s.known_agents) + " agent(s)\nsecurity:  "@,
            )
            &&& shows(
                t,
                " agent(s)\nsecurity:  "@
                    + security_text(s.allow_unsigned, s.accept_v1, s.require_encryption, s.auto_receipts)
                    + (if s.presence.len() == 0 { ""@ } else { "\npresence:  "@
                    + text::decimal(s.presence.len()) + " record(s)"@ }),
            )
        }),
{
    let t = status_text(s);
    let ps = seq![
        "identity:  "@,
        (match s.identity { Some(v) => v, None => ""@ }),
        "\nbroker:    "@,
        s.broker,
        "\nconnected: "@,
        (if s.connected { "true"@ } else { "false"@ }),
        "\ntopics:    "@,
        debug_list(s.topics),
        "\nstored:    "@,
        text::decimal_int(s.stored),
        "\nrejected:  "@,
        text::decimal_int(s.rejected),
        "\npending:   "@,
        text::decimal_int(s.pending_out),
        "\nknown:     "@,
        text::decimal_int(s.known_agents),
        " agent(s)\nsecurity:  "@,
        security_text(s.allow_unsigned, s.accept_v1, s.require_encryption, s.auto_receipts),
        (if s.presence.len() == 0 { ""@ } else { "\npresence:  "@ + text::decimal(s.presence.len()) + " record(s)"@ }),
    ];
    reveal_with_fuel(strung, 20);
    assert(t == strung(ps, 19));
    lemma_piece(ps, 0, 3);
    lemma_piece(ps, 2, 5);
    lemma_piece(ps, 4, 7);
    lemma_piece(ps, 6, 9);
    lemma_piece(ps, 8, 11);
    lemma_piece(ps, 10, 13);
    lemma_piece(ps, 12, 15);
    lemma_piece(ps, 14, 17);
    lemma_piece(ps, 16, 19);
}

/// Every row of a list is shown, and the remark that there are none exactly where
/// there are none.
pub proof fn every_row_is_shown(rows: Seq<Seq<char>>, none: Seq<char>, k: int)
    ensures
        rows.len() == 0 ==> listed(rows, none) == none,
        0 <= k < rows.len() ==> shows(listed(rows, none), rows[k]),
        rows.len() == 1 ==> listed(rows, none) == rows[0],
        rows.len() > 1 ==> listed(rows, none) == listed(rows.drop_last(), none) + "\n"@
            + rows.last(),
{
    if 0 <= k < rows.len() {
        lemma_row_shown(rows, k);
    }
}

proof fn lemma_row_shown(rows: Seq<Seq<char>>, k: int)
    requires
        0 <= k < rows.len(),
    ensures
        shows(text::joined(rows, "\n"@), rows[k]),
    decreases rows.len(),
{
    let t = text::joined(rows, "\n"@);
    let none = Seq::<char>::empty();
    if rows.len() == 1 {
        assert(t =~= between(none, rows[0], none));
    } else {
        let before = text::joined(rows.drop_last(), "\n"@);
        if k == rows.len() - 1 {
            assert(t =~= between(before + "\n"@, rows[k], none));
        } else {
            lemma_row_shown(rows.drop_last(), k);
            let (a, b) = choose|a: Seq<char>, b: Seq<char>| before == #[trigger] between(
                a,
                rows[k],
                b,
            );
            assert(t =~= between(a, rows[k], b + "\n"@ + rows.last()));
        }
    }
}

/// Of every list each item is shown as its row.
#[verifier::rlimit(40)]
pub proof fn every_item_is_shown(
    ms: Seq<MsgView>,
    rs: Seq<RejectionView>,
    cs: Seq<ConsumerView>,
    ps: Seq<PresenceView>,
    qs: Seq<PairRow>,
    list: Seq<KnownAgentView>,
    none: Seq<char>,
    k: int,
)
    ensures
        0 <= k < ms.len() ==> shows(messages_text(ms), message_text(ms[k])) && shows(
            receipts_text(ms),
            receipt_text(ms[k]),
        ),
        0 <= k < rs.len() ==> shows(rejections_text(rs), rejection_text(rs[k])),
        0 <= k < cs.len() ==> shows(consumers_text(cs), consumer_text(cs[k])),
        0 <= k < ps.len() ==> shows(presences_text(ps), presence_text(ps[k])),
        0 <= k < qs.len() ==> shows(pairs_text(qs), pair_text(qs[k])),
        0 <= k < list.len() ==> shows(agents_text(list, none), agent_text(list[k])),
        ms.len() == 0 ==> messages_text(ms) == "(no messages)"@ && receipts_text(ms)
            == "(no outbound messages)"@,
{
    every_row_is_shown(
        Seq::new(ms.len(), |i: int| message_text(ms[i])),
        "(no messages)"@,
        k,
    );
    every_row_is_shown(
        Seq::new(ms.len(), |i: int| receipt_text(ms[i])),
        "(no outbound messages)"@,
        k,
    );
    every_row_is_shown(Seq::new(rs.len(), |i: int| rejection_text(rs[i])), "(no rejections)"@, k);
    every_row_is_shown(Seq::new(cs.len(), |i: int| consumer_text(cs[i])), "(no consumers)"@, k);
    every_row_is_shown(
        Seq::new(ps.len(), |i: int| presence_text(ps[i])),
        "(no presence records)"@,
        k,
    );
    every_row_is_shown(
        Seq::new(qs.len(), |i: int| pair_text(qs[i])),
        "(no peers pairing — ask the peer to run `agentmsg pair start`)"@,
        k,
    );
    every_row_is_shown(Seq::new(list.len(), |i: int| agent_text(list[i])), none, k);
}

/// Where no daemon runs, this is said with the identity and the broker.
pub proof fn a_daemon_that_is_down_is_told(identity: Option<Seq<char>>, broker: Seq<char>)
    ensures
        ({
            let t = down_text(identity, broker);
            &&& shows(t, "daemon:    not running\nidentity:  "@)
            &&& identity matches Some(n) ==> shows(
                t,
                "daemon:    not running\nidentity:  "@ + n + "\nbroker:    "@,
            )
            &&& shows(t, "\nbroker:    "@ + broker)
        }),
{
    let t = down_text(identity, broker);
    let ps = seq![
        "daemon:    not running\nidentity:  "@,
        text_or(identity, ""@),
        "\nbroker:    "@,
        broker,
    ];
    reveal_with_fuel(strung, 5);
    assert(t == strung(ps, 4));
    lemma_piece(ps, 0, 1);
    lemma_piece(ps, 0, 3);
    lemma_piece(ps, 2, 4);
}

} // verus!
