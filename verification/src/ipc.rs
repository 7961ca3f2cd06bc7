//! What the command line and the daemon say to each other, and the
//! length-prefixed frames that carry it over a local socket.

use vstd::prelude::*;
use vstd::string::*;

use crate::store;
use crate::store::{
    ConsumerRow, ConsumerView, MsgView, PresenceRow, PresenceView, RejectionRow, RejectionView,
    StoredMsg,
};
use crate::text;

verus! {

/// Version of the local protocol.
pub const IPC_PROTO_VERSION: u32 = 2;

/// Requests to the daemon.
#[derive(Debug, PartialEq, Eq)]
pub enum Request {
    /// Liveness check.
    Ping,
    /// Daemon and connection status.
    Status,
    /// Protocol handshake, answered by [`Response::Hello`].
    Hello { ipc_proto: u32 },
    /// Publish a message.
    Send(SendParams),
    /// Drain the queue since the consumer's cursor.
    Read { consumer: String, limit: i64 },
    /// Acknowledge up to a sequence number.
    Ack { consumer: String, seq: i64 },
    /// Open a stream of [`StreamFrame`]s.
    Subscribe { consumer: String, ack: bool },
    /// Browse without moving a cursor: inbound messages, the newest first, or those
    /// of both directions in the order of time.
    Browse { limit: i64, from: Option<String>, to: Option<String>, all: bool },
    /// Chronological transcript of both directions.
    Transcript { limit: i64, from: Option<String>, to: Option<String>, peer: Option<String> },
    /// Recent rejections.
    Rejections { limit: i64, reason: Option<String>, since: Option<String> },
    /// Cursors of all consumers.
    Consumers,
    /// Delivery states of outbound messages.
    Receipts { id: Option<String>, limit: i64, state: Option<String> },
    /// Reply to a stored message.
    Reply { msg_id: String, ctype: String, body: String },
    /// Emit a presence beacon.
    Presence { state: String, ttl_secs: Option<i64>, detail: Option<String> },
    /// List presence records.
    PresenceList,
    /// Broadcast a pairing hello.
    PairStart { topic: Option<String> },
    /// List the peers that await confirmation.
    PairList,
    /// Confirm a peer.
    PairConfirm { name: String },
    /// Connect the broker session.
    Connect,
    /// Disconnect the broker session.
    Disconnect,
    /// Stop the daemon.
    Shutdown,
}

/// The message of a [`Request::Send`].
#[derive(Debug, PartialEq, Eq)]
pub struct SendParams {
    pub to: String,
    pub ctype: String,
    pub body: String,
    pub in_reply_to: Option<String>,
    /// Publish topic in place of the primary one; it must be configured.
    pub topic: Option<String>,
    /// Name of the message kind; anything unknown is a plain message.
    pub kind: String,
    pub correlation_id: Option<String>,
    pub supersedes: Option<String>,
    /// Encrypt to the recipient's key.
    pub encrypt: bool,
    /// A grant token to attach.
    pub grant: Option<String>,
    /// Send unsigned (insecure).
    pub unsigned: bool,
}

/// The model of [`SendParams`].
pub struct ParamsView {
    pub to: Seq<char>,
    pub ctype: Seq<char>,
    pub body: Seq<char>,
    pub in_reply_to: Option<Seq<char>>,
    pub topic: Option<Seq<char>>,
    pub kind: Seq<char>,
    pub correlation_id: Option<Seq<char>>,
    pub supersedes: Option<Seq<char>>,
    pub encrypt: bool,
    pub grant: Option<Seq<char>>,
    pub unsigned: bool,
}

impl View for SendParams {
    type V = ParamsView;

    open spec fn view(&self) -> ParamsView {
        ParamsView {
            to: self.to@,
            ctype: self.ctype@,
            body: self.body@,
            in_reply_to: text::opt_text(self.in_reply_to),
            topic: text::opt_text(self.topic),
            kind: self.kind@,
            correlation_id: text::opt_text(self.correlation_id),
            supersedes: text::opt_text(self.supersedes),
            encrypt: self.encrypt,
            grant: text::opt_text(self.grant),
            unsigned: self.unsigned,
        }
    }
}

/// The model of a [`Request`].
pub enum RequestView {
    Ping,
    Status,
    Hello { ipc_proto: u32 },
    Send(ParamsView),
    Read { consumer: Seq<char>, limit: i64 },
    Ack { consumer: Seq<char>, seq: i64 },
    Subscribe { consumer: Seq<char>, ack: bool },
    Browse { limit: i64, from: Option<Seq<char>>, to: Option<Seq<char>>, all: bool },
    Transcript {
        limit: i64,
        from: Option<Seq<char>>,
        to: Option<Seq<char>>,
        peer: Option<Seq<char>>,
    },
    Rejections { limit: i64, reason: Option<Seq<char>>, since: Option<Seq<char>> },
    Consumers,
    Receipts { id: Option<Seq<char>>, limit: i64, state: Option<Seq<char>> },
    Reply { msg_id: Seq<char>, ctype: Seq<char>, body: Seq<char> },
    Presence { state: Seq<char>, ttl_secs: Option<i64>, detail: Option<Seq<char>> },
    PresenceList,
    PairStart { topic: Option<Seq<char>> },
    PairList,
    PairConfirm { name: Seq<char> },
    Connect,
    Disconnect,
    Shutdown,
}

impl View for Request {
    type V = RequestView;

    open spec fn view(&self) -> RequestView {
        match *self {
            Request::Ping => RequestView::Ping,
            Request::Status => RequestView::Status,
            Request::Hello { ipc_proto } => RequestView::Hello { ipc_proto },
            Request::Send(p) => RequestView::Send(p@),
            Request::Read { consumer, limit } => RequestView::Read { consumer: consumer@, limit },
            Request::Ack { consumer, seq } => RequestView::Ack { consumer: consumer@, seq },
            Request::Subscribe { consumer, ack } => RequestView::Subscribe {
                consumer: consumer@,
                ack,
            },
            Request::Browse { limit, from, to, all } => RequestView::Browse {
                limit,
                from: text::opt_text(from),
                to: text::opt_text(to),
                all,
            },
            Request::Transcript { limit, from, to, peer } => RequestView::Transcript {
                limit,
                from: text::opt_text(from),
                to: text::opt_text(to),
                peer: text::opt_text(peer),
            },
            Request::Rejections { limit, reason, since } => RequestView::Rejections {
                limit,
                reason: text::opt_text(reason),
                since: text::opt_text(since),
            },
            Request::Consumers => RequestView::Consumers,
            Request::Receipts { id, limit, state } => RequestView::Receipts {
                id: text::opt_text(id),
                limit,
                state: text::opt_text(state),
            },
            Request::Reply { msg_id, ctype, body } => RequestView::Reply {
                msg_id: msg_id@,
                ctype: ctype@,
                body: body@,
            },
            Request::Presence { state, ttl_secs, detail } => RequestView::Presence {
                state: state@,
                ttl_secs,
                detail: text::opt_text(detail),
            },
            Request::PresenceList => RequestView::PresenceList,
            Request::PairStart { topic } => RequestView::PairStart { topic: text::opt_text(topic) },
            Request::PairList => RequestView::PairList,
            Request::PairConfirm { name } => RequestView::PairConfirm { name: name@ },
            Request::Connect => RequestView::Connect,
            Request::Disconnect => RequestView::Disconnect,
            Request::Shutdown => RequestView::Shutdown,
        }
    }
}

/// Daemon status snapshot.
#[derive(Debug, PartialEq, Eq)]
pub struct StatusInfo {
    pub identity: Option<String>,
    pub fingerprint: Option<String>,
    pub broker: String,
    pub connected: bool,
    pub topics: Vec<String>,
    pub stored: i64,
    pub rejected: i64,
    pub pending_out: i64,
    pub known_agents: usize,
    /// Version of the local protocol.
    pub ipc_proto: u32,
    /// Known presence records.
    pub presence: Vec<PresenceRow>,
    /// Unsigned inbound messages are accepted.
    pub allow_unsigned: bool,
    /// Messages of the first protocol version are accepted.
    pub accept_v1: bool,
    /// Payload encryption is required.
    pub require_encryption: bool,
    /// Receipts are emitted automatically.
    pub auto_receipts: bool,
}

/// The model of [`StatusInfo`].
pub struct StatusView {
    pub identity: Option<Seq<char>>,
    pub fingerprint: Option<Seq<char>>,
    pub broker: Seq<char>,
    pub connected: bool,
    pub topics: Seq<Seq<char>>,
    pub stored: int,
    pub rejected: int,
    pub pending_out: int,
    pub known_agents: int,
    pub ipc_proto: u32,
    pub presence: Seq<PresenceView>,
    pub allow_unsigned: bool,
    pub accept_v1: bool,
    pub require_encryption: bool,
    pub auto_receipts: bool,
}

impl View for StatusInfo {
    type V = StatusView;

    open spec fn view(&self) -> StatusView {
        StatusView {
            identity: text::opt_text(self.identity),
            fingerprint: text::opt_text(self.fingerprint),
            broker: self.broker@,
            connected: self.connected,
            topics: text::texts(self.topics@),
            stored: self.stored as int,
            rejected: self.rejected as int,
            pending_out: self.pending_out as int,
            known_agents: self.known_agents as int,
            ipc_proto: self.ipc_proto,
            presence: store::presence_views(self.presence@),
            allow_unsigned: self.allow_unsigned,
            accept_v1: self.accept_v1,
            require_encryption: self.require_encryption,
            auto_receipts: self.auto_receipts,
        }
    }
}

/// A peer that awaits confirmation, as it is shown.
#[derive(Debug, PartialEq, Eq)]
pub struct PendingPairView {
    pub name: String,
    pub fingerprint: String,
    /// The short authentication string that both operators compare.
    pub sas: String,
    /// The peer announced an encryption key.
    pub kem: bool,
}

/// The model of a [`PendingPairView`].
pub struct PairRow {
    pub name: Seq<char>,
    pub fingerprint: Seq<char>,
    pub sas: Seq<char>,
    pub kem: bool,
}

impl View for PendingPairView {
    type V = PairRow;

    open spec fn view(&self) -> PairRow {
        PairRow {
            name: self.name@,
            fingerprint: self.fingerprint@,
            sas: self.sas@,
            kem: self.kem,
        }
    }
}

/// The models of a list of pending peers.
pub open spec fn pair_rows(v: Seq<PendingPairView>) -> Seq<PairRow> {
    Seq::new(v.len(), |i: int| v[i]@)
}

/// Responses of the daemon.
#[derive(Debug, PartialEq, Eq)]
pub enum Response {
    Pong,
    /// The request was carried out.
    Done,
    Status(StatusInfo),
    /// Handshake reply: protocol version, build version, capabilities.
    Hello { ipc_proto: u32, version: String, caps: Vec<String> },
    /// A message was taken, with its delivery state (`pending` or `sent`).
    Sent { id: String, delivery_state: String },
    /// Messages, with an optional remark on the consumer's cursor.
    Messages { msgs: Vec<StoredMsg>, consumer_warning: Option<String> },
    Rejections(Vec<RejectionRow>),
    Consumers(Vec<ConsumerRow>),
    Presence(Vec<PresenceRow>),
    Pairs(Vec<PendingPairView>),
    Error { message: String },
}

/// The model of a [`Response`].
pub enum ResponseView {
    Pong,
    Done,
    Status(StatusView),
    Hello { ipc_proto: u32, version: Seq<char>, caps: Seq<Seq<char>> },
    Sent { id: Seq<char>, delivery_state: Seq<char> },
    Messages { msgs: Seq<MsgView>, consumer_warning: Option<Seq<char>> },
    Rejections(Seq<RejectionView>),
    Consumers(Seq<ConsumerView>),
    Presence(Seq<PresenceView>),
    Pairs(Seq<PairRow>),
    Error { message: Seq<char> },
}

impl View for Response {
    type V = ResponseView;

    open spec fn view(&self) -> ResponseView {
        match *self {
            Response::Pong => ResponseView::Pong,
            Response::Done => ResponseView::Done,
            Response::Status(s) => ResponseView::Status(s@),
            Response::Hello { ipc_proto, version, caps } => ResponseView::Hello {
                ipc_proto,
                version: version@,
                caps: text::texts(caps@),
            },
            Response::Sent { id, delivery_state } => ResponseView::Sent {
                id: id@,
                delivery_state: delivery_state@,
            },
            Response::Messages { msgs, consumer_warning } => ResponseView::Messages {
                msgs: store::msg_views(msgs@),
                consumer_warning: text::opt_text(consumer_warning),
            },
            Response::Rejections(rows) => ResponseView::Rejections(store::rejection_views(rows@)),
            Response::Consumers(rows) => ResponseView::Consumers(store::consumer_views(rows@)),
            Response::Presence(rows) => ResponseView::Presence(store::presence_views(rows@)),
            Response::Pairs(rows) => ResponseView::Pairs(pair_rows(rows@)),
            Response::Error { message } => ResponseView::Error { message: message@ },
        }
    }
}

/// A frame of a subscription.
#[derive(Debug, PartialEq, Eq)]
pub enum StreamFrame {
    /// A newly stored inbound message.
    Message(StoredMsg),
    /// The subscriber fell behind and `dropped` messages were skipped.
    Lagged { dropped: u64 },
}

impl StreamFrame {
    /// The sequence number of the message that the frame carries.
    pub fn seq(&self) -> (r: Option<i64>)
        ensures
            r == match *self {
                StreamFrame::Message(m) => Some(m@.seq),
                StreamFrame::Lagged { .. } => None,
            },
    {
        match self {
            StreamFrame::Message(m) => Some(m.seq),
            StreamFrame::Lagged { .. } => None,
        }
    }
}

/// The name of an agent's local endpoint.
pub fn endpoint_name(agent: &str) -> (r: String)
    ensures
        r@ == "agentmsg-"@ + agent@ + ".sock"@,
{
    text::concat3("agentmsg-", agent, ".sock")
}

/// A response says that the daemon is alive.
pub fn is_alive(r: &Response) -> (b: bool)
    ensures
        b == (r@ == ResponseView::Pong),
{
    match r {
        Response::Pong => true,
        _ => false,
    }
}

/// Four bytes that hold a number, the least significant first.
pub open spec fn le_bytes(n: int) -> Seq<u8> {
    seq![
        (n % 0x100) as u8,
        (n / 0x100 % 0x100) as u8,
        (n / 0x1_0000 % 0x100) as u8,
        (n / 0x100_0000 % 0x100) as u8,
    ]
}

/// The number that four bytes hold, the least significant first.
pub open spec fn le_number(b: Seq<u8>) -> int {
    b[0] + b[1] * 0x100 + b[2] * 0x1_0000 + b[3] * 0x100_0000
}

/// A frame: its length in four bytes, the least significant first, and its data.
/// The length is taken modulo two to the power of 32.
pub open spec fn framed(data: Seq<u8>) -> Seq<u8> {
    le_bytes(data.len() as int) + data
}

/// Write a length-prefixed frame at the end of `w`.
pub fn write_frame(w: &mut Vec<u8>, data: &[u8])
    ensures
        final(w)@ == old(w)@ + framed(data@),
{
    let n: usize = data.len();
    let ghost start = w@;
    w.push((n % 0x100) as u8);
    w.push((n / 0x100 % 0x100) as u8);
    w.push((n / 0x1_0000 % 0x100) as u8);
    w.push((n / 0x100_0000 % 0x100) as u8);
    assert(w@ =~= start + le_bytes(n as int));
    w.extend_from_slice(data);
    assert(w@ =~= start + framed(data@));
}

/// How many bytes follow the header of a frame.
pub fn frame_len(header: &[u8; 4]) -> (n: u32)
    ensures
        n == le_number(header@),
{
    (header[0] as u32) + (header[1] as u32) * 0x100 + (header[2] as u32) * 0x1_0000 + (
    header[3] as u32) * 0x100_0000
}

/// The first frame in `b`, and what follows it.
pub open spec fn first_frame(b: Seq<u8>) -> Option<(Seq<u8>, Seq<u8>)> {
    if b.len() < 4 || b.len() < 4 + le_number(b) {
        None
    } else {
        Some((b.subrange(4, 4 + le_number(b)), b.skip(4 + le_number(b))))
    }
}

/// Read the first length-prefixed frame of `r`: its data, and how many bytes it
/// took. Nothing where the frame is not complete.
pub fn read_frame(r: &[u8]) -> (f: Option<(Vec<u8>, usize)>)
    ensures
        match f {
            Some((data, took)) => took <= r@.len() && first_frame(r@) == Some(
                (data@, r@.skip(took as int)),
            ),
            None => first_frame(r@) is None,
        },
{
    if r.len() < 4 {
        return None;
    }
    let header: [u8; 4] = [r[0], r[1], r[2], r[3]];
    assert(le_number(header@) == le_number(r@));
    let n: u32 = frame_len(&header);
    if r.len() - 4 < n as usize {
        return None;
    }
    let data: &[u8] = vstd::slice::slice_subrange(r, 4, 4 + n as usize);
    Some((text::copy_bytes(data), 4 + n as usize))
}

/// A frame that was written is read back, whatever follows it. A frame of two to
/// the power of 32 bytes or more has no length prefix that says so.
pub proof fn a_written_frame_is_read_back(data: Seq<u8>, rest: Seq<u8>)
    requires
        data.len() < 0x1_0000_0000,
    ensures
        first_frame(framed(data) + rest) == Some((data, rest)),
{
    let n = data.len() as int;
    let b = framed(data) + rest;
    assert(b[0] == le_bytes(n)[0] && b[1] == le_bytes(n)[1] && b[2] == le_bytes(n)[2] && b[3]
        == le_bytes(n)[3]);
    assert(n == n % 0x100 + (n / 0x100 % 0x100) * 0x100 + (n / 0x1_0000 % 0x100) * 0x1_0000 + (n
        / 0x100_0000 % 0x100) * 0x100_0000);
    assert(le_number(b) == n);
    assert(b.subrange(4, 4 + n) =~= data);
    assert(b.skip(4 + n) =~= rest);
}

/// A frame is four bytes longer than its data, and these hold the length, the
/// least significant byte first.
pub proof fn a_frame_begins_with_its_length(data: Seq<u8>)
    requires
        data.len() < 0x1_0000_0000,
    ensures
        ({
            let b = framed(data);
            &&& b.len() == data.len() + 4
            &&& b.skip(4) == data
            &&& b[0] + b[1] * 0x100 + b[2] * 0x1_0000 + b[3] * 0x100_0000 == data.len()
        }),
{
    let n = data.len() as int;
    let b = framed(data);
    assert(b.skip(4) =~= data);
    assert(b[0] == le_bytes(n)[0] && b[1] == le_bytes(n)[1] && b[2] == le_bytes(n)[2] && b[3]
        == le_bytes(n)[3]);
    assert(n == n % 0x100 + (n / 0x100 % 0x100) * 0x100 + (n / 0x1_0000 % 0x100) * 0x1_0000 + (n
        / 0x100_0000 % 0x100) * 0x100_0000);
}

/// An incomplete frame is not read, and of a complete one what follows is left.
pub proof fn only_a_whole_frame_is_read(b: Seq<u8>)
    ensures
        first_frame(b) matches Some(f) ==> {
            &&& b.len() == 4 + f.0.len() + f.1.len()
            &&& b == b.take(4) + f.0 + f.1
            &&& b[0] + b[1] * 0x100 + b[2] * 0x1_0000 + b[3] * 0x100_0000 == f.0.len()
        },
        first_frame(b) is None <==> b.len() < 4 || b.len() - 4 < b[0] + b[1] * 0x100 + b[2]
            * 0x1_0000 + b[3] * 0x100_0000,
{
    if let Some(f) = first_frame(b) {
        assert(b =~= b.take(4) + f.0 + f.1);
    }
}

/// The model of a request to send holds every field of it.
pub proof fn a_request_to_send_is_seen_as_it_is(v: SendParams)
    ensures
        v@.to == v.to@,
        v@.ctype == v.ctype@,
        v@.body == v.body@,
        v.in_reply_to matches Some(x) ==> v@.in_reply_to == Some(x@),
        v.in_reply_to is None ==> v@.in_reply_to is None,
        v.topic matches Some(x) ==> v@.topic == Some(x@),
        v.topic is None ==> v@.topic is None,
        v@.kind == v.kind@,
        v.correlation_id matches Some(x) ==> v@.correlation_id == Some(x@),
        v.correlation_id is None ==> v@.correlation_id is None,
        v.supersedes matches Some(x) ==> v@.supersedes == Some(x@),
        v.supersedes is None ==> v@.supersedes is None,
        v@.encrypt == v.encrypt,
        v.grant matches Some(x) ==> v@.grant == Some(x@),
        v.grant is None ==> v@.grant is None,
        v@.unsigned == v.unsigned,
{
}

/// The model of a request holds every part of it.
pub proof fn a_request_is_seen_as_it_is(r: Request)
    ensures
        r matches Request::Send(p) ==> r@ == RequestView::Send(p@),
        r matches Request::Read { consumer, limit } ==> (r@ matches RequestView::Read {
            consumer: c,
            limit: l,
        } && c == consumer@ && l == limit),
        r matches Request::Ack { consumer, seq } ==> (r@ matches RequestView::Ack {
            consumer: c,
            seq: n,
        } && c == consumer@ && n == seq),
        r matches Request::Browse { limit, from, to, all } ==> (r@ matches RequestView::Browse {
            limit: l,
            from: f,
            to: t,
            all: a,
        } && l == limit && a == all && (f is Some <==> from is Some) && (from matches Some(x) ==> f
            == Some(x@)) && (t is Some <==> to is Some) && (to matches Some(x) ==> t == Some(x@))),
        r matches Request::Transcript { limit, from, to, peer } ==> (r@ matches
            RequestView::Transcript { limit: l, from: f, to: t, peer: p } && l == limit && (f is Some
            <==> from is Some) && (from matches Some(x) ==> f == Some(x@)) && (t is Some
            <==> to is Some) && (to matches Some(x) ==> t == Some(x@)) && (p is Some
            <==> peer is Some) && (peer matches Some(x) ==> p == Some(x@))),
        r matches Request::Reply { msg_id, ctype, body } ==> (r@ matches RequestView::Reply {
            msg_id: m,
            ctype: c,
            body: b,
        } && m == msg_id@ && c == ctype@ && b == body@),
        r matches Request::Rejections { limit, reason, since } ==> (r@ matches
            RequestView::Rejections { limit: l, reason: a, since: s } && l == limit && (a is Some
            <==> reason is Some) && (reason matches Some(x) ==> a == Some(x@)) && (s is Some
            <==> since is Some) && (since matches Some(x) ==> s == Some(x@))),
        r matches Request::PairConfirm { name } ==> r@ == (RequestView::PairConfirm {
            name: name@,
        }),
{
}

} // verus!
