//! What the command line promises: which request a command stands for and what
//! comes of it at the daemon, stated on what was typed and what comes back.

use vstd::prelude::*;
use vstd::string::*;

use crate::cli;
use crate::cli::{
    Command, ConfigCmd, DaemonCmd, PairCmd, PresenceCmd, SendArgs, ShownView, SourceView,
};
use crate::config::ConfigView;
use crate::daemon;
use crate::daemon::{DaemonView, MomentView, OutcomeView};
use crate::error;
use crate::error::ErrorView;
use crate::grant;
use crate::ipc::{RequestView, ResponseView};
use crate::laws;
use crate::presence::BeaconView;
use crate::store;
use crate::store::{MsgView, OutboundView, RejectionView};
use crate::text;
use crate::token::TokenView;
use crate::trust;
use crate::trust::TrustView;
use crate::wire;
use crate::wire::{GrantView, InnerView, MsgKind, WrapperView};

verus! {

/// What comes of a command of the agent `me` at the daemon: the command asks for
/// something, and `out` is what the daemon does about it.
pub open spec fn comes_of(
    cmd: Command,
    me: Seq<char>,
    body: Seq<char>,
    token: Option<Seq<char>>,
    d: DaemonView,
    cfg: ConfigView,
    t: TrustView,
    m: MomentView,
    out: OutcomeView,
    d2: DaemonView,
) -> bool {
    exists|req: RequestView, connected: bool| #[trigger]
        daemon::handled(d, req, cfg, t, connected, m, out, d2) && (cli::asked(
            cmd,
            me,
            body,
            token,
        ) matches Ok(Some(ask)) && ask.1 == req)
}

/// A log command shows the stored messages from the sender and to the recipient
/// that were typed, and from or to the peer, as far as these were, the oldest
/// first.
pub proof fn a_log_shows_the_conversation(
    limit: i64,
    from: Option<String>,
    to: Option<String>,
    peer: Option<String>,
    me: Seq<char>,
    body: Seq<char>,
    token: Option<Seq<char>>,
    d: DaemonView,
    cfg: ConfigView,
    t: TrustView,
    m: MomentView,
    out: OutcomeView,
    d2: DaemonView,
)
    requires
        daemon::daemon_wf(d),
        comes_of(Command::Log { limit, from, to, peer }, me, body, token, d, cfg, t, m, out, d2),
    ensures
        d2 == d,
        out matches OutcomeView::Reply(ResponseView::Messages { msgs, .. }) && laws::is_page(
            msgs,
            d.store.messages,
            |x: MsgView|
                (from matches Some(f) ==> x.from == f@) && (to matches Some(r) ==> x.to == r@) && (
                peer matches Some(p) ==> (x.from == p@ || x.to == p@)),
            limit,
            true,
        ),
{
    let connected = choose|connected: bool| #[trigger]
        daemon::handled(
            d,
            RequestView::Transcript {
                limit,
                from: text::opt_text(from),
                to: text::opt_text(to),
                peer: text::opt_text(peer),
            },
            cfg,
            t,
            connected,
            m,
            out,
            d2,
        );
    laws::a_transcript_is_answered(
        d,
        limit,
        text::opt_text(from),
        text::opt_text(to),
        text::opt_text(peer),
        cfg,
        t,
        connected,
        m,
        out,
        d2,
    );
    let a = |x: MsgView|
        (text::opt_text(from) matches Some(f) ==> x.from == f) && (text::opt_text(
            to,
        ) matches Some(r) ==> x.to == r) && (text::opt_text(peer) matches Some(p) ==> (x.from == p
            || x.to == p));
    let b = |x: MsgView|
        (from matches Some(f) ==> x.from == f@) && (to matches Some(r) ==> x.to == r@) && (
        peer matches Some(p) ==> (x.from == p@ || x.to == p@));
    assert(a =~= b);
}

/// A browse command shows the inbound messages, or all where all were asked for,
/// from the sender and for the recipient that were typed; with `mine` those for
/// this agent.
pub proof fn a_browse_shows_what_was_asked_for(
    limit: i64,
    from: Option<String>,
    to: Option<String>,
    mine: bool,
    all: bool,
    me: Seq<char>,
    body: Seq<char>,
    token: Option<Seq<char>>,
    d: DaemonView,
    cfg: ConfigView,
    t: TrustView,
    m: MomentView,
    out: OutcomeView,
    d2: DaemonView,
)
    requires
        daemon::daemon_wf(d),
        comes_of(
            Command::Browse { limit, from, to, mine, all },
            me,
            body,
            token,
            d,
            cfg,
            t,
            m,
            out,
            d2,
        ),
    ensures
        d2 == d,
        out matches OutcomeView::Reply(ResponseView::Messages { msgs, .. }) && laws::is_page(
            msgs,
            d.store.messages,
            |x: MsgView|
                (all || x.direction == "in"@) && (from matches Some(f) ==> x.from == f@) && (mine
                    ==> (x.to == me || x.to == "*"@)) && (to matches Some(r) ==> (mine || x.to == r@
                    || x.to == "*"@)),
            limit,
            all,
        ),
{
    let asked_to = if mine {
        Some(me)
    } else {
        text::opt_text(to)
    };
    let connected = choose|connected: bool| #[trigger]
        daemon::handled(
            d,
            RequestView::Browse { limit, from: text::opt_text(from), to: asked_to, all },
            cfg,
            t,
            connected,
            m,
            out,
            d2,
        );
    laws::a_browse_is_answered(
        d,
        limit,
        text::opt_text(from),
        asked_to,
        all,
        cfg,
        t,
        connected,
        m,
        out,
        d2,
    );
    let a = |x: MsgView|
        (all || x.direction == "in"@) && (text::opt_text(from) matches Some(f) ==> x.from == f) && (
        asked_to matches Some(r) ==> (x.to == r || x.to == "*"@));
    let b = |x: MsgView|
        (all || x.direction == "in"@) && (from matches Some(f) ==> x.from == f@) && (mine ==> (x.to
            == me || x.to == "*"@)) && (to matches Some(r) ==> (mine || x.to == r@ || x.to
            == "*"@));
    assert(a =~= b);
}

/// A read command gives the inbound messages behind the cursor of the consumer
/// that was typed, or of this agent, the oldest first, and moves no cursor.
pub proof fn a_read_gives_the_unread(
    consumer: Option<String>,
    limit: i64,
    wait: bool,
    wait_timeout: Option<u64>,
    ack: bool,
    follow: bool,
    me: Seq<char>,
    body: Seq<char>,
    token: Option<Seq<char>>,
    d: DaemonView,
    cfg: ConfigView,
    t: TrustView,
    m: MomentView,
    out: OutcomeView,
    d2: DaemonView,
)
    requires
        daemon::daemon_wf(d),
        comes_of(
            Command::Read { consumer, limit, wait, wait_timeout, ack, follow },
            me,
            body,
            token,
            d,
            cfg,
            t,
            m,
            out,
            d2,
        ),
    ensures
        d2 == d,
        ({
            let who = match consumer {
                Some(c) => c@,
                None => me,
            };
            let at: i64 = if d.store.cursors.contains_key(who) {
                d.store.cursors[who].last_seq
            } else {
                0
            };
            out matches OutcomeView::Reply(ResponseView::Messages { msgs, .. }) && laws::is_page(
                msgs,
                d.store.messages,
                |x: MsgView| x.direction == "in"@ && x.seq > at,
                limit,
                true,
            )
        }),
{
    let who = match consumer {
        Some(c) => c@,
        None => me,
    };
    let connected = choose|connected: bool| #[trigger]
        daemon::handled(
            d,
            RequestView::Read { consumer: who, limit },
            cfg,
            t,
            connected,
            m,
            out,
            d2,
        );
    laws::a_read_is_answered(d, who, limit, cfg, t, connected, m, out, d2);
}

/// An acknowledgement moves the cursor of the consumer that was typed, or of this
/// agent, up to the number and never back, and no other.
pub proof fn an_ack_moves_the_cursor(
    seq: i64,
    consumer: Option<String>,
    other: Seq<char>,
    me: Seq<char>,
    body: Seq<char>,
    token: Option<Seq<char>>,
    d: DaemonView,
    cfg: ConfigView,
    t: TrustView,
    m: MomentView,
    out: OutcomeView,
    d2: DaemonView,
)
    requires
        comes_of(Command::Ack { seq, consumer }, me, body, token, d, cfg, t, m, out, d2),
        consumer matches Some(c) ==> other != c@,
        consumer is None ==> other != me,
    ensures
        ({
            let who = match consumer {
                Some(c) => c@,
                None => me,
            };
            &&& d2.store.cursors.contains_key(who)
            &&& d2.store.cursors[who].last_seq >= seq
            &&& !d.store.cursors.contains_key(who) ==> d2.store.cursors[who].last_seq == seq
            &&& d.store.cursors.contains_key(who) ==> d2.store.cursors[who].last_seq == (
            if d.store.cursors[who].last_seq < seq {
                seq
            } else {
                d.store.cursors[who].last_seq
            })
            &&& d2.store.cursors.contains_key(other) == d.store.cursors.contains_key(other)
            &&& d.store.cursors.contains_key(other) ==> d2.store.cursors[other]
                == d.store.cursors[other]
        }),
{
    let who = match consumer {
        Some(c) => c@,
        None => me,
    };
    let connected = choose|connected: bool| #[trigger]
        daemon::handled(
            d,
            RequestView::Ack { consumer: who, seq },
            cfg,
            t,
            connected,
            m,
            out,
            d2,
        );
    laws::an_acknowledgement_moves_the_cursor(
        d,
        who,
        seq,
        other,
        cfg,
        t,
        connected,
        m,
        out,
        d2,
    );
}

/// A send command publishes what was typed: to everyone where it is a broadcast
/// and else to the recipient, with the body and the grant that were read, and
/// with the kind and the links that were typed.
#[verifier::rlimit(40)]
pub proof fn a_send_publishes_what_was_typed(
    a: SendArgs,
    me: Seq<char>,
    body: Seq<char>,
    token: Option<Seq<char>>,
    d: DaemonView,
    cfg: ConfigView,
    t: TrustView,
    m: MomentView,
    ob: OutboundView,
    d2: DaemonView,
)
    requires
        comes_of(
            Command::Send(a),
            me,
            body,
            token,
            d,
            cfg,
            t,
            m,
            OutcomeView::Publish(ob),
            d2,
        ),
    ensures
        ob.id == m.fresh.id,
        a.topic matches Some(asked) ==> ob.topic == asked@,
        a.topic is None ==> ob.topic == cfg.topics[0],
        exists|w: WrapperView, i: InnerView|
            {
                &&& #[trigger] laws::bears(ob.payload, w, i)
                &&& i.from == d.identity.name
                &&& a.broadcast ==> i.to == "*"@
                &&& !a.broadcast ==> (a.to matches Some(to) && i.to == to@)
                &&& !a.encrypt ==> i.enc is None && i.body == body && i.ctype == a.ctype@
                &&& a.encrypt ==> (i.enc matches Some(e) && e.ptype == a.ctype@)
                &&& a.reply_to matches Some(r) ==> i.in_reply_to == Some(r@)
                &&& a.reply_to is None ==> i.in_reply_to is None
                &&& a.correlation_id matches Some(c) ==> i.correlation_id == Some(c@)
                &&& a.correlation_id is None ==> i.correlation_id is None
                &&& a.supersedes matches Some(s) ==> i.supersedes == Some(s@)
                &&& a.supersedes is None ==> i.supersedes is None
                &&& wire::kind_named(a.kind@) matches Some(k) ==> i.kind == k
                &&& wire::kind_named(a.kind@) is None ==> i.kind == MsgKind::Message
                &&& token is None ==> i.grant is None
                &&& token matches Some(s) ==> i.grant is Some && grant::grant_token_of(s) == Ok::<
                    GrantView,
                    ErrorView,
                >(i.grant->0)
                &&& !a.unsigned ==> laws::is_signed_by(d.identity, w, i)
                &&& a.unsigned ==> w.alg == "none"@ && w.sig is None
            },
{
    let to = if a.broadcast {
        "*"@
    } else {
        a.to->0@
    };
    let p = cli::params_of(a, to, body, token);
    let connected = choose|connected: bool| #[trigger]
        daemon::handled(
            d,
            RequestView::Send(p),
            cfg,
            t,
            connected,
            m,
            OutcomeView::Publish(ob),
            d2,
        );
    laws::a_published_message_says_what_was_asked(d, p, cfg, t, connected, m, ob, d2);
}

/// A send command needs a recipient, unless it is a broadcast.
pub proof fn a_send_needs_a_recipient(
    a: SendArgs,
    me: Seq<char>,
    body: Seq<char>,
    token: Option<Seq<char>>,
)
    ensures
        cli::asked(Command::Send(a), me, body, token) is Err <==> a.to is None && !a.broadcast,
        a.to is None && !a.broadcast ==> cli::asked(Command::Send(a), me, body, token) == Err::<
            Option<(bool, RequestView)>,
            ErrorView,
        >(ErrorView::Config("specify a recipient or --broadcast"@)),
{
}

/// A reply command publishes what was typed, to the sender of the message that it
/// answers.
pub proof fn a_reply_publishes_what_was_typed(
    msg_id: String,
    text: String,
    ctype: String,
    me: Seq<char>,
    body: Seq<char>,
    token: Option<Seq<char>>,
    d: DaemonView,
    cfg: ConfigView,
    t: TrustView,
    m: MomentView,
    ob: OutboundView,
    d2: DaemonView,
)
    requires
        daemon::daemon_wf(d),
        comes_of(
            Command::Reply { msg_id, body: text, ctype },
            me,
            body,
            token,
            d,
            cfg,
            t,
            m,
            OutcomeView::Publish(ob),
            d2,
        ),
    ensures
        exists|x: MsgView, w: WrapperView, i: InnerView|
            {
                &&& #[trigger] d.store.messages.contains(x)
                &&& x.id == msg_id@
                &&& #[trigger] laws::bears(ob.payload, w, i)
                &&& laws::is_signed_by(d.identity, w, i)
                &&& i.to == x.from
                &&& i.body == text@
                &&& i.ctype == ctype@
                &&& i.in_reply_to == Some(msg_id@)
            },
{
    let connected = choose|connected: bool| #[trigger]
        daemon::handled(
            d,
            RequestView::Reply { msg_id: msg_id@, ctype: ctype@, body: text@ },
            cfg,
            t,
            connected,
            m,
            OutcomeView::Publish(ob),
            d2,
        );
    laws::a_published_reply_says_what_was_asked(
        d,
        msg_id@,
        ctype@,
        text@,
        cfg,
        t,
        connected,
        m,
        ob,
        d2,
    );
}

/// A rejections command shows those of the reason and not from before the time
/// that were typed, as far as these were, the newest first.
pub proof fn rejections_show_what_was_asked_for(
    limit: i64,
    reason: Option<String>,
    since: Option<String>,
    me: Seq<char>,
    body: Seq<char>,
    token: Option<Seq<char>>,
    d: DaemonView,
    cfg: ConfigView,
    t: TrustView,
    m: MomentView,
    out: OutcomeView,
    d2: DaemonView,
)
    requires
        daemon::daemon_wf(d),
        comes_of(
            Command::Rejections { limit, reason, since },
            me,
            body,
            token,
            d,
            cfg,
            t,
            m,
            out,
            d2,
        ),
    ensures
        d2 == d,
        out matches OutcomeView::Reply(ResponseView::Rejections(rows)) && {
            &&& forall|r: RejectionView| #[trigger]
                rows.contains(r) ==> d.store.rejections.contains(r) && (reason matches Some(x)
                    ==> r.reason == x@) && (since matches Some(s) ==> !text::text_lt(r.at, s@))
            &&& limit >= 0 ==> rows.len() <= limit
            &&& forall|r: RejectionView| #[trigger]
                d.store.rejections.contains(r) && (reason matches Some(x) ==> r.reason == x@) && (
                since matches Some(s) ==> !text::text_lt(r.at, s@)) && !rows.contains(r) ==> limit
                    >= 0 && rows.len() == limit && forall|i: int|
                    0 <= i < rows.len() ==> (#[trigger] rows[i]).seq > r.seq
            &&& forall|i: int, j: int|
                0 <= i < j < rows.len() ==> (#[trigger] rows[i]).seq > (#[trigger] rows[j]).seq
        },
{
    let (r, s) = (text::opt_text(reason), text::opt_text(since));
    let connected = choose|connected: bool| #[trigger]
        daemon::handled(
            d,
            RequestView::Rejections { limit, reason: r, since: s },
            cfg,
            t,
            connected,
            m,
            out,
            d2,
        );
    laws::rejections_are_answered(d, limit, r, s, cfg, t, connected, m, out, d2);
}

/// A receipts command shows the message of the id that was typed, or else the
/// outbound messages in the state, if one was, the newest first.
pub proof fn receipts_show_what_was_asked_for(
    id: Option<String>,
    limit: i64,
    state: Option<String>,
    me: Seq<char>,
    body: Seq<char>,
    token: Option<Seq<char>>,
    d: DaemonView,
    cfg: ConfigView,
    t: TrustView,
    m: MomentView,
    out: OutcomeView,
    d2: DaemonView,
)
    requires
        daemon::daemon_wf(d),
        comes_of(
            Command::Receipts { id, limit, state },
            me,
            body,
            token,
            d,
            cfg,
            t,
            m,
            out,
            d2,
        ),
    ensures
        d2 == d,
        out matches OutcomeView::Reply(ResponseView::Messages { msgs, .. }) && {
            &&& id matches Some(n) ==> msgs.len() <= 1 && forall|x: MsgView| #[trigger]
                msgs.contains(x) <==> d.store.messages.contains(x) && x.id == n@
            &&& id is None ==> laws::is_page(
                msgs,
                d.store.messages,
                |x: MsgView|
                    x.direction == "out"@ && (state matches Some(s) ==> x.delivery_state == s@),
                limit,
                false,
            )
        },
{
    let (n, s) = (text::opt_text(id), text::opt_text(state));
    let connected = choose|connected: bool| #[trigger]
        daemon::handled(
            d,
            RequestView::Receipts { id: n, limit, state: s },
            cfg,
            t,
            connected,
            m,
            out,
            d2,
        );
    laws::receipts_are_answered(d, n, limit, s, cfg, t, connected, m, out, d2);
    let a = |x: MsgView| x.direction == "out"@ && (s matches Some(y) ==> x.delivery_state == y);
    let b = |x: MsgView|
        x.direction == "out"@ && (state matches Some(y) ==> x.delivery_state == y@);
    assert(a =~= b);
}

/// A presence command announces the state, the time and the detail that were
/// typed to everyone, as said by the agent.
pub proof fn a_presence_command_is_announced(
    state: String,
    ttl: Option<i64>,
    detail: Option<String>,
    me: Seq<char>,
    body: Seq<char>,
    token: Option<Seq<char>>,
    d: DaemonView,
    cfg: ConfigView,
    t: TrustView,
    m: MomentView,
    out: OutcomeView,
    d2: DaemonView,
)
    requires
        comes_of(
            Command::Presence { cmd: PresenceCmd::Emit { state, ttl, detail } },
            me,
            body,
            token,
            d,
            cfg,
            t,
            m,
            out,
            d2,
        ),
        cfg.topics.len() > 0,
        !store::is_queued(d.store.outbox, m.fresh.id),
        d.store.last_outbound < i64::MAX,
        0 <= m.now < 0x8000_0000_0000_0000 * 1_000_000_000,
    ensures
        out == OutcomeView::Reply(ResponseView::Done),
        d2.store.outbox.len() == d.store.outbox.len() + 1,
        exists|b: BeaconView, w: WrapperView, i: InnerView|
            {
                &&& #[trigger] laws::is_beacon_of(
                    d2.store.outbox.last().payload,
                    d.identity,
                    m.fresh,
                    b,
                    w,
                    i,
                )
                &&& b.state == state@
                &&& b.source == "agent"@
                &&& detail matches Some(x) ==> b.detail == Some(x@)
                &&& detail is None ==> b.detail is None
                &&& ttl matches Some(n) ==> b.ttl_secs == n
                &&& ttl is None ==> b.ttl_secs == 0
            },
{
    let x = text::opt_text(detail);
    let connected = choose|connected: bool| #[trigger]
        daemon::handled(
            d,
            RequestView::Presence { state: state@, ttl_secs: ttl, detail: x },
            cfg,
            t,
            connected,
            m,
            out,
            d2,
        );
    laws::a_presence_request_is_announced(
        d,
        state@,
        ttl,
        x,
        cfg,
        t,
        connected,
        m,
        out,
        d2,
    );
}

/// A command to confirm asks for the peer that was typed, and is carried out only
/// where that peer is pending. The commands of the daemon ask for what they say.
pub proof fn plain_commands_do_what_they_say(
    cmd: Command,
    me: Seq<char>,
    body: Seq<char>,
    token: Option<Seq<char>>,
    d: DaemonView,
    cfg: ConfigView,
    t: TrustView,
    m: MomentView,
    out: OutcomeView,
    d2: DaemonView,
)
    requires
        comes_of(cmd, me, body, token, d, cfg, t, m, out, d2),
    ensures
        cmd matches Command::Pair { cmd: PairCmd::Confirm { name } } ==> d2 == d && (
        d.pending.contains_key(name@) ==> out == OutcomeView::Confirm(name@)) && (
        !d.pending.contains_key(name@) ==> out == OutcomeView::Reply(
            ResponseView::Error { message: "no pending pairing for '"@ + name@ + "'"@ },
        )),
        cmd == (Command::Daemon { cmd: DaemonCmd::Stop }) ==> d2 == d && out == OutcomeView::Reply(
            ResponseView::Done,
        ),
        cmd == (Command::Daemon { cmd: DaemonCmd::Connect }) ==> d2 == d && out
            == OutcomeView::Connect,
        cmd == (Command::Daemon { cmd: DaemonCmd::Disconnect }) ==> d2 == d && out
            == OutcomeView::Disconnect,
        cmd == Command::Status ==> d2 == d && (out matches OutcomeView::Reply(
            ResponseView::Status(s),
        ) && s.stored == d.store.messages.len()),
        cmd == Command::Consumers ==> d2 == d && (out matches OutcomeView::Reply(
            ResponseView::Consumers(_),
        )),
        cmd == (Command::Pair { cmd: PairCmd::List }) ==> d2 == d && (out matches
            OutcomeView::Reply(ResponseView::Pairs(_))),
        cmd == (Command::Presence { cmd: PresenceCmd::List }) ==> d2 == d && (out matches
            OutcomeView::Reply(ResponseView::Presence(_))),
{
}

/// A command either stays at this process or asks the daemon: keys, trust,
/// configuration, grants and starting stay, all others ask.
pub proof fn what_stays_local(
    cmd: Command,
    me: Seq<char>,
    body: Seq<char>,
    token: Option<Seq<char>>,
)
    requires
        !(cmd is Send),
    ensures
        cli::asked(cmd, me, body, token) matches Ok(ask) && (ask is None <==> (cmd is Id
            || cmd is Agent || cmd is Authority || cmd is Config || cmd is Grant
            || cmd == (Command::Daemon { cmd: DaemonCmd::Run }) || (cmd matches Command::Daemon {
            cmd: DaemonCmd::Start { .. },
        }))),
        cli::asked(cmd, me, body, token) matches Ok(Some(a)) && a.0 ==> (cmd is Reply || (
        cmd matches Command::Presence { cmd: PresenceCmd::Emit { .. } }) || (
        cmd matches Command::Pair { cmd: PairCmd::Start { .. } })),
{
}

// ---------------------------------------------------------------------------
// What a command needs, and what it shows.
// ---------------------------------------------------------------------------

/// Where a token and a body are read: from the file where one is given, from
/// standard input at a dash, and else as typed. One of them must be given.
pub proof fn input_is_read_where_it_was_pointed_to(
    given: Option<Seq<char>>,
    file: Option<Seq<char>>,
)
    ensures
        file matches Some(f) ==> cli::token_source_of(given, file) == Ok::<SourceView, ErrorView>(
            SourceView::File(f),
        ),
        file is None ==> {
            let r = cli::token_source_of(given, file);
            &&& given is None ==> (r matches Err(ErrorView::Config(_)))
            &&& given == Some("-"@) ==> r == Ok::<SourceView, ErrorView>(SourceView::Stdin)
            &&& given matches Some(x) ==> x != "-"@ ==> r == Ok::<SourceView, ErrorView>(
                SourceView::Given(x),
            )
        },
        file == Some("-"@) ==> cli::body_source_of(given, file) == Ok::<SourceView, ErrorView>(
            SourceView::Stdin,
        ),
        file matches Some(f) ==> f != "-"@ ==> cli::body_source_of(given, file) == Ok::<
            SourceView,
            ErrorView,
        >(SourceView::File(f)),
        file is None ==> {
            let r = cli::body_source_of(given, file);
            &&& given is None ==> (r matches Err(ErrorView::Config(_)))
            &&& given matches Some(x) ==> r == Ok::<SourceView, ErrorView>(SourceView::Given(x))
        },
{
}

/// A grant that begins with an at sign names the file behind it; any other is the
/// token itself.
pub proof fn a_grant_is_read_where_it_was_pointed_to(grant: Seq<char>)
    ensures
        grant.len() > 0 && grant[0] == '@' ==> cli::grant_source_of(grant) == SourceView::File(
            grant.skip(1),
        ),
        grant.len() == 0 || grant[0] != '@' ==> cli::grant_source_of(grant) == SourceView::Given(
            grant,
        ),
{
    reveal_strlit("@");
    assert("@"@.len() == 1 && "@"@[0] == '@');
    if grant.len() > 0 && grant[0] == '@' {
        assert("@"@ =~= grant.take(1));
    }
}

/// The exit codes tell errors apart: no daemon, no key of one's own, a token or
/// an agent that will not do, no message in time, and everything else.
pub proof fn exit_codes_tell_errors_apart(e: ErrorView)
    ensures
        cli::exit_code_of(e) != 0,
        cli::exit_code_of(e) == 3 <==> e is DaemonNotRunning,
        cli::exit_code_of(e) == 4 <==> e is NoIdentity || e is IdentityNameMismatch
            || e is NoAuthority,
        cli::exit_code_of(e) == 5 <==> e is UnknownAgent || e is InvalidToken || e is TokenCorrupt
            || e is RotationRequired || e is NotAnAuthorityToken,
        cli::exit_code_of(e) == 6 <==> e is Timeout,
        cli::exit_code_of(e) == 1 || cli::exit_code_of(e) == 3 || cli::exit_code_of(e) == 4
            || cli::exit_code_of(e) == 5 || cli::exit_code_of(e) == 6,
        cli::verdict_of(Err(e)) matches Some(v) && v.1 == cli::exit_code_of(e) && v.0 == "error: "@
            + error::error_text(e),
        cli::verdict_of(Ok(())) is None,
{
}

/// An identity is generated for a name in order: freely where none stands, over
/// one that stands only by force and with a backup of it; without force the error
/// tells whether it is another's.
pub proof fn an_identity_is_generated_with_care(
    name: Seq<char>,
    force: bool,
    existing: Option<(Seq<char>, Seq<char>)>,
)
    ensures
        wire::name_complaint(name) is Some ==> (cli::identity_guard(name, force, existing) matches
            Err(ErrorView::Config(_))),
        wire::name_complaint(name) is None ==> {
            let r = cli::identity_guard(name, force, existing);
            &&& existing is None ==> r == Ok::<bool, ErrorView>(false)
            &&& existing is Some && force ==> r == Ok::<bool, ErrorView>(true)
            &&& existing matches Some(x) ==> !force && x.0 == name ==> (r matches Err(
                ErrorView::IdentityExists(_),
            ))
            &&& existing matches Some(x) ==> !force && x.0 != name ==> (r matches Err(
                ErrorView::IdentityNameMismatch(_),
            ))
        },
{
}

/// An authority key is generated for a name in order, over one that stands only
/// by force and with a backup of it.
pub proof fn an_authority_is_generated_with_care(name: Seq<char>, force: bool, exists: bool)
    ensures
        cli::authority_guard(name, force, exists) is Ok <==> wire::name_complaint(name) is None && (
        force || !exists),
        cli::authority_guard(name, force, exists) matches Ok(backup) ==> backup == exists,
        wire::name_complaint(name) is None && exists && !force ==> (cli::authority_guard(
            name,
            force,
            exists,
        ) matches Err(ErrorView::IdentityExists(_))),
{
}

/// An agent is added unless it is known with another key and no rotation was
/// asked for; it is told under its name and the fingerprint of the new key, and
/// as rotated exactly where the key changed.
pub proof fn an_agent_is_added_or_rotated(t: TrustView, token: TokenView, rotate: bool)
    ensures
        ({
            let r = cli::addition(t, token, rotate);
            let known = trust::trusted_key(t, token.name);
            let changed = known matches Some(k) && k != token.public_key;
            &&& r is Ok <==> !changed || rotate
            &&& r matches Ok(a) ==> {
                &&& a.name == token.name
                &&& a.fingerprint == wire::fingerprint_of(token.public_key)
                &&& changed ==> a.rotated_from == Some(wire::fingerprint_of(known->0))
                &&& !changed ==> a.rotated_from is None
            }
            &&& r matches Err(e) ==> e is RotationRequired
        }),
{
}

/// A command on the configuration sets what it names and nothing else.
pub proof fn a_config_command_sets_what_it_names(c: ConfigView, cmd: ConfigCmd)
    ensures
        ({
            let n = cli::configured(c, cmd);
            &&& n.freshness_secs == c.freshness_secs
            &&& n.max_messages == c.max_messages
            &&& n.max_bytes == c.max_bytes
            &&& n.max_payload == c.max_payload
            &&& n.heartbeat_secs == c.heartbeat_secs
            &&& if let ConfigCmd::SetBroker { host, port, no_tls } = cmd {
                n.broker_host == host@ && n.broker_port == port && n.tls != no_tls
            } else {
                n.broker_host == c.broker_host && n.broker_port == c.broker_port && n.tls == c.tls
            }
            &&& if let ConfigCmd::SetCreds { username, password } = cmd {
                n.username == username@ && n.password == password@
            } else {
                n.username == c.username && n.password == c.password
            }
            &&& cmd matches ConfigCmd::SetTopic { topic } ==> n.topics.len() == 1 && n.topics[0]
                == topic@
            &&& cmd matches ConfigCmd::AddTopic { topic } ==> n.topics.contains(topic@)
                && c.topics.is_prefix_of(n.topics) && n.topics.len() <= c.topics.len() + 1 && (
            c.topics.contains(topic@) ==> n.topics == c.topics)
            &&& !(cmd is SetTopic) && !(cmd is AddTopic) ==> n.topics == c.topics
            &&& if let ConfigCmd::SetSecurity {
                allow_unsigned,
                accept_v1,
                require_encryption,
                auto_receipts,
            } = cmd {
                &&& allow_unsigned matches Some(b) ==> n.allow_unsigned == b
                &&& allow_unsigned is None ==> n.allow_unsigned == c.allow_unsigned
                &&& accept_v1 matches Some(b) ==> n.accept_v1 == b
                &&& accept_v1 is None ==> n.accept_v1 == c.accept_v1
                &&& require_encryption matches Some(b) ==> n.require_encryption == b
                &&& require_encryption is None ==> n.require_encryption == c.require_encryption
                &&& auto_receipts matches Some(b) ==> n.auto_receipts == b
                &&& auto_receipts is None ==> n.auto_receipts == c.auto_receipts
            } else {
                &&& n.allow_unsigned == c.allow_unsigned
                &&& n.accept_v1 == c.accept_v1
                &&& n.require_encryption == c.require_encryption
                &&& n.auto_receipts == c.auto_receipts
            }
        }),
{
    if let ConfigCmd::AddTopic { topic } = cmd {
        let n = cli::configured(c, cmd);
        if !c.topics.contains(topic@) {
            assert(n.topics[c.topics.len() as int] == topic@);
        }
    }
}

/// A topic must name something and hold no wildcard; all other commands on the
/// configuration are in order.
pub proof fn a_topic_is_checked(cmd: ConfigCmd)
    ensures
        cmd matches ConfigCmd::SetTopic { topic } ==> (cli::config_complaint(cmd) is None
            <==> topic@.len() > 0 && !topic@.contains('+') && !topic@.contains('#')),
        cmd matches ConfigCmd::AddTopic { topic } ==> (cli::config_complaint(cmd) is None
            <==> topic@.len() > 0 && !topic@.contains('+') && !topic@.contains('#')),
        !(cmd is SetTopic) && !(cmd is AddTopic) ==> cli::config_complaint(cmd) is None,
{
}

/// A program is shown the configuration as it is, and of the password only
/// whether there is one.
pub proof fn the_configuration_is_shown_as_it_is(c: ConfigView)
    ensures
        ({
            let r = cli::redacted_of(c);
            &&& r.broker_host == c.broker_host
            &&& r.broker_port == c.broker_port
            &&& r.tls == c.tls
            &&& r.username == c.username
            &&& r.password_set <==> c.password.len() > 0
            &&& r.topics == c.topics
            &&& r.max_messages == c.max_messages
            &&& r.max_bytes == c.max_bytes
            &&& r.heartbeat_secs == c.heartbeat_secs
            &&& r.allow_unsigned == c.allow_unsigned
            &&& r.accept_v1 == c.accept_v1
            &&& r.require_encryption == c.require_encryption
            &&& r.auto_receipts == c.auto_receipts
        }),
{
}

/// An error of the daemon is a failure of the command, whichever it is; nothing
/// else is. What a send and a reply show holds the id and the state.
pub proof fn only_an_error_fails(cmd: Command, r: ResponseView, fp: Seq<char>)
    ensures
        cli::shown(cmd, r, fp) is Err <==> r is Error,
        r matches ResponseView::Error { message } ==> cli::shown(cmd, r, fp) == Err::<
            ShownView,
            ErrorView,
        >(ErrorView::Ipc(message)),
        r matches ResponseView::Sent { id, delivery_state } ==> cmd is Send || cmd is Reply
            ==> cli::shown(cmd, r, fp) == Ok::<ShownView, ErrorView>(
            ShownView::Text("sent "@ + id + " ("@ + delivery_state + ")"@),
        ),
        r == ResponseView::Done && cmd is Ack ==> cli::shown(cmd, r, fp) == Ok::<
            ShownView,
            ErrorView,
        >(ShownView::Text("acknowledged"@)),
        r matches ResponseView::Messages { msgs, .. } ==> cmd is Read || cmd is Browse || cmd is Log
            ==> cli::shown(cmd, r, fp) == Ok::<ShownView, ErrorView>(
            ShownView::Text(crate::render::messages_text(msgs)),
        ),
        r matches ResponseView::Messages { msgs, .. } ==> cmd is Receipts ==> cli::shown(
            cmd,
            r,
            fp,
        ) == Ok::<ShownView, ErrorView>(ShownView::Text(crate::render::receipts_text(msgs))),
        r matches ResponseView::Rejections(rows) ==> cmd is Rejections ==> cli::shown(cmd, r, fp)
            == Ok::<ShownView, ErrorView>(ShownView::Text(crate::render::rejections_text(rows))),
        r matches ResponseView::Consumers(rows) ==> cmd is Consumers ==> cli::shown(cmd, r, fp)
            == Ok::<ShownView, ErrorView>(ShownView::Text(crate::render::consumers_text(rows))),
        r matches ResponseView::Status(s) ==> cmd is Status ==> cli::shown(cmd, r, fp) == Ok::<
            ShownView,
            ErrorView,
        >(ShownView::Text(crate::render::status_text(s))),
        r matches ResponseView::Presence(rows) ==> cmd == (Command::Presence {
            cmd: PresenceCmd::List,
        }) ==> cli::shown(cmd, r, fp) == Ok::<ShownView, ErrorView>(
            ShownView::Text(crate::render::presences_text(rows)),
        ),
        r matches ResponseView::Pairs(rows) ==> cmd == (Command::Pair { cmd: PairCmd::List })
            ==> cli::shown(cmd, r, fp) == Ok::<ShownView, ErrorView>(
            ShownView::Text(crate::render::pairs_text(rows)),
        ),
        cmd matches Command::Pair { cmd: PairCmd::Confirm { name } } ==> r == ResponseView::Done
            ==> cli::shown(cmd, r, fp) == Ok::<ShownView, ErrorView>(
            ShownView::Text("paired with "@ + name@ + " ("@ + fp + ") — added to trust store"@),
        ),
{
}

/// A grant carries the claims that were typed, and its token stands for it.
pub proof fn a_grant_claims_what_was_typed(
    subject: Seq<char>,
    action: Seq<char>,
    scope: Seq<char>,
    expiry: Seq<char>,
    id: Seq<char>,
    nonce: Seq<char>,
)
    ensures
        ({
            let c = cli::claims_for(subject, action, scope, expiry, id, nonce);
            &&& c.subject == subject
            &&& c.action == action
            &&& c.scope == scope
            &&& c.expiry == expiry
            &&& c.id == id
            &&& c.nonce == nonce
        }),
{
}

/// A key is shared under its owner's name and its fingerprint, with the token of
/// its owner.
pub proof fn a_key_is_shared_with_its_token(id: crate::identity::IdentityView)
    ensures
        ({
            let k = cli::identity_key_of(id);
            &&& k.name == id.name
            &&& k.fingerprint == wire::fingerprint_of(id.public_key)
            &&& exists|x: TokenView|
                k.token == #[trigger] crate::token::token_text(x) && x.name == id.name
                    && x.public_key == id.public_key && x.kem_public_key == Some(id.kem_ek)
        }),
{
    let x = TokenView {
        name: id.name,
        public_key: id.public_key,
        kem_public_key: Some(id.kem_ek),
    };
    assert(cli::identity_key_of(id).token == crate::token::token_text(x));
}

/// A daemon is run exactly where `daemon` and `run` are the first words that are
/// no flags: flags before, between and behind them do not matter.
#[verifier::rlimit(40)]
pub proof fn flags_do_not_hide_a_daemon_run(
    before: Seq<Seq<char>>,
    between: Seq<Seq<char>>,
    rest: Seq<Seq<char>>,
)
    requires
        forall|i: int| 0 <= i < before.len() ==> cli::is_flag(#[trigger] before[i]),
        forall|i: int| 0 <= i < between.len() ==> cli::is_flag(#[trigger] between[i]),
    ensures
        cli::runs_daemon(before + seq!["daemon"@] + between + seq!["run"@] + rest),
{
    let keep = |a: Seq<char>| !cli::is_flag(a);
    reveal_strlit("daemon");
    reveal_strlit("run");
    assert("daemon"@.len() == 6 && "daemon"@[0] == 'd');
    assert("run"@.len() == 3 && "run"@[0] == 'r');
    let args = before + seq!["daemon"@] + between + seq!["run"@] + rest;
    lemma_flags_go(before, keep);
    lemma_flags_go(between, keep);
    Seq::filter_distributes_over_add(before, seq!["daemon"@], keep);
    Seq::filter_distributes_over_add(before + seq!["daemon"@], between, keep);
    Seq::filter_distributes_over_add(before + seq!["daemon"@] + between, seq!["run"@], keep);
    Seq::filter_distributes_over_add(
        before + seq!["daemon"@] + between + seq!["run"@],
        rest,
        keep,
    );
    lemma_word_stays("daemon"@, keep);
    lemma_word_stays("run"@, keep);
    let words = args.filter(keep);
    assert(words =~= Seq::<Seq<char>>::empty() + seq!["daemon"@] + Seq::<Seq<char>>::empty()
        + seq!["run"@] + rest.filter(keep));
    assert(words[0] == "daemon"@ && words[1] == "run"@);
}

proof fn lemma_flags_go(flags: Seq<Seq<char>>, keep: spec_fn(Seq<char>) -> bool)
    requires
        forall|i: int| 0 <= i < flags.len() ==> !keep(#[trigger] flags[i]),
    ensures
        flags.filter(keep) == Seq::<Seq<char>>::empty(),
    decreases flags.len(),
{
    reveal(Seq::filter);
    if flags.len() > 0 {
        let front = flags.drop_last();
        assert forall|i: int| 0 <= i < front.len() implies !keep(#[trigger] front[i]) by {
            assert(front[i] == flags[i]);
        }
        lemma_flags_go(front, keep);
        assert(!keep(flags[flags.len() - 1]));
    }
}

proof fn lemma_word_stays(word: Seq<char>, keep: spec_fn(Seq<char>) -> bool)
    requires
        keep(word),
    ensures
        seq![word].filter(keep) == seq![word],
{
    reveal(Seq::filter);
    let one = seq![word];
    assert(one.drop_last() =~= Seq::<Seq<char>>::empty());
    assert(one.drop_last().filter(keep) =~= Seq::<Seq<char>>::empty());
    assert(one.filter(keep) =~= one);
}

/// A command that was carried out says so in its own words.
pub proof fn a_done_command_says_so(cmd: Command, fp: Seq<char>)
    ensures
        ({
            let r = cli::shown(cmd, ResponseView::Done, fp);
            let says = |t: Seq<char>| r == Ok::<ShownView, ErrorView>(ShownView::Text(t));
            &&& cmd == (Command::Daemon { cmd: DaemonCmd::Stop }) ==> says("daemon stopped"@)
            &&& cmd == (Command::Daemon { cmd: DaemonCmd::Connect }) ==> says("connect requested"@)
            &&& cmd == (Command::Daemon { cmd: DaemonCmd::Disconnect }) ==> says("disconnected"@)
            &&& cmd matches Command::Presence { cmd: PresenceCmd::Emit { .. } } ==> says(
                "presence sent"@,
            )
            &&& cmd is Ack ==> says("acknowledged"@)
        }),
{
}

/// What is shown for an agent that was added holds its name and its fingerprint,
/// and where its key was replaced the fingerprint of the old key first.
pub proof fn an_addition_is_shown(a: cli::AddedView)
    ensures
        a.rotated_from matches Some(old) ==> cli::added_text(a) == "Rotated '"@ + a.name + "' "@
            + old + " -> "@ + a.fingerprint,
        a.rotated_from is None ==> cli::added_text(a) == "Added '"@ + a.name + "' ("@
            + a.fingerprint + ")"@,
{
}

/// A generated key is told with its owner's name, its fingerprint and its token
/// at the end.
pub proof fn a_generated_key_is_told(k: cli::KeyView, what: Seq<char>, share: Seq<char>)
    ensures
        ({
            let t = cli::generated_text(k, what, share);
            let head = "Generated "@ + what + " '"@ + k.name + "' ("@ + k.fingerprint + ")\n\n"@;
            &&& head.is_prefix_of(t)
            &&& t.skip(t.len() - k.token.len()) == k.token
        }),
{
    let t = cli::generated_text(k, what, share);
    assert(t.skip(t.len() - k.token.len()) =~= k.token);
}

/// An authority's key is shared under its name and its fingerprint, with its
/// token.
pub proof fn an_authority_key_is_shared_with_its_token(a: crate::authority::AuthorityView)
    ensures
        ({
            let k = cli::authority_key_of(a);
            &&& k.name == a.name
            &&& k.fingerprint == wire::fingerprint_of(a.public_key)
            &&& exists|x: crate::authority::AuthorityTokenView|
                k.token == #[trigger] crate::authority::authority_token_text(x) && x.name == a.name
                    && x.public_key == a.public_key
        }),
{
    let x = crate::authority::AuthorityTokenView { name: a.name, public_key: a.public_key };
    assert(cli::authority_key_of(a).token == crate::authority::authority_token_text(x));
}

/// A minted grant is told with its id, whom it lets do what, where and until
/// when; its token stands at the end, or the name of the file that holds it.
pub proof fn a_minted_grant_is_told(
    c: crate::grant::ClaimsView,
    token: Seq<char>,
    out: Option<Seq<char>>,
)
    ensures
        ({
            let t = cli::grant_text(c, token, out);
            let head = "Minted grant "@ + c.id + " authorizing '"@ + c.subject + "' to '"@ + c.action
                + "' (scope '"@ + c.scope + "', expires "@ + c.expiry + ")\n"@;
            &&& out is None ==> t == head + ("\n"@ + token)
            &&& out matches Some(p) ==> t == head + ("wrote token to "@ + p)
        }),
{
}

} // verus!
