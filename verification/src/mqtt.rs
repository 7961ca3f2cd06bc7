//! The broker session: what it is opened with, and how its event loop answers
//! events, loses the connection and comes back.

use vstd::prelude::*;
use vstd::string::*;

use crate::config::{Config, ConfigView};
use crate::error::{Error, ErrorView};
use crate::text;

verus! {

/// Seconds between keep-alive packets.
pub const KEEP_ALIVE_SECS: u64 = 20;

/// First pause before a new attempt to connect, in milliseconds.
pub const BACKOFF_MIN_MS: u64 = 250;

/// Longest pause before a new attempt to connect, in milliseconds.
pub const BACKOFF_MAX_MS: u64 = 30000;

/// Longest stretch that a pause sleeps without looking for a stop request, in
/// milliseconds.
pub const SLICE_MS: u64 = 100;

/// Smallest limit on the size of a packet: a signed message with keys in it
/// always fits.
pub const MIN_PACKET: usize = 262144;

/// What a packet may hold beside the payload.
pub const PACKET_OVERHEAD: usize = 65536;

/// What a session is opened with. Its transport is TLS, and it is persistent.
#[derive(Debug, PartialEq, Eq)]
pub struct Session {
    pub client_id: String,
    pub host: String,
    pub port: u16,
    pub keep_alive_secs: u64,
    /// Largest packet in either direction.
    pub max_packet: usize,
    /// The broker forgets the session between connections.
    pub clean_session: bool,
    /// User name and password.
    pub credentials: Option<(String, String)>,
    /// Topics to subscribe to on every connection.
    pub topics: Vec<String>,
}

/// The model of a [`Session`].
pub struct SessionView {
    pub client_id: Seq<char>,
    pub host: Seq<char>,
    pub port: u16,
    pub keep_alive_secs: u64,
    pub max_packet: usize,
    pub clean_session: bool,
    pub credentials: Option<(Seq<char>, Seq<char>)>,
    pub topics: Seq<Seq<char>>,
}

impl View for Session {
    type V = SessionView;

    open spec fn view(&self) -> SessionView {
        SessionView {
            client_id: self.client_id@,
            host: self.host@,
            port: self.port,
            keep_alive_secs: self.keep_alive_secs,
            max_packet: self.max_packet,
            clean_session: self.clean_session,
            credentials: match self.credentials {
                Some((u, p)) => Some((u@, p@)),
                None => None,
            },
            topics: text::texts(self.topics@),
        }
    }
}

/// The largest packet: twice the payload, since it is encoded twice, and the
/// overhead, within the machine's range and never below [`MIN_PACKET`].
pub open spec fn packet_limit(max_payload: usize) -> int {
    let wanted = max_payload * 2 + PACKET_OVERHEAD;
    if wanted > usize::MAX {
        usize::MAX as int
    } else if wanted < MIN_PACKET {
        MIN_PACKET as int
    } else {
        wanted
    }
}

fn max_packet(max_payload: usize) -> (r: usize)
    ensures
        r == packet_limit(max_payload),
{
    let twice: usize = if max_payload > usize::MAX / 2 {
        usize::MAX
    } else {
        max_payload * 2
    };
    let n: usize = if twice > usize::MAX - PACKET_OVERHEAD {
        usize::MAX
    } else {
        twice + PACKET_OVERHEAD
    };
    if n < MIN_PACKET {
        MIN_PACKET
    } else {
        n
    }
}

/// The session that a configuration describes, or why it describes none.
pub open spec fn session_of(c: ConfigView, client_id: Seq<char>) -> Result<SessionView, ErrorView> {
    if c.broker_host.len() == 0 {
        Err(ErrorView::Config("broker host not set"@))
    } else if !c.tls {
        Err(ErrorView::Config("TLS is required (set tls = true)"@))
    } else {
        Ok(
            SessionView {
                client_id,
                host: c.broker_host,
                port: c.broker_port,
                keep_alive_secs: KEEP_ALIVE_SECS,
                max_packet: packet_limit(c.max_payload) as usize,
                clean_session: false,
                credentials: if c.username.len() == 0 {
                    None
                } else {
                    Some((c.username, c.password))
                },
                topics: c.topics,
            },
        )
    }
}

/// Plan a session: TLS only, persistent, with credentials where a user name is
/// configured.
pub fn session(cfg: &Config, client_id: &str) -> (r: Result<Session, Error>)
    ensures
        match r {
            Ok(s) => session_of(cfg@, client_id@) == Ok::<SessionView, ErrorView>(s@),
            Err(e) => session_of(cfg@, client_id@) == Err::<SessionView, ErrorView>(e@),
        },
{
    if cfg.broker_host.as_str().is_empty() {
        return Err(Error::Config(text::own("broker host not set")));
    }
    if !cfg.tls {
        return Err(Error::Config(text::own("TLS is required (set tls = true)")));
    }
    let credentials: Option<(String, String)> = if cfg.username.as_str().is_empty() {
        None
    } else {
        Some((cfg.username.clone(), cfg.password.clone()))
    };
    Ok(
        Session {
            client_id: text::own(client_id),
            host: cfg.broker_host.clone(),
            port: cfg.broker_port,
            keep_alive_secs: KEEP_ALIVE_SECS,
            max_packet: max_packet(cfg.max_payload),
            clean_session: false,
            credentials,
            topics: text::copy_texts(&cfg.topics),
        },
    )
}

/// The client id of an agent's process.
pub fn client_id(agent: &str, pid: u32) -> (r: String)
    ensures
        r@ == agent@ + "-"@ + text::decimal(pid as nat),
{
    let n: String = text::decimal_u64(pid as u64);
    text::concat3(agent, "-", n.as_str())
}

/// What the event loop is told.
#[derive(Debug, Clone, Copy, PartialEq, Eq, Structural)]
pub enum Event {
    /// The broker accepted the connection.
    Connected,
    /// A message arrived.
    Message,
    /// Anything else went well.
    Other,
    /// The connection failed.
    Failed,
}

/// What the event loop does about it.
#[derive(Debug, Clone, Copy, PartialEq, Eq, Structural)]
pub enum Reaction {
    /// Subscribe to the session's topics: they are not restored by themselves.
    Subscribe,
    /// Hand the message on.
    Deliver,
    /// Nothing.
    Continue,
    /// Sleep for so many milliseconds, then poll again.
    Pause(u64),
    /// Leave the loop.
    Leave,
}

/// The state of the event loop.
#[derive(Debug, Clone, Copy, PartialEq, Eq, Structural)]
pub struct Link {
    /// The session is up.
    pub connected: bool,
    /// The next pause in milliseconds.
    pub backoff_ms: u64,
}

/// A pause lies between the shortest and the longest.
pub open spec fn link_wf(l: Link) -> bool {
    BACKOFF_MIN_MS <= l.backoff_ms <= BACKOFF_MAX_MS
}

/// Twice a pause, up to the longest.
pub open spec fn doubled(ms: u64) -> int {
    if ms * 2 > BACKOFF_MAX_MS {
        BACKOFF_MAX_MS as int
    } else {
        ms * 2
    }
}

/// The event loop after an event.
pub open spec fn next_link(l: Link, e: Event, stopping: bool) -> Link {
    if stopping {
        Link { connected: false, ..l }
    } else {
        match e {
            Event::Connected => Link { connected: true, backoff_ms: BACKOFF_MIN_MS },
            Event::Message => l,
            Event::Other => l,
            Event::Failed => Link { connected: false, backoff_ms: doubled(l.backoff_ms) as u64 },
        }
    }
}

/// What the event loop does about an event.
pub open spec fn reaction(l: Link, e: Event, stopping: bool) -> Reaction {
    if stopping {
        Reaction::Leave
    } else {
        match e {
            Event::Connected => Reaction::Subscribe,
            Event::Message => Reaction::Deliver,
            Event::Other => Reaction::Continue,
            Event::Failed => Reaction::Pause(l.backoff_ms),
        }
    }
}

impl Link {
    /// A session that is not up yet.
    pub fn new() -> (l: Link)
        ensures
            link_wf(l),
            !l.connected,
            l.backoff_ms == BACKOFF_MIN_MS,
    {
        Link { connected: false, backoff_ms: BACKOFF_MIN_MS }
    }

    /// Take an event. A stop request wins over any event, and a session that is
    /// left is down.
    pub fn on_event(&mut self, e: Event, stopping: bool) -> (r: Reaction)
        requires
            link_wf(*old(self)),
        ensures
            link_wf(*final(self)),
            *final(self) == next_link(*old(self), e, stopping),
            r == reaction(*old(self), e, stopping),
    {
        if stopping {
            self.connected = false;
            return Reaction::Leave;
        }
        match e {
            Event::Connected => {
                self.connected = true;
                self.backoff_ms = BACKOFF_MIN_MS;
                Reaction::Subscribe
            },
            Event::Message => Reaction::Deliver,
            Event::Other => Reaction::Continue,
            Event::Failed => {
                let pause: u64 = self.backoff_ms;
                self.connected = false;
                self.backoff_ms = if pause * 2 > BACKOFF_MAX_MS {
                    BACKOFF_MAX_MS
                } else {
                    pause * 2
                };
                Reaction::Pause(pause)
            },
        }
    }
}

/// What a pause does next.
#[derive(Debug, Clone, Copy, PartialEq, Eq, Structural)]
pub enum Nap {
    /// A stop was requested: the pause ends at once.
    Stopped,
    /// The pause is over.
    Over,
    /// Sleep for so many milliseconds, then look again.
    Sleep(u64),
}

/// What a pause of `total` milliseconds does next, of which `slept` are over: it
/// sleeps in short stretches and looks for a stop request before each of them and
/// at the end.
pub fn sleep_interruptible(slept: u64, total: u64, stop: bool) -> (r: Nap)
    ensures
        r == if stop {
            Nap::Stopped
        } else if slept >= total {
            Nap::Over
        } else if total - slept < SLICE_MS {
            Nap::Sleep((total - slept) as u64)
        } else {
            Nap::Sleep(SLICE_MS)
        },
{
    if stop {
        Nap::Stopped
    } else if slept >= total {
        Nap::Over
    } else if total - slept < SLICE_MS {
        Nap::Sleep(total - slept)
    } else {
        Nap::Sleep(SLICE_MS)
    }
}

/// The state after a number of failed attempts in a row.
pub open spec fn after_failures(l: Link, n: nat) -> Link
    decreases n,
{
    if n == 0 {
        l
    } else {
        next_link(after_failures(l, (n - 1) as nat), Event::Failed, false)
    }
}

/// Pauses between failed attempts grow from one to the next until they are as
/// long as they get, and never leave their bounds.
pub proof fn backoff_is_bounded(l: Link, n: nat)
    requires
        link_wf(l),
    ensures
        link_wf(after_failures(l, n)),
        after_failures(l, n).backoff_ms <= after_failures(l, n + 1).backoff_ms,
        after_failures(l, n).backoff_ms < BACKOFF_MAX_MS ==> after_failures(l, n).backoff_ms
            < after_failures(l, n + 1).backoff_ms,
        n >= 7 ==> after_failures(l, n).backoff_ms == BACKOFF_MAX_MS,
    decreases n,
{
    if n > 0 {
        backoff_is_bounded(l, (n - 1) as nat);
    }
    if n == 7 {
        reveal_with_fuel(after_failures, 8);
    }
}

/// A connection that comes back forgets how long it was away.
pub proof fn connecting_resets_the_backoff(l: Link)
    ensures
        next_link(l, Event::Connected, false).connected,
        reaction(next_link(l, Event::Connected, false), Event::Failed, false) == Reaction::Pause(
            BACKOFF_MIN_MS,
        ),
        reaction(l, Event::Connected, false) == Reaction::Subscribe,
{
}

/// Once a stop is requested the loop is left at the next event, with the session
/// down.
pub proof fn a_stop_request_is_honoured(l: Link, e: Event)
    ensures
        reaction(l, e, true) == Reaction::Leave,
        !next_link(l, e, true).connected,
{
}

/// Whatever packet limit results, it holds a payload of the configured size
/// twice, unless the machine's range ends first.
pub proof fn a_packet_holds_the_payload(max_payload: usize)
    ensures
        MIN_PACKET <= packet_limit(max_payload) <= usize::MAX,
        packet_limit(max_payload) >= max_payload,
        max_payload * 2 + PACKET_OVERHEAD <= usize::MAX ==> packet_limit(max_payload)
            >= max_payload * 2 + PACKET_OVERHEAD,
{
}

/// A session is planned exactly for a host over TLS: under the given client id,
/// kept by the broker, on the configured topics, with the credentials where a
/// user is set.
pub proof fn a_session_is_what_was_configured(c: ConfigView, client_id: Seq<char>)
    ensures
        session_of(c, client_id) is Ok <==> c.broker_host.len() > 0 && c.tls,
        session_of(c, client_id) matches Err(e) ==> e is Config,
        session_of(c, client_id) matches Ok(s) ==> {
            &&& s.client_id == client_id
            &&& s.host == c.broker_host
            &&& s.port == c.broker_port
            &&& s.keep_alive_secs == 20
            &&& !s.clean_session
            &&& s.topics == c.topics
            &&& c.username.len() == 0 ==> s.credentials is None
            &&& c.username.len() > 0 ==> s.credentials == Some((c.username, c.password))
            &&& c.max_payload * 2 + 65536 <= 262144 ==> s.max_packet == 262144
            &&& 262144 <= c.max_payload * 2 + 65536 <= usize::MAX ==> s.max_packet
                == c.max_payload * 2 + 65536
            &&& c.max_payload * 2 + 65536 > usize::MAX ==> s.max_packet == usize::MAX
        },
{
}

/// A failure ends the session, pauses as long as is due and doubles the next
/// pause up to half a minute; only a connection brings the session back, and a
/// message is handed on and changes nothing.
pub proof fn a_failure_doubles_the_pause(l: Link)
    ensures
        ({
            let f = next_link(l, Event::Failed, false);
            &&& !f.connected
            &&& reaction(l, Event::Failed, false) == Reaction::Pause(l.backoff_ms)
            &&& l.backoff_ms * 2 <= 30000 ==> f.backoff_ms == l.backoff_ms * 2
            &&& l.backoff_ms * 2 > 30000 ==> f.backoff_ms == 30000
        }),
        next_link(l, Event::Message, false) == l,
        reaction(l, Event::Message, false) == Reaction::Deliver,
        next_link(l, Event::Other, false) == l,
        reaction(l, Event::Other, false) == Reaction::Continue,
        next_link(l, Event::Connected, false).connected,
        next_link(l, Event::Connected, false).backoff_ms == 250,
{
}

} // verus!
