//! Persistent configuration: broker endpoint, shared credentials, chat topics,
//! limits and the security posture.

use vstd::prelude::*;
use vstd::string::*;

use crate::error::{Error, ErrorView};
use crate::text;

verus! {

/// Default broker port, MQTT over TLS.
pub const DEFAULT_PORT: u16 = 8883;

/// Default window of accepted timestamps, in seconds.
pub const DEFAULT_FRESHNESS_SECS: i64 = 300;

/// Default cap of retained messages.
pub const DEFAULT_MAX_MESSAGES: u64 = 50_000;

/// Default cap of retained bytes.
pub const DEFAULT_MAX_BYTES: u64 = 524_288_000;

/// Default limit of an accepted payload, in bytes.
pub const DEFAULT_MAX_PAYLOAD: usize = 262_144;

/// The configuration.
#[derive(Debug, PartialEq, Eq)]
pub struct Config {
    /// Broker hostname.
    pub broker_host: String,
    /// Broker port.
    pub broker_port: u16,
    /// Require TLS to the broker.
    pub tls: bool,
    /// Shared broker username.
    pub username: String,
    /// Shared broker password.
    pub password: String,
    /// Chat topics. The first is the default publish topic; all are subscribed.
    pub topics: Vec<String>,
    /// Refuse inbound timestamps further than this from the clock (seconds).
    pub freshness_secs: i64,
    /// Store cap: maximum retained messages.
    pub max_messages: u64,
    /// Store cap: maximum retained bytes.
    pub max_bytes: u64,
    /// Maximum accepted payload size in bytes.
    pub max_payload: usize,
    /// Interval of the presence heartbeat in seconds; 0 disables it.
    pub heartbeat_secs: u64,
    /// Accept unsigned inbound messages.
    pub allow_unsigned: bool,
    /// Accept messages of the first protocol version.
    pub accept_v1: bool,
    /// Refuse to send a message in cleartext and to take one that comes in
    /// cleartext. Beacons, receipts and pairing hellos are never sealed.
    pub require_encryption: bool,
    /// Emit automatic delivery and read receipts.
    pub auto_receipts: bool,
}

/// The model of a [`Config`].
pub struct ConfigView {
    pub broker_host: Seq<char>,
    pub broker_port: u16,
    pub tls: bool,
    pub username: Seq<char>,
    pub password: Seq<char>,
    pub topics: Seq<Seq<char>>,
    pub freshness_secs: i64,
    pub max_messages: u64,
    pub max_bytes: u64,
    pub max_payload: usize,
    pub heartbeat_secs: u64,
    pub allow_unsigned: bool,
    pub accept_v1: bool,
    pub require_encryption: bool,
    pub auto_receipts: bool,
}

impl View for Config {
    type V = ConfigView;

    open spec fn view(&self) -> ConfigView {
        ConfigView {
            broker_host: self.broker_host@,
            broker_port: self.broker_port,
            tls: self.tls,
            username: self.username@,
            password: self.password@,
            topics: text::texts(self.topics@),
            freshness_secs: self.freshness_secs,
            max_messages: self.max_messages,
            max_bytes: self.max_bytes,
            max_payload: self.max_payload,
            heartbeat_secs: self.heartbeat_secs,
            allow_unsigned: self.allow_unsigned,
            accept_v1: self.accept_v1,
            require_encryption: self.require_encryption,
            auto_receipts: self.auto_receipts,
        }
    }
}

/// The configuration before anything is configured.
pub open spec fn default_config() -> ConfigView {
    ConfigView {
        broker_host: Seq::empty(),
        broker_port: DEFAULT_PORT,
        tls: true,
        username: Seq::empty(),
        password: Seq::empty(),
        topics: Seq::empty(),
        freshness_secs: DEFAULT_FRESHNESS_SECS,
        max_messages: DEFAULT_MAX_MESSAGES,
        max_bytes: DEFAULT_MAX_BYTES,
        max_payload: DEFAULT_MAX_PAYLOAD,
        heartbeat_secs: 0,
        allow_unsigned: false,
        accept_v1: true,
        require_encryption: false,
        auto_receipts: true,
    }
}

impl Default for Config {
    fn default() -> (c: Config)
        ensures
            c@ == default_config(),
    {
        let c = Config {
            broker_host: String::new(),
            broker_port: DEFAULT_PORT,
            tls: true,
            username: String::new(),
            password: String::new(),
            topics: Vec::new(),
            freshness_secs: DEFAULT_FRESHNESS_SECS,
            max_messages: DEFAULT_MAX_MESSAGES,
            max_bytes: DEFAULT_MAX_BYTES,
            max_payload: DEFAULT_MAX_PAYLOAD,
            heartbeat_secs: 0,
            allow_unsigned: false,
            accept_v1: true,
            require_encryption: false,
            auto_receipts: true,
        };
        assert(text::texts(c.topics@) =~= Seq::empty());
        c
    }
}

/// The complaint about a topic, where there is one: it is empty, or it holds a
/// wildcard.
pub open spec fn topic_complaint(topic: Seq<char>) -> Option<Seq<char>> {
    if topic.len() == 0 {
        Some("topic must not be empty"@)
    } else if topic.contains('+') || topic.contains('#') {
        Some("chat topic must not contain MQTT wildcards (+ or #)"@)
    } else {
        None
    }
}

/// Host, user and a topic are there.
pub open spec fn connectable(c: ConfigView) -> bool {
    c.broker_host.len() > 0 && c.username.len() > 0 && c.topics.len() > 0
}

/// The endpoint as `host:port`, empty where no host is set.
pub open spec fn endpoint_of(c: ConfigView) -> Seq<char> {
    if c.broker_host.len() == 0 {
        Seq::empty()
    } else {
        c.broker_host + ":"@ + text::decimal(c.broker_port as nat)
    }
}

impl Config {
    /// Primary topic used for publishing.
    pub fn primary_topic(&self) -> (r: Option<&str>)
        ensures
            text::opt_str(r) == (if self@.topics.len() > 0 {
                Some(self@.topics[0])
            } else {
                None
            }),
    {
        if self.topics.len() > 0 {
            Some(self.topics[0].as_str())
        } else {
            None
        }
    }

    /// Whether `topic` is one of the configured topics.
    pub fn has_topic(&self, topic: &str) -> (r: bool)
        ensures
            r == self@.topics.contains(topic@),
    {
        let mut i: usize = 0;
        while i < self.topics.len()
            invariant
                i <= self.topics.len(),
                forall|k: int| 0 <= k < i ==> self@.topics[k] != topic@,
            decreases self.topics.len() - i,
        {
            if text::str_eq(self.topics[i].as_str(), topic) {
                assert(self@.topics[i as int] == topic@);
                return true;
            }
            i = i + 1;
        }
        false
    }

    /// Validate that a chat topic is not empty and holds no wildcards.
    pub fn validate_topic(topic: &str) -> (r: Result<(), Error>)
        ensures
            match r {
                Ok(_) => topic_complaint(topic@) is None,
                Err(e) => topic_complaint(topic@) matches Some(m) && e@ == ErrorView::Config(m),
            },
    {
        if topic.is_empty() {
            return Err(Error::Config(text::own("topic must not be empty")));
        }
        if text::has_char(topic, '+') || text::has_char(topic, '#') {
            return Err(
                Error::Config(text::own("chat topic must not contain MQTT wildcards (+ or #)")),
            );
        }
        Ok(())
    }

    /// True if enough is configured for the daemon to connect.
    pub fn is_connectable(&self) -> (r: bool)
        ensures
            r == connectable(self@),
    {
        !self.broker_host.as_str().is_empty() && !self.username.as_str().is_empty()
            && self.topics.len() > 0
    }

    /// The broker endpoint as `host:port`, empty where no host is set.
    pub fn endpoint(&self) -> (r: String)
        ensures
            r@ == endpoint_of(self@),
    {
        if self.broker_host.as_str().is_empty() {
            String::new()
        } else {
            let port: String = text::decimal_u64(self.broker_port as u64);
            text::concat3(self.broker_host.as_str(), ":", port.as_str())
        }
    }

    /// Set the broker endpoint.
    pub fn set_broker(&mut self, host: &str, port: u16, tls: bool)
        ensures
            final(self)@ == (ConfigView {
                broker_host: host@,
                broker_port: port,
                tls,
                ..old(self)@
            }),
    {
        self.broker_host = text::own(host);
        self.broker_port = port;
        self.tls = tls;
    }

    /// Set the shared credentials.
    pub fn set_credentials(&mut self, username: &str, password: &str)
        ensures
            final(self)@ == (ConfigView { username: username@, password: password@, ..old(self)@ }),
    {
        self.username = text::own(username);
        self.password = text::own(password);
    }

    /// Make `topic` the only topic. A topic that is not valid changes nothing.
    pub fn set_topic(&mut self, topic: &str) -> (r: Result<(), Error>)
        ensures
            match r {
                Ok(_) => topic_complaint(topic@) is None && final(self)@ == (ConfigView {
                    topics: seq![topic@],
                    ..old(self)@
                }),
                Err(e) => final(self)@ == old(self)@ && (topic_complaint(topic@) matches Some(m)
                    && e@ == ErrorView::Config(m)),
            },
    {
        match Self::validate_topic(topic) {
            Err(e) => Err(e),
            Ok(()) => {
                let mut topics: Vec<String> = Vec::new();
                topics.push(text::own(topic));
                self.topics = topics;
                assert(text::texts(self.topics@) =~= seq![topic@]);
                Ok(())
            },
        }
    }

    /// Add `topic` behind the others, once. A topic that is not valid changes
    /// nothing.
    pub fn add_topic(&mut self, topic: &str) -> (r: Result<(), Error>)
        ensures
            match r {
                Ok(_) => topic_complaint(topic@) is None && final(self)@ == (ConfigView {
                    topics: if old(self)@.topics.contains(topic@) {
                        old(self)@.topics
                    } else {
                        old(self)@.topics.push(topic@)
                    },
                    ..old(self)@
                }),
                Err(e) => final(self)@ == old(self)@ && (topic_complaint(topic@) matches Some(m)
                    && e@ == ErrorView::Config(m)),
            },
    {
        match Self::validate_topic(topic) {
            Err(e) => Err(e),
            Ok(()) => {
                if !self.has_topic(topic) {
                    let ghost before = self@.topics;
                    self.topics.push(text::own(topic));
                    assert(text::texts(self.topics@) =~= before.push(topic@));
                }
                Ok(())
            },
        }
    }

    /// Set those security flags that are given.
    pub fn set_security(
        &mut self,
        allow_unsigned: Option<bool>,
        accept_v1: Option<bool>,
        require_encryption: Option<bool>,
        auto_receipts: Option<bool>,
    )
        ensures
            final(self)@ == (ConfigView {
                allow_unsigned: flag(allow_unsigned, old(self)@.allow_unsigned),
                accept_v1: flag(accept_v1, old(self)@.accept_v1),
                require_encryption: flag(require_encryption, old(self)@.require_encryption),
                auto_receipts: flag(auto_receipts, old(self)@.auto_receipts),
                ..old(self)@
            }),
    {
        if let Some(v) = allow_unsigned {
            self.allow_unsigned = v;
        }
        if let Some(v) = accept_v1 {
            self.accept_v1 = v;
        }
        if let Some(v) = require_encryption {
            self.require_encryption = v;
        }
        if let Some(v) = auto_receipts {
            self.auto_receipts = v;
        }
    }
}

/// A flag that is given, or the one that stands.
pub open spec fn flag(given: Option<bool>, stands: bool) -> bool {
    match given {
        Some(v) => v,
        None => stands,
    }
}

/// Before anything is configured: TLS on the standard port, a window of five
/// minutes, at most 50000 messages and 500 MiB of bodies, bodies of at most 256
/// KiB, no heartbeat, signatures needed, first-version messages accepted,
/// encryption not required and receipts on.
pub proof fn defaults_are_careful()
    ensures
        ({
            let c = default_config();
            &&& c.broker_host.len() == 0 && c.username.len() == 0 && c.password.len() == 0
            &&& c.topics.len() == 0
            &&& c.broker_port == 8883 && c.tls
            &&& c.freshness_secs == 300
            &&& c.max_messages == 50_000
            &&& c.max_bytes == 500 * 1024 * 1024
            &&& c.max_payload == 256 * 1024
            &&& c.heartbeat_secs == 0
            &&& !c.allow_unsigned && c.accept_v1 && !c.require_encryption && c.auto_receipts
            &&& !connectable(c)
            &&& endpoint_of(c).len() == 0
        }),
{
}

/// A broker can be connected once host, user and a topic are set, and a topic is
/// in order where it names something without a wildcard.
pub proof fn what_a_connection_needs(c: ConfigView, topic: Seq<char>)
    ensures
        connectable(c) <==> c.broker_host.len() > 0 && c.username.len() > 0 && c.topics.len() > 0,
        topic_complaint(topic) is None <==> topic.len() > 0 && !topic.contains('+')
            && !topic.contains('#'),
        c.broker_host.len() > 0 ==> endpoint_of(c) == c.broker_host + ":"@ + text::decimal(
            c.broker_port as nat,
        ),
{
}

/// The model of a configuration holds every field of it.
pub proof fn a_configuration_is_seen_as_it_is(v: Config)
    ensures
        v@.broker_host == v.broker_host@,
        v@.broker_port == v.broker_port,
        v@.tls == v.tls,
        v@.username == v.username@,
        v@.password == v.password@,
        v@.topics.len() == v.topics@.len(),
        forall|i: int| 0 <= i < v.topics@.len() ==> #[trigger] v@.topics[i] == v.topics@[i]@,
        v@.freshness_secs == v.freshness_secs,
        v@.max_messages == v.max_messages,
        v@.max_bytes == v.max_bytes,
        v@.max_payload == v.max_payload,
        v@.heartbeat_secs == v.heartbeat_secs,
        v@.allow_unsigned == v.allow_unsigned,
        v@.accept_v1 == v.accept_v1,
        v@.require_encryption == v.require_encryption,
        v@.auto_receipts == v.auto_receipts,
{
}

} // verus!
