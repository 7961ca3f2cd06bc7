//! Error categories and the reasons for which an inbound message is refused.

use vstd::prelude::*;
use vstd::string::*;

use crate::text;

verus! {

/// Why an operation failed. Each category is told apart by its variant.
#[derive(Debug, PartialEq, Eq)]
pub enum Error {
    /// Nothing listens at the named endpoint.
    DaemonNotRunning(String),
    /// A daemon of this identity holds the endpoint already.
    DaemonAlreadyRunning,
    /// The configuration is incomplete or wrong.
    Config(String),
    /// No identity has been generated.
    NoIdentity,
    /// An identity would be overwritten.
    IdentityExists(String),
    /// Key material could not be read.
    Crypto(String),
    /// A pasted token is not one.
    InvalidToken(String),
    /// The name is not in the trust store.
    UnknownAgent(String),
    /// A message was refused.
    Rejected(RejectReason),
    /// Stored data is unusable.
    Store(String),
    /// The broker session failed.
    Mqtt(String),
    /// The daemon answered with a failure.
    Ipc(String),
    /// A value could not be encoded or decoded.
    Serde(String),
    /// Another name holds the identity.
    IdentityNameMismatch(String),
    /// No authority key has been generated.
    NoAuthority,
    /// A pasted token is truncated or garbled.
    TokenCorrupt(String),
    /// A known agent would silently change its key.
    RotationRequired(String),
    /// The token is of another kind.
    NotAnAuthorityToken,
    /// A bounded wait ran out.
    Timeout(String),
    /// Reading or writing failed.
    Io(String),
}

/// The reasons for which an inbound message is refused.
#[derive(Debug, PartialEq, Eq)]
pub enum RejectReason {
    MalformedWrapper,
    UnsupportedVersion(u8),
    UnsupportedAlg(String),
    UnknownSigner,
    KidMismatch,
    InvalidSignature,
    Duplicate,
    Stale,
    TooLarge,
    UnsignedNotAllowed,
    DowngradeRejected,
    UnknownAuthority,
    InvalidGrant,
    GrantExpired,
    GrantSubjectMismatch,
    DecryptFailed,
    UnknownRecipientKey,
    EncBroadcastUnsupported,
    ReplayedGrant,
    /// A cleartext message came where encryption is required.
    EncryptionRequired,
}

/// A refusal together with the sender that the message claimed, where known.
#[derive(Debug, PartialEq, Eq)]
pub struct RejectInfo {
    pub reason: RejectReason,
    pub claimed_sender: Option<String>,
}

/// The model of an [`Error`].
pub enum ErrorView {
    DaemonNotRunning(Seq<char>),
    DaemonAlreadyRunning,
    Config(Seq<char>),
    NoIdentity,
    IdentityExists(Seq<char>),
    Crypto(Seq<char>),
    InvalidToken(Seq<char>),
    UnknownAgent(Seq<char>),
    Rejected(RejectView),
    Store(Seq<char>),
    Mqtt(Seq<char>),
    Ipc(Seq<char>),
    Serde(Seq<char>),
    IdentityNameMismatch(Seq<char>),
    NoAuthority,
    TokenCorrupt(Seq<char>),
    RotationRequired(Seq<char>),
    NotAnAuthorityToken,
    Timeout(Seq<char>),
    Io(Seq<char>),
}

/// The model of a [`RejectReason`].
pub enum RejectView {
    MalformedWrapper,
    UnsupportedVersion(u8),
    UnsupportedAlg(Seq<char>),
    UnknownSigner,
    KidMismatch,
    InvalidSignature,
    Duplicate,
    Stale,
    TooLarge,
    UnsignedNotAllowed,
    DowngradeRejected,
    UnknownAuthority,
    InvalidGrant,
    GrantExpired,
    GrantSubjectMismatch,
    DecryptFailed,
    UnknownRecipientKey,
    EncBroadcastUnsupported,
    ReplayedGrant,
    EncryptionRequired,
}

/// The model of a [`RejectInfo`].
pub struct RejectInfoView {
    pub reason: RejectView,
    pub claimed_sender: Option<Seq<char>>,
}

impl View for Error {
    type V = ErrorView;

    open spec fn view(&self) -> ErrorView {
        match *self {
            Error::DaemonNotRunning(s) => ErrorView::DaemonNotRunning(s@),
            Error::DaemonAlreadyRunning => ErrorView::DaemonAlreadyRunning,
            Error::Config(s) => ErrorView::Config(s@),
            Error::NoIdentity => ErrorView::NoIdentity,
            Error::IdentityExists(s) => ErrorView::IdentityExists(s@),
            Error::Crypto(s) => ErrorView::Crypto(s@),
            Error::InvalidToken(s) => ErrorView::InvalidToken(s@),
            Error::UnknownAgent(s) => ErrorView::UnknownAgent(s@),
            Error::Rejected(s) => ErrorView::Rejected(s@),
            Error::Store(s) => ErrorView::Store(s@),
            Error::Mqtt(s) => ErrorView::Mqtt(s@),
            Error::Ipc(s) => ErrorView::Ipc(s@),
            Error::Serde(s) => ErrorView::Serde(s@),
            Error::IdentityNameMismatch(s) => ErrorView::IdentityNameMismatch(s@),
            Error::NoAuthority => ErrorView::NoAuthority,
            Error::TokenCorrupt(s) => ErrorView::TokenCorrupt(s@),
            Error::RotationRequired(s) => ErrorView::RotationRequired(s@),
            Error::NotAnAuthorityToken => ErrorView::NotAnAuthorityToken,
            Error::Timeout(s) => ErrorView::Timeout(s@),
            Error::Io(s) => ErrorView::Io(s@),
        }
    }
}

impl View for RejectReason {
    type V = RejectView;

    open spec fn view(&self) -> RejectView {
        match *self {
            RejectReason::MalformedWrapper => RejectView::MalformedWrapper,
            RejectReason::UnsupportedVersion(v) => RejectView::UnsupportedVersion(v),
            RejectReason::UnsupportedAlg(s) => RejectView::UnsupportedAlg(s@),
            RejectReason::UnknownSigner => RejectView::UnknownSigner,
            RejectReason::KidMismatch => RejectView::KidMismatch,
            RejectReason::InvalidSignature => RejectView::InvalidSignature,
            RejectReason::Duplicate => RejectView::Duplicate,
            RejectReason::Stale => RejectView::Stale,
            RejectReason::TooLarge => RejectView::TooLarge,
            RejectReason::UnsignedNotAllowed => RejectView::UnsignedNotAllowed,
            RejectReason::DowngradeRejected => RejectView::DowngradeRejected,
            RejectReason::UnknownAuthority => RejectView::UnknownAuthority,
            RejectReason::InvalidGrant => RejectView::InvalidGrant,
            RejectReason::GrantExpired => RejectView::GrantExpired,
            RejectReason::GrantSubjectMismatch => RejectView::GrantSubjectMismatch,
            RejectReason::DecryptFailed => RejectView::DecryptFailed,
            RejectReason::UnknownRecipientKey => RejectView::UnknownRecipientKey,
            RejectReason::EncBroadcastUnsupported => RejectView::EncBroadcastUnsupported,
            RejectReason::ReplayedGrant => RejectView::ReplayedGrant,
            RejectReason::EncryptionRequired => RejectView::EncryptionRequired,
        }
    }
}

impl View for RejectInfo {
    type V = RejectInfoView;

    open spec fn view(&self) -> RejectInfoView {
        RejectInfoView {
            reason: self.reason@,
            claimed_sender: text::opt_text(self.claimed_sender),
        }
    }
}

/// The sentence that describes an error.
pub open spec fn error_text(e: ErrorView) -> Seq<char> {
    match e {
        ErrorView::DaemonNotRunning(s) => "daemon is not running (no IPC endpoint at "@ + s + ")"@,
        ErrorView::DaemonAlreadyRunning => "a daemon is already running for this identity"@,
        ErrorView::Config(s) => "configuration error: "@ + s,
        ErrorView::NoIdentity => "no identity configured; run `agentmsg id generate` first"@,
        ErrorView::IdentityExists(s) => "identity already exists at "@ + s,
        ErrorView::Crypto(s) => "crypto error: "@ + s,
        ErrorView::InvalidToken(s) => "invalid identity token: "@ + s,
        ErrorView::UnknownAgent(s) => "unknown agent: "@ + s,
        ErrorView::Rejected(s) => "message rejected: "@ + reject_text(s),
        ErrorView::Store(s) => "storage error: "@ + s,
        ErrorView::Mqtt(s) => "mqtt error: "@ + s,
        ErrorView::Ipc(s) => "ipc error: "@ + s,
        ErrorView::Serde(s) => "serialization error: "@ + s,
        ErrorView::IdentityNameMismatch(s) => "identity name mismatch: "@ + s,
        ErrorView::NoAuthority => "no authority key configured; run `agentmsg authority generate` first"@,
        ErrorView::TokenCorrupt(s) => "token corrupt: "@ + s,
        ErrorView::RotationRequired(s) => "key rotation required: "@ + s,
        ErrorView::NotAnAuthorityToken => "not an authority token"@,
        ErrorView::Timeout(s) => "timed out: "@ + s,
        ErrorView::Io(s) => "i/o error: "@ + s,
    }
}

/// The sentence that describes a refusal.
pub open spec fn reject_text(r: RejectView) -> Seq<char> {
    match r {
        RejectView::MalformedWrapper => "malformed wrapper"@,
        RejectView::UnsupportedVersion(v) => "unsupported protocol version "@ + text::decimal(v as nat),
        RejectView::UnsupportedAlg(s) => "unsupported signature algorithm "@ + s,
        RejectView::UnknownSigner => "unknown signer"@,
        RejectView::KidMismatch => "signer key id does not match sender"@,
        RejectView::InvalidSignature => "invalid signature"@,
        RejectView::Duplicate => "duplicate message id"@,
        RejectView::Stale => "timestamp outside freshness window"@,
        RejectView::TooLarge => "payload too large"@,
        RejectView::UnsignedNotAllowed => "unsigned messages are not allowed"@,
        RejectView::DowngradeRejected => "protocol downgrade rejected for a known signing agent"@,
        RejectView::UnknownAuthority => "unknown authority"@,
        RejectView::InvalidGrant => "invalid grant"@,
        RejectView::GrantExpired => "grant expired"@,
        RejectView::GrantSubjectMismatch => "grant subject does not match sender"@,
        RejectView::DecryptFailed => "decryption failed"@,
        RejectView::UnknownRecipientKey => "unknown recipient key"@,
        RejectView::EncBroadcastUnsupported => "encrypted broadcast is not supported"@,
        RejectView::ReplayedGrant => "replayed grant"@,
        RejectView::EncryptionRequired => "payload encryption is required"@,
    }
}

/// The stable code of a refusal.
pub open spec fn reject_code(r: RejectView) -> Seq<char> {
    match r {
        RejectView::MalformedWrapper => "malformed_wrapper"@,
        RejectView::UnsupportedVersion(_) => "unsupported_version"@,
        RejectView::UnsupportedAlg(_) => "unsupported_alg"@,
        RejectView::UnknownSigner => "unknown_signer"@,
        RejectView::KidMismatch => "kid_mismatch"@,
        RejectView::InvalidSignature => "invalid_signature"@,
        RejectView::Duplicate => "duplicate"@,
        RejectView::Stale => "stale"@,
        RejectView::TooLarge => "too_large"@,
        RejectView::UnsignedNotAllowed => "unsigned_not_allowed"@,
        RejectView::DowngradeRejected => "downgrade_rejected"@,
        RejectView::UnknownAuthority => "unknown_authority"@,
        RejectView::InvalidGrant => "invalid_grant"@,
        RejectView::GrantExpired => "grant_expired"@,
        RejectView::GrantSubjectMismatch => "grant_subject_mismatch"@,
        RejectView::DecryptFailed => "decrypt_failed"@,
        RejectView::UnknownRecipientKey => "unknown_recipient_key"@,
        RejectView::EncBroadcastUnsupported => "enc_broadcast_unsupported"@,
        RejectView::ReplayedGrant => "replayed_grant"@,
        RejectView::EncryptionRequired => "encryption_required"@,
    }
}

impl Error {
    /// The sentence that describes this error.
    pub fn message(&self) -> (r: String)
        ensures
            r@ == error_text(self@),
    {
        match self {
            Error::DaemonNotRunning(s) => text::concat3("daemon is not running (no IPC endpoint at ", s.as_str(), ")"),
            Error::DaemonAlreadyRunning => text::own("a daemon is already running for this identity"),
            Error::Config(s) => text::concat2("configuration error: ", s.as_str()),
            Error::NoIdentity => text::own("no identity configured; run `agentmsg id generate` first"),
            Error::IdentityExists(s) => text::concat2("identity already exists at ", s.as_str()),
            Error::Crypto(s) => text::concat2("crypto error: ", s.as_str()),
            Error::InvalidToken(s) => text::concat2("invalid identity token: ", s.as_str()),
            Error::UnknownAgent(s) => text::concat2("unknown agent: ", s.as_str()),
            Error::Rejected(s) => {
                let m: String = s.message();
                text::concat2("message rejected: ", m.as_str())
            },
            Error::Store(s) => text::concat2("storage error: ", s.as_str()),
            Error::Mqtt(s) => text::concat2("mqtt error: ", s.as_str()),
            Error::Ipc(s) => text::concat2("ipc error: ", s.as_str()),
            Error::Serde(s) => text::concat2("serialization error: ", s.as_str()),
            Error::IdentityNameMismatch(s) => text::concat2("identity name mismatch: ", s.as_str()),
            Error::NoAuthority => text::own("no authority key configured; run `agentmsg authority generate` first"),
            Error::TokenCorrupt(s) => text::concat2("token corrupt: ", s.as_str()),
            Error::RotationRequired(s) => text::concat2("key rotation required: ", s.as_str()),
            Error::NotAnAuthorityToken => text::own("not an authority token"),
            Error::Timeout(s) => text::concat2("timed out: ", s.as_str()),
            Error::Io(s) => text::concat2("i/o error: ", s.as_str()),
        }
    }
}

impl RejectReason {
    /// Stable snake_case code for logs and JSON output.
    pub fn code(&self) -> (r: &'static str)
        ensures
            r@ == reject_code(self@),
    {
        match self {
            RejectReason::MalformedWrapper => "malformed_wrapper",
            RejectReason::UnsupportedVersion(_) => "unsupported_version",
            RejectReason::UnsupportedAlg(_) => "unsupported_alg",
            RejectReason::UnknownSigner => "unknown_signer",
            RejectReason::KidMismatch => "kid_mismatch",
            RejectReason::InvalidSignature => "invalid_signature",
            RejectReason::Duplicate => "duplicate",
            RejectReason::Stale => "stale",
            RejectReason::TooLarge => "too_large",
            RejectReason::UnsignedNotAllowed => "unsigned_not_allowed",
            RejectReason::DowngradeRejected => "downgrade_rejected",
            RejectReason::UnknownAuthority => "unknown_authority",
            RejectReason::InvalidGrant => "invalid_grant",
            RejectReason::GrantExpired => "grant_expired",
            RejectReason::GrantSubjectMismatch => "grant_subject_mismatch",
            RejectReason::DecryptFailed => "decrypt_failed",
            RejectReason::UnknownRecipientKey => "unknown_recipient_key",
            RejectReason::EncBroadcastUnsupported => "enc_broadcast_unsupported",
            RejectReason::ReplayedGrant => "replayed_grant",
            RejectReason::EncryptionRequired => "encryption_required",
        }
    }

    /// The sentence that describes this refusal.
    pub fn message(&self) -> (r: String)
        ensures
            r@ == reject_text(self@),
    {
        match self {
            RejectReason::MalformedWrapper => text::own("malformed wrapper"),
            RejectReason::UnsupportedVersion(v) => {
                let d: String = text::decimal_u64(*v as u64);
                text::concat2("unsupported protocol version ", d.as_str())
            },
            RejectReason::UnsupportedAlg(s) => text::concat2("unsupported signature algorithm ", s.as_str()),
            RejectReason::UnknownSigner => text::own("unknown signer"),
            RejectReason::KidMismatch => text::own("signer key id does not match sender"),
            RejectReason::InvalidSignature => text::own("invalid signature"),
            RejectReason::Duplicate => text::own("duplicate message id"),
            RejectReason::Stale => text::own("timestamp outside freshness window"),
            RejectReason::TooLarge => text::own("payload too large"),
            RejectReason::UnsignedNotAllowed => text::own("unsigned messages are not allowed"),
            RejectReason::DowngradeRejected => text::own("protocol downgrade rejected for a known signing agent"),
            RejectReason::UnknownAuthority => text::own("unknown authority"),
            RejectReason::InvalidGrant => text::own("invalid grant"),
            RejectReason::GrantExpired => text::own("grant expired"),
            RejectReason::GrantSubjectMismatch => text::own("grant subject does not match sender"),
            RejectReason::DecryptFailed => text::own("decryption failed"),
            RejectReason::UnknownRecipientKey => text::own("unknown recipient key"),
            RejectReason::EncBroadcastUnsupported => text::own("encrypted broadcast is not supported"),
            RejectReason::ReplayedGrant => text::own("replayed grant"),
            RejectReason::EncryptionRequired => text::own("payload encryption is required"),
        }
    }
}

impl From<RejectReason> for RejectInfo {
    fn from(reason: RejectReason) -> (r: RejectInfo) {
        RejectInfo { reason, claimed_sender: None }
    }
}

impl vstd::std_specs::convert::FromSpecImpl<RejectReason> for RejectInfo {
    open spec fn obeys_from_spec() -> bool {
        true
    }

    open spec fn from_spec(reason: RejectReason) -> RejectInfo {
        RejectInfo { reason, claimed_sender: None }
    }
}

impl From<RejectReason> for Error {
    fn from(reason: RejectReason) -> (r: Error) {
        Error::Rejected(reason)
    }
}

impl vstd::std_specs::convert::FromSpecImpl<RejectReason> for Error {
    open spec fn obeys_from_spec() -> bool {
        true
    }

    open spec fn from_spec(reason: RejectReason) -> Error {
        Error::Rejected(reason)
    }
}

/// Two refusals have the same code only where they are of the same kind: the
/// code tells every reason apart from every other.
pub proof fn codes_are_distinct(a: RejectView, b: RejectView)
    requires
        reject_code(a) == reject_code(b),
    ensures
        same_kind(a, b),
{
    reveal_strlit("malformed_wrapper");
    reveal_strlit("unsupported_version");
    reveal_strlit("unsupported_alg");
    reveal_strlit("unknown_signer");
    reveal_strlit("kid_mismatch");
    reveal_strlit("invalid_signature");
    reveal_strlit("duplicate");
    reveal_strlit("stale");
    reveal_strlit("too_large");
    reveal_strlit("unsigned_not_allowed");
    reveal_strlit("downgrade_rejected");
    reveal_strlit("unknown_authority");
    reveal_strlit("invalid_grant");
    reveal_strlit("grant_expired");
    reveal_strlit("grant_subject_mismatch");
    reveal_strlit("decrypt_failed");
    reveal_strlit("unknown_recipient_key");
    reveal_strlit("enc_broadcast_unsupported");
    reveal_strlit("replayed_grant");
    reveal_strlit("encryption_required");
    let (s, t) = (reject_code(a), reject_code(b));
    assert(s.len() == t.len());
    assert(s[0] == t[0]);
}

/// Two refusals are of the same kind.
pub open spec fn same_kind(a: RejectView, b: RejectView) -> bool {
    match a {
        RejectView::MalformedWrapper => b is MalformedWrapper,
        RejectView::UnsupportedVersion(_) => b is UnsupportedVersion,
        RejectView::UnsupportedAlg(_) => b is UnsupportedAlg,
        RejectView::UnknownSigner => b is UnknownSigner,
        RejectView::KidMismatch => b is KidMismatch,
        RejectView::InvalidSignature => b is InvalidSignature,
        RejectView::Duplicate => b is Duplicate,
        RejectView::Stale => b is Stale,
        RejectView::TooLarge => b is TooLarge,
        RejectView::UnsignedNotAllowed => b is UnsignedNotAllowed,
        RejectView::DowngradeRejected => b is DowngradeRejected,
        RejectView::UnknownAuthority => b is UnknownAuthority,
        RejectView::InvalidGrant => b is InvalidGrant,
        RejectView::GrantExpired => b is GrantExpired,
        RejectView::GrantSubjectMismatch => b is GrantSubjectMismatch,
        RejectView::DecryptFailed => b is DecryptFailed,
        RejectView::UnknownRecipientKey => b is UnknownRecipientKey,
        RejectView::EncBroadcastUnsupported => b is EncBroadcastUnsupported,
        RejectView::ReplayedGrant => b is ReplayedGrant,
        RejectView::EncryptionRequired => b is EncryptionRequired,
    }
}

} // verus!
