//! The command line: its commands, what each asks of the daemon, the guards of
//! those that change local keys, and what is shown for an answer.
//!
//! Reading files and standard input, calling the daemon and printing belong to
//! the user of this module.

use vstd::prelude::*;
use vstd::string::*;

use crate::authority;
use crate::authority::{Authority, AuthorityToken, AuthorityTokenView, AuthorityView};
use crate::config;
use crate::config::{Config, ConfigView};
use crate::error::{Error, ErrorView};
use crate::grant;
use crate::grant::{ClaimsView, GrantClaims};
use crate::identity;
use crate::identity::{Identity, IdentityView};
use crate::ipc::{ParamsView, Request, RequestView, Response, ResponseView, SendParams, StreamFrame};
use crate::message;
use crate::render;
use crate::store::StoredMsg;
use crate::text;
use crate::token;
use crate::token::{IdentityToken, TokenView};
use crate::trust;
use crate::trust::{KnownAgent, TrustStore, TrustView};
use crate::wire;

verus! {

/// A parsed command line.
#[derive(Debug, PartialEq, Eq)]
pub struct Cli {
    /// Emit JSON in place of text for a reader.
    pub json: bool,
    pub command: Command,
}

/// What the command line asks for.
#[derive(Debug, PartialEq, Eq)]
pub enum Command {
    /// Manage this agent's identity.
    Id { cmd: IdCmd },
    /// Manage known agents.
    Agent { cmd: AgentCmd },
    /// Manage the authority key and trusted authorities.
    Authority { cmd: AuthorityCmd },
    /// Configure the broker connection and the topics.
    Config { cmd: ConfigCmd },
    /// Control the resident daemon.
    Daemon { cmd: DaemonCmd },
    /// Presence beacons.
    Presence { cmd: PresenceCmd },
    /// Bootstrap trust with a peer.
    Pair { cmd: PairCmd },
    /// Show daemon and connection status.
    Status,
    /// Publish a message.
    Send(SendArgs),
    /// Drain unread messages.
    Read {
        consumer: Option<String>,
        limit: i64,
        wait: bool,
        wait_timeout: Option<u64>,
        ack: bool,
        follow: bool,
    },
    /// Browse recent messages without consuming them.
    Browse { limit: i64, from: Option<String>, to: Option<String>, mine: bool, all: bool },
    /// Chronological transcript of both directions.
    Log { limit: i64, from: Option<String>, to: Option<String>, peer: Option<String> },
    /// Reply to a stored message.
    Reply { msg_id: String, body: String, ctype: String },
    /// Show recent rejections.
    Rejections { limit: i64, reason: Option<String>, since: Option<String> },
    /// Show the consumers' cursors.
    Consumers,
    /// Show delivery states of outbound messages.
    Receipts { id: Option<String>, limit: i64, state: Option<String> },
    /// Mint a grant token.
    Grant {
        subject: String,
        action: String,
        scope: String,
        expiry: String,
        out: Option<String>,
    },
    /// Acknowledge messages up to a sequence number.
    Ack { seq: i64, consumer: Option<String> },
}

/// Arguments of [`Command::Send`].
#[derive(Debug, PartialEq, Eq)]
pub struct SendArgs {
    /// Message body, unless it is read from `file`.
    pub body: Option<String>,
    pub to: Option<String>,
    pub broadcast: bool,
    pub ctype: String,
    pub reply_to: Option<String>,
    pub topic: Option<String>,
    pub kind: String,
    pub correlation_id: Option<String>,
    pub supersedes: Option<String>,
    pub encrypt: bool,
    /// A grant token, or `@` and the name of a file that holds one.
    pub grant: Option<String>,
    pub unsigned: bool,
    /// Where the body is read from, `-` for standard input.
    pub file: Option<String>,
}

#[derive(Debug, PartialEq, Eq)]
pub enum IdCmd {
    /// Generate a new identity.
    Generate { name: String, force: bool },
    /// Show the local identity.
    Show,
    /// Print the shareable identity token.
    Token,
}

#[derive(Debug, PartialEq, Eq)]
pub enum AgentCmd {
    /// Add a known agent from its token.
    Add { token: Option<String>, file: Option<String>, rotate: bool },
    /// List known agents.
    List,
    /// Remove a known agent.
    Remove { name: String },
}

#[derive(Debug, PartialEq, Eq)]
pub enum AuthorityCmd {
    /// Generate a new authority key.
    Generate { name: String, force: bool },
    /// Show the local authority key.
    Show,
    /// Print the shareable authority token.
    Token,
    /// Trust an authority from its token.
    Add { token: Option<String>, file: Option<String> },
    /// List trusted authorities.
    List,
    /// Remove a trusted authority.
    Remove { name: String },
}

#[derive(Debug, PartialEq, Eq)]
pub enum ConfigCmd {
    /// Set the broker.
    SetBroker { host: String, port: u16, no_tls: bool },
    /// Set the broker credentials.
    SetCreds { username: String, password: String },
    /// Set the topic in place of all others.
    SetTopic { topic: String },
    /// Add a topic.
    AddTopic { topic: String },
    /// Set the security flags that are given.
    SetSecurity {
        allow_unsigned: Option<bool>,
        accept_v1: Option<bool>,
        require_encryption: Option<bool>,
        auto_receipts: Option<bool>,
    },
    /// Show the configuration.
    Show,
}

#[derive(Debug, PartialEq, Eq)]
pub enum DaemonCmd {
    /// Run the daemon in the foreground.
    Run,
    /// Start the daemon in the background.
    Start { wait: Option<u64>, no_wait: bool },
    /// Stop the running daemon.
    Stop,
    /// Connect the broker session.
    Connect,
    /// Disconnect the broker session.
    Disconnect,
}

#[derive(Debug, PartialEq, Eq)]
pub enum PresenceCmd {
    /// Emit a presence beacon.
    Emit { state: String, ttl: Option<i64>, detail: Option<String> },
    /// List presence records.
    List,
}

#[derive(Debug, PartialEq, Eq)]
pub enum PairCmd {
    /// Broadcast this agent's identity.
    Start { topic: Option<String> },
    /// List peers with their codes.
    List,
    /// Confirm a peer once the codes match.
    Confirm { name: String },
}

// ---------------------------------------------------------------------------
// Exit codes.
// ---------------------------------------------------------------------------

/// The exit code of an error.
pub open spec fn exit_code_of(e: ErrorView) -> i32 {
    match e {
        ErrorView::DaemonNotRunning(_) => 3,
        ErrorView::NoIdentity => 4,
        ErrorView::IdentityNameMismatch(_) => 4,
        ErrorView::NoAuthority => 4,
        ErrorView::UnknownAgent(_) => 5,
        ErrorView::InvalidToken(_) => 5,
        ErrorView::TokenCorrupt(_) => 5,
        ErrorView::RotationRequired(_) => 5,
        ErrorView::NotAnAuthorityToken => 5,
        ErrorView::Timeout(_) => 6,
        _ => 1,
    }
}

/// Distinct exit codes, so that a script can tell errors apart.
pub fn exit_code(e: &Error) -> (r: i32)
    ensures
        r == exit_code_of(e@),
{
    match e {
        Error::DaemonNotRunning(_) => 3,
        Error::NoIdentity => 4,
        Error::IdentityNameMismatch(_) => 4,
        Error::NoAuthority => 4,
        Error::UnknownAgent(_) => 5,
        Error::InvalidToken(_) => 5,
        Error::TokenCorrupt(_) => 5,
        Error::RotationRequired(_) => 5,
        Error::NotAnAuthorityToken => 5,
        Error::Timeout(_) => 6,
        _ => 1,
    }
}

// ---------------------------------------------------------------------------
// Where input comes from.
// ---------------------------------------------------------------------------

/// Where a text is taken from.
#[derive(Debug, PartialEq, Eq)]
pub enum Source {
    /// A file.
    File(String),
    /// Standard input.
    Stdin,
    /// The command line itself.
    Given(String),
}

/// The model of a [`Source`].
pub enum SourceView {
    File(Seq<char>),
    Stdin,
    Given(Seq<char>),
}

impl View for Source {
    type V = SourceView;

    open spec fn view(&self) -> SourceView {
        match *self {
            Source::File(f) => SourceView::File(f@),
            Source::Stdin => SourceView::Stdin,
            Source::Given(s) => SourceView::Given(s@),
        }
    }
}

/// The model of a source or an error.
pub open spec fn source_view(r: Result<Source, Error>) -> Result<SourceView, ErrorView> {
    match r {
        Ok(s) => Ok(s@),
        Err(e) => Err(e@),
    }
}

/// Where a token is taken from: a file wins over the command line.
pub open spec fn token_source_of(token: Option<Seq<char>>, file: Option<Seq<char>>) -> Result<
    SourceView,
    ErrorView,
> {
    match file {
        Some(f) => Ok(SourceView::File(f)),
        None => match token {
            Some(t) => if t == "-"@ {
                Ok(SourceView::Stdin)
            } else {
                Ok(SourceView::Given(t))
            },
            None => Err(
                ErrorView::Config("provide a token, --file <f>, or '-' to read stdin"@),
            ),
        },
    }
}

/// Where a token is taken from: a file wins over the command line.
pub fn token_source(token: &Option<String>, file: &Option<String>) -> (r: Result<Source, Error>)
    ensures
        source_view(r) == token_source_of(text::opt_text(*token), text::opt_text(*file)),
{
    match file {
        Some(f) => Ok(Source::File(f.clone())),
        None => match token {
            Some(t) => {
                if text::str_eq(t.as_str(), "-") {
                    Ok(Source::Stdin)
                } else {
                    Ok(Source::Given(t.clone()))
                }
            },
            None => Err(
                Error::Config(text::own("provide a token, --file <f>, or '-' to read stdin")),
            ),
        },
    }
}

/// Where a message body is taken from: a file wins over the command line.
pub open spec fn body_source_of(body: Option<Seq<char>>, file: Option<Seq<char>>) -> Result<
    SourceView,
    ErrorView,
> {
    match file {
        Some(f) => if f == "-"@ {
            Ok(SourceView::Stdin)
        } else {
            Ok(SourceView::File(f))
        },
        None => match body {
            Some(b) => Ok(SourceView::Given(b)),
            None => Err(ErrorView::Config("provide a message body or --file <f>"@)),
        },
    }
}

/// Where a message body is taken from: a file wins over the command line.
pub fn body_source(body: &Option<String>, file: &Option<String>) -> (r: Result<Source, Error>)
    ensures
        source_view(r) == body_source_of(text::opt_text(*body), text::opt_text(*file)),
{
    match file {
        Some(f) => {
            if text::str_eq(f.as_str(), "-") {
                Ok(Source::Stdin)
            } else {
                Ok(Source::File(f.clone()))
            }
        },
        None => match body {
            Some(b) => Ok(Source::Given(b.clone())),
            None => Err(Error::Config(text::own("provide a message body or --file <f>"))),
        },
    }
}

/// Where a grant token is taken from: `@` marks the name of a file.
pub open spec fn grant_source_of(grant: Seq<char>) -> SourceView {
    match text::after_prefix(grant, "@"@) {
        Some(path) => SourceView::File(path),
        None => SourceView::Given(grant),
    }
}

/// Where a grant token is taken from: `@` marks the name of a file. What the file
/// holds is trimmed.
pub fn grant_source(grant: &str) -> (r: Source)
    ensures
        r@ == grant_source_of(grant@),
{
    match text::strip_prefix(grant, "@") {
        Some(path) => Source::File(text::own(path)),
        None => Source::Given(text::own(grant)),
    }
}

/// Who a message goes to.
pub open spec fn recipient_of(to: Option<Seq<char>>, broadcast: bool) -> Result<
    Seq<char>,
    ErrorView,
> {
    if broadcast {
        Ok(wire::BROADCAST@)
    } else {
        match to {
            Some(t) => Ok(t),
            None => Err(ErrorView::Config("specify a recipient or --broadcast"@)),
        }
    }
}

/// Who a message goes to.
pub fn recipient(to: &Option<String>, broadcast: bool) -> (r: Result<String, Error>)
    ensures
        match r {
            Ok(t) => recipient_of(text::opt_text(*to), broadcast) == Ok::<Seq<char>, ErrorView>(
                t@,
            ),
            Err(e) => recipient_of(text::opt_text(*to), broadcast) == Err::<Seq<char>, ErrorView>(
                e@,
            ),
        },
{
    if broadcast {
        Ok(text::own(wire::BROADCAST))
    } else {
        match to {
            Some(t) => Ok(t.clone()),
            None => Err(Error::Config(text::own("specify a recipient or --broadcast"))),
        }
    }
}

/// The process was started as `daemon run`: these are its first two arguments
/// that are no flags.
pub open spec fn runs_daemon(args: Seq<Seq<char>>) -> bool {
    let words = args.filter(|a: Seq<char>| !is_flag(a));
    words.len() >= 2 && words[0] == "daemon"@ && words[1] == "run"@
}

/// An argument that begins with a dash.
pub open spec fn is_flag(a: Seq<char>) -> bool {
    a.len() > 0 && a[0] == '-'
}

/// The process was started as `daemon run`. `args` are its arguments without the
/// program's name.
pub fn is_daemon_run(args: &Vec<String>) -> (r: bool)
    ensures
        r == runs_daemon(text::texts(args@)),
{
    let ghost all = text::texts(args@);
    let ghost keep = |a: Seq<char>| !is_flag(a);
    let mut words: Vec<String> = Vec::new();
    let mut i: usize = 0;
    proof {
        reveal(Seq::filter);
        assert(text::texts(words@) =~= all.take(0).filter(keep));
    }
    while i < args.len()
        invariant
            i <= args.len(),
            all == text::texts(args@),
            keep == (|a: Seq<char>| !is_flag(a)),
            text::texts(words@) == all.take(i as int).filter(keep),
        decreases args.len() - i,
    {
        let ghost before = text::texts(words@);
        proof {
            reveal(Seq::filter);
            assert(all.take(i + 1).drop_last() =~= all.take(i as int));
            assert(all.take(i + 1).last() == args@[i as int]@);
        }
        let flag: bool = text::strip_prefix(args[i].as_str(), "-").is_some();
        proof {
            reveal_strlit("-");
            assert("-"@ =~= seq!['-']);
            let a = args@[i as int]@;
            if a.len() > 0 {
                assert(a.subrange(0, 1) =~= seq![a[0]]);
                assert(seq!['-'][0] == '-' && seq![a[0]][0] == a[0]);
            }
            assert("-"@.is_prefix_of(a) == is_flag(a));
            assert(flag == is_flag(a));
        }
        if !flag {
            words.push(args[i].clone());
            assert(text::texts(words@) =~= before.push(args@[i as int]@));
        }
        i = i + 1;
    }
    assert(all.take(i as int) =~= all);
    proof {
        assert(text::texts(words@).len() == words@.len());
    }
    words.len() >= 2 && text::str_eq(words[0].as_str(), "daemon") && text::str_eq(
        words[1].as_str(),
        "run",
    )
}

/// What is printed and returned for a finished command.
pub open spec fn verdict_of(outcome: Result<(), ErrorView>) -> Option<(Seq<char>, i32)> {
    match outcome {
        Ok(_) => None,
        Err(e) => Some(("error: "@ + crate::error::error_text(e), exit_code_of(e))),
    }
}

/// How a command that was carried out ends the process: as it is where it went
/// well, else with a text for the reader and an exit code.
pub fn run(outcome: &Result<(), Error>) -> (r: Option<(String, i32)>)
    ensures
        match r {
            Some(x) => outcome matches Err(e) && verdict_of(Err(e@)) == Some((x.0@, x.1)),
            None => outcome is Ok,
        },
{
    match outcome {
        Ok(_) => None,
        Err(e) => {
            let m: String = e.message();
            Some((text::concat2("error: ", m.as_str()), exit_code(e)))
        },
    }
}

// ---------------------------------------------------------------------------
// Guards of the commands that change keys.
// ---------------------------------------------------------------------------

/// Whether an identity may be generated, and whether the one that stands is
/// backed up first.
pub open spec fn identity_guard(
    name: Seq<char>,
    force: bool,
    existing: Option<(Seq<char>, Seq<char>)>,
) -> Result<bool, ErrorView> {
    match wire::name_complaint(name) {
        Some(m) => Err(ErrorView::Config("invalid identity name: "@ + m)),
        None => match existing {
            None => Ok(false),
            Some((other, fp)) => if force {
                Ok(true)
            } else if other != name {
                Err(
                    ErrorView::IdentityNameMismatch(
                        "an identity '"@ + other + "' ("@ + fp
                            + ") already exists; refusing to generate '"@ + name
                            + "' — pass --force to replace it"@,
                    ),
                )
            } else {
                Err(ErrorView::IdentityExists("use --force to overwrite"@))
            },
        },
    }
}

/// The model of a guard's answer.
pub open spec fn guard_view(r: Result<bool, Error>) -> Result<bool, ErrorView> {
    match r {
        Ok(b) => Ok(b),
        Err(e) => Err(e@),
    }
}

/// Whether an identity may be generated, and whether the one that stands, given
/// by its name and fingerprint, is backed up first. Without force no identity is
/// replaced, least of all one with another name.
pub fn may_generate_identity(name: &str, force: bool, existing: Option<(&str, &str)>) -> (r: Result<
    bool,
    Error,
>)
    ensures
        guard_view(r) == identity_guard(
            name@,
            force,
            match existing {
                Some((n, fp)) => Some((n@, fp@)),
                None => None,
            },
        ),
{
    if let Err(m) = wire::validate_name(name) {
        return Err(Error::Config(text::concat2("invalid identity name: ", m)));
    }
    match existing {
        None => Ok(false),
        Some((other, fp)) => {
            if force {
                Ok(true)
            } else if !text::str_eq(other, name) {
                let mut s: String = text::concat3("an identity '", other, "' (");
                s.append(fp);
                s.append(") already exists; refusing to generate '");
                s.append(name);
                s.append("' — pass --force to replace it");
                Err(Error::IdentityNameMismatch(s))
            } else {
                Err(Error::IdentityExists(text::own("use --force to overwrite")))
            }
        },
    }
}

/// Whether an authority key may be generated, and whether the one that stands is
/// backed up first.
pub open spec fn authority_guard(name: Seq<char>, force: bool, exists: bool) -> Result<
    bool,
    ErrorView,
> {
    match wire::name_complaint(name) {
        Some(m) => Err(ErrorView::Config("invalid authority name: "@ + m)),
        None => if exists && !force {
            Err(
                ErrorView::IdentityExists(
                    "an authority key already exists; use --force to overwrite"@,
                ),
            )
        } else {
            Ok(exists)
        },
    }
}

/// Whether an authority key may be generated, and whether the one that stands is
/// backed up first.
pub fn may_generate_authority(name: &str, force: bool, exists: bool) -> (r: Result<bool, Error>)
    ensures
        guard_view(r) == authority_guard(name@, force, exists),
{
    if let Err(m) = wire::validate_name(name) {
        return Err(Error::Config(text::concat2("invalid authority name: ", m)));
    }
    if exists && !force {
        Err(
            Error::IdentityExists(
                text::own("an authority key already exists; use --force to overwrite"),
            ),
        )
    } else {
        Ok(exists)
    }
}

/// The key of an identity or an authority, as it is shared.
#[derive(Debug, PartialEq, Eq)]
pub struct KeyInfo {
    pub name: String,
    pub fingerprint: String,
    pub token: String,
}

/// The model of [`KeyInfo`].
pub struct KeyView {
    pub name: Seq<char>,
    pub fingerprint: Seq<char>,
    pub token: Seq<char>,
}

impl View for KeyInfo {
    type V = KeyView;

    open spec fn view(&self) -> KeyView {
        KeyView { name: self.name@, fingerprint: self.fingerprint@, token: self.token@ }
    }
}

/// The key of an identity, as it is shared.
pub open spec fn identity_key_of(id: IdentityView) -> KeyView {
    KeyView {
        name: id.name,
        fingerprint: wire::fingerprint_of(id.public_key),
        token: token::token_text(
            TokenView {
                name: id.name,
                public_key: id.public_key,
                kem_public_key: Some(id.kem_ek),
            },
        ),
    }
}

/// The key of an identity, as it is shared.
pub fn identity_key(id: &Identity) -> (r: KeyInfo)
    ensures
        r@ == identity_key_of(id@),
{
    KeyInfo {
        name: text::own(id.agent_name()),
        fingerprint: wire::fingerprint(id.public_key()),
        token: id.token().encode(),
    }
}

/// The key of an authority, as it is shared.
pub open spec fn authority_key_of(a: AuthorityView) -> KeyView {
    KeyView {
        name: a.name,
        fingerprint: wire::fingerprint_of(a.public_key),
        token: authority::authority_token_text(
            AuthorityTokenView { name: a.name, public_key: a.public_key },
        ),
    }
}

/// The key of an authority, as it is shared.
pub fn authority_key(a: &Authority) -> (r: KeyInfo)
    ensures
        r@ == authority_key_of(a@),
{
    let t: AuthorityToken = a.token();
    KeyInfo {
        name: t.name.clone(),
        fingerprint: wire::fingerprint(a.public_key()),
        token: t.encode(),
    }
}

/// Check the name of an identity before anything is read.
pub fn check_identity_name(name: &str) -> (r: Result<(), Error>)
    ensures
        match r {
            Ok(_) => wire::name_complaint(name@) is None,
            Err(e) => wire::name_complaint(name@) matches Some(m) && e@ == ErrorView::Config(
                "invalid identity name: "@ + m,
            ),
        },
{
    match wire::validate_name(name) {
        Ok(_) => Ok(()),
        Err(m) => Err(Error::Config(text::concat2("invalid identity name: ", m))),
    }
}

/// Generate an identity where that is allowed, and say whether the one that
/// stands, given by its name and fingerprint, is backed up first.
pub fn generate_identity(name: &str, force: bool, existing: Option<(&str, &str)>) -> (r: Result<
    (Identity, bool),
    Error,
>)
    ensures
        ({
            let guard = identity_guard(
                name@,
                force,
                match existing {
                    Some((n, fp)) => Some((n@, fp@)),
                    None => None,
                },
            );
            match r {
                Ok(x) => guard == Ok::<bool, ErrorView>(x.1) && x.0@.name == name@
                    && identity::is_whole(x.0@),
                Err(e) => guard == Err::<bool, ErrorView>(e@),
            }
        }),
{
    match may_generate_identity(name, force, existing) {
        Ok(backup) => Ok((Identity::generate(name), backup)),
        Err(e) => Err(e),
    }
}

/// Generate an authority key where that is allowed, and say whether the one that
/// stands is backed up first.
pub fn generate_authority(name: &str, force: bool, exists: bool) -> (r: Result<
    (Authority, bool),
    Error,
>)
    ensures
        match r {
            Ok(x) => authority_guard(name@, force, exists) == Ok::<bool, ErrorView>(x.1)
                && x.0@.name == name@ && authority::is_whole(x.0@),
            Err(e) => authority_guard(name@, force, exists) == Err::<bool, ErrorView>(e@),
        },
{
    match may_generate_authority(name, force, exists) {
        Ok(backup) => Ok((Authority::generate(name), backup)),
        Err(e) => Err(e),
    }
}

/// What is shown for a key that was generated.
pub open spec fn generated_text(k: KeyView, what: Seq<char>, share: Seq<char>) -> Seq<char> {
    "Generated "@ + what + " '"@ + k.name + "' ("@ + k.fingerprint + ")\n\n"@ + share + "\n"@
        + k.token
}

fn show_generated(k: &KeyInfo, what: &str, share: &str) -> (r: String)
    ensures
        r@ == generated_text(k@, what@, share@),
{
    let mut s: String = text::concat3("Generated ", what, " '");
    s.append(k.name.as_str());
    s.append("' (");
    s.append(k.fingerprint.as_str());
    s.append(")\n\n");
    s.append(share);
    s.append("\n");
    s.append(k.token.as_str());
    s
}

/// What is shown for an identity that was generated.
pub fn show_generated_identity(k: &KeyInfo) -> (r: String)
    ensures
        r@ == generated_text(k@, "identity"@, "Share this token with other agents:"@),
{
    show_generated(k, "identity", "Share this token with other agents:")
}

/// What is shown for an authority that was generated.
pub fn show_generated_authority(k: &KeyInfo) -> (r: String)
    ensures
        r@ == generated_text(
            k@,
            "authority"@,
            "Share this authority token with agents that must trust it:"@,
        ),
{
    show_generated(
        k,
        "authority",
        "Share this authority token with agents that must trust it:",
    )
}

/// A key as it is shown.
pub fn show_key(k: &KeyInfo) -> (r: String)
    ensures
        r@ == render::key_text(k@.name, k@.fingerprint, k@.token),
{
    render::show_key(k.name.as_str(), k.fingerprint.as_str(), k.token.as_str())
}

/// An agent that was added to the trust store.
#[derive(Debug, PartialEq, Eq)]
pub struct Added {
    pub name: String,
    pub fingerprint: String,
    /// The fingerprint of the key that was replaced.
    pub rotated_from: Option<String>,
}

/// The model of [`Added`].
pub struct AddedView {
    pub name: Seq<char>,
    pub fingerprint: Seq<char>,
    pub rotated_from: Option<Seq<char>>,
}

impl View for Added {
    type V = AddedView;

    open spec fn view(&self) -> AddedView {
        AddedView {
            name: self.name@,
            fingerprint: self.fingerprint@,
            rotated_from: text::opt_text(self.rotated_from),
        }
    }
}

/// Adding an agent from its token: a known agent changes its key only by a
/// rotation.
pub open spec fn addition(t: TrustView, token: TokenView, rotate: bool) -> Result<
    AddedView,
    ErrorView,
> {
    let fp = wire::fingerprint_of(token.public_key);
    match trust::trusted_key(t, token.name) {
        Some(old) => if old != token.public_key {
            if !rotate {
                Err(
                    ErrorView::RotationRequired(
                        "agent '"@ + token.name + "' is already known with key "@
                            + wire::fingerprint_of(old) + "; pass --rotate to replace it with "@
                            + fp,
                    ),
                )
            } else {
                Ok(
                    AddedView {
                        name: token.name,
                        fingerprint: fp,
                        rotated_from: Some(wire::fingerprint_of(old)),
                    },
                )
            }
        } else {
            Ok(AddedView { name: token.name, fingerprint: fp, rotated_from: None })
        },
        None => Ok(AddedView { name: token.name, fingerprint: fp, rotated_from: None }),
    }
}

/// Add an agent from its token. A known agent's key is replaced only with
/// `rotate`; else nothing changes.
pub fn add_agent(ts: &mut TrustStore, token: &IdentityToken, rotate: bool) -> (r: Result<
    Added,
    Error,
>)
    requires
        old(ts).wf(),
    ensures
        final(ts).wf(),
        final(ts)@.authorities == old(ts)@.authorities,
        match r {
            Ok(a) => addition(old(ts)@, token@, rotate) == Ok::<AddedView, ErrorView>(a@)
                && final(ts)@.agents == old(ts)@.agents.insert(
                token@.name,
                trust::record_of(token@.public_key, token@.kem_public_key),
            ) && trust::trusted_key(final(ts)@, token@.name) == Some(token@.public_key),
            Err(e) => addition(old(ts)@, token@, rotate) == Err::<AddedView, ErrorView>(e@)
                && final(ts)@ == old(ts)@,
        },
{
    let fp: String = token.fingerprint();
    let mut rotated_from: Option<String> = None;
    if let Some(old_key) = ts.current_key(token.name.as_str()) {
        if !text::bytes_eq(old_key.as_slice(), token.public_key.as_slice()) {
            let old_fp: String = wire::fingerprint(old_key.as_slice());
            if !rotate {
                let mut s: String = text::concat3(
                    "agent '",
                    token.name.as_str(),
                    "' is already known with key ",
                );
                s.append(old_fp.as_str());
                s.append("; pass --rotate to replace it with ");
                s.append(fp.as_str());
                return Err(Error::RotationRequired(s));
            }
            rotated_from = Some(old_fp);
        }
    }
    ts.add_from_token(token);
    Ok(Added { name: token.name.clone(), fingerprint: fp, rotated_from })
}

/// What is shown for an agent that was added.
pub open spec fn added_text(a: AddedView) -> Seq<char> {
    match a.rotated_from {
        Some(old) => "Rotated '"@ + a.name + "' "@ + old + " -> "@ + a.fingerprint,
        None => "Added '"@ + a.name + "' ("@ + a.fingerprint + ")"@,
    }
}

/// What is shown for an agent that was added.
pub fn show_added(a: &Added) -> (r: String)
    ensures
        r@ == added_text(a@),
{
    match &a.rotated_from {
        Some(old) => {
            let mut s: String = text::concat3("Rotated '", a.name.as_str(), "' ");
            s.append(old.as_str());
            s.append(" -> ");
            s.append(a.fingerprint.as_str());
            s
        },
        None => {
            let mut s: String = text::concat3("Added '", a.name.as_str(), "' (");
            s.append(a.fingerprint.as_str());
            s.append(")");
            s
        },
    }
}

/// The fingerprint of a peer in the trust store, empty where it has none.
pub fn known_fingerprint(ts: &TrustStore, name: &str) -> (r: String)
    requires
        ts.wf(),
    ensures
        r@ == match trust::trusted_key(ts@, name@) {
            Some(k) => wire::fingerprint_of(k),
            None => ""@,
        },
{
    match ts.current_key(name) {
        Some(k) => wire::fingerprint(k.as_slice()),
        None => text::own(""),
    }
}

/// What a command on the trust store did.
#[derive(Debug, PartialEq, Eq)]
pub enum TrustReply {
    /// An agent or an authority was added.
    Added(Added),
    /// These are known, in the order of their names.
    Listed(Vec<KnownAgent>),
    /// A name was removed, or was not there.
    Removed { name: String, removed: bool },
}

/// A command on the known agents, with the token that was read for it.
#[derive(Debug, PartialEq, Eq)]
pub enum AgentStep {
    /// Add an agent.
    Add { token: IdentityToken, rotate: bool },
    /// List the agents.
    List,
    /// Remove an agent.
    Remove { name: String },
}

/// Carry out a command on the known agents.
pub fn agent_cmd(ts: &mut TrustStore, step: &AgentStep) -> (r: Result<TrustReply, Error>)
    requires
        old(ts).wf(),
    ensures
        final(ts).wf(),
        final(ts)@.authorities == old(ts)@.authorities,
        match *step {
            AgentStep::Add { token, rotate } => match r {
                Ok(reply) => reply matches TrustReply::Added(a) && addition(
                    old(ts)@,
                    token@,
                    rotate,
                ) == Ok::<AddedView, ErrorView>(a@) && final(ts)@.agents
                    == old(ts)@.agents.insert(
                    token@.name,
                    trust::record_of(token@.public_key, token@.kem_public_key),
                ),
                Err(e) => addition(old(ts)@, token@, rotate) == Err::<AddedView, ErrorView>(e@)
                    && final(ts)@ == old(ts)@,
            },
            AgentStep::List => final(ts)@ == old(ts)@ && (r matches Ok(TrustReply::Listed(v))
                && trust::is_listing(trust::agent_views(v@), old(ts)@.agents, true)),
            AgentStep::Remove { name } => final(ts)@.agents == old(ts)@.agents.remove(name@) && (
            r matches Ok(TrustReply::Removed { name: n, removed }) && n@ == name@ && removed
                == old(ts)@.agents.contains_key(name@)),
        },
{
    match step {
        AgentStep::Add { token, rotate } => match add_agent(ts, token, *rotate) {
            Ok(a) => Ok(TrustReply::Added(a)),
            Err(e) => Err(e),
        },
        AgentStep::List => Ok(TrustReply::Listed(ts.list())),
        AgentStep::Remove { name } => {
            let removed: bool = ts.remove(name.as_str());
            Ok(TrustReply::Removed { name: name.clone(), removed })
        },
    }
}

/// What is shown for a command on the known agents.
pub fn show_agent_reply(reply: &TrustReply) -> (r: String)
    ensures
        r@ == match *reply {
            TrustReply::Added(a) => added_text(a@),
            TrustReply::Listed(v) => render::agents_text(
                trust::agent_views(v@),
                "(no known agents)"@,
            ),
            TrustReply::Removed { name, removed } => if removed {
                "Removed '"@ + name@ + "'"@
            } else {
                "'"@ + name@ + "' was not in the trust store"@
            },
        },
{
    match reply {
        TrustReply::Added(a) => show_added(a),
        TrustReply::Listed(v) => render::show_agents(v, "(no known agents)"),
        TrustReply::Removed { name, removed } => {
            if *removed {
                text::concat3("Removed '", name.as_str(), "'")
            } else {
                text::concat3("'", name.as_str(), "' was not in the trust store")
            }
        },
    }
}

/// A command on the trusted authorities, with the token that was read for it.
#[derive(Debug, PartialEq, Eq)]
pub enum AuthorityStep {
    /// Trust an authority.
    Add { token: AuthorityToken },
    /// List the authorities.
    List,
    /// Remove an authority.
    Remove { name: String },
}

/// Carry out a command on the trusted authorities. An authority's key is replaced
/// without further ado.
pub fn authority_cmd(ts: &mut TrustStore, step: &AuthorityStep) -> (r: TrustReply)
    requires
        old(ts).wf(),
    ensures
        final(ts).wf(),
        final(ts)@.agents == old(ts)@.agents,
        match *step {
            AuthorityStep::Add { token } => (r matches TrustReply::Added(a) && a@ == (AddedView {
                name: token@.name,
                fingerprint: wire::fingerprint_of(token@.public_key),
                rotated_from: None,
            })) && final(ts)@.authorities == old(ts)@.authorities.insert(
                token@.name,
                trust::record_of(token@.public_key, None),
            ),
            AuthorityStep::List => final(ts)@ == old(ts)@ && (r matches TrustReply::Listed(v)
                && trust::is_listing(trust::agent_views(v@), old(ts)@.authorities, false)),
            AuthorityStep::Remove { name } => final(ts)@.authorities
                == old(ts)@.authorities.remove(name@) && (r matches TrustReply::Removed {
                name: n,
                removed,
            } && n@ == name@ && removed == old(ts)@.authorities.contains_key(name@)),
        },
{
    match step {
        AuthorityStep::Add { token } => {
            ts.add_authority_from_token(token);
            TrustReply::Added(
                Added {
                    name: token.name.clone(),
                    fingerprint: token.fingerprint(),
                    rotated_from: None,
                },
            )
        },
        AuthorityStep::List => TrustReply::Listed(ts.list_authorities()),
        AuthorityStep::Remove { name } => {
            let removed: bool = ts.remove_authority(name.as_str());
            TrustReply::Removed { name: name.clone(), removed }
        },
    }
}

/// What is shown for a command on the trusted authorities.
pub fn show_authority_reply(reply: &TrustReply) -> (r: String)
    ensures
        r@ == match *reply {
            TrustReply::Added(a) => "Trusted authority '"@ + a@.name + "' ("@ + a@.fingerprint
                + ")"@,
            TrustReply::Listed(v) => render::agents_text(
                trust::agent_views(v@),
                "(no trusted authorities)"@,
            ),
            TrustReply::Removed { name, removed } => if removed {
                "Removed authority '"@ + name@ + "'"@
            } else {
                "'"@ + name@ + "' was not a trusted authority"@
            },
        },
{
    match reply {
        TrustReply::Added(a) => {
            let mut s: String = text::concat3("Trusted authority '", a.name.as_str(), "' (");
            s.append(a.fingerprint.as_str());
            s.append(")");
            s
        },
        TrustReply::Listed(v) => render::show_agents(v, "(no trusted authorities)"),
        TrustReply::Removed { name, removed } => {
            if *removed {
                text::concat3("Removed authority '", name.as_str(), "'")
            } else {
                text::concat3("'", name.as_str(), "' was not a trusted authority")
            }
        },
    }
}

// ---------------------------------------------------------------------------
// The configuration.
// ---------------------------------------------------------------------------

/// What is wrong with a command before the configuration is read.
pub open spec fn config_complaint(cmd: ConfigCmd) -> Option<Seq<char>> {
    match cmd {
        ConfigCmd::SetTopic { topic } => config::topic_complaint(topic@),
        ConfigCmd::AddTopic { topic } => config::topic_complaint(topic@),
        _ => None,
    }
}

/// Check a command on the configuration before that is read.
pub fn check_config_cmd(cmd: &ConfigCmd) -> (r: Result<(), Error>)
    ensures
        match r {
            Ok(_) => config_complaint(*cmd) is None,
            Err(e) => config_complaint(*cmd) matches Some(m) && e@ == ErrorView::Config(m),
        },
{
    match cmd {
        ConfigCmd::SetTopic { topic } => Config::validate_topic(topic.as_str()),
        ConfigCmd::AddTopic { topic } => Config::validate_topic(topic.as_str()),
        _ => Ok(()),
    }
}

/// The configuration after a command that is in order.
pub open spec fn configured(c: ConfigView, cmd: ConfigCmd) -> ConfigView {
    match cmd {
        ConfigCmd::SetBroker { host, port, no_tls } => ConfigView {
            broker_host: host@,
            broker_port: port,
            tls: !no_tls,
            ..c
        },
        ConfigCmd::SetCreds { username, password } => ConfigView {
            username: username@,
            password: password@,
            ..c
        },
        ConfigCmd::SetTopic { topic } => ConfigView { topics: seq![topic@], ..c },
        ConfigCmd::AddTopic { topic } => ConfigView {
            topics: if c.topics.contains(topic@) {
                c.topics
            } else {
                c.topics.push(topic@)
            },
            ..c
        },
        ConfigCmd::SetSecurity {
            allow_unsigned,
            accept_v1,
            require_encryption,
            auto_receipts,
        } => ConfigView {
            allow_unsigned: config::flag(allow_unsigned, c.allow_unsigned),
            accept_v1: config::flag(accept_v1, c.accept_v1),
            require_encryption: config::flag(require_encryption, c.require_encryption),
            auto_receipts: config::flag(auto_receipts, c.auto_receipts),
            ..c
        },
        ConfigCmd::Show => c,
    }
}

/// What is shown for a command, once the configuration is `c`.
pub open spec fn configured_text(c: ConfigView, cmd: ConfigCmd) -> Seq<char> {
    match cmd {
        ConfigCmd::SetBroker { .. } => render::broker_text(c),
        ConfigCmd::SetCreds { username, .. } => "credentials set for user '"@ + username@ + "'"@,
        ConfigCmd::SetTopic { topic } => "topic set to '"@ + topic@ + "'"@,
        ConfigCmd::AddTopic { .. } => "topics: "@ + render::debug_list(c.topics),
        ConfigCmd::SetSecurity { .. } => render::flags_text(c),
        ConfigCmd::Show => render::config_text(c),
    }
}

/// Carry out a command on the configuration, and say what is shown for it. A
/// topic that is not in order changes nothing.
pub fn config_cmd(c: &mut Config, cmd: &ConfigCmd) -> (r: Result<String, Error>)
    ensures
        match r {
            Ok(t) => config_complaint(*cmd) is None && final(c)@ == configured(old(c)@, *cmd) && t@
                == configured_text(final(c)@, *cmd),
            Err(e) => final(c)@ == old(c)@ && (config_complaint(*cmd) matches Some(m) && e@
                == ErrorView::Config(m)),
        },
{
    match cmd {
        ConfigCmd::SetBroker { host, port, no_tls } => {
            c.set_broker(host.as_str(), *port, !*no_tls);
            Ok(render::show_broker(c))
        },
        ConfigCmd::SetCreds { username, password } => {
            c.set_credentials(username.as_str(), password.as_str());
            Ok(text::concat3("credentials set for user '", username.as_str(), "'"))
        },
        ConfigCmd::SetTopic { topic } => match c.set_topic(topic.as_str()) {
            Ok(_) => Ok(text::concat3("topic set to '", topic.as_str(), "'")),
            Err(e) => Err(e),
        },
        ConfigCmd::AddTopic { topic } => match c.add_topic(topic.as_str()) {
            Ok(_) => Ok(render::show_topics(c)),
            Err(e) => Err(e),
        },
        ConfigCmd::SetSecurity {
            allow_unsigned,
            accept_v1,
            require_encryption,
            auto_receipts,
        } => {
            c.set_security(*allow_unsigned, *accept_v1, *require_encryption, *auto_receipts);
            Ok(render::show_flags(c))
        },
        ConfigCmd::Show => Ok(render::show_config(c)),
    }
}

/// The configuration as it is shown to a program. The password is not.
#[derive(Debug, PartialEq, Eq)]
pub struct Redacted {
    pub broker_host: String,
    pub broker_port: u16,
    pub tls: bool,
    pub username: String,
    /// There is a password.
    pub password_set: bool,
    pub topics: Vec<String>,
    pub max_messages: u64,
    pub max_bytes: u64,
    pub heartbeat_secs: u64,
    pub allow_unsigned: bool,
    pub accept_v1: bool,
    pub require_encryption: bool,
    pub auto_receipts: bool,
}

/// The model of [`Redacted`].
pub struct RedactedView {
    pub broker_host: Seq<char>,
    pub broker_port: u16,
    pub tls: bool,
    pub username: Seq<char>,
    pub password_set: bool,
    pub topics: Seq<Seq<char>>,
    pub max_messages: u64,
    pub max_bytes: u64,
    pub heartbeat_secs: u64,
    pub allow_unsigned: bool,
    pub accept_v1: bool,
    pub require_encryption: bool,
    pub auto_receipts: bool,
}

impl View for Redacted {
    type V = RedactedView;

    open spec fn view(&self) -> RedactedView {
        RedactedView {
            broker_host: self.broker_host@,
            broker_port: self.broker_port,
            tls: self.tls,
            username: self.username@,
            password_set: self.password_set,
            topics: text::texts(self.topics@),
            max_messages: self.max_messages,
            max_bytes: self.max_bytes,
            heartbeat_secs: self.heartbeat_secs,
            allow_unsigned: self.allow_unsigned,
            accept_v1: self.accept_v1,
            require_encryption: self.require_encryption,
            auto_receipts: self.auto_receipts,
        }
    }
}

/// The configuration as it is shown to a program. The password is not.
pub open spec fn redacted_of(c: ConfigView) -> RedactedView {
    RedactedView {
        broker_host: c.broker_host,
        broker_port: c.broker_port,
        tls: c.tls,
        username: c.username,
        password_set: c.password.len() > 0,
        topics: c.topics,
        max_messages: c.max_messages,
        max_bytes: c.max_bytes,
        heartbeat_secs: c.heartbeat_secs,
        allow_unsigned: c.allow_unsigned,
        accept_v1: c.accept_v1,
        require_encryption: c.require_encryption,
        auto_receipts: c.auto_receipts,
    }
}

/// The configuration as it is shown to a program. The password is not.
pub fn redacted(c: &Config) -> (r: Redacted)
    ensures
        r@ == redacted_of(c@),
{
    Redacted {
        broker_host: c.broker_host.clone(),
        broker_port: c.broker_port,
        tls: c.tls,
        username: c.username.clone(),
        password_set: !c.password.as_str().is_empty(),
        topics: text::copy_texts(&c.topics),
        max_messages: c.max_messages,
        max_bytes: c.max_bytes,
        heartbeat_secs: c.heartbeat_secs,
        allow_unsigned: c.allow_unsigned,
        accept_v1: c.accept_v1,
        require_encryption: c.require_encryption,
        auto_receipts: c.auto_receipts,
    }
}

// ---------------------------------------------------------------------------
// Grants.
// ---------------------------------------------------------------------------

/// The claims of a grant with the given id and nonce.
pub open spec fn claims_for(
    subject: Seq<char>,
    action: Seq<char>,
    scope: Seq<char>,
    expiry: Seq<char>,
    id: Seq<char>,
    nonce: Seq<char>,
) -> ClaimsView {
    ClaimsView { id, action, scope, subject, expiry, nonce }
}

/// A grant and its token are those of an authority for the claims.
pub open spec fn is_grant(a: AuthorityView, c: ClaimsView, token: Seq<char>) -> bool {
    grant::grant_token_of(token) matches Ok(g) && grant::is_minted(a, c, g)
}

/// Mint a grant with the given id and nonce: its claims, and its token.
pub fn mint_grant_with(
    authority: &Authority,
    subject: &str,
    action: &str,
    scope: &str,
    expiry: &str,
    id: String,
    nonce: String,
) -> (r: (GrantClaims, String))
    ensures
        r.0@ == claims_for(subject@, action@, scope@, expiry@, id@, nonce@),
        is_grant(authority@, r.0@, r.1@),
        r.1@ == grant::GRANT_TOKEN_PREFIX@ + wire::base64url(
            vstd::utf8::encode_utf8(wire::grant_text(grant::minted(authority@, r.0@))),
        ),
{
    let claims = GrantClaims {
        id,
        action: text::own(action),
        scope: text::own(scope),
        subject: text::own(subject),
        expiry: text::own(expiry),
        nonce,
    };
    let sg = grant::mint(authority, &claims);
    let token: String = grant::encode_token(&sg);
    (claims, token)
}

/// Mint a grant under a fresh id: its claims, and its token.
pub fn mint_grant(
    authority: &Authority,
    subject: &str,
    action: &str,
    scope: &str,
    expiry: &str,
) -> (r: (GrantClaims, String))
    ensures
        r.0@ == claims_for(subject@, action@, scope@, expiry@, r.0@.id, r.0@.nonce),
        message::is_ulid(r.0@.id),
        message::is_ulid(r.0@.nonce),
        is_grant(authority@, r.0@, r.1@),
{
    let id: String = message::fresh_id();
    let nonce: String = message::fresh_id();
    mint_grant_with(authority, subject, action, scope, expiry, id, nonce)
}

/// What is shown for a grant: its token, or where that was written.
pub open spec fn grant_text(c: ClaimsView, token: Seq<char>, out: Option<Seq<char>>) -> Seq<char> {
    "Minted grant "@ + c.id + " authorizing '"@ + c.subject + "' to '"@ + c.action + "' (scope '"@
        + c.scope + "', expires "@ + c.expiry + ")\n"@ + (match out {
        Some(p) => "wrote token to "@ + p,
        None => "\n"@ + token,
    })
}

/// What is shown for a grant: its token, or where that was written.
pub fn show_grant(c: &GrantClaims, token: &str, out: Option<&str>) -> (r: String)
    ensures
        r@ == grant_text(c@, token@, text::opt_str(out)),
{
    let end: String = match out {
        Some(p) => text::concat2("wrote token to ", p),
        None => text::concat2("\n", token),
    };
    let mut s: String = text::concat3("Minted grant ", c.id.as_str(), " authorizing '");
    s.append(c.subject.as_str());
    s.append("' to '");
    s.append(c.action.as_str());
    s.append("' (scope '");
    s.append(c.scope.as_str());
    s.append("', expires ");
    s.append(c.expiry.as_str());
    s.append(")\n");
    s.append(end.as_str());
    s
}

// ---------------------------------------------------------------------------
// What a command asks of the daemon.
// ---------------------------------------------------------------------------

/// What a command asks of the daemon.
#[derive(Debug, PartialEq, Eq)]
pub struct Ask {
    /// Shake hands first.
    pub hello: bool,
    pub request: Request,
}

/// The model of an optional [`Ask`] or an error.
pub open spec fn ask_view(r: Result<Option<Ask>, Error>) -> Result<
    Option<(bool, RequestView)>,
    ErrorView,
> {
    match r {
        Ok(Some(a)) => Ok(Some((a.hello, a.request@))),
        Ok(None) => Ok(None),
        Err(e) => Err(e@),
    }
}

/// The consumer that is read for: the local agent unless another is given.
pub open spec fn consumer_of(consumer: Option<Seq<char>>, me: Seq<char>) -> Seq<char> {
    match consumer {
        Some(c) => c,
        None => me,
    }
}

/// The consumer that is read for: the local agent unless another is given.
pub fn default_consumer(consumer: &Option<String>, me: &str) -> (r: String)
    ensures
        r@ == consumer_of(text::opt_text(*consumer), me@),
{
    match consumer {
        Some(c) => c.clone(),
        None => text::own(me),
    }
}

/// The message that a send command publishes, with its body and its grant token
/// as they were read.
pub open spec fn params_of(
    a: SendArgs,
    to: Seq<char>,
    body: Seq<char>,
    grant: Option<Seq<char>>,
) -> ParamsView {
    ParamsView {
        to,
        ctype: a.ctype@,
        body,
        in_reply_to: text::opt_text(a.reply_to),
        topic: text::opt_text(a.topic),
        kind: a.kind@,
        correlation_id: text::opt_text(a.correlation_id),
        supersedes: text::opt_text(a.supersedes),
        encrypt: a.encrypt,
        grant,
        unsigned: a.unsigned,
    }
}

/// What a command of the local agent `me` asks of the daemon, and whether it
/// shakes hands first. Nothing where the command is carried out locally.
pub open spec fn asked(
    cmd: Command,
    me: Seq<char>,
    body: Seq<char>,
    grant: Option<Seq<char>>,
) -> Result<Option<(bool, RequestView)>, ErrorView> {
    match cmd {
        Command::Id { .. } => Ok(None),
        Command::Agent { .. } => Ok(None),
        Command::Authority { .. } => Ok(None),
        Command::Config { .. } => Ok(None),
        Command::Grant { .. } => Ok(None),
        Command::Daemon { cmd } => match cmd {
            DaemonCmd::Run => Ok(None),
            DaemonCmd::Start { .. } => Ok(None),
            DaemonCmd::Stop => Ok(Some((false, RequestView::Shutdown))),
            DaemonCmd::Connect => Ok(Some((false, RequestView::Connect))),
            DaemonCmd::Disconnect => Ok(Some((false, RequestView::Disconnect))),
        },
        Command::Presence { cmd } => match cmd {
            PresenceCmd::Emit { state, ttl, detail } => Ok(
                Some(
                    (
                        true,
                        RequestView::Presence {
                            state: state@,
                            ttl_secs: ttl,
                            detail: text::opt_text(detail),
                        },
                    ),
                ),
            ),
            PresenceCmd::List => Ok(Some((false, RequestView::PresenceList))),
        },
        Command::Pair { cmd } => match cmd {
            PairCmd::Start { topic } => Ok(
                Some((true, RequestView::PairStart { topic: text::opt_text(topic) })),
            ),
            PairCmd::List => Ok(Some((false, RequestView::PairList))),
            PairCmd::Confirm { name } => Ok(
                Some((false, RequestView::PairConfirm { name: name@ })),
            ),
        },
        Command::Status => Ok(Some((false, RequestView::Status))),
        Command::Send(a) => match recipient_of(text::opt_text(a.to), a.broadcast) {
            Err(e) => Err(e),
            Ok(to) => Ok(Some((true, RequestView::Send(params_of(a, to, body, grant))))),
        },
        Command::Read { consumer, limit, .. } => Ok(
            Some(
                (
                    false,
                    RequestView::Read { consumer: consumer_of(text::opt_text(consumer), me), limit },
                ),
            ),
        ),
        Command::Browse { limit, from, to, mine, all } => Ok(
            Some(
                (
                    false,
                    RequestView::Browse {
                        limit,
                        from: text::opt_text(from),
                        to: if mine {
                            Some(me)
                        } else {
                            text::opt_text(to)
                        },
                        all,
                    },
                ),
            ),
        ),
        Command::Log { limit, from, to, peer } => Ok(
            Some(
                (
                    false,
                    RequestView::Transcript {
                        limit,
                        from: text::opt_text(from),
                        to: text::opt_text(to),
                        peer: text::opt_text(peer),
                    },
                ),
            ),
        ),
        Command::Reply { msg_id, body, ctype } => Ok(
            Some((true, RequestView::Reply { msg_id: msg_id@, ctype: ctype@, body: body@ })),
        ),
        Command::Rejections { limit, reason, since } => Ok(
            Some(
                (
                    false,
                    RequestView::Rejections {
                        limit,
                        reason: text::opt_text(reason),
                        since: text::opt_text(since),
                    },
                ),
            ),
        ),
        Command::Consumers => Ok(Some((false, RequestView::Consumers))),
        Command::Receipts { id, limit, state } => Ok(
            Some(
                (
                    false,
                    RequestView::Receipts {
                        id: text::opt_text(id),
                        limit,
                        state: text::opt_text(state),
                    },
                ),
            ),
        ),
        Command::Ack { seq, consumer } => Ok(
            Some(
                (
                    false,
                    RequestView::Ack { consumer: consumer_of(text::opt_text(consumer), me), seq },
                ),
            ),
        ),
    }
}

fn plain(request: Request) -> (r: Result<Option<Ask>, Error>)
    ensures
        ask_view(r) == Ok::<Option<(bool, RequestView)>, ErrorView>(Some((false, request@))),
{
    Ok(Some(Ask { hello: false, request }))
}

fn greeted(request: Request) -> (r: Result<Option<Ask>, Error>)
    ensures
        ask_view(r) == Ok::<Option<(bool, RequestView)>, ErrorView>(Some((true, request@))),
{
    Ok(Some(Ask { hello: true, request }))
}

fn params(a: &SendArgs, to: String, body: &str, grant: Option<&str>) -> (r: SendParams)
    ensures
        r@ == params_of(*a, to@, body@, text::opt_str(grant)),
{
    SendParams {
        to,
        ctype: a.ctype.clone(),
        body: text::own(body),
        in_reply_to: text::copy_opt(&a.reply_to),
        topic: text::copy_opt(&a.topic),
        kind: a.kind.clone(),
        correlation_id: text::copy_opt(&a.correlation_id),
        supersedes: text::copy_opt(&a.supersedes),
        encrypt: a.encrypt,
        grant: text::own_opt(grant),
        unsigned: a.unsigned,
    }
}

/// What a command of the local agent `me` asks of the daemon. `body` and `grant`
/// are the body and the grant token of a send command as they were read. Nothing
/// where the command is carried out locally.
pub fn ask(cmd: &Command, me: &str, body: &str, grant: Option<&str>) -> (r: Result<
    Option<Ask>,
    Error,
>)
    ensures
        ask_view(r) == asked(*cmd, me@, body@, text::opt_str(grant)),
{
    match cmd {
        Command::Id { .. } => Ok(None),
        Command::Agent { .. } => Ok(None),
        Command::Authority { .. } => Ok(None),
        Command::Config { .. } => Ok(None),
        Command::Grant { .. } => Ok(None),
        Command::Daemon { cmd } => match cmd {
            DaemonCmd::Run => Ok(None),
            DaemonCmd::Start { .. } => Ok(None),
            DaemonCmd::Stop => plain(Request::Shutdown),
            DaemonCmd::Connect => plain(Request::Connect),
            DaemonCmd::Disconnect => plain(Request::Disconnect),
        },
        Command::Presence { cmd } => match cmd {
            PresenceCmd::Emit { state, ttl, detail } => greeted(
                Request::Presence {
                    state: state.clone(),
                    ttl_secs: *ttl,
                    detail: text::copy_opt(detail),
                },
            ),
            PresenceCmd::List => plain(Request::PresenceList),
        },
        Command::Pair { cmd } => match cmd {
            PairCmd::Start { topic } => greeted(
                Request::PairStart { topic: text::copy_opt(topic) },
            ),
            PairCmd::List => plain(Request::PairList),
            PairCmd::Confirm { name } => plain(Request::PairConfirm { name: name.clone() }),
        },
        Command::Status => plain(Request::Status),
        Command::Send(a) => match recipient(&a.to, a.broadcast) {
            Err(e) => Err(e),
            Ok(to) => greeted(Request::Send(params(a, to, body, grant))),
        },
        Command::Read { consumer, limit, .. } => plain(
            Request::Read { consumer: default_consumer(consumer, me), limit: *limit },
        ),
        Command::Browse { limit, from, to, mine, all } => {
            let to: Option<String> = if *mine {
                Some(text::own(me))
            } else {
                text::copy_opt(to)
            };
            plain(
                Request::Browse { limit: *limit, from: text::copy_opt(from), to, all: *all },
            )
        },
        Command::Log { limit, from, to, peer } => plain(
            Request::Transcript {
                limit: *limit,
                from: text::copy_opt(from),
                to: text::copy_opt(to),
                peer: text::copy_opt(peer),
            },
        ),
        Command::Reply { msg_id, body, ctype } => greeted(
            Request::Reply { msg_id: msg_id.clone(), ctype: ctype.clone(), body: body.clone() },
        ),
        Command::Rejections { limit, reason, since } => plain(
            Request::Rejections {
                limit: *limit,
                reason: text::copy_opt(reason),
                since: text::copy_opt(since),
            },
        ),
        Command::Consumers => plain(Request::Consumers),
        Command::Receipts { id, limit, state } => plain(
            Request::Receipts {
                id: text::copy_opt(id),
                limit: *limit,
                state: text::copy_opt(state),
            },
        ),
        Command::Ack { seq, consumer } => plain(
            Request::Ack { consumer: default_consumer(consumer, me), seq: *seq },
        ),
    }
}

// ---------------------------------------------------------------------------
// What is shown for an answer.
// ---------------------------------------------------------------------------

/// What is shown for an answer.
#[derive(Debug, PartialEq, Eq)]
pub enum Shown {
    /// A text for the reader.
    Text(String),
    /// The answer itself, which is not the one that was expected.
    Raw,
}

/// The model of [`Shown`].
pub enum ShownView {
    Text(Seq<char>),
    Raw,
}

impl View for Shown {
    type V = ShownView;

    open spec fn view(&self) -> ShownView {
        match *self {
            Shown::Text(s) => ShownView::Text(s@),
            Shown::Raw => ShownView::Raw,
        }
    }
}

/// The text of a command that was simply carried out.
pub open spec fn done_text(cmd: Command) -> Seq<char> {
    match cmd {
        Command::Daemon { cmd } => match cmd {
            DaemonCmd::Stop => "daemon stopped"@,
            DaemonCmd::Connect => "connect requested"@,
            DaemonCmd::Disconnect => "disconnected"@,
            _ => ""@,
        },
        Command::Presence { cmd } => match cmd {
            PresenceCmd::Emit { .. } => "presence sent"@,
            PresenceCmd::List => "presence"@,
        },
        Command::Pair { cmd } => match cmd {
            PairCmd::Start { .. } => "pair start"@,
            PairCmd::List => "pair list"@,
            PairCmd::Confirm { .. } => "pair confirm"@,
        },
        Command::Status => "status"@,
        Command::Send(_) => "sent"@,
        Command::Reply { .. } => "sent"@,
        Command::Read { .. } => "read"@,
        Command::Browse { .. } => "browse"@,
        Command::Log { .. } => "log"@,
        Command::Rejections { .. } => "rejections"@,
        Command::Consumers => "consumers"@,
        Command::Receipts { .. } => "receipts"@,
        Command::Ack { .. } => "acknowledged"@,
        _ => ""@,
    }
}

fn done(cmd: &Command) -> (r: &'static str)
    ensures
        r@ == done_text(*cmd),
{
    match cmd {
        Command::Daemon { cmd } => match cmd {
            DaemonCmd::Stop => "daemon stopped",
            DaemonCmd::Connect => "connect requested",
            DaemonCmd::Disconnect => "disconnected",
            _ => "",
        },
        Command::Presence { cmd } => match cmd {
            PresenceCmd::Emit { .. } => "presence sent",
            PresenceCmd::List => "presence",
        },
        Command::Pair { cmd } => match cmd {
            PairCmd::Start { .. } => "pair start",
            PairCmd::List => "pair list",
            PairCmd::Confirm { .. } => "pair confirm",
        },
        Command::Status => "status",
        Command::Send(_) => "sent",
        Command::Reply { .. } => "sent",
        Command::Read { .. } => "read",
        Command::Browse { .. } => "browse",
        Command::Log { .. } => "log",
        Command::Rejections { .. } => "rejections",
        Command::Consumers => "consumers",
        Command::Receipts { .. } => "receipts",
        Command::Ack { .. } => "acknowledged",
        _ => "",
    }
}

/// What is shown once a pairing hello is out.
pub open spec fn pairing_text() -> Seq<char> {
    "broadcast your identity on the pairing topic.\nask the peer to run `agentmsg pair start` too, then compare the 6-digit code from `agentmsg pair list` and run `agentmsg pair confirm <name>`."@
}

/// The answer that a command expects, as it is shown. `fp` is the fingerprint of
/// a confirmed peer.
pub open spec fn expected_text(cmd: Command, r: ResponseView, fp: Seq<char>) -> Option<Seq<char>> {
    match (cmd, r) {
        (Command::Send(_), ResponseView::Sent { id, delivery_state }) => Some(
            "sent "@ + id + " ("@ + delivery_state + ")"@,
        ),
        (Command::Reply { .. }, ResponseView::Sent { id, delivery_state }) => Some(
            "sent "@ + id + " ("@ + delivery_state + ")"@,
        ),
        (Command::Status, ResponseView::Status(s)) => Some(render::status_text(s)),
        (Command::Read { .. }, ResponseView::Messages { msgs, .. }) => Some(
            render::messages_text(msgs),
        ),
        (Command::Browse { .. }, ResponseView::Messages { msgs, .. }) => Some(
            render::messages_text(msgs),
        ),
        (Command::Log { .. }, ResponseView::Messages { msgs, .. }) => Some(
            render::messages_text(msgs),
        ),
        (Command::Receipts { .. }, ResponseView::Messages { msgs, .. }) => Some(
            render::receipts_text(msgs),
        ),
        (Command::Rejections { .. }, ResponseView::Rejections(rows)) => Some(
            render::rejections_text(rows),
        ),
        (Command::Consumers, ResponseView::Consumers(rows)) => Some(render::consumers_text(rows)),
        (Command::Presence { cmd: PresenceCmd::List }, ResponseView::Presence(rows)) => Some(
            render::presences_text(rows),
        ),
        (Command::Pair { cmd: PairCmd::List }, ResponseView::Pairs(rows)) => Some(
            render::pairs_text(rows),
        ),
        (Command::Pair { cmd: PairCmd::Start { .. } }, ResponseView::Done) => Some(pairing_text()),
        (Command::Pair { cmd: PairCmd::Confirm { name } }, ResponseView::Done) => Some(
            "paired with "@ + name@ + " ("@ + fp + ") — added to trust store"@,
        ),
        _ => None,
    }
}

/// What is shown for an answer: the expected one as such, a plain confirmation by
/// the command's own text, an error as a failure, and anything else as it came.
pub open spec fn shown(cmd: Command, r: ResponseView, fp: Seq<char>) -> Result<
    ShownView,
    ErrorView,
> {
    match expected_text(cmd, r, fp) {
        Some(t) => Ok(ShownView::Text(t)),
        None => match r {
            ResponseView::Done => Ok(ShownView::Text(done_text(cmd))),
            ResponseView::Pong => Ok(ShownView::Text(done_text(cmd))),
            ResponseView::Error { message } => Err(ErrorView::Ipc(message)),
            _ => Ok(ShownView::Raw),
        },
    }
}

/// The model of what is shown, or the error.
pub open spec fn shown_view(r: Result<Shown, Error>) -> Result<ShownView, ErrorView> {
    match r {
        Ok(s) => Ok(s@),
        Err(e) => Err(e@),
    }
}

fn sent_text(id: &str, state: &str) -> (r: String)
    ensures
        r@ == "sent "@ + id@ + " ("@ + state@ + ")"@,
{
    let mut s: String = text::concat3("sent ", id, " (");
    s.append(state);
    s.append(")");
    s
}

fn expected(cmd: &Command, resp: &Response, fp: &str) -> (r: Option<String>)
    ensures
        text::opt_text(r) == expected_text(*cmd, resp@, fp@),
{
    match (cmd, resp) {
        (Command::Send(_), Response::Sent { id, delivery_state }) => Some(
            sent_text(id.as_str(), delivery_state.as_str()),
        ),
        (Command::Reply { .. }, Response::Sent { id, delivery_state }) => Some(
            sent_text(id.as_str(), delivery_state.as_str()),
        ),
        (Command::Status, Response::Status(s)) => Some(render::show_status(s)),
        (Command::Read { .. }, Response::Messages { msgs, .. }) => Some(
            render::show_messages(msgs),
        ),
        (Command::Browse { .. }, Response::Messages { msgs, .. }) => Some(
            render::show_messages(msgs),
        ),
        (Command::Log { .. }, Response::Messages { msgs, .. }) => Some(render::show_messages(msgs)),
        (Command::Receipts { .. }, Response::Messages { msgs, .. }) => Some(
            render::show_receipts(msgs),
        ),
        (Command::Rejections { .. }, Response::Rejections(rows)) => Some(
            render::show_rejections(rows),
        ),
        (Command::Consumers, Response::Consumers(rows)) => Some(render::show_consumers(rows)),
        (Command::Presence { cmd: PresenceCmd::List }, Response::Presence(rows)) => Some(
            render::show_presence(rows),
        ),
        (Command::Pair { cmd: PairCmd::List }, Response::Pairs(rows)) => Some(
            render::show_pairs(rows),
        ),
        (Command::Pair { cmd: PairCmd::Start { .. } }, Response::Done) => Some(
            text::own(
                "broadcast your identity on the pairing topic.\nask the peer to run `agentmsg pair start` too, then compare the 6-digit code from `agentmsg pair list` and run `agentmsg pair confirm <name>`.",
            ),
        ),
        (Command::Pair { cmd: PairCmd::Confirm { name } }, Response::Done) => {
            let mut s: String = text::concat3("paired with ", name.as_str(), " (");
            s.append(fp);
            s.append(") — added to trust store");
            Some(s)
        },
        _ => None,
    }
}

/// What is shown for an answer. `fp` is the fingerprint of a confirmed peer.
pub fn show(cmd: &Command, resp: &Response, fp: &str) -> (r: Result<Shown, Error>)
    ensures
        shown_view(r) == shown(*cmd, resp@, fp@),
{
    if let Some(t) = expected(cmd, resp, fp) {
        return Ok(Shown::Text(t));
    }
    match resp {
        Response::Done => Ok(Shown::Text(text::own(done(cmd)))),
        Response::Pong => Ok(Shown::Text(text::own(done(cmd)))),
        Response::Error { message } => Err(Error::Ipc(message.clone())),
        _ => Ok(Shown::Raw),
    }
}

// ---------------------------------------------------------------------------
// Waiting.
// ---------------------------------------------------------------------------

/// For how many seconds a read waits: for ever without a timeout or with zero.
pub fn wait_limit(wait_timeout: Option<u64>) -> (r: Option<u64>)
    ensures
        r == match wait_timeout {
            Some(n) => if n > 0 {
                Some(n)
            } else {
                None
            },
            None => None,
        },
{
    match wait_timeout {
        Some(n) => if n > 0 {
            Some(n)
        } else {
            None
        },
        None => None,
    }
}

/// What a read does with the batch it got.
#[derive(Debug, PartialEq, Eq)]
pub enum ReadStep {
    /// Show it.
    Show,
    /// Ask again after a pause.
    Again,
    /// Fail.
    GiveUp(Error),
}

/// What a read does with a batch: an empty one is waited out, where waiting was
/// asked for and no stream follows, until the time is up.
pub fn read_step(empty: bool, wait: bool, follow: bool, expired: bool, wait_timeout: Option<u64>)
    -> (r: ReadStep)
    ensures
        match r {
            ReadStep::Show => !(empty && wait && !follow),
            ReadStep::Again => empty && wait && !follow && !expired,
            ReadStep::GiveUp(e) => empty && wait && !follow && expired && e@ == ErrorView::Timeout(
                "no message within "@ + text::decimal(
                    match wait_timeout {
                        Some(n) => n as nat,
                        None => 0nat,
                    },
                ) + "s"@,
            ),
        },
{
    if empty && wait && !follow {
        if expired {
            let n: u64 = match wait_timeout {
                Some(n) => n,
                None => 0,
            };
            let secs: String = text::decimal_u64(n);
            ReadStep::GiveUp(
                Error::Timeout(text::concat3("no message within ", secs.as_str(), "s")),
            )
        } else {
            ReadStep::Again
        }
    } else {
        ReadStep::Show
    }
}

/// Up to which sequence number a read acknowledges its batch.
pub fn batch_ack(ack: bool, msgs: &Vec<StoredMsg>) -> (r: Option<i64>)
    ensures
        r == if ack && msgs@.len() > 0 {
            Some(msgs@.last()@.seq)
        } else {
            None
        },
{
    if ack && msgs.len() > 0 {
        Some(msgs[msgs.len() - 1].seq)
    } else {
        None
    }
}

/// What is shown of a frame of a stream.
#[derive(Debug, PartialEq, Eq)]
pub enum FrameText {
    /// A message.
    Message(String),
    /// A warning.
    Warning(String),
}

/// What is shown of a frame of a stream.
pub fn show_frame(f: &StreamFrame) -> (r: FrameText)
    ensures
        match *f {
            StreamFrame::Message(m) => r matches FrameText::Message(t) && t@
                == render::messages_text(seq![m@]),
            StreamFrame::Lagged { dropped } => r matches FrameText::Warning(t) && t@
                == "warning: subscription lagged, "@ + text::decimal(dropped as nat)
                + " message(s) dropped"@,
        },
{
    match f {
        StreamFrame::Message(m) => {
            let mut one: Vec<StoredMsg> = Vec::new();
            one.push(m.clone());
            assert(crate::store::msg_views(one@) =~= seq![m@]);
            FrameText::Message(render::show_messages(&one))
        },
        StreamFrame::Lagged { dropped } => {
            let n: String = text::decimal_u64(*dropped);
            FrameText::Warning(
                text::concat3(
                    "warning: subscription lagged, ",
                    n.as_str(),
                    " message(s) dropped",
                ),
            )
        },
    }
}

/// For how many seconds a start waits for the daemon.
pub const START_WAIT_SECS: u64 = 10;

/// How many lines of the log a failed start shows.
pub const TAIL_LINES: usize = 20;

/// What a start does next.
#[derive(Debug, PartialEq, Eq)]
pub enum StartStep {
    /// The daemon answers.
    Ready,
    /// Look again after a pause.
    Again,
    /// Fail.
    GiveUp(Error),
}

/// What a start does next: it looks until the daemon answers or the time is up.
pub fn start_step(running: bool, expired: bool, secs: u64) -> (r: StartStep)
    ensures
        match r {
            StartStep::Ready => running,
            StartStep::Again => !running && !expired,
            StartStep::GiveUp(e) => !running && expired && e@ == ErrorView::DaemonNotRunning(
                "daemon did not become ready within "@ + text::decimal(secs as nat) + "s"@,
            ),
        },
{
    if running {
        StartStep::Ready
    } else if expired {
        let n: String = text::decimal_u64(secs);
        StartStep::GiveUp(
            Error::DaemonNotRunning(
                text::concat3("daemon did not become ready within ", n.as_str(), "s"),
            ),
        )
    } else {
        StartStep::Again
    }
}

// ---------------------------------------------------------------------------
// Laws.
// ---------------------------------------------------------------------------

/// A known agent never changes its key in silence: without a rotation a token
/// with another key is refused.
pub proof fn a_key_changes_only_by_rotation(t: TrustView, token: TokenView, key: Seq<u8>)
    requires
        trust::trusted_key(t, token.name) == Some(key),
        key != token.public_key,
    ensures
        addition(t, token, false) matches Err(ErrorView::RotationRequired(_)),
        addition(t, token, true) matches Ok(a) && a.rotated_from == Some(
            wire::fingerprint_of(key),
        ),
{
}

/// Showing the configuration tells of a password only that there is one, to a
/// reader and to a program, and changes nothing.
pub proof fn a_password_is_never_shown(c: ConfigView, password: Seq<char>)
    requires
        c.password.len() > 0,
        password.len() > 0,
    ensures
        ({
            let other = ConfigView { password, ..c };
            &&& configured_text(other, ConfigCmd::Show) == configured_text(c, ConfigCmd::Show)
            &&& redacted_of(other) == redacted_of(c)
            &&& configured(c, ConfigCmd::Show) == c
        }),
{
}

/// Without force no identity that stands is replaced.
pub proof fn an_identity_is_replaced_only_by_force(
    name: Seq<char>,
    existing: (Seq<char>, Seq<char>),
)
    ensures
        identity_guard(name, false, Some(existing)) is Err,
        identity_guard(name, true, Some(existing)) matches Ok(backup) ==> backup,
{
}

/// A name that may be generated is read back from a key id, and is not everyone's.
pub proof fn a_valid_name_is_found_in_its_key_id(
    name: Seq<char>,
    force: bool,
    existing: Option<(Seq<char>, Seq<char>)>,
    public_key: Seq<u8>,
)
    requires
        identity_guard(name, force, existing) is Ok,
    ensures
        text::split_first(wire::kid_of(name, public_key), '#') == Some(
            (name, wire::fingerprint_of(public_key)),
        ),
        name != wire::BROADCAST@,
{
    wire::kid_splits_into_name_and_fingerprint(name, public_key);
}

} // verus!
