//! Self-contained JSON wire format: the wrapper that is published, the inner
//! message it carries, and the encodings both use.
//!
//! The signature of a message covers the exact bytes that are transmitted, the
//! base64-decoded `msg` of the wrapper, never a second serialization of them.

use base64::engine::general_purpose::URL_SAFE_NO_PAD;
use base64::Engine as _;
use sha2::Digest;
use vstd::prelude::*;
use vstd::string::*;
use vstd::utf8::*;

use crate::error::{Error, ErrorView, RejectReason, RejectView};
use crate::json;
use crate::text;

verus! {

/// Wire protocol version.
pub const PROTOCOL_VERSION: u8 = 2;

/// Signature algorithm identifier.
pub const ALG_ML_DSA_65: &'static str = "ML-DSA-65";

/// Algorithm identifier of an unsigned (insecure) message.
pub const ALG_NONE: &'static str = "none";

/// Algorithm identifier of ML-KEM-768 + AES-256-GCM payload encryption.
pub const ALG_KEM_AEAD: &'static str = "ML-KEM-768.AES-256-GCM";

/// Recipient marker of broadcast messages.
pub const BROADCAST: &'static str = "*";

/// Content type of plain text.
pub const CTYPE_TEXT: &'static str = "text/plain";

/// Content type of JSON.
pub const CTYPE_JSON: &'static str = "application/json";

/// Content type of application presence beacons.
pub const CTYPE_PRESENCE: &'static str = "application/agentmsg-presence";

/// Content type of delivery and read receipts.
pub const CTYPE_RECEIPT: &'static str = "application/agentmsg-receipt";

/// Content type of a pairing hello.
pub const CTYPE_PAIR: &'static str = "application/agentmsg-pair";

/// Typed message kind.
#[derive(Clone, Copy, PartialEq, Eq, Structural, Debug)]
pub enum MsgKind {
    Message,
    Command,
    Query,
    Result,
    Ack,
    Error,
    Grant,
    Receipt,
}

impl Default for MsgKind {
    fn default() -> (k: MsgKind)
        ensures
            k == MsgKind::Message,
    {
        MsgKind::Message
    }
}

/// The wrapper: exactly what is published on the topic.
#[derive(Debug, PartialEq, Eq)]
pub struct Wrapper {
    /// Protocol version.
    pub v: u8,
    /// Signature algorithm.
    pub alg: String,
    /// Signer key id, `<sender>#<fingerprint>`; absent where unsigned.
    pub kid: Option<String>,
    /// base64url of the exact inner-message bytes that were signed.
    pub msg: String,
    /// base64url of the signature over the decoded `msg`; absent where unsigned.
    pub sig: Option<String>,
}

/// The inner message, decoded from [`Wrapper::msg`].
#[derive(Debug, PartialEq, Eq)]
pub struct Inner {
    /// Unique message id; also the key of replay dedupe.
    pub id: String,
    /// Protocol version.
    pub v: u8,
    /// Sender agent name.
    pub from: String,
    /// Recipient agent name, or [`BROADCAST`].
    pub to: String,
    /// RFC 3339 timestamp.
    pub ts: String,
    /// Random nonce (base64url).
    pub nonce: String,
    /// Content type of `body`.
    pub ctype: String,
    /// Id of the message that this one answers.
    pub in_reply_to: Option<String>,
    /// Payload, ciphertext where `enc` is there.
    pub body: String,
    /// Typed message kind.
    pub kind: MsgKind,
    /// Id that links related messages.
    pub correlation_id: Option<String>,
    /// Id of a message that this one supersedes.
    pub supersedes: Option<String>,
    /// Payload encryption metadata.
    pub enc: Option<EncInfo>,
    /// A signed human-authorization grant.
    pub grant: Option<SignedGrant>,
    /// A delivery or read receipt for an earlier message.
    pub receipt: Option<Receipt>,
}

/// Payload encryption metadata.
#[derive(Debug, PartialEq, Eq)]
pub struct EncInfo {
    /// Algorithm identifier, [`ALG_KEM_AEAD`].
    pub alg: String,
    /// base64url ML-KEM-768 ciphertext.
    pub kem_ct: String,
    /// Fingerprint of the recipient's KEM key.
    pub recipient_kid: String,
    /// base64url AES-256-GCM nonce (12 bytes).
    pub nonce: String,
    /// Content type of the plaintext.
    pub ptype: String,
}

/// A human-authorization grant signed by an authority key.
#[derive(Debug, PartialEq, Eq)]
pub struct SignedGrant {
    /// Signature algorithm, [`ALG_ML_DSA_65`].
    pub alg: String,
    /// Authority key id, `<authority>#<fingerprint>`.
    pub authority_kid: String,
    /// base64url of the claims' JSON bytes.
    pub grant: String,
    /// base64url signature over the decoded claims.
    pub sig: String,
}

/// A delivery or read receipt.
#[derive(Debug, PartialEq, Eq)]
pub struct Receipt {
    /// Id of the message that this receipt is about.
    pub ref_id: String,
    /// What happened to it.
    pub status: ReceiptStatus,
}

/// Delivery state that a [`Receipt`] advertises.
#[derive(Clone, Copy, PartialEq, Eq, Structural, Debug)]
pub enum ReceiptStatus {
    Delivered,
    Read,
}

// ---------------------------------------------------------------------------
// Models.
// ---------------------------------------------------------------------------

/// The model of a [`Wrapper`].
pub struct WrapperView {
    pub v: u8,
    pub alg: Seq<char>,
    pub kid: Option<Seq<char>>,
    pub msg: Seq<char>,
    pub sig: Option<Seq<char>>,
}

/// The model of an [`EncInfo`].
pub struct EncView {
    pub alg: Seq<char>,
    pub kem_ct: Seq<char>,
    pub recipient_kid: Seq<char>,
    pub nonce: Seq<char>,
    pub ptype: Seq<char>,
}

/// The model of a [`SignedGrant`].
pub struct GrantView {
    pub alg: Seq<char>,
    pub authority_kid: Seq<char>,
    pub grant: Seq<char>,
    pub sig: Seq<char>,
}

/// The model of a [`Receipt`].
pub struct ReceiptView {
    pub ref_id: Seq<char>,
    pub status: ReceiptStatus,
}

/// The model of an [`Inner`] message.
pub struct InnerView {
    pub id: Seq<char>,
    pub v: u8,
    pub from: Seq<char>,
    pub to: Seq<char>,
    pub ts: Seq<char>,
    pub nonce: Seq<char>,
    pub ctype: Seq<char>,
    pub in_reply_to: Option<Seq<char>>,
    pub body: Seq<char>,
    pub kind: MsgKind,
    pub correlation_id: Option<Seq<char>>,
    pub supersedes: Option<Seq<char>>,
    pub enc: Option<EncView>,
    pub grant: Option<GrantView>,
    pub receipt: Option<ReceiptView>,
}

impl View for Wrapper {
    type V = WrapperView;

    open spec fn view(&self) -> WrapperView {
        WrapperView {
            v: self.v,
            alg: self.alg@,
            kid: text::opt_text(self.kid),
            msg: self.msg@,
            sig: text::opt_text(self.sig),
        }
    }
}

impl View for EncInfo {
    type V = EncView;

    open spec fn view(&self) -> EncView {
        EncView {
            alg: self.alg@,
            kem_ct: self.kem_ct@,
            recipient_kid: self.recipient_kid@,
            nonce: self.nonce@,
            ptype: self.ptype@,
        }
    }
}

impl View for SignedGrant {
    type V = GrantView;

    open spec fn view(&self) -> GrantView {
        GrantView {
            alg: self.alg@,
            authority_kid: self.authority_kid@,
            grant: self.grant@,
            sig: self.sig@,
        }
    }
}

impl View for Receipt {
    type V = ReceiptView;

    open spec fn view(&self) -> ReceiptView {
        ReceiptView { ref_id: self.ref_id@, status: self.status }
    }
}

/// The model of optional encryption metadata.
pub open spec fn opt_enc(o: Option<EncInfo>) -> Option<EncView> {
    match o {
        Some(e) => Some(e@),
        None => None,
    }
}

/// The model of an optional grant.
pub open spec fn opt_grant(o: Option<SignedGrant>) -> Option<GrantView> {
    match o {
        Some(g) => Some(g@),
        None => None,
    }
}

/// The model of an optional receipt.
pub open spec fn opt_receipt(o: Option<Receipt>) -> Option<ReceiptView> {
    match o {
        Some(r) => Some(r@),
        None => None,
    }
}

impl View for Inner {
    type V = InnerView;

    open spec fn view(&self) -> InnerView {
        InnerView {
            id: self.id@,
            v: self.v,
            from: self.from@,
            to: self.to@,
            ts: self.ts@,
            nonce: self.nonce@,
            ctype: self.ctype@,
            in_reply_to: text::opt_text(self.in_reply_to),
            body: self.body@,
            kind: self.kind,
            correlation_id: text::opt_text(self.correlation_id),
            supersedes: text::opt_text(self.supersedes),
            enc: opt_enc(self.enc),
            grant: opt_grant(self.grant),
            receipt: opt_receipt(self.receipt),
        }
    }
}

impl Clone for EncInfo {
    fn clone(&self) -> (r: EncInfo)
        ensures
            r@ == self@,
    {
        EncInfo {
            alg: self.alg.clone(),
            kem_ct: self.kem_ct.clone(),
            recipient_kid: self.recipient_kid.clone(),
            nonce: self.nonce.clone(),
            ptype: self.ptype.clone(),
        }
    }
}

impl Clone for SignedGrant {
    fn clone(&self) -> (r: SignedGrant)
        ensures
            r@ == self@,
    {
        SignedGrant {
            alg: self.alg.clone(),
            authority_kid: self.authority_kid.clone(),
            grant: self.grant.clone(),
            sig: self.sig.clone(),
        }
    }
}

impl Clone for Receipt {
    fn clone(&self) -> (r: Receipt)
        ensures
            r@ == self@,
    {
        Receipt { ref_id: self.ref_id.clone(), status: self.status }
    }
}

/// A copy of an optional grant.
pub fn copy_grant(g: &Option<SignedGrant>) -> (r: Option<SignedGrant>)
    ensures
        opt_grant(r) == opt_grant(*g),
{
    match g {
        Some(x) => Some(x.clone()),
        None => None,
    }
}

/// A copy of an optional receipt.
pub fn copy_receipt(g: &Option<Receipt>) -> (r: Option<Receipt>)
    ensures
        opt_receipt(r) == opt_receipt(*g),
{
    match g {
        Some(x) => Some(x.clone()),
        None => None,
    }
}

// ---------------------------------------------------------------------------
// Encodings and digests.
// ---------------------------------------------------------------------------

/// base64url without padding.
pub uninterp spec fn base64url(b: Seq<u8>) -> Seq<char>;

/// The bytes that a base64url text without padding stands for, or the decoder's
/// complaint.
pub uninterp spec fn base64url_decoded(s: Seq<char>) -> Result<Seq<u8>, Seq<char>>;

/// The SHA-256 digest.
pub uninterp spec fn sha256(b: Seq<u8>) -> Seq<u8>;

/// The bytes that a base64url text stands for, where it is one.
pub open spec fn unbase64(s: Seq<char>) -> Option<Seq<u8>> {
    match base64url_decoded(s) {
        Ok(b) => Some(b),
        Err(_) => None,
    }
}

/// The text stands for fewer than `n` bytes, or for none at all.
pub open spec fn is_shorter(s: Seq<char>, n: nat) -> bool {
    unbase64(s) matches Some(b) ==> b.len() < n
}

/// A character of the URL-safe base64 alphabet.
pub open spec fn is_base64url_char(c: char) -> bool {
    'A' <= c <= 'Z' || 'a' <= c <= 'z' || '0' <= c <= '9' || c == '-' || c == '_'
}

/// A lower-case hexadecimal digit.
pub open spec fn hex_digit(d: u8) -> char {
    if d < 10 {
        ((('0' as u8) + d) as u8) as char
    } else {
        ((('a' as u8) + (d - 10)) as u8) as char
    }
}

/// Lower-case hexadecimal text, two digits per byte, the high one first.
pub open spec fn hex_text(b: Seq<u8>) -> Seq<char> {
    Seq::new(
        2 * b.len(),
        |i: int|
            hex_digit(
                if i % 2 == 0 {
                    (b[i / 2] / 16) as u8
                } else {
                    (b[i / 2] % 16) as u8
                },
            ),
    )
}

/// The short, stable fingerprint of a public key: the first eight bytes of its
/// digest in hexadecimal.
pub open spec fn fingerprint_of(public_key: Seq<u8>) -> Seq<char> {
    hex_text(sha256(public_key).take(8))
}

/// The key id of a name and a public key.
pub open spec fn kid_of(name: Seq<char>, public_key: Seq<u8>) -> Seq<char> {
    name + seq!['#'] + fingerprint_of(public_key)
}

/// Calls `encode` of base64's URL-safe engine without padding. The result is
/// named, holds characters of the URL-safe alphabet only, and decodes to the
/// bytes that went in. A beginning of it stands for fewer bytes, if for any: four
/// characters hold three bytes.
#[verifier::external_body]
fn base64_encode(bytes: &[u8]) -> (s: String)
    ensures
        s@ == base64url(bytes@),
        unbase64(s@) == Some(bytes@),
        forall|i: int| 0 <= i < s@.len() ==> is_base64url_char(#[trigger] s@[i]),
        forall|n: int| 0 <= n < s@.len() ==> is_shorter(#[trigger] s@.take(n), bytes@.len()),
{
    URL_SAFE_NO_PAD.encode(bytes)
}

/// Calls `decode` of base64's URL-safe engine without padding. The result is
/// named, with the text of the decoder's error.
#[verifier::external_body]
fn base64_decode(s: &str) -> (r: Result<Vec<u8>, String>)
    ensures
        match r {
            Ok(b) => base64url_decoded(s@) matches Ok(x) && x == b@,
            Err(e) => base64url_decoded(s@) matches Err(x) && x == e@,
        },
{
    URL_SAFE_NO_PAD.decode(s.as_bytes()).map_err(|e| e.to_string())
}

/// Calls `sha2::Sha256::digest`. The result is named and has 32 bytes.
#[verifier::external_body]
pub(crate) fn digest(bytes: &[u8]) -> (d: Vec<u8>)
    ensures
        d@ == sha256(bytes@),
        d@.len() == 32,
{
    sha2::Sha256::digest(bytes).to_vec()
}

/// Calls `hex::encode`: lower-case hexadecimal, two digits per byte.
#[verifier::external_body]
fn hex_encode(bytes: &[u8]) -> (s: String)
    ensures
        s@ == hex_text(bytes@),
{
    hex::encode(bytes)
}

/// Compute a short, stable fingerprint of a public key for use in `kid`.
pub fn fingerprint(public_key: &[u8]) -> (r: String)
    ensures
        r@ == fingerprint_of(public_key@),
{
    let d: Vec<u8> = digest(public_key);
    let head: &[u8] = vstd::slice::slice_subrange(d.as_slice(), 0, 8);
    assert(head@ =~= sha256(public_key@).take(8));
    hex_encode(head)
}

/// Build the `kid` field from a sender name and public key.
pub fn make_kid(sender: &str, public_key: &[u8]) -> (r: String)
    ensures
        r@ == kid_of(sender@, public_key@),
{
    let fp: String = fingerprint(public_key);
    proof {
        reveal_strlit("#");
        assert("#"@ =~= seq!['#']);
    }
    text::concat3(sender, "#", fp.as_str())
}

/// Parse a `kid` into (sender, fingerprint).
pub fn split_kid(kid: &str) -> (r: Option<(&str, &str)>)
    ensures
        match r {
            Some(p) => text::split_first(kid@, '#') == Some((p.0@, p.1@)),
            None => text::split_first(kid@, '#') is None,
        },
{
    text::split_once(kid, '#')
}

/// Encode bytes as base64url without padding.
pub fn b64(bytes: &[u8]) -> (s: String)
    ensures
        s@ == base64url(bytes@),
        unbase64(s@) == Some(bytes@),
        forall|i: int| 0 <= i < s@.len() ==> is_base64url_char(#[trigger] s@[i]),
        forall|n: int| 0 <= n < s@.len() ==> is_shorter(#[trigger] s@.take(n), bytes@.len()),
{
    base64_encode(bytes)
}

/// Decode base64url-without-padding bytes.
pub fn unb64(s: &str) -> (r: Result<Vec<u8>, Error>)
    ensures
        match r {
            Ok(b) => unbase64(s@) == Some(b@),
            Err(e) => base64url_decoded(s@) matches Err(x) && e@ == ErrorView::Serde(
                "base64: "@ + x,
            ),
        },
{
    match base64_decode(s) {
        Ok(b) => Ok(b),
        Err(e) => Err(Error::Serde(text::concat2("base64: ", e.as_str()))),
    }
}

/// What is wrong with a name: it must not be empty, hold the separator of key
/// ids or stand for everyone.
pub open spec fn name_complaint(name: Seq<char>) -> Option<Seq<char>> {
    if name.len() == 0 {
        Some("empty name"@)
    } else if name.contains('#') {
        Some("name must not contain '#'"@)
    } else if name == BROADCAST@ {
        Some("'*' addresses everyone"@)
    } else {
        None
    }
}

/// Check the name of an agent or an authority.
pub fn validate_name(name: &str) -> (r: Result<(), &'static str>)
    ensures
        match r {
            Ok(_) => name_complaint(name@) is None,
            Err(m) => name_complaint(name@) == Some(m@),
        },
{
    if name.is_empty() {
        Err("empty name")
    } else if text::has_char(name, '#') {
        Err("name must not contain '#'")
    } else if text::str_eq(name, BROADCAST) {
        Err("'*' addresses everyone")
    } else {
        Ok(())
    }
}

/// A name without the separator splits off a key id again.
pub proof fn kid_splits_into_name_and_fingerprint(name: Seq<char>, public_key: Seq<u8>)
    requires
        !name.contains('#'),
    ensures
        text::split_first(kid_of(name, public_key), '#') == Some(
            (name, fingerprint_of(public_key)),
        ),
{
    let fp = fingerprint_of(public_key);
    let kid = kid_of(name, public_key);
    let n = name.len() as int;
    kid.index_of_first_ensures('#');
    assert(kid[n] == '#');
    assert(kid.contains('#'));
    let i = kid.index_of_first('#').unwrap();
    if i < n {
        assert(name[i] == kid[i]);
        assert(name.contains('#'));
    }
    assert(i == n);
    assert(kid.take(n) =~= name);
    assert(kid.skip(n + 1) =~= fp);
}

// ---------------------------------------------------------------------------
// Kinds and states by name.
// ---------------------------------------------------------------------------

/// The name of a message kind.
pub open spec fn kind_text(k: MsgKind) -> Seq<char> {
    match k {
        MsgKind::Message => "message"@,
        MsgKind::Command => "command"@,
        MsgKind::Query => "query"@,
        MsgKind::Result => "result"@,
        MsgKind::Ack => "ack"@,
        MsgKind::Error => "error"@,
        MsgKind::Grant => "grant"@,
        MsgKind::Receipt => "receipt"@,
    }
}

/// The message kind of a name.
pub open spec fn kind_named(s: Seq<char>) -> Option<MsgKind> {
    if s == "message"@ {
        Some(MsgKind::Message)
    } else if s == "command"@ {
        Some(MsgKind::Command)
    } else if s == "query"@ {
        Some(MsgKind::Query)
    } else if s == "result"@ {
        Some(MsgKind::Result)
    } else if s == "ack"@ {
        Some(MsgKind::Ack)
    } else if s == "error"@ {
        Some(MsgKind::Error)
    } else if s == "grant"@ {
        Some(MsgKind::Grant)
    } else if s == "receipt"@ {
        Some(MsgKind::Receipt)
    } else {
        None
    }
}

/// The name of a receipt status.
pub open spec fn status_text(k: ReceiptStatus) -> Seq<char> {
    match k {
        ReceiptStatus::Delivered => "delivered"@,
        ReceiptStatus::Read => "read"@,
    }
}

/// The receipt status of a name.
pub open spec fn status_named(s: Seq<char>) -> Option<ReceiptStatus> {
    if s == "delivered"@ {
        Some(ReceiptStatus::Delivered)
    } else if s == "read"@ {
        Some(ReceiptStatus::Read)
    } else {
        None
    }
}

/// Every kind is found again by its name.
pub proof fn kind_is_found_by_its_name(k: MsgKind)
    ensures
        kind_named(kind_text(k)) == Some(k),
{
    reveal_strlit("message");
    reveal_strlit("command");
    reveal_strlit("query");
    reveal_strlit("result");
    reveal_strlit("ack");
    reveal_strlit("error");
    reveal_strlit("grant");
    reveal_strlit("receipt");
    assert("message"@.len() == 7 && "command"@.len() == 7 && "receipt"@.len() == 7);
    assert("query"@.len() == 5 && "error"@.len() == 5 && "grant"@.len() == 5);
    assert("result"@.len() == 6 && "ack"@.len() == 3);
    assert("message"@[0] != "command"@[0]);
    assert("message"@[0] != "receipt"@[0]);
    assert("command"@[0] != "receipt"@[0]);
    assert("query"@[0] != "error"@[0]);
    assert("query"@[0] != "grant"@[0]);
    assert("error"@[0] != "grant"@[0]);
}

/// Every receipt status is found again by its name.
pub proof fn status_is_found_by_its_name(k: ReceiptStatus)
    ensures
        status_named(status_text(k)) == Some(k),
{
    reveal_strlit("delivered");
    reveal_strlit("read");
    assert("delivered"@.len() == 9 && "read"@.len() == 4);
}

/// Stable snake_case name of a [`MsgKind`].
pub fn kind_str(kind: MsgKind) -> (r: &'static str)
    ensures
        r@ == kind_text(kind),
{
    match kind {
        MsgKind::Message => "message",
        MsgKind::Command => "command",
        MsgKind::Query => "query",
        MsgKind::Result => "result",
        MsgKind::Ack => "ack",
        MsgKind::Error => "error",
        MsgKind::Grant => "grant",
        MsgKind::Receipt => "receipt",
    }
}

/// The message kind named `s`.
pub fn kind_by_name(s: &str) -> (r: Option<MsgKind>)
    ensures
        r == kind_named(s@),
{
    if text::str_eq(s, "message") {
        Some(MsgKind::Message)
    } else if text::str_eq(s, "command") {
        Some(MsgKind::Command)
    } else if text::str_eq(s, "query") {
        Some(MsgKind::Query)
    } else if text::str_eq(s, "result") {
        Some(MsgKind::Result)
    } else if text::str_eq(s, "ack") {
        Some(MsgKind::Ack)
    } else if text::str_eq(s, "error") {
        Some(MsgKind::Error)
    } else if text::str_eq(s, "grant") {
        Some(MsgKind::Grant)
    } else if text::str_eq(s, "receipt") {
        Some(MsgKind::Receipt)
    } else {
        None
    }
}

fn status_str(s: ReceiptStatus) -> (r: &'static str)
    ensures
        r@ == status_text(s),
{
    match s {
        ReceiptStatus::Delivered => "delivered",
        ReceiptStatus::Read => "read",
    }
}

fn status_by_name(s: &str) -> (r: Option<ReceiptStatus>)
    ensures
        r == status_named(s@),
{
    if text::str_eq(s, "delivered") {
        Some(ReceiptStatus::Delivered)
    } else if text::str_eq(s, "read") {
        Some(ReceiptStatus::Read)
    } else {
        None
    }
}

// ---------------------------------------------------------------------------
// The wrapper as JSON.
// ---------------------------------------------------------------------------

/// A list of members that are being written.
pub open spec fn no_members() -> Seq<(Seq<char>, Seq<char>)> {
    Seq::empty()
}

/// The members of a wrapper, in the order in which they are written.
pub open spec fn wrapper_members(w: WrapperView) -> Seq<(Seq<char>, Seq<char>)> {
    let m0 = no_members().push(("v"@, text::decimal(w.v as nat)));
    let m1 = json::with_text(m0, "alg"@, w.alg);
    let m2 = json::with_opt_text(m1, "kid"@, w.kid);
    let m3 = json::with_text(m2, "msg"@, w.msg);
    json::with_opt_text(m3, "sig"@, w.sig)
}

/// The bytes of a wrapper: compact JSON, absent fields left out.
pub open spec fn wrapper_bytes(w: WrapperView) -> Seq<u8> {
    encode_utf8(json::object_text(wrapper_members(w)))
}

/// The wrapper that bytes stand for.
pub open spec fn wrapper_of(b: Seq<u8>) -> Option<WrapperView> {
    match json::fields_of(b, 5) {
        None => None,
        Some(f) => match (
            json::byte_field(f, 0, "v"@),
            json::text_field(f, 1, "alg"@),
            json::opt_text_field(f, 2, "kid"@),
            json::text_field(f, 3, "msg"@),
            json::opt_text_field(f, 4, "sig"@),
        ) {
            (Some(v), Some(alg), Some(kid), Some(msg), Some(sig)) => Some(
                WrapperView { v, alg, kid, msg, sig },
            ),
            _ => None,
        },
    }
}

proof fn lemma_wrapper_reads_back(w: WrapperView)
    requires
        json::all_read_back(wrapper_members(w)),
        json::json_byte(encode_utf8(text::decimal(w.v as nat))) == Some(w.v),
        json::reads_back(w.alg),
        json::reads_back(w.msg),
        w.kid matches Some(k) ==> json::reads_back(k),
        w.sig matches Some(s) ==> json::reads_back(s),
    ensures
        wrapper_of(wrapper_bytes(w)) == Some(w),
{
    let m0 = no_members().push(("v"@, text::decimal(w.v as nat)));
    let m1 = json::with_text(m0, "alg"@, w.alg);
    let m2 = json::with_opt_text(m1, "kid"@, w.kid);
    let m3 = json::with_text(m2, "msg"@, w.msg);
    json::lemma_members_read_back(wrapper_members(w));
    json::lemma_slot_empty();
    json::lemma_slot_push(no_members(), "v"@, text::decimal(w.v as nat));
    json::lemma_slot_push(m0, "alg"@, json::json_quoted(w.alg));
    if let Some(k) = w.kid {
        json::lemma_slot_push(m1, "kid"@, json::json_quoted(k));
    }
    json::lemma_slot_push(m2, "msg"@, json::json_quoted(w.msg));
    if let Some(s) = w.sig {
        json::lemma_slot_push(m3, "sig"@, json::json_quoted(s));
    }
    reveal_strlit("v");
    reveal_strlit("alg");
    reveal_strlit("kid");
    reveal_strlit("msg");
    reveal_strlit("sig");
    assert("alg"@[0] != "kid"@[0]);
    assert("alg"@[0] != "msg"@[0]);
    assert("alg"@[0] != "sig"@[0]);
    assert("kid"@[0] != "msg"@[0]);
    assert("kid"@[0] != "sig"@[0]);
    assert("msg"@[0] != "sig"@[0]);
    let f = json::Fields::Object(json::as_read(wrapper_members(w)));
    assert(json::byte_field(f, 0, "v"@) == Some(w.v));
    assert(json::text_field(f, 1, "alg"@) == Some(w.alg));
    assert(json::opt_text_field(f, 2, "kid"@) == Some(w.kid));
    assert(json::text_field(f, 3, "msg"@) == Some(w.msg));
    assert(json::opt_text_field(f, 4, "sig"@) == Some(w.sig));
}

impl Wrapper {
    /// Serialize the wrapper to the bytes published on the topic. Reading the
    /// bytes gives the wrapper back.
    pub fn to_bytes(&self) -> (r: Result<Vec<u8>, Error>)
        ensures
            r matches Ok(b) && b@ == wrapper_bytes(self@) && wrapper_of(b@) == Some(self@),
    {
        let mut w = json::ObjectWriter::new();
        w.byte("v", self.v);
        w.text("alg", self.alg.as_str());
        w.opt_text("kid", &self.kid);
        w.text("msg", self.msg.as_str());
        w.opt_text("sig", &self.sig);
        proof {
            assert(w.members() == wrapper_members(self@));
        }
        let t: String = w.finish();
        proof {
            lemma_wrapper_reads_back(self@);
        }
        Ok(text::copy_bytes(t.as_str().as_bytes()))
    }

    /// Parse a wrapper received from the stream.
    pub fn from_bytes(bytes: &[u8]) -> (r: Result<Wrapper, RejectReason>)
        ensures
            match r {
                Ok(w) => wrapper_of(bytes@) == Some(w@),
                Err(e) => wrapper_of(bytes@) is None && e@ == RejectView::MalformedWrapper,
            },
    {
        match json::split_fields(bytes, 5) {
            None => Err(RejectReason::MalformedWrapper),
            Some(f) => {
                match (
                    f.byte(0, "v"),
                    f.text(1, "alg"),
                    f.opt_text(2, "kid"),
                    f.text(3, "msg"),
                    f.opt_text(4, "sig"),
                ) {
                    (Some(v), Some(alg), Some(kid), Some(msg), Some(sig)) => Ok(
                        Wrapper { v, alg, kid, msg, sig },
                    ),
                    _ => Err(RejectReason::MalformedWrapper),
                }
            },
        }
    }

    /// The exact inner-message bytes that were signed.
    pub fn inner_bytes(&self) -> (r: Result<Vec<u8>, RejectReason>)
        ensures
            match r {
                Ok(b) => unbase64(self@.msg) == Some(b@),
                Err(e) => unbase64(self@.msg) is None && e@ == RejectView::MalformedWrapper,
            },
    {
        match base64_decode(self.msg.as_str()) {
            Ok(b) => Ok(b),
            Err(_) => Err(RejectReason::MalformedWrapper),
        }
    }

    /// The signature bytes. An unsigned wrapper has none.
    pub fn sig_bytes(&self) -> (r: Result<Vec<u8>, RejectReason>)
        ensures
            match r {
                Ok(b) => self@.sig matches Some(s) && unbase64(s) == Some(b@),
                Err(e) => e@ == RejectView::MalformedWrapper && (self@.sig matches Some(s)
                    ==> unbase64(s) is None),
            },
    {
        match &self.sig {
            None => Err(RejectReason::MalformedWrapper),
            Some(s) => match base64_decode(s.as_str()) {
                Ok(b) => Ok(b),
                Err(_) => Err(RejectReason::MalformedWrapper),
            },
        }
    }
}

// ---------------------------------------------------------------------------
// The inner message as JSON.
// ---------------------------------------------------------------------------

/// The members of encryption metadata.
pub open spec fn enc_members(e: EncView) -> Seq<(Seq<char>, Seq<char>)> {
    let m0 = json::with_text(no_members(), "alg"@, e.alg);
    let m1 = json::with_text(m0, "kem_ct"@, e.kem_ct);
    let m2 = json::with_text(m1, "recipient_kid"@, e.recipient_kid);
    let m3 = json::with_text(m2, "nonce"@, e.nonce);
    json::with_text(m3, "ptype"@, e.ptype)
}

/// The members of a signed grant.
pub open spec fn grant_members(g: GrantView) -> Seq<(Seq<char>, Seq<char>)> {
    let m0 = json::with_text(no_members(), "alg"@, g.alg);
    let m1 = json::with_text(m0, "authority_kid"@, g.authority_kid);
    let m2 = json::with_text(m1, "grant"@, g.grant);
    json::with_text(m2, "sig"@, g.sig)
}

/// The members of a receipt.
pub open spec fn receipt_members(r: ReceiptView) -> Seq<(Seq<char>, Seq<char>)> {
    json::with_text(
        json::with_text(no_members(), "ref_id"@, r.ref_id),
        "status"@,
        status_text(r.status),
    )
}

/// The JSON text of encryption metadata.
pub open spec fn enc_text(e: EncView) -> Seq<char> {
    json::object_text(enc_members(e))
}

/// The JSON text of a signed grant.
pub open spec fn grant_text(g: GrantView) -> Seq<char> {
    json::object_text(grant_members(g))
}

/// The JSON text of a receipt.
pub open spec fn receipt_text(r: ReceiptView) -> Seq<char> {
    json::object_text(receipt_members(r))
}

/// The encryption metadata that bytes stand for.
pub open spec fn enc_of(b: Seq<u8>) -> Option<EncView> {
    match json::fields_of(b, 5) {
        None => None,
        Some(f) => match (
            json::text_field(f, 0, "alg"@),
            json::text_field(f, 1, "kem_ct"@),
            json::text_field(f, 2, "recipient_kid"@),
            json::text_field(f, 3, "nonce"@),
            json::text_field(f, 4, "ptype"@),
        ) {
            (Some(alg), Some(kem_ct), Some(recipient_kid), Some(nonce), Some(ptype)) => Some(
                EncView { alg, kem_ct, recipient_kid, nonce, ptype },
            ),
            _ => None,
        },
    }
}

/// The signed grant that bytes stand for.
pub open spec fn grant_of(b: Seq<u8>) -> Option<GrantView> {
    match json::fields_of(b, 4) {
        None => None,
        Some(f) => match (
            json::text_field(f, 0, "alg"@),
            json::text_field(f, 1, "authority_kid"@),
            json::text_field(f, 2, "grant"@),
            json::text_field(f, 3, "sig"@),
        ) {
            (Some(alg), Some(authority_kid), Some(grant), Some(sig)) => Some(
                GrantView { alg, authority_kid, grant, sig },
            ),
            _ => None,
        },
    }
}

/// The receipt status that a value stands for.
pub open spec fn status_of(v: Seq<u8>) -> Option<ReceiptStatus> {
    match json::variant_name(v) {
        Some(s) => status_named(s),
        None => None,
    }
}

/// The receipt that bytes stand for.
pub open spec fn receipt_of(b: Seq<u8>) -> Option<ReceiptView> {
    match json::fields_of(b, 2) {
        None => None,
        Some(f) => match (json::text_field(f, 0, "ref_id"@), json::slot(f, 1, "status"@)) {
            (Some(ref_id), json::Slot::At(v)) => match status_of(v) {
                Some(status) => Some(ReceiptView { ref_id, status }),
                None => None,
            },
            _ => None,
        },
    }
}

/// The text of an optional value.
pub open spec fn opt_enc_text(e: Option<EncView>) -> Option<Seq<char>> {
    match e {
        Some(x) => Some(enc_text(x)),
        None => None,
    }
}

/// The text of an optional value.
pub open spec fn opt_grant_text(g: Option<GrantView>) -> Option<Seq<char>> {
    match g {
        Some(x) => Some(grant_text(x)),
        None => None,
    }
}

/// The text of an optional value.
pub open spec fn opt_receipt_text(r: Option<ReceiptView>) -> Option<Seq<char>> {
    match r {
        Some(x) => Some(receipt_text(x)),
        None => None,
    }
}

/// The members of an inner message that are always there up to the body.
pub open spec fn inner_head(i: InnerView) -> Seq<(Seq<char>, Seq<char>)> {
    let m0 = json::with_text(no_members(), "id"@, i.id);
    let m1 = m0.push(("v"@, text::decimal(i.v as nat)));
    let m2 = json::with_text(m1, "from"@, i.from);
    let m3 = json::with_text(m2, "to"@, i.to);
    let m4 = json::with_text(m3, "ts"@, i.ts);
    let m5 = json::with_text(m4, "nonce"@, i.nonce);
    let m6 = json::with_text(m5, "ctype"@, i.ctype);
    let m7 = json::with_opt_text(m6, "in_reply_to"@, i.in_reply_to);
    json::with_text(m7, "body"@, i.body)
}

/// The members of an inner message, in the order in which they are written.
pub open spec fn inner_members(i: InnerView) -> Seq<(Seq<char>, Seq<char>)> {
    let m9 = json::with_text(inner_head(i), "kind"@, kind_text(i.kind));
    let m10 = json::with_opt_text(m9, "correlation_id"@, i.correlation_id);
    let m11 = json::with_opt_text(m10, "supersedes"@, i.supersedes);
    let m12 = json::with_opt_value(m11, "enc"@, opt_enc_text(i.enc));
    let m13 = json::with_opt_value(m12, "grant"@, opt_grant_text(i.grant));
    json::with_opt_value(m13, "receipt"@, opt_receipt_text(i.receipt))
}

/// The bytes of an inner message: compact JSON, absent fields left out.
pub open spec fn inner_json(i: InnerView) -> Seq<u8> {
    encode_utf8(json::object_text(inner_members(i)))
}

/// The kind that a field stands for, `message` where it is absent.
pub open spec fn kind_field(s: json::Slot) -> Option<MsgKind> {
    match s {
        json::Slot::Absent => Some(MsgKind::Message),
        json::Slot::Twice => None,
        json::Slot::At(v) => match json::variant_name(v) {
            Some(n) => kind_named(n),
            None => None,
        },
    }
}

/// The encryption metadata that an optional value stands for.
pub open spec fn enc_field(v: Option<Option<Seq<u8>>>) -> Option<Option<EncView>> {
    match v {
        None => None,
        Some(None) => Some(None),
        Some(Some(b)) => match enc_of(b) {
            Some(e) => Some(Some(e)),
            None => None,
        },
    }
}

/// The grant that an optional value stands for.
pub open spec fn grant_field(v: Option<Option<Seq<u8>>>) -> Option<Option<GrantView>> {
    match v {
        None => None,
        Some(None) => Some(None),
        Some(Some(b)) => match grant_of(b) {
            Some(e) => Some(Some(e)),
            None => None,
        },
    }
}

/// The receipt that an optional value stands for.
pub open spec fn receipt_field(v: Option<Option<Seq<u8>>>) -> Option<Option<ReceiptView>> {
    match v {
        None => None,
        Some(None) => Some(None),
        Some(Some(b)) => match receipt_of(b) {
            Some(e) => Some(Some(e)),
            None => None,
        },
    }
}

/// The inner message that fields stand for.
pub open spec fn inner_of_fields(f: json::Fields) -> Option<InnerView> {
    match (
        json::text_field(f, 0, "id"@),
        json::byte_field(f, 1, "v"@),
        json::text_field(f, 2, "from"@),
        json::text_field(f, 3, "to"@),
        json::text_field(f, 4, "ts"@),
        json::text_field(f, 5, "nonce"@),
        json::text_field(f, 6, "ctype"@),
        json::opt_text_field(f, 7, "in_reply_to"@),
        json::text_field(f, 8, "body"@),
    ) {
        (
            Some(id),
            Some(v),
            Some(from),
            Some(to),
            Some(ts),
            Some(nonce),
            Some(ctype),
            Some(in_reply_to),
            Some(body),
        ) => match (
            kind_field(json::slot(f, 9, "kind"@)),
            json::opt_text_field(f, 10, "correlation_id"@),
            json::opt_text_field(f, 11, "supersedes"@),
            enc_field(json::opt_value_field(f, 12, "enc"@)),
            grant_field(json::opt_value_field(f, 13, "grant"@)),
            receipt_field(json::opt_value_field(f, 14, "receipt"@)),
        ) {
            (
                Some(kind),
                Some(correlation_id),
                Some(supersedes),
                Some(enc),
                Some(grant),
                Some(receipt),
            ) => Some(
                InnerView {
                    id,
                    v,
                    from,
                    to,
                    ts,
                    nonce,
                    ctype,
                    in_reply_to,
                    body,
                    kind,
                    correlation_id,
                    supersedes,
                    enc,
                    grant,
                    receipt,
                },
            ),
            _ => None,
        },
        _ => None,
    }
}

/// The inner message that bytes stand for.
pub open spec fn inner_of(b: Seq<u8>) -> Option<InnerView> {
    match json::fields_of(b, 15) {
        None => None,
        Some(f) => inner_of_fields(f),
    }
}

/// The strings of encryption metadata read back.
spec fn enc_strings_read_back(e: EncView) -> bool {
    &&& json::all_read_back(enc_members(e))
    &&& json::reads_back(e.alg)
    &&& json::reads_back(e.kem_ct)
    &&& json::reads_back(e.recipient_kid)
    &&& json::reads_back(e.nonce)
    &&& json::reads_back(e.ptype)
}

proof fn lemma_enc_reads_back(e: EncView)
    requires
        enc_strings_read_back(e),
    ensures
        enc_of(encode_utf8(enc_text(e))) == Some(e),
{
    let m0 = json::with_text(no_members(), "alg"@, e.alg);
    let m1 = json::with_text(m0, "kem_ct"@, e.kem_ct);
    let m2 = json::with_text(m1, "recipient_kid"@, e.recipient_kid);
    let m3 = json::with_text(m2, "nonce"@, e.nonce);
    json::lemma_members_read_back(enc_members(e));
    json::lemma_slot_empty();
    json::lemma_slot_push(no_members(), "alg"@, json::json_quoted(e.alg));
    json::lemma_slot_push(m0, "kem_ct"@, json::json_quoted(e.kem_ct));
    json::lemma_slot_push(m1, "recipient_kid"@, json::json_quoted(e.recipient_kid));
    json::lemma_slot_push(m2, "nonce"@, json::json_quoted(e.nonce));
    json::lemma_slot_push(m3, "ptype"@, json::json_quoted(e.ptype));
    reveal_strlit("alg");
    reveal_strlit("kem_ct");
    reveal_strlit("recipient_kid");
    reveal_strlit("nonce");
    reveal_strlit("ptype");
    assert("alg"@.len() == 3 && "kem_ct"@.len() == 6 && "recipient_kid"@.len() == 13);
    assert("nonce"@.len() == 5 && "ptype"@.len() == 5 && "nonce"@[0] != "ptype"@[0]);
    let f = json::Fields::Object(json::as_read(enc_members(e)));
    assert(json::text_field(f, 0, "alg"@) == Some(e.alg));
    assert(json::text_field(f, 1, "kem_ct"@) == Some(e.kem_ct));
    assert(json::text_field(f, 2, "recipient_kid"@) == Some(e.recipient_kid));
    assert(json::text_field(f, 3, "nonce"@) == Some(e.nonce));
    assert(json::text_field(f, 4, "ptype"@) == Some(e.ptype));
}

pub(crate) open spec fn grant_strings_read_back(g: GrantView) -> bool {
    &&& json::all_read_back(grant_members(g))
    &&& json::reads_back(g.alg)
    &&& json::reads_back(g.authority_kid)
    &&& json::reads_back(g.grant)
    &&& json::reads_back(g.sig)
}

proof fn lemma_grant_reads_back(g: GrantView)
    requires
        grant_strings_read_back(g),
    ensures
        grant_of(encode_utf8(grant_text(g))) == Some(g),
{
    let m0 = json::with_text(no_members(), "alg"@, g.alg);
    let m1 = json::with_text(m0, "authority_kid"@, g.authority_kid);
    let m2 = json::with_text(m1, "grant"@, g.grant);
    json::lemma_members_read_back(grant_members(g));
    json::lemma_slot_empty();
    json::lemma_slot_push(no_members(), "alg"@, json::json_quoted(g.alg));
    json::lemma_slot_push(m0, "authority_kid"@, json::json_quoted(g.authority_kid));
    json::lemma_slot_push(m1, "grant"@, json::json_quoted(g.grant));
    json::lemma_slot_push(m2, "sig"@, json::json_quoted(g.sig));
    reveal_strlit("alg");
    reveal_strlit("authority_kid");
    reveal_strlit("grant");
    reveal_strlit("sig");
    assert("alg"@.len() == 3 && "authority_kid"@.len() == 13 && "grant"@.len() == 5);
    assert("sig"@.len() == 3 && "alg"@[0] != "sig"@[0]);
    let f = json::Fields::Object(json::as_read(grant_members(g)));
    assert(json::text_field(f, 0, "alg"@) == Some(g.alg));
    assert(json::text_field(f, 1, "authority_kid"@) == Some(g.authority_kid));
    assert(json::text_field(f, 2, "grant"@) == Some(g.grant));
    assert(json::text_field(f, 3, "sig"@) == Some(g.sig));
}

spec fn receipt_strings_read_back(r: ReceiptView) -> bool {
    &&& json::all_read_back(receipt_members(r))
    &&& json::reads_back(r.ref_id)
    &&& json::reads_back(status_text(r.status))
}

proof fn lemma_receipt_reads_back(r: ReceiptView)
    requires
        receipt_strings_read_back(r),
    ensures
        receipt_of(encode_utf8(receipt_text(r))) == Some(r),
{
    let m0 = json::with_text(no_members(), "ref_id"@, r.ref_id);
    json::lemma_members_read_back(receipt_members(r));
    json::lemma_slot_empty();
    json::lemma_slot_push(no_members(), "ref_id"@, json::json_quoted(r.ref_id));
    json::lemma_slot_push(m0, "status"@, json::json_quoted(status_text(r.status)));
    json::lemma_variant_reads_back(status_text(r.status));
    status_is_found_by_its_name(r.status);
    reveal_strlit("ref_id");
    reveal_strlit("status");
    assert("ref_id"@[0] != "status"@[0]);
    let f = json::Fields::Object(json::as_read(receipt_members(r)));
    assert(json::text_field(f, 0, "ref_id"@) == Some(r.ref_id));
    assert(json::slot(f, 1, "status"@) == json::Slot::At(
        encode_utf8(json::json_quoted(status_text(r.status))),
    ));
}

/// The keys of an inner message are all different.
proof fn lemma_inner_keys_differ()
    ensures
        ({
            let keys = seq![
                "id"@,
                "v"@,
                "from"@,
                "to"@,
                "ts"@,
                "nonce"@,
                "ctype"@,
                "in_reply_to"@,
                "body"@,
                "kind"@,
                "correlation_id"@,
                "supersedes"@,
                "enc"@,
                "grant"@,
                "receipt"@,
            ];
            forall|i: int, j: int|
                0 <= i < j < 15 ==> #[trigger] keys[i] != #[trigger] keys[j]
        }),
{
    reveal_strlit("id");
    reveal_strlit("v");
    reveal_strlit("from");
    reveal_strlit("to");
    reveal_strlit("ts");
    reveal_strlit("nonce");
    reveal_strlit("ctype");
    reveal_strlit("in_reply_to");
    reveal_strlit("body");
    reveal_strlit("kind");
    reveal_strlit("correlation_id");
    reveal_strlit("supersedes");
    reveal_strlit("enc");
    reveal_strlit("grant");
    reveal_strlit("receipt");
    assert("v"@.len() == 1 && "enc"@.len() == 3 && "receipt"@.len() == 7);
    assert("supersedes"@.len() == 10 && "in_reply_to"@.len() == 11);
    assert("correlation_id"@.len() == 14);
    assert("id"@.len() == 2 && "to"@.len() == 2 && "ts"@.len() == 2);
    assert("id"@[0] != "to"@[0] && "id"@[0] != "ts"@[0] && "to"@[1] != "ts"@[1]);
    assert("from"@.len() == 4 && "body"@.len() == 4 && "kind"@.len() == 4);
    assert("from"@[0] != "body"@[0] && "from"@[0] != "kind"@[0] && "body"@[0] != "kind"@[0]);
    assert("nonce"@.len() == 5 && "ctype"@.len() == 5 && "grant"@.len() == 5);
    assert("nonce"@[0] != "ctype"@[0] && "nonce"@[0] != "grant"@[0] && "ctype"@[0] != "grant"@[0]);
}

/// Everything that is written of an inner message reads back.
spec fn inner_strings_read_back(i: InnerView) -> bool {
    &&& json::all_read_back(inner_members(i))
    &&& json::json_byte(encode_utf8(text::decimal(i.v as nat))) == Some(i.v)
    &&& json::reads_back(i.id)
    &&& json::reads_back(i.from)
    &&& json::reads_back(i.to)
    &&& json::reads_back(i.ts)
    &&& json::reads_back(i.nonce)
    &&& json::reads_back(i.ctype)
    &&& json::reads_back(i.body)
    &&& json::reads_back(kind_text(i.kind))
    &&& i.in_reply_to matches Some(s) ==> json::reads_back(s)
    &&& i.correlation_id matches Some(s) ==> json::reads_back(s)
    &&& i.supersedes matches Some(s) ==> json::reads_back(s)
    &&& i.enc matches Some(e) ==> enc_strings_read_back(e)
    &&& i.grant matches Some(g) ==> grant_strings_read_back(g)
    &&& i.receipt matches Some(r) ==> receipt_strings_read_back(r)
}

spec fn slot_at(s: json::Slot, v: Seq<char>) -> bool {
    s == json::Slot::At(encode_utf8(v))
}

spec fn slot_opt(s: json::Slot, v: Option<Seq<char>>) -> bool {
    match v {
        Some(t) => slot_at(s, t),
        None => s == json::Slot::Absent,
    }
}

spec fn opt_quoted(v: Option<Seq<char>>) -> Option<Seq<char>> {
    match v {
        Some(t) => Some(json::json_quoted(t)),
        None => None,
    }
}

/// Under each key of a written message stands what was written there.
#[verifier::rlimit(40)]
proof fn lemma_inner_slots(i: InnerView)
    ensures
        ({
            let ms = json::as_read(inner_members(i));
            &&& slot_at(json::slot_in(ms, "id"@), json::json_quoted(i.id))
            &&& slot_at(json::slot_in(ms, "v"@), text::decimal(i.v as nat))
            &&& slot_at(json::slot_in(ms, "from"@), json::json_quoted(i.from))
            &&& slot_at(json::slot_in(ms, "to"@), json::json_quoted(i.to))
            &&& slot_at(json::slot_in(ms, "ts"@), json::json_quoted(i.ts))
            &&& slot_at(json::slot_in(ms, "nonce"@), json::json_quoted(i.nonce))
            &&& slot_at(json::slot_in(ms, "ctype"@), json::json_quoted(i.ctype))
            &&& slot_opt(json::slot_in(ms, "in_reply_to"@), opt_quoted(i.in_reply_to))
            &&& slot_at(json::slot_in(ms, "body"@), json::json_quoted(i.body))
            &&& slot_at(json::slot_in(ms, "kind"@), json::json_quoted(kind_text(i.kind)))
            &&& slot_opt(json::slot_in(ms, "correlation_id"@), opt_quoted(i.correlation_id))
            &&& slot_opt(json::slot_in(ms, "supersedes"@), opt_quoted(i.supersedes))
            &&& slot_opt(json::slot_in(ms, "enc"@), opt_enc_text(i.enc))
            &&& slot_opt(json::slot_in(ms, "grant"@), opt_grant_text(i.grant))
            &&& slot_opt(json::slot_in(ms, "receipt"@), opt_receipt_text(i.receipt))
        }),
{
    let keys = seq![
        "id"@,
        "v"@,
        "from"@,
        "to"@,
        "ts"@,
        "nonce"@,
        "ctype"@,
        "in_reply_to"@,
        "body"@,
        "kind"@,
        "correlation_id"@,
        "supersedes"@,
        "enc"@,
        "grant"@,
        "receipt"@,
    ];
    lemma_inner_keys_differ();
    assert(forall|a: int, b: int| 0 <= a < b < 15 ==> #[trigger] keys[a] != #[trigger] keys[b]);
    assert(keys[0] == "id"@ && keys[1] == "v"@ && keys[2] == "from"@ && keys[3] == "to"@ && keys[4]
        == "ts"@ && keys[5] == "nonce"@ && keys[6] == "ctype"@ && keys[7] == "in_reply_to"@
        && keys[8] == "body"@ && keys[9] == "kind"@ && keys[10] == "correlation_id"@ && keys[11]
        == "supersedes"@ && keys[12] == "enc"@ && keys[13] == "grant"@ && keys[14] == "receipt"@);
    let m0 = json::with_text(no_members(), "id"@, i.id);
    let m1 = m0.push(("v"@, text::decimal(i.v as nat)));
    let m2 = json::with_text(m1, "from"@, i.from);
    let m3 = json::with_text(m2, "to"@, i.to);
    let m4 = json::with_text(m3, "ts"@, i.ts);
    let m5 = json::with_text(m4, "nonce"@, i.nonce);
    let m6 = json::with_text(m5, "ctype"@, i.ctype);
    let m7 = json::with_opt_text(m6, "in_reply_to"@, i.in_reply_to);
    let m8 = inner_head(i);
    let m9 = json::with_text(m8, "kind"@, kind_text(i.kind));
    let m10 = json::with_opt_text(m9, "correlation_id"@, i.correlation_id);
    let m11 = json::with_opt_text(m10, "supersedes"@, i.supersedes);
    let m12 = json::with_opt_value(m11, "enc"@, opt_enc_text(i.enc));
    let m13 = json::with_opt_value(m12, "grant"@, opt_grant_text(i.grant));
    json::lemma_slot_empty();
    json::lemma_slot_push(no_members(), "id"@, json::json_quoted(i.id));
    json::lemma_slot_push(m0, "v"@, text::decimal(i.v as nat));
    json::lemma_slot_push(m1, "from"@, json::json_quoted(i.from));
    json::lemma_slot_push(m2, "to"@, json::json_quoted(i.to));
    json::lemma_slot_push(m3, "ts"@, json::json_quoted(i.ts));
    json::lemma_slot_push(m4, "nonce"@, json::json_quoted(i.nonce));
    json::lemma_slot_push(m5, "ctype"@, json::json_quoted(i.ctype));
    if let Some(s) = i.in_reply_to {
        json::lemma_slot_push(m6, "in_reply_to"@, json::json_quoted(s));
    }
    json::lemma_slot_push(m7, "body"@, json::json_quoted(i.body));
    json::lemma_slot_push(m8, "kind"@, json::json_quoted(kind_text(i.kind)));
    if let Some(s) = i.correlation_id {
        json::lemma_slot_push(m9, "correlation_id"@, json::json_quoted(s));
    }
    if let Some(s) = i.supersedes {
        json::lemma_slot_push(m10, "supersedes"@, json::json_quoted(s));
    }
    if let Some(e) = i.enc {
        json::lemma_slot_push(m11, "enc"@, enc_text(e));
    }
    if let Some(g) = i.grant {
        json::lemma_slot_push(m12, "grant"@, grant_text(g));
    }
    if let Some(r) = i.receipt {
        json::lemma_slot_push(m13, "receipt"@, receipt_text(r));
    }
}

proof fn lemma_inner_reads_back(i: InnerView)
    requires
        inner_strings_read_back(i),
    ensures
        inner_of(inner_json(i)) == Some(i),
{
    json::lemma_members_read_back(inner_members(i));
    lemma_inner_slots(i);
    let f = json::Fields::Object(json::as_read(inner_members(i)));
    json::lemma_variant_reads_back(kind_text(i.kind));
    kind_is_found_by_its_name(i.kind);
    if let Some(e) = i.enc {
        lemma_enc_reads_back(e);
        json::lemma_object_starts(enc_members(e));
    }
    if let Some(g) = i.grant {
        lemma_grant_reads_back(g);
        json::lemma_object_starts(grant_members(g));
    }
    if let Some(r) = i.receipt {
        lemma_receipt_reads_back(r);
        json::lemma_object_starts(receipt_members(r));
    }
    assert(json::opt_text_field(f, 7, "in_reply_to"@) == Some(i.in_reply_to));
    assert(json::opt_text_field(f, 10, "correlation_id"@) == Some(i.correlation_id));
    assert(json::opt_text_field(f, 11, "supersedes"@) == Some(i.supersedes));
    assert(enc_field(json::opt_value_field(f, 12, "enc"@)) == Some(i.enc));
    assert(grant_field(json::opt_value_field(f, 13, "grant"@)) == Some(i.grant));
    assert(receipt_field(json::opt_value_field(f, 14, "receipt"@)) == Some(i.receipt));
}

impl EncInfo {
    fn json(&self) -> (t: String)
        ensures
            t@ == enc_text(self@),
            json::is_value(encode_utf8(t@)),
            enc_strings_read_back(self@),
    {
        let fields: [(&str, &str); 5] = [
            ("alg", self.alg.as_str()),
            ("kem_ct", self.kem_ct.as_str()),
            ("recipient_kid", self.recipient_kid.as_str()),
            ("nonce", self.nonce.as_str()),
            ("ptype", self.ptype.as_str()),
        ];
        let t: String = json::write_strings(&fields);
        proof {
            let ms = enc_members(self@);
            assert(json::string_members(fields@) =~= ms);
            assert(fields@.len() == 5);
            assert(json::reads_back(fields@[0].0@) && json::reads_back(fields@[1].0@)
                && json::reads_back(fields@[2].0@) && json::reads_back(fields@[3].0@)
                && json::reads_back(fields@[4].0@));
        }
        t
    }

    fn from_json(b: &[u8]) -> (r: Option<EncInfo>)
        ensures
            opt_enc(r) == enc_of(b@),
    {
        match json::split_fields(b, 5) {
            None => None,
            Some(f) => {
                match (
                    f.text(0, "alg"),
                    f.text(1, "kem_ct"),
                    f.text(2, "recipient_kid"),
                    f.text(3, "nonce"),
                    f.text(4, "ptype"),
                ) {
                    (
                        Some(alg),
                        Some(kem_ct),
                        Some(recipient_kid),
                        Some(nonce),
                        Some(ptype),
                    ) => Some(EncInfo { alg, kem_ct, recipient_kid, nonce, ptype }),
                    _ => None,
                }
            },
        }
    }
}

impl SignedGrant {
    /// The compact JSON of the grant, which reads back.
    pub(crate) fn json(&self) -> (t: String)
        ensures
            t@ == grant_text(self@),
            json::is_value(encode_utf8(t@)),
            grant_strings_read_back(self@),
            grant_of(encode_utf8(t@)) == Some(self@),
    {
        let fields: [(&str, &str); 4] = [
            ("alg", self.alg.as_str()),
            ("authority_kid", self.authority_kid.as_str()),
            ("grant", self.grant.as_str()),
            ("sig", self.sig.as_str()),
        ];
        let t: String = json::write_strings(&fields);
        proof {
            let ms = grant_members(self@);
            assert(json::string_members(fields@) =~= ms);
            assert(fields@.len() == 4);
            assert(json::reads_back(fields@[0].0@) && json::reads_back(fields@[1].0@)
                && json::reads_back(fields@[2].0@) && json::reads_back(fields@[3].0@));
            lemma_grant_reads_back(self@);
        }
        t
    }

    /// The grant that JSON bytes stand for.
    pub(crate) fn from_json(b: &[u8]) -> (r: Option<SignedGrant>)
        ensures
            opt_grant(r) == grant_of(b@),
    {
        match json::split_fields(b, 4) {
            None => None,
            Some(f) => {
                match (
                    f.text(0, "alg"),
                    f.text(1, "authority_kid"),
                    f.text(2, "grant"),
                    f.text(3, "sig"),
                ) {
                    (Some(alg), Some(authority_kid), Some(grant), Some(sig)) => Some(
                        SignedGrant { alg, authority_kid, grant, sig },
                    ),
                    _ => None,
                }
            },
        }
    }
}

impl Receipt {
    fn json(&self) -> (t: String)
        ensures
            t@ == receipt_text(self@),
            json::is_value(encode_utf8(t@)),
            receipt_strings_read_back(self@),
    {
        let fields: [(&str, &str); 2] = [
            ("ref_id", self.ref_id.as_str()),
            ("status", status_str(self.status)),
        ];
        let t: String = json::write_strings(&fields);
        proof {
            let ms = receipt_members(self@);
            assert(json::string_members(fields@) =~= ms);
            assert(fields@.len() == 2);
            assert(json::reads_back(fields@[0].0@) && json::reads_back(fields@[1].0@));
        }
        t
    }

    fn from_json(b: &[u8]) -> (r: Option<Receipt>)
        ensures
            opt_receipt(r) == receipt_of(b@),
    {
        match json::split_fields(b, 2) {
            None => None,
            Some(f) => {
                match (f.text(0, "ref_id"), f.slot(1, "status")) {
                    (Some(ref_id), json::SlotOf::At(v)) => match json::read_variant(v) {
                        Some(n) => match status_by_name(n.as_str()) {
                            Some(status) => Some(Receipt { ref_id, status }),
                            None => None,
                        },
                        None => None,
                    },
                    _ => None,
                }
            },
        }
    }
}

fn kind_from(s: json::SlotOf) -> (r: Option<MsgKind>)
    ensures
        r == kind_field(s@),
{
    match s {
        json::SlotOf::Absent => Some(MsgKind::Message),
        json::SlotOf::Twice => None,
        json::SlotOf::At(v) => match json::read_variant(v) {
            Some(n) => kind_by_name(n.as_str()),
            None => None,
        },
    }
}

/// The model of what a reader made of an optional value.
spec fn opt_slice(v: Option<Option<&[u8]>>) -> Option<Option<Seq<u8>>> {
    match v {
        None => None,
        Some(None) => Some(None),
        Some(Some(b)) => Some(Some(b@)),
    }
}

fn enc_from(v: Option<Option<&[u8]>>) -> (r: Option<Option<EncInfo>>)
    ensures
        match r {
            Some(o) => enc_field(opt_slice(v)) == Some(opt_enc(o)),
            None => enc_field(opt_slice(v)) is None,
        },
{
    match v {
        None => None,
        Some(None) => Some(None),
        Some(Some(b)) => match EncInfo::from_json(b) {
            Some(e) => Some(Some(e)),
            None => None,
        },
    }
}

fn grant_from(v: Option<Option<&[u8]>>) -> (r: Option<Option<SignedGrant>>)
    ensures
        match r {
            Some(o) => grant_field(opt_slice(v)) == Some(opt_grant(o)),
            None => grant_field(opt_slice(v)) is None,
        },
{
    match v {
        None => None,
        Some(None) => Some(None),
        Some(Some(b)) => match SignedGrant::from_json(b) {
            Some(e) => Some(Some(e)),
            None => None,
        },
    }
}

fn receipt_from(v: Option<Option<&[u8]>>) -> (r: Option<Option<Receipt>>)
    ensures
        match r {
            Some(o) => receipt_field(opt_slice(v)) == Some(opt_receipt(o)),
            None => receipt_field(opt_slice(v)) is None,
        },
{
    match v {
        None => None,
        Some(None) => Some(None),
        Some(Some(b)) => match Receipt::from_json(b) {
            Some(e) => Some(Some(e)),
            None => None,
        },
    }
}

impl Inner {
    /// True if this message targets everyone.
    pub fn is_broadcast(&self) -> (r: bool)
        ensures
            r == (self@.to == BROADCAST@),
    {
        text::str_eq(self.to.as_str(), BROADCAST)
    }

    /// True if this message is addressed to `me` or is a broadcast.
    pub fn addressed_to(&self, me: &str) -> (r: bool)
        ensures
            r == (self@.to == BROADCAST@ || self@.to == me@),
    {
        self.is_broadcast() || text::str_eq(self.to.as_str(), me)
    }

    /// Serialize the message. These exact bytes are signed and transmitted, and
    /// reading them gives the message back.
    pub fn to_bytes(&self) -> (b: Vec<u8>)
        ensures
            b@ == inner_json(self@),
            inner_of(b@) == Some(self@),
    {
        let mut w = json::ObjectWriter::new();
        w.text("id", self.id.as_str());
        w.byte("v", self.v);
        w.text("from", self.from.as_str());
        w.text("to", self.to.as_str());
        w.text("ts", self.ts.as_str());
        w.text("nonce", self.nonce.as_str());
        w.text("ctype", self.ctype.as_str());
        w.opt_text("in_reply_to", &self.in_reply_to);
        w.text("body", self.body.as_str());
        assert(w.members() == inner_head(self@));
        w.text("kind", kind_str(self.kind));
        w.opt_text("correlation_id", &self.correlation_id);
        w.opt_text("supersedes", &self.supersedes);
        if let Some(e) = &self.enc {
            let t: String = e.json();
            w.value("enc", t.as_str());
        }
        if let Some(g) = &self.grant {
            let t: String = g.json();
            w.value("grant", t.as_str());
        }
        if let Some(r) = &self.receipt {
            let t: String = r.json();
            w.value("receipt", t.as_str());
        }
        assert(w.members() == inner_members(self@));
        let t: String = w.finish();
        proof {
            lemma_inner_reads_back(self@);
        }
        text::copy_bytes(t.as_str().as_bytes())
    }
}

impl Wrapper {
    /// Parse the inner message from already-decoded inner bytes.
    pub fn parse_inner(inner_bytes: &[u8]) -> (r: Result<Inner, RejectReason>)
        ensures
            match r {
                Ok(i) => inner_of(inner_bytes@) == Some(i@),
                Err(e) => inner_of(inner_bytes@) is None && e@ == RejectView::MalformedWrapper,
            },
    {
        match json::split_fields(inner_bytes, 15) {
            None => Err(RejectReason::MalformedWrapper),
            Some(f) => match inner_from_fields(&f) {
                Some(i) => Ok(i),
                None => Err(RejectReason::MalformedWrapper),
            },
        }
    }
}

/// The inner message that fields stand for.
fn inner_from_fields(f: &json::FieldsOf) -> (r: Option<Inner>)
    ensures
        match r {
            Some(i) => inner_of_fields(f@) == Some(i@),
            None => inner_of_fields(f@) is None,
        },
{
    match (
        f.text(0, "id"),
        f.byte(1, "v"),
        f.text(2, "from"),
        f.text(3, "to"),
        f.text(4, "ts"),
        f.text(5, "nonce"),
        f.text(6, "ctype"),
        f.opt_text(7, "in_reply_to"),
        f.text(8, "body"),
    ) {
        (
            Some(id),
            Some(v),
            Some(from),
            Some(to),
            Some(ts),
            Some(nonce),
            Some(ctype),
            Some(in_reply_to),
            Some(body),
        ) => {
            match (
                kind_from(f.slot(9, "kind")),
                f.opt_text(10, "correlation_id"),
                f.opt_text(11, "supersedes"),
                enc_from(f.opt_value(12, "enc")),
                grant_from(f.opt_value(13, "grant")),
                receipt_from(f.opt_value(14, "receipt")),
            ) {
                (
                    Some(kind),
                    Some(correlation_id),
                    Some(supersedes),
                    Some(enc),
                    Some(grant),
                    Some(receipt),
                ) => Some(
                    Inner {
                        id,
                        v,
                        from,
                        to,
                        ts,
                        nonce,
                        ctype,
                        in_reply_to,
                        body,
                        kind,
                        correlation_id,
                        supersedes,
                        enc,
                        grant,
                        receipt,
                    },
                ),
                _ => None,
            }
        },
        _ => None,
    }
}

// ---------------------------------------------------------------------------
// Names on the wire.
// ---------------------------------------------------------------------------

/// A required string stands under the key.
pub open spec fn text_under(ms: Seq<json::Member>, key: Seq<char>, s: Seq<char>) -> bool {
    json::slot_in(ms, key) matches json::Slot::At(v) && json::json_string(v) == Some(s)
}

/// An optional string stands under the key, or the key is absent or `null`.
pub open spec fn opt_text_under(
    ms: Seq<json::Member>,
    key: Seq<char>,
    s: Option<Seq<char>>,
) -> bool {
    match s {
        Some(t) => text_under(ms, key, t),
        None => json::slot_in(ms, key) == json::Slot::Absent || json::slot_in(ms, key)
            == json::Slot::At(json::null_text()),
    }
}

/// A wrapper that was read says what stands under its names.
pub proof fn a_wrapper_is_read_by_its_names(b: Seq<u8>, ms: Seq<json::Member>, w: WrapperView)
    requires
        json::members_of(b) == Some(ms),
        wrapper_of(b) == Some(w),
    ensures
        json::slot_in(ms, "v"@) matches json::Slot::At(v) && json::json_byte(v) == Some(w.v),
        text_under(ms, "alg"@, w.alg),
        opt_text_under(ms, "kid"@, w.kid),
        text_under(ms, "msg"@, w.msg),
        opt_text_under(ms, "sig"@, w.sig),
{
}

/// A message that was read says what stands under its names. Its kind is the one
/// that is named, and a plain message where none is.
#[verifier::rlimit(40)]
pub proof fn a_message_is_read_by_its_names(b: Seq<u8>, ms: Seq<json::Member>, i: InnerView)
    requires
        json::members_of(b) == Some(ms),
        inner_of(b) == Some(i),
    ensures
        text_under(ms, "id"@, i.id),
        json::slot_in(ms, "v"@) matches json::Slot::At(v) && json::json_byte(v) == Some(i.v),
        text_under(ms, "from"@, i.from),
        text_under(ms, "to"@, i.to),
        text_under(ms, "ts"@, i.ts),
        text_under(ms, "nonce"@, i.nonce),
        text_under(ms, "ctype"@, i.ctype),
        opt_text_under(ms, "in_reply_to"@, i.in_reply_to),
        text_under(ms, "body"@, i.body),
        json::slot_in(ms, "kind"@) == json::Slot::Absent ==> i.kind == MsgKind::Message,
        json::slot_in(ms, "kind"@) matches json::Slot::At(v) ==> (json::variant_name(
            v,
        ) matches Some(n) && kind_named(n) == Some(i.kind)),
        json::slot_in(ms, "kind"@) != json::Slot::Twice,
        opt_text_under(ms, "correlation_id"@, i.correlation_id),
        opt_text_under(ms, "supersedes"@, i.supersedes),
        i.enc matches Some(e) ==> (json::slot_in(ms, "enc"@) matches json::Slot::At(v) && enc_of(v)
            == Some(e)),
        i.enc is None ==> json::slot_in(ms, "enc"@) == json::Slot::Absent || json::slot_in(
            ms,
            "enc"@,
        ) == json::Slot::At(json::null_text()),
        i.grant matches Some(g) ==> (json::slot_in(ms, "grant"@) matches json::Slot::At(v)
            && grant_of(v) == Some(g)),
        i.grant is None ==> json::slot_in(ms, "grant"@) == json::Slot::Absent || json::slot_in(
            ms,
            "grant"@,
        ) == json::Slot::At(json::null_text()),
        i.receipt matches Some(r) ==> (json::slot_in(ms, "receipt"@) matches json::Slot::At(v)
            && receipt_of(v) == Some(r)),
        i.receipt is None ==> json::slot_in(ms, "receipt"@) == json::Slot::Absent || json::slot_in(
            ms,
            "receipt"@,
        ) == json::Slot::At(json::null_text()),
{
}

/// Encryption metadata, grants and receipts that were read say what stands under
/// their names.
pub proof fn parts_are_read_by_their_names(b: Seq<u8>, ms: Seq<json::Member>)
    requires
        json::members_of(b) == Some(ms),
    ensures
        enc_of(b) matches Some(e) ==> text_under(ms, "alg"@, e.alg) && text_under(
            ms,
            "kem_ct"@,
            e.kem_ct,
        ) && text_under(ms, "recipient_kid"@, e.recipient_kid) && text_under(ms, "nonce"@, e.nonce)
            && text_under(ms, "ptype"@, e.ptype),
        grant_of(b) matches Some(g) ==> text_under(ms, "alg"@, g.alg) && text_under(
            ms,
            "authority_kid"@,
            g.authority_kid,
        ) && text_under(ms, "grant"@, g.grant) && text_under(ms, "sig"@, g.sig),
        receipt_of(b) matches Some(r) ==> text_under(ms, "ref_id"@, r.ref_id) && (json::slot_in(
            ms,
            "status"@,
        ) matches json::Slot::At(v) && (json::variant_name(v) matches Some(n) && status_named(n)
            == Some(r.status))),
{
}

/// A member with this key and this value is written.
pub open spec fn writes(
    ms: Seq<(Seq<char>, Seq<char>)>,
    key: Seq<char>,
    value: Seq<char>,
) -> bool {
    exists|i: int| 0 <= i < ms.len() && #[trigger] ms[i] == (key, value)
}

/// Whatever a message has is written under its name, in its order: first the id,
/// then the version, sender, recipient, time, nonce and content type.
#[verifier::rlimit(40)]
pub proof fn a_message_is_written_under_its_names(i: InnerView)
    ensures
        ({
            let ms = inner_members(i);
            &&& ms[0] == ("id"@, json::json_quoted(i.id))
            &&& ms[1] == ("v"@, text::decimal(i.v as nat))
            &&& ms[2] == ("from"@, json::json_quoted(i.from))
            &&& ms[3] == ("to"@, json::json_quoted(i.to))
            &&& ms[4] == ("ts"@, json::json_quoted(i.ts))
            &&& ms[5] == ("nonce"@, json::json_quoted(i.nonce))
            &&& ms[6] == ("ctype"@, json::json_quoted(i.ctype))
            &&& i.in_reply_to matches Some(r) ==> writes(ms, "in_reply_to"@, json::json_quoted(r))
            &&& writes(ms, "body"@, json::json_quoted(i.body))
            &&& i.correlation_id matches Some(c) ==> writes(
                ms,
                "correlation_id"@,
                json::json_quoted(c),
            )
            &&& i.supersedes matches Some(s) ==> writes(ms, "supersedes"@, json::json_quoted(s))
            &&& i.enc matches Some(e) ==> writes(ms, "enc"@, enc_text(e))
            &&& i.grant matches Some(g) ==> writes(ms, "grant"@, grant_text(g))
            &&& i.receipt matches Some(r) ==> writes(ms, "receipt"@, receipt_text(r))
        }),
        i.kind == MsgKind::Message ==> writes(
            inner_members(i),
            "kind"@,
            json::json_quoted("message"@),
        ),
        i.kind == MsgKind::Receipt ==> writes(
            inner_members(i),
            "kind"@,
            json::json_quoted("receipt"@),
        ),
{
    let ms = inner_members(i);
    let a: int = if i.in_reply_to is Some {
        1
    } else {
        0
    };
    let c: int = if i.correlation_id is Some {
        1
    } else {
        0
    };
    let s: int = if i.supersedes is Some {
        1
    } else {
        0
    };
    let e: int = if i.enc is Some {
        1
    } else {
        0
    };
    let g: int = if i.grant is Some {
        1
    } else {
        0
    };
    assert(i.in_reply_to is Some ==> ms[7].0 == "in_reply_to"@);
    assert(ms[7 + a] == ("body"@, json::json_quoted(i.body)));
    assert(ms[8 + a] == ("kind"@, json::json_quoted(kind_text(i.kind))));
    assert(i.correlation_id is Some ==> ms[9 + a].0 == "correlation_id"@);
    assert(i.supersedes is Some ==> ms[9 + a + c].0 == "supersedes"@);
    assert(i.enc is Some ==> ms[9 + a + c + s].0 == "enc"@);
    assert(i.grant is Some ==> ms[9 + a + c + s + e].0 == "grant"@);
    assert(i.receipt is Some ==> ms[9 + a + c + s + e + g].0 == "receipt"@);
}

/// Every kind and every status has its own name.
pub proof fn names_of_kinds_and_states()
    ensures
        kind_named("message"@) == Some(MsgKind::Message),
        kind_named("command"@) == Some(MsgKind::Command),
        kind_named("query"@) == Some(MsgKind::Query),
        kind_named("result"@) == Some(MsgKind::Result),
        kind_named("ack"@) == Some(MsgKind::Ack),
        kind_named("error"@) == Some(MsgKind::Error),
        kind_named("grant"@) == Some(MsgKind::Grant),
        kind_named("receipt"@) == Some(MsgKind::Receipt),
        status_named("delivered"@) == Some(ReceiptStatus::Delivered),
        status_named("read"@) == Some(ReceiptStatus::Read),
{
    kind_is_found_by_its_name(MsgKind::Message);
    kind_is_found_by_its_name(MsgKind::Command);
    kind_is_found_by_its_name(MsgKind::Query);
    kind_is_found_by_its_name(MsgKind::Result);
    kind_is_found_by_its_name(MsgKind::Ack);
    kind_is_found_by_its_name(MsgKind::Error);
    kind_is_found_by_its_name(MsgKind::Grant);
    kind_is_found_by_its_name(MsgKind::Receipt);
    status_is_found_by_its_name(ReceiptStatus::Delivered);
    status_is_found_by_its_name(ReceiptStatus::Read);
}

/// The value of a lower-case hexadecimal digit.
pub open spec fn hex_value(c: char) -> int {
    if '0' <= c <= '9' {
        c as int - '0' as int
    } else {
        c as int - 'a' as int + 10
    }
}

/// Hexadecimal text holds every byte in two lower-case digits, the high one first.
pub proof fn hex_text_holds_the_bytes(b: Seq<u8>, k: int)
    requires
        0 <= k < b.len(),
    ensures
        hex_text(b).len() == 2 * b.len(),
        hex_value(hex_text(b)[2 * k]) * 16 + hex_value(hex_text(b)[2 * k + 1]) == b[k],
        is_hex(hex_text(b)[2 * k]) && is_hex(hex_text(b)[2 * k + 1]),
{
    assert((2 * k) / 2 == k && (2 * k) % 2 == 0);
    assert((2 * k + 1) / 2 == k && (2 * k + 1) % 2 == 1);
    lemma_hex_digit((b[k] / 16) as u8);
    lemma_hex_digit((b[k] % 16) as u8);
}

/// A lower-case hexadecimal digit.
pub open spec fn is_hex(c: char) -> bool {
    '0' <= c <= '9' || 'a' <= c <= 'f'
}

proof fn lemma_hex_digit(d: u8)
    requires
        d < 16,
    ensures
        hex_value(hex_digit(d)) == d,
        is_hex(hex_digit(d)),
{
}

/// A fingerprint tells the first eight bytes of a key's digest, and a key id
/// holds the name, a hash sign and the fingerprint.
pub proof fn a_fingerprint_is_of_the_digest(name: Seq<char>, public_key: Seq<u8>, k: int)
    requires
        sha256(public_key).len() == 32,
        0 <= k < 8,
    ensures
        fingerprint_of(public_key).len() == 16,
        hex_value(fingerprint_of(public_key)[2 * k]) * 16 + hex_value(
            fingerprint_of(public_key)[2 * k + 1],
        ) == sha256(public_key)[k],
        kid_of(name, public_key).len() == name.len() + 17,
        kid_of(name, public_key).take(name.len() as int) == name,
        kid_of(name, public_key)[name.len() as int] == '#',
        kid_of(name, public_key).skip(name.len() as int + 1) == fingerprint_of(public_key),
{
    hex_text_holds_the_bytes(sha256(public_key).take(8), k);
    assert(kid_of(name, public_key).take(name.len() as int) =~= name);
    assert(kid_of(name, public_key).skip(name.len() as int + 1) =~= fingerprint_of(public_key));
}

/// A name is in order where it says something, holds no hash sign and is not the
/// one of everyone.
pub proof fn a_name_in_order(name: Seq<char>)
    ensures
        name_complaint(name) is None <==> name.len() > 0 && !name.contains('#') && name != "*"@,
{
}

/// The model of a wrapper holds every field of it.
pub proof fn a_wrapper_is_seen_as_it_is(v: Wrapper)
    ensures
        v@.v == v.v,
        v@.alg == v.alg@,
        v.kid matches Some(x) ==> v@.kid == Some(x@),
        v.kid is None ==> v@.kid is None,
        v@.msg == v.msg@,
        v.sig matches Some(x) ==> v@.sig == Some(x@),
        v.sig is None ==> v@.sig is None,
{
}

/// The model of a message holds every field of it.
pub proof fn a_message_is_seen_as_it_is(v: Inner)
    ensures
        v@.id == v.id@,
        v@.v == v.v,
        v@.from == v.from@,
        v@.to == v.to@,
        v@.ts == v.ts@,
        v@.nonce == v.nonce@,
        v@.ctype == v.ctype@,
        v.in_reply_to matches Some(x) ==> v@.in_reply_to == Some(x@),
        v.in_reply_to is None ==> v@.in_reply_to is None,
        v@.body == v.body@,
        v@.kind == v.kind,
        v.correlation_id matches Some(x) ==> v@.correlation_id == Some(x@),
        v.correlation_id is None ==> v@.correlation_id is None,
        v.supersedes matches Some(x) ==> v@.supersedes == Some(x@),
        v.supersedes is None ==> v@.supersedes is None,
        v.enc matches Some(x) ==> v@.enc == Some(x@),
        v.enc is None ==> v@.enc is None,
        v.grant matches Some(x) ==> v@.grant == Some(x@),
        v.grant is None ==> v@.grant is None,
        v.receipt matches Some(x) ==> v@.receipt == Some(x@),
        v.receipt is None ==> v@.receipt is None,
{
}

} // verus!
