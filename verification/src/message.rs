//! Build outbound messages and verify inbound ones.
//!
//! An inbound wrapper passes a fixed sequence of checks: parse, version and
//! algorithm, signer in the trust store, fingerprint, signature over the exact
//! inner bytes, sender, size and freshness, decryption, attached grant.
//! Duplicate ids and replayed grants are the store's business.

use vstd::prelude::*;
use vstd::string::*;
use vstd::utf8::*;

use crate::clock;
use crate::crypto;
use crate::error::{RejectInfo, RejectInfoView, RejectReason, RejectView};
use crate::grant;
use crate::identity;
use crate::identity::{Identity, IdentityView};
use crate::kem;
use crate::pair::{HelloView, PairHello};
use crate::text;
use crate::token;
use crate::trust;
use crate::trust::{TrustStore, TrustView};
use crate::wire;
use crate::wire::{
    EncInfo, EncView, GrantView, Inner, InnerView, MsgKind, Receipt, ReceiptView, SignedGrant,
    Wrapper, WrapperView,
};

verus! {

/// The message to build.
pub struct BuildOpts<'a> {
    /// Recipient agent name, or [`wire::BROADCAST`].
    pub to: &'a str,
    /// Content type of `body` (of the plaintext when encrypting).
    pub ctype: &'a str,
    /// Plaintext payload.
    pub body: &'a str,
    /// Typed message kind.
    pub kind: MsgKind,
    /// Id of a message that this one answers.
    pub in_reply_to: Option<String>,
    /// Id that links related messages.
    pub correlation_id: Option<String>,
    /// Id of a message that this one supersedes.
    pub supersedes: Option<String>,
    /// Human-authorization grant to attach.
    pub grant: Option<SignedGrant>,
    /// Delivery or read receipt to carry.
    pub receipt: Option<Receipt>,
    /// Recipient ML-KEM encapsulation key to encrypt to.
    pub encrypt_to: Option<Vec<u8>>,
    /// Send unsigned (insecure).
    pub unsigned: bool,
}

/// The model of [`BuildOpts`].
pub struct OptsView {
    pub to: Seq<char>,
    pub ctype: Seq<char>,
    pub body: Seq<char>,
    pub kind: MsgKind,
    pub in_reply_to: Option<Seq<char>>,
    pub correlation_id: Option<Seq<char>>,
    pub supersedes: Option<Seq<char>>,
    pub grant: Option<GrantView>,
    pub receipt: Option<ReceiptView>,
    pub encrypt_to: Option<Seq<u8>>,
    pub unsigned: bool,
}

impl<'a> View for BuildOpts<'a> {
    type V = OptsView;

    open spec fn view(&self) -> OptsView {
        OptsView {
            to: self.to@,
            ctype: self.ctype@,
            body: self.body@,
            kind: self.kind,
            in_reply_to: text::opt_text(self.in_reply_to),
            correlation_id: text::opt_text(self.correlation_id),
            supersedes: text::opt_text(self.supersedes),
            grant: wire::opt_grant(self.grant),
            receipt: wire::opt_receipt(self.receipt),
            encrypt_to: token::opt_bytes(self.encrypt_to),
            unsigned: self.unsigned,
        }
    }
}

/// A cleartext, signed message without further attributes.
pub open spec fn plain_opts(to: Seq<char>, ctype: Seq<char>, body: Seq<char>) -> OptsView {
    OptsView {
        to,
        ctype,
        body,
        kind: MsgKind::Message,
        in_reply_to: None,
        correlation_id: None,
        supersedes: None,
        grant: None,
        receipt: None,
        encrypt_to: None,
        unsigned: false,
    }
}

impl<'a> BuildOpts<'a> {
    /// A minimal cleartext, signed message to `to` with `body` of type `ctype`.
    pub fn new(to: &'a str, ctype: &'a str, body: &'a str) -> (r: BuildOpts<'a>)
        ensures
            r@ == plain_opts(to@, ctype@, body@),
    {
        BuildOpts {
            to,
            ctype,
            body,
            kind: MsgKind::default(),
            in_reply_to: None,
            correlation_id: None,
            supersedes: None,
            grant: None,
            receipt: None,
            encrypt_to: None,
            unsigned: false,
        }
    }
}

/// What chance and the clock contribute to a message.
pub struct Fresh {
    /// Unique message id.
    pub id: String,
    /// RFC 3339 timestamp.
    pub ts: String,
    /// Nonce of the message.
    pub nonce: [u8; 16],
    /// Message from which the shared secret is derived.
    pub secret: [u8; 32],
    /// Nonce of the payload encryption.
    pub aead_nonce: [u8; 12],
}

/// The model of [`Fresh`].
pub struct FreshView {
    pub id: Seq<char>,
    pub ts: Seq<char>,
    pub nonce: Seq<u8>,
    pub secret: Seq<u8>,
    pub aead_nonce: Seq<u8>,
}

impl View for Fresh {
    type V = FreshView;

    open spec fn view(&self) -> FreshView {
        FreshView {
            id: self.id@,
            ts: self.ts@,
            nonce: self.nonce@,
            secret: self.secret@,
            aead_nonce: self.aead_nonce@,
        }
    }
}

/// A digit of Crockford's base 32: no I, L, O or U.
pub open spec fn is_base32_char(c: char) -> bool {
    ('0' <= c <= '9') || ('A' <= c <= 'Z' && c != 'I' && c != 'L' && c != 'O' && c != 'U')
}

/// The form of a unique id: 26 digits of Crockford's base 32.
pub open spec fn is_ulid(s: Seq<char>) -> bool {
    s.len() == 26 && forall|i: int| 0 <= i < s.len() ==> is_base32_char(#[trigger] s[i])
}

/// Calls `ulid::Ulid::new` and its `to_string`: 26 digits of Crockford's base 32
/// in upper case. Which they are is left to chance and the clock.
#[verifier::external_body]
pub(crate) fn fresh_id() -> (id: String)
    ensures
        is_ulid(id@),
{
    ulid::Ulid::new().to_string()
}

/// Values as a message at the time `now` is made with: a unique id, the text of
/// the time, and as many random bytes as each purpose takes.
pub open spec fn is_drawn_at(f: FreshView, now: i128) -> bool {
    &&& is_ulid(f.id)
    &&& clock::in_time_range(now)
    &&& clock::is_time_text(now, f.ts)
    &&& f.nonce.len() == 16
    &&& f.secret.len() == 32
    &&& f.aead_nonce.len() == 12
}

/// Values as a message at some time is made with.
pub open spec fn is_drawn(f: FreshView) -> bool {
    exists|now: i128| #[trigger] is_drawn_at(f, now)
}

/// Values of the moment, from the operating system's random numbers and clock: a
/// unique id and the text of the current time.
pub(crate) fn draw() -> (f: Fresh)
    ensures
        is_drawn(f@),
{
    let nonce: [u8; 16] = kem::os_random::<16>();
    let ts: String = clock::timestamp();
    let ghost now = choose|now: i128|
        clock::in_time_range(now) && #[trigger] clock::is_time_text(now, ts@);
    let f = Fresh {
        id: fresh_id(),
        ts,
        nonce,
        secret: kem::os_random::<32>(),
        aead_nonce: kem::os_random::<12>(),
    };
    assert(is_drawn_at(f@, now));
    f
}

// ---------------------------------------------------------------------------
// Building.
// ---------------------------------------------------------------------------

/// Associated data that binds a ciphertext to its envelope: id, sender,
/// recipient and timestamp.
pub open spec fn aad_of(i: InnerView) -> Seq<char> {
    i.id + "|"@ + i.from + "|"@ + i.to + "|"@ + i.ts
}

/// The message before encryption.
pub open spec fn plain_inner(id: IdentityView, o: OptsView, f: FreshView) -> InnerView {
    InnerView {
        id: f.id,
        v: wire::PROTOCOL_VERSION,
        from: id.name,
        to: o.to,
        ts: f.ts,
        nonce: wire::base64url(f.nonce),
        ctype: o.ctype,
        in_reply_to: o.in_reply_to,
        body: o.body,
        kind: o.kind,
        correlation_id: o.correlation_id,
        supersedes: o.supersedes,
        enc: None,
        grant: o.grant,
        receipt: o.receipt,
    }
}

/// The sealed body of a message.
pub open spec fn sealed_body(i: InnerView, o: OptsView, f: FreshView, ek: Seq<u8>) -> Seq<u8> {
    kem::aes_gcm_sealed(
        kem::ml_kem_encapsulated(ek, f.secret).1,
        f.aead_nonce,
        encode_utf8(aad_of(i)),
        encode_utf8(o.body),
    )
}

/// The message with its body sealed to `ek`.
pub open spec fn encrypted_inner(i: InnerView, o: OptsView, f: FreshView, ek: Seq<u8>) -> InnerView {
    InnerView {
        enc: Some(
            EncView {
                alg: wire::ALG_KEM_AEAD@,
                kem_ct: wire::base64url(kem::ml_kem_encapsulated(ek, f.secret).0),
                recipient_kid: wire::fingerprint_of(ek),
                nonce: wire::base64url(f.aead_nonce),
                ptype: o.ctype,
            },
        ),
        ctype: wire::ALG_KEM_AEAD@,
        body: wire::base64url(sealed_body(i, o, f, ek)),
        ..i
    }
}

/// The body and the associated data are within AES-256-GCM's limits.
pub open spec fn sealable(i: InnerView) -> bool {
    encode_utf8(i.body).len() <= kem::MAX_PLAINTEXT && encode_utf8(aad_of(i)).len()
        <= kem::MAX_ASSOCIATED
}

/// The inner message that is built, or why none is.
pub open spec fn inner_built(id: IdentityView, o: OptsView, f: FreshView) -> Result<
    InnerView,
    RejectView,
> {
    let plain = plain_inner(id, o, f);
    match o.encrypt_to {
        None => Ok(plain),
        Some(ek) => if o.to == wire::BROADCAST@ {
            Err(RejectView::EncBroadcastUnsupported)
        } else if ek.len() != kem::KEM_PK_LEN {
            Err(RejectView::UnknownRecipientKey)
        } else if !sealable(plain) {
            Err(RejectView::TooLarge)
        } else {
            Ok(encrypted_inner(plain, o, f, ek))
        },
    }
}

/// The wrapper of an inner message: signed over its exact bytes, or unsigned.
pub open spec fn wrapped(id: IdentityView, i: InnerView, unsigned: bool) -> WrapperView {
    let b = wire::inner_json(i);
    if unsigned {
        WrapperView {
            v: wire::PROTOCOL_VERSION,
            alg: wire::ALG_NONE@,
            kid: None,
            msg: wire::base64url(b),
            sig: None,
        }
    } else {
        WrapperView {
            v: wire::PROTOCOL_VERSION,
            alg: wire::ALG_ML_DSA_65@,
            kid: Some(wire::kid_of(id.name, id.public_key)),
            msg: wire::base64url(b),
            sig: Some(wire::base64url(crypto::ml_dsa_signature(id.seed, b))),
        }
    }
}

/// The wrapper carries the exact bytes of the inner message in a form that reads
/// back, under a signature that holds.
pub open spec fn carries(id: IdentityView, i: InnerView, w: WrapperView, unsigned: bool) -> bool {
    let b = wire::inner_json(i);
    let sig = crypto::ml_dsa_signature(id.seed, b);
    &&& w == wrapped(id, i, unsigned)
    &&& wire::inner_of(b) == Some(i)
    &&& wire::unbase64(w.msg) == Some(b)
    &&& !unsigned ==> wire::unbase64(w.sig->0) == Some(sig)
    &&& !unsigned && identity::is_whole(id) ==> crypto::signature_holds(id.public_key, b, sig)
}

/// What an encrypted message holds reads back, and the body opens under the
/// shared secret.
pub open spec fn opens(i: InnerView, o: OptsView, f: FreshView, ek: Seq<u8>) -> bool {
    let (ct, ss) = kem::ml_kem_encapsulated(ek, f.secret);
    let sealed = sealed_body(i, o, f, ek);
    &&& i.enc matches Some(e) && {
        &&& wire::unbase64(e.kem_ct) == Some(ct)
        &&& ct.len() == kem::KEM_CT_LEN
        &&& wire::unbase64(e.nonce) == Some(f.aead_nonce)
        &&& f.aead_nonce.len() == 12
    }
    &&& wire::unbase64(i.body) == Some(sealed)
    &&& kem::opened(ss, f.aead_nonce, encode_utf8(aad_of(i)), sealed) == Some(encode_utf8(o.body))
}

/// `i` and `w` are the message and the wrapper that are built for given values of
/// the moment, in a form that a receiver accepts.
pub open spec fn is_built(
    id: IdentityView,
    o: OptsView,
    f: FreshView,
    i: InnerView,
    w: WrapperView,
) -> bool {
    &&& inner_built(id, o, f) == Ok::<InnerView, RejectView>(i)
    &&& carries(id, i, w, o.unsigned)
    &&& o.encrypt_to matches Some(ek) ==> opens(i, o, f, ek)
}

/// The model of what a builder returns.
pub open spec fn built_view(r: Result<(Inner, Wrapper), RejectReason>) -> Result<
    (InnerView, WrapperView),
    RejectView,
> {
    match r {
        Ok(p) => Ok((p.0@, p.1@)),
        Err(e) => Err(e@),
    }
}

/// What building returns for given values of the moment: the message and its
/// wrapper in a form that a receiver accepts, or the reason why there is none.
pub open spec fn is_outcome(
    id: IdentityView,
    o: OptsView,
    f: FreshView,
    r: Result<(InnerView, WrapperView), RejectView>,
) -> bool {
    match r {
        Ok(p) => is_built(id, o, f, p.0, p.1),
        Err(e) => inner_built(id, o, f) == Err::<InnerView, RejectView>(e),
    }
}

/// Associated data that binds a ciphertext to its envelope.
fn aad(inner: &Inner) -> (r: String)
    ensures
        r@ == aad_of(inner@),
{
    let mut out: String = inner.id.clone();
    out.append("|");
    out.append(inner.from.as_str());
    out.append("|");
    out.append(inner.to.as_str());
    out.append("|");
    out.append(inner.ts.as_str());
    out
}

/// Build an outbound message with the given values of the moment.
///
/// - Cleartext signed: the exact inner bytes are signed.
/// - Encrypted: a shared secret is encapsulated to `encrypt_to`, the body is
///   sealed under it with the routing fields bound in. Encryption to everyone
///   is refused, and so is a body beyond the limits of the cipher.
/// - Unsigned: no key id and no signature.
pub fn build_with(id: &Identity, opts: &BuildOpts, fresh: &Fresh) -> (r: Result<
    (Inner, Wrapper),
    RejectReason,
>)
    ensures
        is_outcome(id@, opts@, fresh@, built_view(r)),
{
    if opts.encrypt_to.is_some() && text::str_eq(opts.to, wire::BROADCAST) {
        return Err(RejectReason::EncBroadcastUnsupported);
    }
    let mut inner = Inner {
        id: fresh.id.clone(),
        v: wire::PROTOCOL_VERSION,
        from: text::own(id.agent_name()),
        to: text::own(opts.to),
        ts: fresh.ts.clone(),
        nonce: wire::b64(&fresh.nonce),
        ctype: text::own(opts.ctype),
        in_reply_to: text::copy_opt(&opts.in_reply_to),
        body: text::own(opts.body),
        kind: opts.kind,
        correlation_id: text::copy_opt(&opts.correlation_id),
        supersedes: text::copy_opt(&opts.supersedes),
        enc: None,
        grant: wire::copy_grant(&opts.grant),
        receipt: wire::copy_receipt(&opts.receipt),
    };
    assert(inner@ == plain_inner(id@, opts@, fresh@));
    let ghost plain = inner@;
    if let Some(ek) = &opts.encrypt_to {
        match kem::encapsulate_with(ek.as_slice(), &fresh.secret) {
            None => {
                return Err(RejectReason::UnknownRecipientKey);
            },
            Some((kem_ct, ss)) => {
                let bound: String = aad(&inner);
                let pt: &[u8] = opts.body.as_bytes();
                let ad: &[u8] = bound.as_str().as_bytes();
                if pt.len() as u64 > kem::MAX_PLAINTEXT || ad.len() as u64 > kem::MAX_ASSOCIATED {
                    return Err(RejectReason::TooLarge);
                }
                let ct: Vec<u8> = kem::seal(&ss, &fresh.aead_nonce, ad, pt);
                inner.enc = Some(
                    EncInfo {
                        alg: text::own(wire::ALG_KEM_AEAD),
                        kem_ct: wire::b64(kem_ct.as_slice()),
                        recipient_kid: kem::kem_fingerprint(ek.as_slice()),
                        nonce: wire::b64(&fresh.aead_nonce),
                        ptype: text::own(opts.ctype),
                    },
                );
                inner.ctype = text::own(wire::ALG_KEM_AEAD);
                inner.body = wire::b64(ct.as_slice());
                assert(inner@ == encrypted_inner(plain, opts@, fresh@, ek@));
                assert(aad_of(inner@) == aad_of(plain));
                assert(opens(inner@, opts@, fresh@, ek@));
            },
        }
    }
    let wrapper: Wrapper = wrap(id, &inner, opts.unsigned);
    Ok((inner, wrapper))
}

/// Wrap an inner message: its exact bytes are signed and carried.
fn wrap(id: &Identity, inner: &Inner, unsigned: bool) -> (w: Wrapper)
    ensures
        carries(id@, inner@, w@, unsigned),
{
    let inner_bytes: Vec<u8> = inner.to_bytes();
    if unsigned {
        Wrapper {
            v: wire::PROTOCOL_VERSION,
            alg: text::own(wire::ALG_NONE),
            kid: None,
            msg: wire::b64(inner_bytes.as_slice()),
            sig: None,
        }
    } else {
        let sig: Vec<u8> = id.sign(inner_bytes.as_slice());
        Wrapper {
            v: wire::PROTOCOL_VERSION,
            alg: text::own(wire::ALG_ML_DSA_65),
            kid: Some(id.kid()),
            msg: wire::b64(inner_bytes.as_slice()),
            sig: Some(wire::b64(sig.as_slice())),
        }
    }
}

/// Build an outbound message from the local identity. The id, the timestamp and
/// the random values are drawn here; see [`build_with`].
pub fn build(id: &Identity, opts: &BuildOpts) -> (r: Result<(Inner, Wrapper), RejectReason>)
    ensures
        exists|f: FreshView|
            is_drawn(f) && #[trigger] is_outcome(id@, opts@, f, built_view(r)),
        opts@.encrypt_to is None ==> r is Ok,
{
    let fresh: Fresh = draw();
    build_with(id, opts, &fresh)
}

// ---------------------------------------------------------------------------
// Verifying.
// ---------------------------------------------------------------------------

/// What the receiver's configuration says about inbound messages.
pub struct Policy {
    /// Refuse timestamps further than this from the clock (seconds); not at all
    /// where it is not positive.
    pub freshness_secs: i64,
    /// The longest accepted body in bytes.
    pub max_payload: usize,
    /// Accept unsigned messages.
    pub allow_unsigned: bool,
    /// Accept messages of the first protocol version.
    pub accept_v1: bool,
}

/// The sender that a wrapper claims in its key id.
pub open spec fn claimed_sender(w: WrapperView) -> Option<Seq<char>> {
    match w.kid {
        None => None,
        Some(kid) => match text::split_first(kid, '#') {
            None => None,
            Some((name, _)) => Some(name),
        },
    }
}

/// The message in a wrapper without a signature. A sender whose key is known is
/// not believed without one.
pub open spec fn unsigned_inner(w: WrapperView, t: TrustView, p: Policy) -> Result<
    InnerView,
    RejectView,
> {
    if !p.allow_unsigned {
        Err(RejectView::UnsignedNotAllowed)
    } else {
        match wire::unbase64(w.msg) {
            None => Err(RejectView::MalformedWrapper),
            Some(b) => match wire::inner_of(b) {
                None => Err(RejectView::MalformedWrapper),
                Some(i) => if trust::trusted_key(t, i.from) is Some {
                    Err(RejectView::DowngradeRejected)
                } else {
                    Ok(i)
                },
            },
        }
    }
}

/// The message in a wrapper under a signature of the key `pk` known for `name`.
pub open spec fn opened_inner(w: WrapperView, name: Seq<char>, pk: Seq<u8>) -> Result<
    InnerView,
    RejectView,
> {
    match wire::unbase64(w.msg) {
        None => Err(RejectView::MalformedWrapper),
        Some(b) => match w.sig {
            None => Err(RejectView::MalformedWrapper),
            Some(s) => match wire::unbase64(s) {
                None => Err(RejectView::MalformedWrapper),
                Some(sig) => if !crypto::signature_holds(pk, b, sig) {
                    Err(RejectView::InvalidSignature)
                } else {
                    match wire::inner_of(b) {
                        None => Err(RejectView::MalformedWrapper),
                        Some(i) => if i.from != name {
                            Err(RejectView::KidMismatch)
                        } else {
                            Ok(i)
                        },
                    }
                },
            },
        },
    }
}

/// The message in a signed wrapper: the signer is known, its key has the claimed
/// fingerprint, the signature holds over the exact bytes, and the sender is the
/// signer.
pub open spec fn signed_inner(w: WrapperView, t: TrustView) -> Result<InnerView, RejectView> {
    match w.kid {
        None => Err(RejectView::MalformedWrapper),
        Some(kid) => match text::split_first(kid, '#') {
            None => Err(RejectView::MalformedWrapper),
            Some((name, fp)) => match trust::trusted_key(t, name) {
                None => Err(RejectView::UnknownSigner),
                Some(pk) => if fp != wire::fingerprint_of(pk) {
                    Err(RejectView::KidMismatch)
                } else {
                    opened_inner(w, name, pk)
                },
            },
        },
    }
}

/// The message as the first protocol version knows it: neither encrypted nor
/// bearing a grant.
pub open spec fn legacy_inner(i: InnerView) -> InnerView {
    InnerView { enc: None, grant: None, ..i }
}

/// The message in a wrapper whose version and algorithm are accepted. The first
/// version knows signed messages only.
pub open spec fn admitted(w: WrapperView, t: TrustView, p: Policy) -> Result<
    InnerView,
    RejectView,
> {
    if w.v == 1 {
        if !p.accept_v1 {
            Err(RejectView::UnsupportedVersion(1))
        } else if w.alg == wire::ALG_ML_DSA_65@ {
            match signed_inner(w, t) {
                Ok(i) => Ok(legacy_inner(i)),
                Err(e) => Err(e),
            }
        } else {
            Err(RejectView::UnsupportedAlg(w.alg))
        }
    } else if w.v != wire::PROTOCOL_VERSION {
        Err(RejectView::UnsupportedVersion(w.v))
    } else if w.alg == wire::ALG_NONE@ {
        unsigned_inner(w, t, p)
    } else if w.alg == wire::ALG_ML_DSA_65@ {
        signed_inner(w, t)
    } else {
        Err(RejectView::UnsupportedAlg(w.alg))
    }
}

/// The plaintext of an encrypted message for the receiver `me`.
pub open spec fn decrypted_body(i: InnerView, e: EncView, me: IdentityView) -> Option<Seq<char>> {
    match (wire::unbase64(e.kem_ct), wire::unbase64(e.nonce), wire::unbase64(i.body)) {
        (Some(kem_ct), Some(nonce), Some(ct)) => match kem::secret_in(me.kem_dk, kem_ct) {
            None => None,
            Some(ss) => if nonce.len() != 12 {
                None
            } else {
                match kem::opened(ss, nonce, encode_utf8(aad_of(i)), ct) {
                    None => None,
                    Some(pt) => if valid_utf8(pt) {
                        Some(decode_utf8(pt))
                    } else {
                        None
                    },
                }
            },
        },
        _ => None,
    }
}

/// The message with its payload in the clear.
pub open spec fn decrypted(i: InnerView, me: IdentityView) -> Result<InnerView, RejectView> {
    match i.enc {
        None => Ok(i),
        Some(e) => if e.recipient_kid != wire::fingerprint_of(me.kem_ek) {
            Err(RejectView::UnknownRecipientKey)
        } else {
            match decrypted_body(i, e, me) {
                None => Err(RejectView::DecryptFailed),
                Some(body) => Ok(InnerView { body, ctype: e.ptype, ..i }),
            }
        },
    }
}

/// The message if its attached grant, where there is one, authorizes its sender.
pub open spec fn authorized(now: i128, i: InnerView, t: TrustView) -> Result<InnerView, RejectView> {
    match i.grant {
        None => Ok(i),
        Some(g) => match grant::grant_verdict(now, g, t) {
            Err(e) => Err(e),
            Ok(c) => if c.subject != i.from {
                Err(RejectView::GrantSubjectMismatch)
            } else {
                Ok(i)
            },
        },
    }
}

/// The checks behind the signature: size, freshness, decryption, grant.
pub open spec fn settled(
    now: i128,
    i: InnerView,
    me: IdentityView,
    t: TrustView,
    p: Policy,
) -> Result<InnerView, RejectView> {
    if encode_utf8(i.body).len() > p.max_payload {
        Err(RejectView::TooLarge)
    } else if !clock::is_fresh(now, i.ts, p.freshness_secs) {
        Err(RejectView::Stale)
    } else {
        match decrypted(i, me) {
            Err(e) => Err(e),
            Ok(d) => authorized(now, d, t),
        }
    }
}

/// What becomes of a parsed wrapper at `now`.
pub open spec fn wrapper_verdict(
    now: i128,
    w: WrapperView,
    me: IdentityView,
    t: TrustView,
    p: Policy,
) -> Result<InnerView, RejectView> {
    match admitted(w, t, p) {
        Err(e) => Err(e),
        Ok(i) => settled(now, i, me, t, p),
    }
}

/// What becomes of received bytes at `now`: the message they carry, or the
/// reason of the refusal with the claimed sender.
pub open spec fn verdict(
    now: i128,
    raw: Seq<u8>,
    me: IdentityView,
    t: TrustView,
    p: Policy,
) -> Result<InnerView, RejectInfoView> {
    match wire::wrapper_of(raw) {
        None => Err(RejectInfoView { reason: RejectView::MalformedWrapper, claimed_sender: None }),
        Some(w) => match wrapper_verdict(now, w, me, t, p) {
            Err(reason) => Err(RejectInfoView { reason, claimed_sender: claimed_sender(w) }),
            Ok(i) => Ok(i),
        },
    }
}

/// The model of what a check on a message returns.
pub open spec fn inner_view(r: Result<Inner, RejectReason>) -> Result<InnerView, RejectView> {
    match r {
        Ok(i) => Ok(i@),
        Err(e) => Err(e@),
    }
}

/// The model of what verification returns.
pub open spec fn verdict_view(r: Result<Inner, RejectInfo>) -> Result<InnerView, RejectInfoView> {
    match r {
        Ok(i) => Ok(i@),
        Err(e) => Err(e@),
    }
}

fn sender_of(w: &Wrapper) -> (r: Option<String>)
    ensures
        text::opt_text(r) == claimed_sender(w@),
{
    match &w.kid {
        None => None,
        Some(kid) => match wire::split_kid(kid.as_str()) {
            None => None,
            Some((name, _)) => Some(text::own(name)),
        },
    }
}

fn read_unsigned(w: &Wrapper, trust: &TrustStore, p: &Policy) -> (r: Result<Inner, RejectReason>)
    requires
        trust.wf(),
    ensures
        inner_view(r) == unsigned_inner(w@, trust@, *p),
{
    if !p.allow_unsigned {
        return Err(RejectReason::UnsignedNotAllowed);
    }
    match w.inner_bytes() {
        Err(e) => Err(e),
        Ok(b) => match Wrapper::parse_inner(b.as_slice()) {
            Err(e) => Err(e),
            Ok(i) => {
                if trust.public_key(i.from.as_str()).is_ok() {
                    Err(RejectReason::DowngradeRejected)
                } else {
                    Ok(i)
                }
            },
        },
    }
}

fn open_signed(w: &Wrapper, name: &str, pk: &[u8]) -> (r: Result<Inner, RejectReason>)
    ensures
        inner_view(r) == opened_inner(w@, name@, pk@),
{
    match w.inner_bytes() {
        Err(e) => Err(e),
        Ok(b) => match w.sig_bytes() {
            Err(e) => Err(e),
            Ok(sig) => {
                if !crypto::verify(pk, b.as_slice(), sig.as_slice()) {
                    return Err(RejectReason::InvalidSignature);
                }
                match Wrapper::parse_inner(b.as_slice()) {
                    Err(e) => Err(e),
                    Ok(i) => {
                        if !text::str_eq(i.from.as_str(), name) {
                            Err(RejectReason::KidMismatch)
                        } else {
                            Ok(i)
                        }
                    },
                }
            },
        },
    }
}

fn read_signed(w: &Wrapper, trust: &TrustStore) -> (r: Result<Inner, RejectReason>)
    requires
        trust.wf(),
    ensures
        inner_view(r) == signed_inner(w@, trust@),
{
    match &w.kid {
        None => Err(RejectReason::MalformedWrapper),
        Some(kid) => match wire::split_kid(kid.as_str()) {
            None => Err(RejectReason::MalformedWrapper),
            Some((name, fp)) => match trust.public_key(name) {
                Err(_) => Err(RejectReason::UnknownSigner),
                Ok(pk) => {
                    let known: String = wire::fingerprint(pk.as_slice());
                    if !text::str_eq(fp, known.as_str()) {
                        return Err(RejectReason::KidMismatch);
                    }
                    open_signed(w, name, pk.as_slice())
                },
            },
        },
    }
}

fn pass_gates(w: &Wrapper, trust: &TrustStore, p: &Policy) -> (r: Result<Inner, RejectReason>)
    requires
        trust.wf(),
    ensures
        inner_view(r) == admitted(w@, trust@, *p),
{
    if w.v == 1 {
        if !p.accept_v1 {
            return Err(RejectReason::UnsupportedVersion(1));
        }
        if !text::str_eq(w.alg.as_str(), wire::ALG_ML_DSA_65) {
            return Err(RejectReason::UnsupportedAlg(w.alg.clone()));
        }
        return match read_signed(w, trust) {
            Err(e) => Err(e),
            Ok(mut i) => {
                i.enc = None;
                i.grant = None;
                Ok(i)
            },
        };
    }
    if w.v != wire::PROTOCOL_VERSION {
        return Err(RejectReason::UnsupportedVersion(w.v));
    }
    if text::str_eq(w.alg.as_str(), wire::ALG_NONE) {
        read_unsigned(w, trust, p)
    } else if text::str_eq(w.alg.as_str(), wire::ALG_ML_DSA_65) {
        read_signed(w, trust)
    } else {
        Err(RejectReason::UnsupportedAlg(w.alg.clone()))
    }
}

fn decrypt_body(i: &Inner, e: &EncInfo, me: &Identity) -> (r: Option<String>)
    ensures
        text::opt_text(r) == decrypted_body(i@, e@, me@),
{
    let kem_ct: Vec<u8> = match wire::unb64(e.kem_ct.as_str()) {
        Ok(b) => b,
        Err(_) => {
            return None;
        },
    };
    let nonce: Vec<u8> = match wire::unb64(e.nonce.as_str()) {
        Ok(b) => b,
        Err(_) => {
            return None;
        },
    };
    let ct: Vec<u8> = match wire::unb64(i.body.as_str()) {
        Ok(b) => b,
        Err(_) => {
            return None;
        },
    };
    match kem::decapsulate(me.kem_dk(), kem_ct.as_slice()) {
        None => None,
        Some(ss) => {
            if nonce.len() != 12 {
                return None;
            }
            let n: [u8; 12] = kem::array12(nonce.as_slice());
            let bound: String = aad(i);
            match kem::open(&ss, &n, bound.as_str().as_bytes(), ct.as_slice()) {
                None => None,
                Some(pt) => text::from_utf8(pt),
            }
        },
    }
}

fn decrypt(inner: Inner, me: &Identity) -> (r: Result<Inner, RejectReason>)
    ensures
        inner_view(r) == decrypted(inner@, me@),
{
    let mut i: Inner = inner;
    let e: EncInfo = match &i.enc {
        None => {
            return Ok(i);
        },
        Some(e) => e.clone(),
    };
    let mine: String = me.kem_fingerprint();
    if !text::str_eq(e.recipient_kid.as_str(), mine.as_str()) {
        return Err(RejectReason::UnknownRecipientKey);
    }
    match decrypt_body(&i, &e, me) {
        None => Err(RejectReason::DecryptFailed),
        Some(body) => {
            i.body = body;
            i.ctype = e.ptype;
            Ok(i)
        },
    }
}

fn authorize(now: i128, i: Inner, trust: &TrustStore) -> (r: Result<Inner, RejectReason>)
    requires
        trust.wf(),
    ensures
        inner_view(r) == authorized(now, i@, trust@),
{
    match &i.grant {
        None => {},
        Some(g) => match grant::verify_at(now, g, trust) {
            Err(e) => {
                return Err(e);
            },
            Ok(c) => {
                if !text::str_eq(c.subject.as_str(), i.from.as_str()) {
                    return Err(RejectReason::GrantSubjectMismatch);
                }
            },
        },
    }
    Ok(i)
}

/// Size and freshness over the transmitted body, decryption, grant.
fn finalize(now: i128, i: Inner, me: &Identity, trust: &TrustStore, p: &Policy) -> (r: Result<
    Inner,
    RejectReason,
>)
    requires
        trust.wf(),
        clock::in_time_range(now),
    ensures
        inner_view(r) == settled(now, i@, me@, trust@, *p),
{
    if i.body.as_str().as_bytes().len() > p.max_payload {
        return Err(RejectReason::TooLarge);
    }
    if !clock::fresh_at(now, i.ts.as_str(), p.freshness_secs) {
        return Err(RejectReason::Stale);
    }
    match decrypt(i, me) {
        Err(e) => Err(e),
        Ok(d) => authorize(now, d, trust),
    }
}

/// Verify bytes received on the wire at `now`. On success the decoded (and, if
/// encrypted, decrypted) inner message is returned; on failure the reason
/// together with the claimed sender when known.
pub fn verify_at(now: i128, raw: &[u8], me: &Identity, trust: &TrustStore, p: &Policy) -> (r: Result<
    Inner,
    RejectInfo,
>)
    requires
        trust.wf(),
        clock::in_time_range(now),
    ensures
        verdict_view(r) == verdict(now, raw@, me@, trust@, *p),
{
    match Wrapper::from_bytes(raw) {
        Err(reason) => Err(RejectInfo { reason, claimed_sender: None }),
        Ok(w) => {
            let claimed_sender: Option<String> = sender_of(&w);
            match pass_gates(&w, trust, p) {
                Err(reason) => Err(RejectInfo { reason, claimed_sender }),
                Ok(i) => match finalize(now, i, me, trust, p) {
                    Err(reason) => Err(RejectInfo { reason, claimed_sender }),
                    Ok(d) => Ok(d),
                },
            }
        },
    }
}

/// Verify bytes received on the wire, now; see [`verify_at`].
pub fn verify_incoming(
    raw: &[u8],
    me: &Identity,
    trust: &TrustStore,
    cfg_freshness: i64,
    max_payload: usize,
    allow_unsigned: bool,
    accept_v1: bool,
) -> (r: Result<Inner, RejectInfo>)
    requires
        trust.wf(),
    ensures
        exists|now: i128|
            clock::in_time_range(now) && verdict_view(r) == #[trigger] verdict(
                now,
                raw@,
                me@,
                trust@,
                (Policy { freshness_secs: cfg_freshness, max_payload, allow_unsigned, accept_v1 }),
            ),
{
    let now: i128 = clock::now_nanos();
    let p = Policy { freshness_secs: cfg_freshness, max_payload, allow_unsigned, accept_v1 };
    verify_at(now, raw, me, trust, &p)
}

// ---------------------------------------------------------------------------
// Pairing.
// ---------------------------------------------------------------------------

/// The body of a pairing hello: the name and both public keys.
pub open spec fn hello_body(id: IdentityView) -> token::BodyView {
    token::BodyView {
        name: id.name,
        pk: wire::base64url(id.public_key),
        kem_pk: Some(wire::base64url(id.kem_ek)),
    }
}

/// The message that a pairing hello is.
pub open spec fn hello_opts(id: IdentityView) -> OptsView {
    plain_opts(wire::BROADCAST@, wire::CTYPE_PAIR@, token::body_text(hello_body(id)))
}

/// A hello that reads back.
pub open spec fn is_hello(id: IdentityView, f: FreshView, i: InnerView, w: WrapperView) -> bool {
    let b = hello_body(id);
    &&& is_built(id, hello_opts(id), f, i, w)
    &&& token::body_of(encode_utf8(i.body)) == Some(b)
    &&& wire::unbase64(b.pk) == Some(id.public_key)
    &&& wire::unbase64(b.kem_pk->0) == Some(id.kem_ek)
}

/// What a hello with the given body proves, under a signature `sig` over `msg`.
pub open spec fn hello_in_body(
    b: token::BodyView,
    fp: Seq<char>,
    msg: Seq<u8>,
    sig: Seq<u8>,
) -> Result<HelloView, RejectView> {
    match wire::unbase64(b.pk) {
        None => Err(RejectView::MalformedWrapper),
        Some(pk) => if fp != wire::fingerprint_of(pk) {
            Err(RejectView::KidMismatch)
        } else if !crypto::signature_holds(pk, msg, sig) {
            Err(RejectView::InvalidSignature)
        } else {
            match b.kem_pk {
                None => Ok(HelloView { name: b.name, public_key: pk, kem_public_key: None }),
                Some(t) => match wire::unbase64(t) {
                    None => Err(RejectView::MalformedWrapper),
                    Some(k) => Ok(
                        HelloView { name: b.name, public_key: pk, kem_public_key: Some(k) },
                    ),
                },
            }
        },
    }
}

/// What a parsed wrapper proves as a pairing hello: it is signed by the very key
/// that it advertises, under the name in its key id.
pub open spec fn hello_in(w: WrapperView) -> Result<HelloView, RejectView> {
    if w.v != wire::PROTOCOL_VERSION {
        Err(RejectView::UnsupportedVersion(w.v))
    } else if w.alg != wire::ALG_ML_DSA_65@ {
        Err(RejectView::UnsupportedAlg(w.alg))
    } else {
        match w.kid {
            None => Err(RejectView::MalformedWrapper),
            Some(kid) => match text::split_first(kid, '#') {
                None => Err(RejectView::MalformedWrapper),
                Some((name, fp)) => match (wire::unbase64(w.msg), w.sig) {
                    (Some(b), Some(s)) => match (wire::inner_of(b), wire::unbase64(s)) {
                        (Some(i), Some(sig)) => if i.ctype != wire::CTYPE_PAIR@ {
                            Err(RejectView::MalformedWrapper)
                        } else {
                            match token::body_of(encode_utf8(i.body)) {
                                None => Err(RejectView::MalformedWrapper),
                                Some(body) => if i.from != name || body.name != name {
                                    Err(RejectView::KidMismatch)
                                } else {
                                    hello_in_body(body, fp, b, sig)
                                },
                            }
                        },
                        _ => Err(RejectView::MalformedWrapper),
                    },
                    _ => Err(RejectView::MalformedWrapper),
                },
            },
        }
    }
}

/// What received bytes prove as a pairing hello.
pub open spec fn hello_verdict(raw: Seq<u8>) -> Result<HelloView, RejectView> {
    match wire::wrapper_of(raw) {
        None => Err(RejectView::MalformedWrapper),
        Some(w) => hello_in(w),
    }
}

/// Build a self-signed pairing hello with the given values of the moment.
pub fn build_pair_with(id: &Identity, fresh: &Fresh) -> (r: (Inner, Wrapper))
    ensures
        is_hello(id@, fresh@, r.0@, r.1@),
{
    let body = token::Body {
        name: text::own(id.agent_name()),
        pk: wire::b64(id.public_key()),
        kem_pk: Some(wire::b64(id.kem_ek())),
    };
    let t: String = body.json();
    let opts = BuildOpts::new(wire::BROADCAST, wire::CTYPE_PAIR, t.as_str());
    let inner = Inner {
        id: fresh.id.clone(),
        v: wire::PROTOCOL_VERSION,
        from: text::own(id.agent_name()),
        to: text::own(opts.to),
        ts: fresh.ts.clone(),
        nonce: wire::b64(&fresh.nonce),
        ctype: text::own(opts.ctype),
        in_reply_to: None,
        body: text::own(opts.body),
        kind: opts.kind,
        correlation_id: None,
        supersedes: None,
        enc: None,
        grant: None,
        receipt: None,
    };
    assert(inner@ == plain_inner(id@, opts@, fresh@));
    let wrapper: Wrapper = wrap(id, &inner, false);
    (inner, wrapper)
}

/// Build a self-signed pairing hello; see [`build_pair_with`].
pub fn build_pair(id: &Identity) -> (r: (Inner, Wrapper))
    ensures
        exists|f: FreshView| is_drawn(f) && #[trigger] is_hello(id@, f, r.0@, r.1@),
{
    let fresh: Fresh = draw();
    build_pair_with(id, &fresh)
}

/// The model of what pairing verification returns.
pub open spec fn hello_view(r: Result<PairHello, RejectReason>) -> Result<HelloView, RejectView> {
    match r {
        Ok(h) => Ok(h@),
        Err(e) => Err(e@),
    }
}

fn read_hello(b: token::Body, fp: &str, msg: &[u8], sig: &[u8]) -> (r: Result<
    PairHello,
    RejectReason,
>)
    ensures
        hello_view(r) == hello_in_body(b.view(), fp@, msg@, sig@),
{
    match wire::unb64(b.pk.as_str()) {
        Err(_) => Err(RejectReason::MalformedWrapper),
        Ok(pk) => {
            let known: String = wire::fingerprint(pk.as_slice());
            if !text::str_eq(fp, known.as_str()) {
                return Err(RejectReason::KidMismatch);
            }
            if !crypto::verify(pk.as_slice(), msg, sig) {
                return Err(RejectReason::InvalidSignature);
            }
            match b.kem_pk {
                None => Ok(PairHello { name: b.name, public_key: pk, kem_public_key: None }),
                Some(t) => match wire::unb64(t.as_str()) {
                    Err(_) => Err(RejectReason::MalformedWrapper),
                    Ok(k) => Ok(
                        PairHello { name: b.name, public_key: pk, kem_public_key: Some(k) },
                    ),
                },
            }
        },
    }
}

/// Verify a pairing hello. It needs no trust in its sender: it is signed by the
/// very key that it advertises, which proves possession of that key.
pub fn verify_pair(raw: &[u8]) -> (r: Result<PairHello, RejectReason>)
    ensures
        hello_view(r) == hello_verdict(raw@),
{
    let w: Wrapper = match Wrapper::from_bytes(raw) {
        Err(e) => {
            return Err(e);
        },
        Ok(w) => w,
    };
    if w.v != wire::PROTOCOL_VERSION {
        return Err(RejectReason::UnsupportedVersion(w.v));
    }
    if !text::str_eq(w.alg.as_str(), wire::ALG_ML_DSA_65) {
        return Err(RejectReason::UnsupportedAlg(w.alg.clone()));
    }
    let kid: &String = match &w.kid {
        None => {
            return Err(RejectReason::MalformedWrapper);
        },
        Some(k) => k,
    };
    let (name, fp) = match wire::split_kid(kid.as_str()) {
        None => {
            return Err(RejectReason::MalformedWrapper);
        },
        Some(p) => p,
    };
    let b: Vec<u8> = match w.inner_bytes() {
        Err(e) => {
            return Err(e);
        },
        Ok(b) => b,
    };
    let sig: Vec<u8> = match w.sig_bytes() {
        Err(e) => {
            return Err(e);
        },
        Ok(s) => s,
    };
    let i: Inner = match Wrapper::parse_inner(b.as_slice()) {
        Err(e) => {
            return Err(e);
        },
        Ok(i) => i,
    };
    if !text::str_eq(i.ctype.as_str(), wire::CTYPE_PAIR) {
        return Err(RejectReason::MalformedWrapper);
    }
    match token::Body::read(i.body.as_str().as_bytes()) {
        None => Err(RejectReason::MalformedWrapper),
        Some(body) => {
            if !text::str_eq(i.from.as_str(), name) || !text::str_eq(body.name.as_str(), name) {
                return Err(RejectReason::KidMismatch);
            }
            read_hello(body, fp, b.as_slice(), sig.as_slice())
        },
    }
}

// ---------------------------------------------------------------------------
// What building and verifying promise together.
// ---------------------------------------------------------------------------

/// A built message as its receiver sees it: the payload in the clear.
pub open spec fn as_received(i: InnerView, o: OptsView) -> InnerView {
    InnerView { body: o.body, ctype: o.ctype, ..i }
}

/// The shared secret that was encapsulated for `ek` comes out at `me`.
pub open spec fn secret_arrives(me: IdentityView, ek: Seq<u8>, secret: Seq<u8>) -> bool {
    let (ct, ss) = kem::ml_kem_encapsulated(ek, secret);
    ek == me.kem_ek && kem::ml_kem_decapsulated(me.kem_dk, ct) == ss
}

proof fn lemma_algorithms_differ()
    ensures
        wire::ALG_NONE@ != wire::ALG_ML_DSA_65@,
{
    reveal_strlit("none");
    reveal_strlit("ML-DSA-65");
    assert(wire::ALG_NONE@.len() == 4);
    assert(wire::ALG_ML_DSA_65@.len() == 9);
}

/// A signed message reaches everyone who knows its sender's key: the bytes of its
/// wrapper are accepted and give the message back, with the plaintext body and
/// content type where it was encrypted. It must be within the receiver's limits
/// of size and freshness, an encrypted one must be for the receiver, and a grant
/// that it bears must authorize its sender.
pub proof fn signed_message_is_received(
    id: IdentityView,
    o: OptsView,
    f: FreshView,
    i: InnerView,
    w: WrapperView,
    raw: Seq<u8>,
    now: i128,
    me: IdentityView,
    t: TrustView,
    p: Policy,
)
    requires
        is_built(id, o, f, i, w),
        identity::is_whole(id),
        identity::is_whole(me),
        !o.unsigned,
        !id.name.contains('#'),
        wire::wrapper_of(raw) == Some(w),
        trust::trusted_key(t, id.name) == Some(id.public_key),
        encode_utf8(i.body).len() <= p.max_payload,
        clock::is_fresh(now, f.ts, p.freshness_secs),
        o.encrypt_to matches Some(ek) ==> secret_arrives(me, ek, f.secret),
        o.grant matches Some(g) ==> (grant::grant_verdict(now, g, t) matches Ok(c) && c.subject
            == id.name),
    ensures
        verdict(now, raw, me, t, p) == Ok::<InnerView, RejectInfoView>(as_received(i, o)),
{
    lemma_algorithms_differ();
    wire::kid_splits_into_name_and_fingerprint(id.name, id.public_key);
    assert(signed_inner(w, t) == Ok::<InnerView, RejectView>(i));
    assert(admitted(w, t, p) == Ok::<InnerView, RejectView>(i));
    match o.encrypt_to {
        None => {
            assert(i.body == o.body && i.ctype == o.ctype);
            assert(as_received(i, o) == i);
        },
        Some(ek) => {
            let e = i.enc->0;
            encode_utf8_valid_utf8(o.body);
            encode_utf8_decode_utf8(o.body);
            assert(decrypted_body(i, e, me) == Some(o.body));
            assert(e.ptype == o.ctype);
            assert(decrypted(i, me) == Ok::<InnerView, RejectView>(as_received(i, o)));
        },
    }
}

/// What was built at the time `then` is received at the time `now` as it was
/// written, in cleartext or sealed, as long as no more time lies between the two
/// clocks than the receiver grants.
pub proof fn built_message_is_received_in_time(
    id: IdentityView,
    o: OptsView,
    f: FreshView,
    i: InnerView,
    w: WrapperView,
    then: i128,
    raw: Seq<u8>,
    now: i128,
    me: IdentityView,
    t: TrustView,
    p: Policy,
)
    requires
        is_built(id, o, f, i, w),
        is_drawn_at(f, then),
        clock::in_four_digit_years(then),
        clock::distance(now, then) / 1_000_000_000 <= p.freshness_secs,
        identity::is_whole(id),
        identity::is_whole(me),
        !o.unsigned,
        o.grant is None,
        !id.name.contains('#'),
        wire::wrapper_of(raw) == Some(w),
        trust::trusted_key(t, id.name) == Some(id.public_key),
        encode_utf8(i.body).len() <= p.max_payload,
        o.encrypt_to matches Some(ek) ==> secret_arrives(me, ek, f.secret),
    ensures
        verdict(now, raw, me, t, p) matches Ok(m) && {
            &&& m.id == i.id
            &&& m.from == id.name
            &&& m.to == o.to
            &&& m.ts == f.ts
            &&& m.ctype == o.ctype
            &&& m.body == o.body
            &&& m.kind == o.kind
            &&& m.in_reply_to == o.in_reply_to
            &&& m.correlation_id == o.correlation_id
            &&& m.supersedes == o.supersedes
            &&& m.receipt == o.receipt
        },
{
    signed_message_is_received(id, o, f, i, w, raw, now, me, t, p);
}

/// An unsigned message is accepted only by a receiver who opted in, and never
/// under the name of an agent whose key the receiver knows.
pub proof fn unsigned_message_needs_opt_in(
    id: IdentityView,
    o: OptsView,
    f: FreshView,
    i: InnerView,
    w: WrapperView,
    raw: Seq<u8>,
    now: i128,
    me: IdentityView,
    t: TrustView,
    p: Policy,
)
    requires
        is_built(id, o, f, i, w),
        o.unsigned,
        o.encrypt_to is None,
        o.grant is None,
        wire::wrapper_of(raw) == Some(w),
        encode_utf8(o.body).len() <= p.max_payload,
        clock::is_fresh(now, f.ts, p.freshness_secs),
    ensures
        verdict(now, raw, me, t, p) == (if !p.allow_unsigned {
            Err::<InnerView, RejectInfoView>(
                RejectInfoView { reason: RejectView::UnsignedNotAllowed, claimed_sender: None },
            )
        } else if trust::trusted_key(t, id.name) is Some {
            Err(RejectInfoView { reason: RejectView::DowngradeRejected, claimed_sender: None })
        } else {
            Ok(i)
        }),
{
}

/// Whatever the bytes and the configuration: a message in the name of an agent
/// whose key is known is refused without a signature.
pub proof fn known_agent_is_not_believed_unsigned(
    now: i128,
    raw: Seq<u8>,
    me: IdentityView,
    t: TrustView,
    p: Policy,
    w: WrapperView,
    b: Seq<u8>,
    i: InnerView,
)
    requires
        wire::wrapper_of(raw) == Some(w),
        w.alg == wire::ALG_NONE@,
        wire::unbase64(w.msg) == Some(b),
        wire::inner_of(b) == Some(i),
        trust::trusted_key(t, i.from) is Some,
    ensures
        verdict(now, raw, me, t, p) is Err,
{
    lemma_algorithms_differ();
}

/// The wrapper `w` bears a signature `sig` over the exact bytes `b` of a message
/// of `from`, by the key `pk` that is known for that name.
pub open spec fn is_authentic(
    w: WrapperView,
    t: TrustView,
    from: Seq<char>,
    pk: Seq<u8>,
    b: Seq<u8>,
    sig: Seq<u8>,
) -> bool {
    &&& trust::trusted_key(t, from) == Some(pk)
    &&& w.kid == Some(wire::kid_of(from, pk))
    &&& wire::unbase64(w.msg) == Some(b)
    &&& w.sig matches Some(s) && wire::unbase64(s) == Some(sig)
    &&& crypto::signature_holds(pk, b, sig)
    &&& wire::inner_of(b) matches Some(j) && j.from == from
}

/// A receiver who does not accept unsigned messages accepts only what a known key
/// signed: every accepted message comes with a signature over the exact
/// transmitted bytes by the key known for its sender, and is fresh.
pub proof fn accepted_message_is_authentic(
    now: i128,
    raw: Seq<u8>,
    me: IdentityView,
    t: TrustView,
    p: Policy,
    i: InnerView,
)
    requires
        verdict(now, raw, me, t, p) == Ok::<InnerView, RejectInfoView>(i),
        !p.allow_unsigned,
    ensures
        clock::is_fresh(now, i.ts, p.freshness_secs),
        exists|w: WrapperView, pk: Seq<u8>, b: Seq<u8>, sig: Seq<u8>|
            wire::wrapper_of(raw) == Some(w) && #[trigger] is_authentic(w, t, i.from, pk, b, sig),
{
    let w = wire::wrapper_of(raw).unwrap();
    let kid = w.kid.unwrap();
    let (name, fp) = text::split_first(kid, '#').unwrap();
    let pk = trust::trusted_key(t, name).unwrap();
    let b = wire::unbase64(w.msg).unwrap();
    let sig = wire::unbase64(w.sig.unwrap()).unwrap();
    kid.index_of_first_ensures('#');
    let n = kid.index_of_first('#').unwrap();
    assert(kid =~= kid.take(n) + seq!['#'] + kid.skip(n + 1));
    assert(kid == wire::kid_of(name, pk));
    assert(i.from == name);
    assert(is_authentic(w, t, i.from, pk, b, sig));
}

/// Signed messages of the first protocol version are received where these are
/// accepted, and refused by their version where they are not. What that version
/// did not have is not looked at.
pub proof fn first_version_message_is_received(
    now: i128,
    raw: Seq<u8>,
    w: WrapperView,
    me: IdentityView,
    t: TrustView,
    p: Policy,
    i: InnerView,
)
    requires
        wire::wrapper_of(raw) == Some(w),
        w.v == 1,
        w.alg == wire::ALG_ML_DSA_65@,
        signed_inner(w, t) == Ok::<InnerView, RejectView>(i),
        encode_utf8(i.body).len() <= p.max_payload,
        clock::is_fresh(now, i.ts, p.freshness_secs),
    ensures
        p.accept_v1 ==> verdict(now, raw, me, t, p) == Ok::<InnerView, RejectInfoView>(
            legacy_inner(i),
        ),
        !p.accept_v1 ==> verdict(now, raw, me, t, p) == Err::<InnerView, RejectInfoView>(
            RejectInfoView {
                reason: RejectView::UnsupportedVersion(1),
                claimed_sender: claimed_sender(w),
            },
        ),
{
}

/// A refusal names the sender that the wrapper claims.
pub proof fn refusal_names_the_claimed_sender(
    now: i128,
    raw: Seq<u8>,
    me: IdentityView,
    t: TrustView,
    p: Policy,
    w: WrapperView,
    e: RejectInfoView,
)
    requires
        wire::wrapper_of(raw) == Some(w),
        verdict(now, raw, me, t, p) == Err::<InnerView, RejectInfoView>(e),
    ensures
        e.claimed_sender == claimed_sender(w),
{
}

/// Encryption to everyone is refused, whatever the message.
pub proof fn encryption_to_everyone_is_refused(id: IdentityView, o: OptsView, f: FreshView)
    requires
        o.encrypt_to is Some,
        o.to == wire::BROADCAST@,
    ensures
        inner_built(id, o, f) == Err::<InnerView, RejectView>(RejectView::EncBroadcastUnsupported),
{
}

/// A pairing hello is accepted by everyone, and gives the sender's name and keys.
pub proof fn hello_is_received(
    id: IdentityView,
    f: FreshView,
    i: InnerView,
    w: WrapperView,
    raw: Seq<u8>,
)
    requires
        is_hello(id, f, i, w),
        identity::is_whole(id),
        !id.name.contains('#'),
        wire::wrapper_of(raw) == Some(w),
    ensures
        hello_verdict(raw) == Ok::<HelloView, RejectView>(
            HelloView {
                name: id.name,
                public_key: id.public_key,
                kem_public_key: Some(id.kem_ek),
            },
        ),
{
    wire::kid_splits_into_name_and_fingerprint(id.name, id.public_key);
}

/// An accepted hello is signed by the very key that it advertises, and comes under
/// the key id of its name and key.
pub proof fn accepted_hello_proves_possession(raw: Seq<u8>, h: HelloView)
    requires
        hello_verdict(raw) == Ok::<HelloView, RejectView>(h),
    ensures
        wire::wrapper_of(raw) matches Some(w) && w.kid == Some(
            wire::kid_of(h.name, h.public_key),
        ) && (wire::unbase64(w.msg) matches Some(b) && (w.sig matches Some(s) && (wire::unbase64(
            s,
        ) matches Some(sig) && crypto::signature_holds(h.public_key, b, sig)))),
{
    let w = wire::wrapper_of(raw).unwrap();
    let kid = w.kid.unwrap();
    kid.index_of_first_ensures('#');
    let n = kid.index_of_first('#').unwrap();
    assert(kid =~= kid.take(n) + seq!['#'] + kid.skip(n + 1));
}

/// An accepted message is what the transmitted bytes say, field by field. Only an
/// encrypted one has another body and content type, and one of the first version
/// has no encryption and no grant, whatever stands there.
pub proof fn an_accepted_message_says_what_the_bytes_say(
    now: i128,
    raw: Seq<u8>,
    me: IdentityView,
    t: TrustView,
    p: Policy,
    w: WrapperView,
    b: Seq<u8>,
    i: InnerView,
    m: InnerView,
)
    requires
        wire::wrapper_of(raw) == Some(w),
        wire::unbase64(w.msg) == Some(b),
        wire::inner_of(b) == Some(i),
        verdict(now, raw, me, t, p) == Ok::<InnerView, RejectInfoView>(m),
    ensures
        m.id == i.id,
        m.v == i.v,
        m.from == i.from,
        m.to == i.to,
        m.ts == i.ts,
        m.nonce == i.nonce,
        m.kind == i.kind,
        m.in_reply_to == i.in_reply_to,
        m.correlation_id == i.correlation_id,
        m.supersedes == i.supersedes,
        m.receipt == i.receipt,
        w.v == 1 || i.enc is None ==> m.body == i.body && m.ctype == i.ctype,
        w.v == 1 ==> m.enc is None && m.grant is None,
        w.v != 1 ==> m.enc == i.enc && m.grant == i.grant,
        w.v == 2 || (w.v == 1 && p.accept_v1),
        w.alg == "ML-DSA-65"@ || (w.alg == "none"@ && w.v == 2 && p.allow_unsigned),
{
}

/// A signed message of a known agent, neither encrypted nor bearing a grant, is
/// given out as its bytes say in either protocol version, unless its body is too
/// long or its timestamp too far from the clock; these are told in this order.
pub proof fn an_authentic_message_is_given_out_whole(
    now: i128,
    raw: Seq<u8>,
    me: IdentityView,
    t: TrustView,
    p: Policy,
    w: WrapperView,
    pk: Seq<u8>,
    b: Seq<u8>,
    sig: Seq<u8>,
    i: InnerView,
)
    requires
        wire::wrapper_of(raw) == Some(w),
        w.v == 2 || (w.v == 1 && p.accept_v1),
        w.alg == "ML-DSA-65"@,
        wire::inner_of(b) == Some(i),
        is_authentic(w, t, i.from, pk, b, sig),
        !i.from.contains('#'),
        w.v == 1 || (i.enc is None && i.grant is None),
    ensures
        ({
            let r = verdict(now, raw, me, t, p);
            let long = encode_utf8(i.body).len() > p.max_payload;
            let fresh = p.freshness_secs <= 0 || (clock::rfc3339_nanos(i.ts) matches Some(at) && (
            at - now) < (p.freshness_secs + 1) * 1_000_000_000 && (now - at) < (p.freshness_secs
                + 1) * 1_000_000_000);
            &&& long ==> (r matches Err(e) && e.reason == RejectView::TooLarge)
            &&& !long && !fresh ==> (r matches Err(e) && e.reason == RejectView::Stale)
            &&& !long && fresh ==> (r matches Ok(m) && {
                &&& m.id == i.id
                &&& m.v == i.v
                &&& m.from == i.from
                &&& m.to == i.to
                &&& m.ts == i.ts
                &&& m.nonce == i.nonce
                &&& m.ctype == i.ctype
                &&& m.body == i.body
                &&& m.kind == i.kind
                &&& m.in_reply_to == i.in_reply_to
                &&& m.correlation_id == i.correlation_id
                &&& m.supersedes == i.supersedes
                &&& m.receipt == i.receipt
                &&& m.enc is None
                &&& m.grant is None
            })
        }),
{
    lemma_algorithms_differ();
    wire::kid_splits_into_name_and_fingerprint(i.from, pk);
}

/// What a refusal says of a wrapper: its version, its algorithm, its missing
/// signature, or what is wrong with its signer, in this order.
pub proof fn a_refusal_says_what_is_wrong_with_the_wrapper(
    now: i128,
    raw: Seq<u8>,
    me: IdentityView,
    t: TrustView,
    p: Policy,
    w: WrapperView,
    name: Seq<char>,
    fp: Seq<char>,
)
    requires
        wire::wrapper_of(raw) == Some(w),
        w.kid == Some(name + seq!['#'] + fp),
        !name.contains('#'),
    ensures
        ({
            let r = verdict(now, raw, me, t, p);
            let known = w.v == 2 || (w.v == 1 && p.accept_v1);
            let signed = known && w.alg == "ML-DSA-65"@;
            &&& !known ==> (r matches Err(e) && e.reason == RejectView::UnsupportedVersion(w.v))
            &&& known && w.alg != "ML-DSA-65"@ && (w.alg != "none"@ || w.v == 1) ==> (
            r matches Err(e) && e.reason == RejectView::UnsupportedAlg(w.alg))
            &&& w.v == 2 && w.alg == "none"@ && !p.allow_unsigned ==> (r matches Err(e) && e.reason
                == RejectView::UnsignedNotAllowed)
            &&& signed && trust::trusted_key(t, name) is None ==> (r matches Err(e) && e.reason
                == RejectView::UnknownSigner)
            &&& signed && (trust::trusted_key(t, name) matches Some(pk) && fp
                != wire::fingerprint_of(pk)) ==> (r matches Err(e) && e.reason
                == RejectView::KidMismatch)
            &&& r matches Err(e) ==> e.claimed_sender == Some(name)
        }),
{
    lemma_algorithms_differ();
    let kid = name + seq!['#'] + fp;
    let n = name.len() as int;
    kid.index_of_first_ensures('#');
    assert(kid[n] == '#');
    assert(kid.contains('#'));
    let k = kid.index_of_first('#').unwrap();
    if k < n {
        assert(name[k] == kid[k]);
        assert(name.contains('#'));
    }
    assert(kid.take(n) =~= name);
    assert(kid.skip(n + 1) =~= fp);
}

/// Under the key id of a known agent, a signature that does not hold over the
/// exact bytes is refused as such, and so is another sender in the signed bytes.
pub proof fn a_false_signature_is_refused(
    now: i128,
    raw: Seq<u8>,
    me: IdentityView,
    t: TrustView,
    p: Policy,
    w: WrapperView,
    name: Seq<char>,
    pk: Seq<u8>,
    b: Seq<u8>,
    sig: Seq<u8>,
)
    requires
        wire::wrapper_of(raw) == Some(w),
        w.v == 2 || (w.v == 1 && p.accept_v1),
        w.alg == "ML-DSA-65"@,
        trust::trusted_key(t, name) == Some(pk),
        !name.contains('#'),
        w.kid == Some(wire::kid_of(name, pk)),
        wire::unbase64(w.msg) == Some(b),
        w.sig matches Some(s) && wire::unbase64(s) == Some(sig),
    ensures
        ({
            let r = verdict(now, raw, me, t, p);
            &&& !crypto::signature_holds(pk, b, sig) ==> (r matches Err(e) && e.reason
                == RejectView::InvalidSignature)
            &&& crypto::signature_holds(pk, b, sig) && wire::inner_of(b) is None ==> (
            r matches Err(e) && e.reason == RejectView::MalformedWrapper)
            &&& crypto::signature_holds(pk, b, sig) && (wire::inner_of(b) matches Some(i) && i.from
                != name) ==> (r matches Err(e) && e.reason == RejectView::KidMismatch)
        }),
{
    lemma_algorithms_differ();
    wire::kid_splits_into_name_and_fingerprint(name, pk);
}

/// An encrypted message is accepted only by the receiver whose key it names, and
/// then with the body that its ciphertext opens to, bound to its id, sender,
/// recipient and timestamp, and with the content type of that body.
#[verifier::rlimit(40)]
pub proof fn an_encrypted_message_opens_for_its_receiver(
    now: i128,
    raw: Seq<u8>,
    me: IdentityView,
    t: TrustView,
    p: Policy,
    w: WrapperView,
    b: Seq<u8>,
    i: InnerView,
    e: EncView,
    m: InnerView,
)
    requires
        wire::wrapper_of(raw) == Some(w),
        w.v == 2,
        wire::unbase64(w.msg) == Some(b),
        wire::inner_of(b) == Some(i),
        i.enc == Some(e),
        verdict(now, raw, me, t, p) == Ok::<InnerView, RejectInfoView>(m),
    ensures
        e.recipient_kid == wire::fingerprint_of(me.kem_ek),
        m.ctype == e.ptype,
        wire::unbase64(e.kem_ct) matches Some(kem_ct) && wire::unbase64(e.nonce) matches Some(nonce)
            && wire::unbase64(i.body) matches Some(ct) && kem::aes_gcm_opened(
            kem::ml_kem_decapsulated(me.kem_dk, kem_ct),
            nonce,
            encode_utf8(i.id + "|"@ + i.from + "|"@ + i.to + "|"@ + i.ts),
            ct,
        ) == Some(encode_utf8(m.body)),
{
    let pt = kem::opened(
        kem::ml_kem_decapsulated(me.kem_dk, wire::unbase64(e.kem_ct).unwrap()),
        wire::unbase64(e.nonce).unwrap(),
        encode_utf8(aad_of(i)),
        wire::unbase64(i.body).unwrap(),
    ).unwrap();
    decode_utf8_encode_utf8(pt);
}

/// A message with a grant is accepted only where a known authority's grant, not
/// expired, names its sender.
pub proof fn an_accepted_grant_names_the_sender(
    now: i128,
    raw: Seq<u8>,
    me: IdentityView,
    t: TrustView,
    p: Policy,
    m: InnerView,
    g: GrantView,
)
    requires
        verdict(now, raw, me, t, p) == Ok::<InnerView, RejectInfoView>(m),
        m.grant == Some(g),
    ensures
        grant::grant_verdict(now, g, t) matches Ok(c) && c.subject == m.from,
{
}

/// A built message says what was asked for: every field is the one of the options
/// or of the moment, and it is signed under the sender's key id unless it was to
/// be unsigned. An encrypted one names the recipient's key and carries the
/// content type with the ciphertext.
pub proof fn a_built_message_says_what_was_asked(
    id: IdentityView,
    o: OptsView,
    f: FreshView,
    i: InnerView,
    w: WrapperView,
)
    requires
        is_built(id, o, f, i, w),
    ensures
        i.id == f.id,
        i.v == 2,
        i.from == id.name,
        i.to == o.to,
        i.ts == f.ts,
        i.nonce == wire::base64url(f.nonce),
        i.in_reply_to == o.in_reply_to,
        i.kind == o.kind,
        i.correlation_id == o.correlation_id,
        i.supersedes == o.supersedes,
        i.grant == o.grant,
        i.receipt == o.receipt,
        o.encrypt_to is None ==> i.enc is None && i.body == o.body && i.ctype == o.ctype,
        o.encrypt_to matches Some(ek) ==> {
            &&& i.enc matches Some(e) && {
                &&& e.alg == "ML-KEM-768.AES-256-GCM"@
                &&& e.ptype == o.ctype
                &&& e.recipient_kid == wire::fingerprint_of(ek)
                &&& e.kem_ct == wire::base64url(kem::ml_kem_encapsulated(ek, f.secret).0)
                &&& e.nonce == wire::base64url(f.aead_nonce)
            }
            &&& i.ctype == "ML-KEM-768.AES-256-GCM"@
            &&& i.to != "*"@
            &&& wire::unbase64(i.body) == Some(
                kem::aes_gcm_sealed(
                    kem::ml_kem_encapsulated(ek, f.secret).1,
                    f.aead_nonce,
                    encode_utf8(f.id + "|"@ + id.name + "|"@ + o.to + "|"@ + f.ts),
                    encode_utf8(o.body),
                ),
            )
        },
        w.v == 2,
        wire::unbase64(w.msg) matches Some(b) && wire::inner_of(b) == Some(i),
        o.unsigned ==> w.alg == "none"@ && w.kid is None && w.sig is None,
        !o.unsigned ==> w.alg == "ML-DSA-65"@ && w.kid == Some(
            id.name + seq!['#'] + wire::fingerprint_of(id.public_key),
        ) && w.sig is Some,
{
}

/// Building fails for an encrypted message only: to everyone, to a key of the
/// wrong length, or beyond the limits of the cipher.
pub proof fn cleartext_is_always_built(id: IdentityView, o: OptsView, f: FreshView)
    ensures
        o.encrypt_to is None ==> inner_built(id, o, f) is Ok,
        o.encrypt_to matches Some(ek) ==> {
            &&& o.to == "*"@ ==> inner_built(id, o, f) == Err::<InnerView, RejectView>(
                RejectView::EncBroadcastUnsupported,
            )
            &&& o.to != "*"@ && ek.len() != 1184 ==> inner_built(id, o, f) == Err::<
                InnerView,
                RejectView,
            >(RejectView::UnknownRecipientKey)
            &&& o.to != "*"@ && ek.len() == 1184 && encode_utf8(o.body).len() > 0xf_ffff_ffe0
                ==> inner_built(id, o, f) == Err::<InnerView, RejectView>(RejectView::TooLarge)
            &&& o.to != "*"@ && ek.len() == 1184 && encode_utf8(o.body).len() <= 0xf_ffff_ffe0
                && encode_utf8(f.id + "|"@ + id.name + "|"@ + o.to + "|"@ + f.ts).len()
                <= 0x10_0000_0000 ==> inner_built(id, o, f) is Ok
        },
{
}

/// The ciphertext is bound to the envelope: where one of id, sender, recipient and
/// timestamp is another, so is the associated data.
#[verifier::rlimit(40)]
pub proof fn the_envelope_is_bound(i: InnerView, j: InnerView)
    ensures
        i.id != j.id && i.from == j.from && i.to == j.to && i.ts == j.ts ==> aad_of(i) != aad_of(j),
        i.id == j.id && i.from != j.from && i.to == j.to && i.ts == j.ts ==> aad_of(i) != aad_of(j),
        i.id == j.id && i.from == j.from && i.to != j.to && i.ts == j.ts ==> aad_of(i) != aad_of(j),
        i.id == j.id && i.from == j.from && i.to == j.to && i.ts != j.ts ==> aad_of(i) != aad_of(j),
{
    if aad_of(i) == aad_of(j) {
        let a = aad_of(i);
        let bar = "|"@.len();
        assert(a.len() == i.id.len() + i.from.len() + i.to.len() + i.ts.len() + 3 * bar);
        assert(aad_of(j).len() == j.id.len() + j.from.len() + j.to.len() + j.ts.len() + 3 * bar);
        if i.from == j.from && i.to == j.to && i.ts == j.ts {
            assert(i.id.len() == j.id.len());
            assert(i.id =~= a.take(i.id.len() as int));
            assert(j.id =~= a.take(i.id.len() as int));
        }
        if i.id == j.id && i.to == j.to && i.ts == j.ts {
            let k = (i.id + "|"@).len() as int;
            assert(i.from.len() == j.from.len());
            assert(i.from =~= a.subrange(k, k + i.from.len()));
            assert(j.from =~= a.subrange(k, k + i.from.len()));
        }
        if i.id == j.id && i.from == j.from && i.ts == j.ts {
            let k = (i.id + "|"@ + i.from + "|"@).len() as int;
            assert(i.to.len() == j.to.len());
            assert(i.to =~= a.subrange(k, k + i.to.len()));
            assert(j.to =~= a.subrange(k, k + i.to.len()));
        }
        if i.id == j.id && i.from == j.from && i.to == j.to {
            let k = (i.id + "|"@ + i.from + "|"@ + i.to + "|"@).len() as int;
            assert(i.ts =~= a.skip(k));
            assert(j.ts =~= a.skip(k));
        }
    }
}

/// A hello that was accepted gives the name and the keys that its signed body
/// advertises, and its name is that of the sender.
pub proof fn an_accepted_hello_says_what_its_body_says(
    raw: Seq<u8>,
    w: WrapperView,
    b: Seq<u8>,
    i: InnerView,
    h: HelloView,
)
    requires
        wire::wrapper_of(raw) == Some(w),
        wire::unbase64(w.msg) == Some(b),
        wire::inner_of(b) == Some(i),
        hello_verdict(raw) == Ok::<HelloView, RejectView>(h),
    ensures
        w.v == 2,
        w.alg == "ML-DSA-65"@,
        i.ctype == "application/agentmsg-pair"@,
        i.from == h.name,
        token::body_of(encode_utf8(i.body)) matches Some(body) && {
            &&& body.name == h.name
            &&& wire::unbase64(body.pk) == Some(h.public_key)
            &&& body.kem_pk is None ==> h.kem_public_key is None
            &&& body.kem_pk matches Some(k) ==> wire::unbase64(k) == h.kem_public_key
                && h.kem_public_key is Some
        },
{
}

/// A hello goes to everyone in cleartext, with the sender's name and both keys.
pub proof fn a_hello_offers_both_keys(id: IdentityView, f: FreshView, i: InnerView, w: WrapperView)
    requires
        is_hello(id, f, i, w),
    ensures
        i.id == f.id,
        i.from == id.name,
        i.to == "*"@,
        i.ts == f.ts,
        i.ctype == "application/agentmsg-pair"@,
        i.kind == MsgKind::Message,
        i.enc is None && i.grant is None && i.receipt is None,
        w.alg == "ML-DSA-65"@,
        token::body_of(encode_utf8(i.body)) matches Some(body) && {
            &&& body.name == id.name
            &&& wire::unbase64(body.pk) == Some(id.public_key)
            &&& body.kem_pk matches Some(k) && wire::unbase64(k) == Some(id.kem_ek)
        },
{
}

/// What comes behind the signature is told in its order: a message within the
/// limits that is sealed to another key, that does not open, or whose grant does
/// not hold or names another, is refused for that; one with a grant for its
/// sender is accepted as its bytes say.
#[verifier::rlimit(40)]
pub proof fn a_refusal_behind_the_signature(
    now: i128,
    raw: Seq<u8>,
    me: IdentityView,
    t: TrustView,
    p: Policy,
    w: WrapperView,
    pk: Seq<u8>,
    b: Seq<u8>,
    sig: Seq<u8>,
    i: InnerView,
)
    requires
        wire::wrapper_of(raw) == Some(w),
        w.v == 2,
        w.alg == "ML-DSA-65"@,
        wire::inner_of(b) == Some(i),
        is_authentic(w, t, i.from, pk, b, sig),
        !i.from.contains('#'),
        encode_utf8(i.body).len() <= p.max_payload,
        clock::is_fresh(now, i.ts, p.freshness_secs),
    ensures
        ({
            let r = verdict(now, raw, me, t, p);
            &&& i.enc matches Some(e) ==> e.recipient_kid != wire::fingerprint_of(me.kem_ek) ==> (
            r matches Err(x) && x.reason == RejectView::UnknownRecipientKey)
            &&& i.enc matches Some(e) ==> e.recipient_kid == wire::fingerprint_of(me.kem_ek) && (
            wire::unbase64(e.kem_ct) is None || wire::unbase64(e.nonce) is None || wire::unbase64(
                i.body,
            ) is None || (wire::unbase64(e.nonce) matches Some(n) && n.len() != 12)) ==> (
            r matches Err(x) && x.reason == RejectView::DecryptFailed)
            &&& i.enc is None ==> (i.grant matches Some(g) ==> {
                &&& grant::grant_verdict(now, g, t) matches Err(e) ==> (r matches Err(x)
                    && x.reason == e)
                &&& grant::grant_verdict(now, g, t) matches Ok(c) ==> c.subject != i.from ==> (
                r matches Err(x) && x.reason == RejectView::GrantSubjectMismatch)
                &&& grant::grant_verdict(now, g, t) matches Ok(c) ==> c.subject == i.from ==> (
                r matches Ok(m) && m.id == i.id && m.body == i.body && m.ctype == i.ctype && m.grant
                    == i.grant && m.enc is None)
            })
            &&& r matches Err(x) ==> x.claimed_sender == Some(i.from)
        }),
{
    lemma_algorithms_differ();
    wire::kid_splits_into_name_and_fingerprint(i.from, pk);
}

/// An unsigned message where these are allowed: one that names a known agent is
/// refused as a downgrade, and another is judged as a signed one is.
pub proof fn an_unsigned_message_is_judged(
    now: i128,
    raw: Seq<u8>,
    me: IdentityView,
    t: TrustView,
    p: Policy,
    w: WrapperView,
    b: Seq<u8>,
    i: InnerView,
)
    requires
        wire::wrapper_of(raw) == Some(w),
        w.v == 2,
        w.alg == "none"@,
        p.allow_unsigned,
        wire::unbase64(w.msg) == Some(b),
        wire::inner_of(b) == Some(i),
        i.enc is None,
        i.grant is None,
    ensures
        ({
            let r = verdict(now, raw, me, t, p);
            let known = trust::trusted_key(t, i.from) is Some;
            let long = encode_utf8(i.body).len() > p.max_payload;
            let fresh = clock::is_fresh(now, i.ts, p.freshness_secs);
            &&& known ==> (r matches Err(e) && e.reason == RejectView::DowngradeRejected)
            &&& !known && long ==> (r matches Err(e) && e.reason == RejectView::TooLarge)
            &&& !known && !long && !fresh ==> (r matches Err(e) && e.reason == RejectView::Stale)
            &&& !known && !long && fresh ==> r == Ok::<InnerView, RejectInfoView>(i)
        }),
{
    lemma_algorithms_differ();
}

/// What is no wrapper is refused as malformed, without a sender.
pub proof fn what_is_no_wrapper_is_malformed(
    now: i128,
    raw: Seq<u8>,
    me: IdentityView,
    t: TrustView,
    p: Policy,
)
    requires
        wire::wrapper_of(raw) is None,
    ensures
        verdict(now, raw, me, t, p) == Err::<InnerView, RejectInfoView>(
            RejectInfoView { reason: RejectView::MalformedWrapper, claimed_sender: None },
        ),
        hello_verdict(raw) == Err::<HelloView, RejectView>(RejectView::MalformedWrapper),
{
}

/// A hello is refused for another version or algorithm, for a name that is not
/// the signer's, for a key that has not the claimed fingerprint, and for a
/// signature of another key, in this order.
pub proof fn a_hello_is_refused_in_order(
    raw: Seq<u8>,
    w: WrapperView,
    name: Seq<char>,
    fp: Seq<char>,
    b: Seq<u8>,
    sig: Seq<u8>,
    i: InnerView,
    body: token::BodyView,
    pk: Seq<u8>,
)
    requires
        wire::wrapper_of(raw) == Some(w),
        w.kid == Some(name + seq!['#'] + fp),
        !name.contains('#'),
        wire::unbase64(w.msg) == Some(b),
        w.sig matches Some(s) && wire::unbase64(s) == Some(sig),
        wire::inner_of(b) == Some(i),
        i.ctype == "application/agentmsg-pair"@,
        token::body_of(encode_utf8(i.body)) == Some(body),
        wire::unbase64(body.pk) == Some(pk),
    ensures
        ({
            let r = hello_verdict(raw);
            let signed = w.v == 2 && w.alg == "ML-DSA-65"@;
            let named = i.from == name && body.name == name;
            let keyed = fp == wire::fingerprint_of(pk);
            let holds = crypto::signature_holds(pk, b, sig);
            &&& w.v != 2 ==> r == Err::<HelloView, RejectView>(RejectView::UnsupportedVersion(w.v))
            &&& w.v == 2 && !signed ==> r == Err::<HelloView, RejectView>(
                RejectView::UnsupportedAlg(w.alg),
            )
            &&& signed && !named ==> r == Err::<HelloView, RejectView>(RejectView::KidMismatch)
            &&& signed && named && !keyed ==> r == Err::<HelloView, RejectView>(
                RejectView::KidMismatch,
            )
            &&& signed && named && keyed && !holds ==> r == Err::<HelloView, RejectView>(
                RejectView::InvalidSignature,
            )
            &&& signed && named && keyed && holds && body.kem_pk is None ==> (r matches Ok(h)
                && h.name == name && h.public_key == pk && h.kem_public_key is None)
        }),
{
    let kid = name + seq!['#'] + fp;
    let n = name.len() as int;
    kid.index_of_first_ensures('#');
    assert(kid[n] == '#');
    assert(kid.contains('#'));
    let k = kid.index_of_first('#').unwrap();
    if k < n {
        assert(name[k] == kid[k]);
        assert(name.contains('#'));
    }
    assert(kid.take(n) =~= name);
    assert(kid.skip(n + 1) =~= fp);
}

/// The model of the options holds every field of them.
pub proof fn options_are_seen_as_they_are(v: BuildOpts<'_>)
    ensures
        v@.to == v.to@,
        v@.ctype == v.ctype@,
        v@.body == v.body@,
        v@.kind == v.kind,
        v.in_reply_to matches Some(x) ==> v@.in_reply_to == Some(x@),
        v.in_reply_to is None ==> v@.in_reply_to is None,
        v.correlation_id matches Some(x) ==> v@.correlation_id == Some(x@),
        v.correlation_id is None ==> v@.correlation_id is None,
        v.supersedes matches Some(x) ==> v@.supersedes == Some(x@),
        v.supersedes is None ==> v@.supersedes is None,
        v.grant matches Some(x) ==> v@.grant == Some(x@),
        v.grant is None ==> v@.grant is None,
        v.receipt matches Some(x) ==> v@.receipt == Some(x@),
        v.receipt is None ==> v@.receipt is None,
        v.encrypt_to matches Some(x) ==> v@.encrypt_to == Some(x@),
        v.encrypt_to is None ==> v@.encrypt_to is None,
        v@.unsigned == v.unsigned,
{
}

} // verus!
