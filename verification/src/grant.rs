//! Human-authorization grants. An authority key signs the claims of a grant; an
//! agent attaches the signed grant to a message to prove that it was authorized
//! to take a privileged action.

use vstd::prelude::*;
use vstd::string::*;
use vstd::utf8::*;

use crate::authority;
use crate::authority::{Authority, AuthorityView};
use crate::clock;
use crate::crypto;
use crate::error::{Error, ErrorView, RejectReason, RejectView};
use crate::json;
use crate::text;
use crate::token;
use crate::trust;
use crate::trust::{TrustStore, TrustView};
use crate::wire;
use crate::wire::{GrantView, SignedGrant};

verus! {

/// Prefix of a paste-friendly signed grant.
pub const GRANT_TOKEN_PREFIX: &'static str = "agentmsg-grant-v1.";

/// The claims that an authority asserts in a grant.
#[derive(Debug, PartialEq, Eq)]
pub struct GrantClaims {
    /// Unique grant id (also the key of replay dedupe).
    pub id: String,
    /// Authorized action (free-form, e.g. "deploy").
    pub action: String,
    /// Scope that the action is limited to.
    pub scope: String,
    /// Agent that the grant authorizes (must equal the message sender).
    pub subject: String,
    /// RFC 3339 expiry; the grant is invalid once past.
    pub expiry: String,
    /// Random nonce for uniqueness.
    pub nonce: String,
}

/// The model of [`GrantClaims`].
pub struct ClaimsView {
    pub id: Seq<char>,
    pub action: Seq<char>,
    pub scope: Seq<char>,
    pub subject: Seq<char>,
    pub expiry: Seq<char>,
    pub nonce: Seq<char>,
}

impl View for GrantClaims {
    type V = ClaimsView;

    open spec fn view(&self) -> ClaimsView {
        ClaimsView {
            id: self.id@,
            action: self.action@,
            scope: self.scope@,
            subject: self.subject@,
            expiry: self.expiry@,
            nonce: self.nonce@,
        }
    }
}

/// The members of claims, in the order in which they are written.
pub open spec fn claims_members(c: ClaimsView) -> Seq<(Seq<char>, Seq<char>)> {
    let m0 = json::with_text(wire::no_members(), "id"@, c.id);
    let m1 = json::with_text(m0, "action"@, c.action);
    let m2 = json::with_text(m1, "scope"@, c.scope);
    let m3 = json::with_text(m2, "subject"@, c.subject);
    let m4 = json::with_text(m3, "expiry"@, c.expiry);
    json::with_text(m4, "nonce"@, c.nonce)
}

/// The bytes of claims that are signed.
pub open spec fn claims_bytes(c: ClaimsView) -> Seq<u8> {
    encode_utf8(json::object_text(claims_members(c)))
}

/// The claims that bytes stand for.
pub open spec fn claims_of(b: Seq<u8>) -> Option<ClaimsView> {
    match json::fields_of(b, 6) {
        None => None,
        Some(f) => match (
            json::text_field(f, 0, "id"@),
            json::text_field(f, 1, "action"@),
            json::text_field(f, 2, "scope"@),
            json::text_field(f, 3, "subject"@),
            json::text_field(f, 4, "expiry"@),
            json::text_field(f, 5, "nonce"@),
        ) {
            (Some(id), Some(action), Some(scope), Some(subject), Some(expiry), Some(nonce)) => Some(
                ClaimsView { id, action, scope, subject, expiry, nonce },
            ),
            _ => None,
        },
    }
}

impl GrantClaims {
    /// The bytes that are signed, which read back.
    fn to_bytes(&self) -> (b: Vec<u8>)
        ensures
            b@ == claims_bytes(self@),
            claims_of(b@) == Some(self@),
    {
        let fields: [(&str, &str); 6] = [
            ("id", self.id.as_str()),
            ("action", self.action.as_str()),
            ("scope", self.scope.as_str()),
            ("subject", self.subject.as_str()),
            ("expiry", self.expiry.as_str()),
            ("nonce", self.nonce.as_str()),
        ];
        let t: String = json::write_strings(&fields);
        proof {
            let c = self@;
            let m0 = json::with_text(wire::no_members(), "id"@, c.id);
            let m1 = json::with_text(m0, "action"@, c.action);
            let m2 = json::with_text(m1, "scope"@, c.scope);
            let m3 = json::with_text(m2, "subject"@, c.subject);
            let m4 = json::with_text(m3, "expiry"@, c.expiry);
            let ms = claims_members(c);
            assert(json::string_members(fields@) =~= ms);
            assert(json::reads_back(fields@[0].0@) && json::reads_back(fields@[1].0@)
                && json::reads_back(fields@[2].0@) && json::reads_back(fields@[3].0@)
                && json::reads_back(fields@[4].0@) && json::reads_back(fields@[5].0@));
            json::lemma_members_read_back(ms);
            json::lemma_slot_empty();
            json::lemma_slot_push(wire::no_members(), "id"@, json::json_quoted(c.id));
            json::lemma_slot_push(m0, "action"@, json::json_quoted(c.action));
            json::lemma_slot_push(m1, "scope"@, json::json_quoted(c.scope));
            json::lemma_slot_push(m2, "subject"@, json::json_quoted(c.subject));
            json::lemma_slot_push(m3, "expiry"@, json::json_quoted(c.expiry));
            json::lemma_slot_push(m4, "nonce"@, json::json_quoted(c.nonce));
            reveal_strlit("id");
            reveal_strlit("action");
            reveal_strlit("scope");
            reveal_strlit("subject");
            reveal_strlit("expiry");
            reveal_strlit("nonce");
            assert("id"@.len() == 2 && "subject"@.len() == 7);
            assert("action"@.len() == 6 && "expiry"@.len() == 6 && "action"@[0] != "expiry"@[0]);
            assert("scope"@.len() == 5 && "nonce"@.len() == 5 && "scope"@[0] != "nonce"@[0]);
            let f = json::Fields::Object(json::as_read(ms));
            assert(json::text_field(f, 0, "id"@) == Some(c.id));
            assert(json::text_field(f, 1, "action"@) == Some(c.action));
            assert(json::text_field(f, 2, "scope"@) == Some(c.scope));
            assert(json::text_field(f, 3, "subject"@) == Some(c.subject));
            assert(json::text_field(f, 4, "expiry"@) == Some(c.expiry));
            assert(json::text_field(f, 5, "nonce"@) == Some(c.nonce));
        }
        text::copy_bytes(t.as_str().as_bytes())
    }

    fn read(b: &[u8]) -> (r: Option<GrantClaims>)
        ensures
            match r {
                Some(c) => claims_of(b@) == Some(c@),
                None => claims_of(b@) is None,
            },
    {
        match json::split_fields(b, 6) {
            None => None,
            Some(f) => {
                match (
                    f.text(0, "id"),
                    f.text(1, "action"),
                    f.text(2, "scope"),
                    f.text(3, "subject"),
                    f.text(4, "expiry"),
                    f.text(5, "nonce"),
                ) {
                    (
                        Some(id),
                        Some(action),
                        Some(scope),
                        Some(subject),
                        Some(expiry),
                        Some(nonce),
                    ) => Some(GrantClaims { id, action, scope, subject, expiry, nonce }),
                    _ => None,
                }
            },
        }
    }
}

/// The grant that an authority signs for claims.
pub open spec fn minted(a: AuthorityView, c: ClaimsView) -> GrantView {
    GrantView {
        alg: wire::ALG_ML_DSA_65@,
        authority_kid: wire::kid_of(a.name, a.public_key),
        grant: wire::base64url(claims_bytes(c)),
        sig: wire::base64url(crypto::ml_dsa_signature(a.seed, claims_bytes(c))),
    }
}

/// `g` carries the claims `c` in a form that reads back, under a signature of
/// `a` that holds.
pub open spec fn is_minted(a: AuthorityView, c: ClaimsView, g: GrantView) -> bool {
    let sig = crypto::ml_dsa_signature(a.seed, claims_bytes(c));
    &&& g == minted(a, c)
    &&& claims_of(claims_bytes(c)) == Some(c)
    &&& wire::unbase64(g.grant) == Some(claims_bytes(c))
    &&& wire::unbase64(g.sig) == Some(sig)
    &&& authority::is_whole(a) ==> crypto::signature_holds(a.public_key, claims_bytes(c), sig)
}

/// What a signed grant proves at `now`: its claims, or why it proves nothing.
pub open spec fn grant_verdict(now: i128, g: GrantView, t: TrustView) -> Result<
    ClaimsView,
    RejectView,
> {
    match text::split_first(g.authority_kid, '#') {
        None => Err(RejectView::InvalidGrant),
        Some((name, fp)) => match trust::authority_key(t, name) {
            None => Err(RejectView::UnknownAuthority),
            Some(pk) => if fp != wire::fingerprint_of(pk) {
                Err(RejectView::UnknownAuthority)
            } else {
                match (wire::unbase64(g.grant), wire::unbase64(g.sig)) {
                    (Some(b), Some(sig)) => if !crypto::signature_holds(pk, b, sig) {
                        Err(RejectView::InvalidGrant)
                    } else {
                        match claims_of(b) {
                            None => Err(RejectView::InvalidGrant),
                            Some(c) => if clock::is_past(now, c.expiry) {
                                Err(RejectView::GrantExpired)
                            } else {
                                Ok(c)
                            },
                        }
                    },
                    _ => Err(RejectView::InvalidGrant),
                }
            },
        },
    }
}

/// Mint a signed grant: sign the claim bytes with the authority key.
pub fn mint(authority: &Authority, claims: &GrantClaims) -> (r: SignedGrant)
    ensures
        is_minted(authority@, claims@, r@),
{
    let json: Vec<u8> = claims.to_bytes();
    let sig: Vec<u8> = authority.sign(json.as_slice());
    SignedGrant {
        alg: text::own(wire::ALG_ML_DSA_65),
        authority_kid: authority.kid(),
        grant: wire::b64(json.as_slice()),
        sig: wire::b64(sig.as_slice()),
    }
}

/// Verify a signed grant against the known authorities at `now`. On success the
/// claims are returned, their expiry checked. Subject and replay checks are the
/// caller's.
pub fn verify_at(now: i128, sg: &SignedGrant, authorities: &TrustStore) -> (r: Result<
    GrantClaims,
    RejectReason,
>)
    requires
        authorities.wf(),
    ensures
        match r {
            Ok(c) => grant_verdict(now, sg@, authorities@) == Ok::<ClaimsView, RejectView>(c@),
            Err(e) => grant_verdict(now, sg@, authorities@) == Err::<ClaimsView, RejectView>(e@),
        },
{
    match wire::split_kid(sg.authority_kid.as_str()) {
        None => Err(RejectReason::InvalidGrant),
        Some((name, fp)) => match authorities.authority_public_key(name) {
            Err(_) => Err(RejectReason::UnknownAuthority),
            Ok(pk) => {
                let known: String = wire::fingerprint(pk.as_slice());
                if !text::str_eq(fp, known.as_str()) {
                    return Err(RejectReason::UnknownAuthority);
                }
                match (wire::unb64(sg.grant.as_str()), wire::unb64(sg.sig.as_str())) {
                    (Ok(b), Ok(sig)) => {
                        if !crypto::verify(pk.as_slice(), b.as_slice(), sig.as_slice()) {
                            return Err(RejectReason::InvalidGrant);
                        }
                        match GrantClaims::read(b.as_slice()) {
                            None => Err(RejectReason::InvalidGrant),
                            Some(c) => {
                                if clock::expired_at(now, c.expiry.as_str()) {
                                    Err(RejectReason::GrantExpired)
                                } else {
                                    Ok(c)
                                }
                            },
                        }
                    },
                    _ => Err(RejectReason::InvalidGrant),
                }
            },
        },
    }
}

/// Verify a signed grant against the known authorities, now.
pub fn verify(sg: &SignedGrant, authorities: &TrustStore) -> (r: Result<GrantClaims, RejectReason>)
    requires
        authorities.wf(),
    ensures
        exists|now: i128|
            clock::in_time_range(now) && match r {
                Ok(c) => #[trigger] grant_verdict(now, sg@, authorities@) == Ok::<
                    ClaimsView,
                    RejectView,
                >(c@),
                Err(e) => grant_verdict(now, sg@, authorities@) == Err::<ClaimsView, RejectView>(
                    e@,
                ),
            },
{
    let now: i128 = clock::now_nanos();
    verify_at(now, sg, authorities)
}

/// What a pasted text stands for.
pub open spec fn grant_token_of(s: Seq<char>) -> Result<GrantView, ErrorView> {
    match text::after_prefix(text::trimmed(s), GRANT_TOKEN_PREFIX@) {
        None => Err(ErrorView::InvalidToken("missing agentmsg-grant-v1 prefix"@)),
        Some(rest) => match wire::unbase64(rest) {
            None => Err(ErrorView::InvalidToken("bad base64"@)),
            Some(b) => match wire::grant_of(b) {
                None => Err(ErrorView::InvalidToken("bad grant json"@)),
                Some(g) => Ok(g),
            },
        },
    }
}

/// Encode a signed grant to a single paste-friendly text. Decoding it gives the
/// grant back.
pub fn encode_token(sg: &SignedGrant) -> (r: String)
    ensures
        r@ == GRANT_TOKEN_PREFIX@ + wire::base64url(encode_utf8(wire::grant_text(sg@))),
        grant_token_of(r@) == Ok::<GrantView, ErrorView>(sg@),
{
    let json: String = sg.json();
    let body: String = wire::b64(json.as_str().as_bytes());
    let r: String = text::concat2(GRANT_TOKEN_PREFIX, body.as_str());
    proof {
        reveal_strlit("agentmsg-grant-v1.");
        assert(GRANT_TOKEN_PREFIX@.len() == 18);
        assert(GRANT_TOKEN_PREFIX@[0] == 'a' && GRANT_TOKEN_PREFIX@[17] == '.');
        if body@.len() > 0 {
            assert(wire::is_base64url_char(body@[body@.len() - 1]));
        }
        token::lemma_prefixed(GRANT_TOKEN_PREFIX@, body@);
    }
    r
}

/// Decode a signed-grant text (tolerates pasted white space).
pub fn decode_token(s: &str) -> (r: Result<SignedGrant, Error>)
    ensures
        match r {
            Ok(g) => grant_token_of(s@) == Ok::<GrantView, ErrorView>(g@),
            Err(e) => grant_token_of(s@) == Err::<GrantView, ErrorView>(e@),
        },
{
    match text::strip_prefix(text::trim(s), GRANT_TOKEN_PREFIX) {
        None => Err(Error::InvalidToken(text::own("missing agentmsg-grant-v1 prefix"))),
        Some(rest) => match wire::unb64(rest) {
            Err(_) => Err(Error::InvalidToken(text::own("bad base64"))),
            Ok(b) => match SignedGrant::from_json(b.as_slice()) {
                None => Err(Error::InvalidToken(text::own("bad grant json"))),
                Some(g) => Ok(g),
            },
        },
    }
}

/// A minted grant proves its claims to everyone who knows the authority's key,
/// until it expires.
pub proof fn minted_grant_is_accepted(
    a: AuthorityView,
    c: ClaimsView,
    g: GrantView,
    t: TrustView,
    now: i128,
)
    requires
        is_minted(a, c, g),
        authority::is_whole(a),
        !a.name.contains('#'),
        trust::authority_key(t, a.name) == Some(a.public_key),
    ensures
        grant_verdict(now, g, t) == (if clock::is_past(now, c.expiry) {
            Err::<ClaimsView, RejectView>(RejectView::GrantExpired)
        } else {
            Ok(c)
        }),
{
    wire::kid_splits_into_name_and_fingerprint(a.name, a.public_key);
}

/// A grant is accepted only with a signature of a known authority over the exact
/// bytes of the claims, and not past its expiry.
pub proof fn accepted_grant_is_signed_and_current(
    now: i128,
    g: GrantView,
    t: TrustView,
    c: ClaimsView,
)
    requires
        grant_verdict(now, g, t) == Ok::<ClaimsView, RejectView>(c),
    ensures
        !clock::is_past(now, c.expiry),
        exists|name: Seq<char>, pk: Seq<u8>, b: Seq<u8>, sig: Seq<u8>|
            trust::authority_key(t, name) == Some(pk) && wire::unbase64(g.grant) == Some(b)
                && wire::unbase64(g.sig) == Some(sig) && #[trigger] crypto::signature_holds(
                pk,
                b,
                sig,
            ) && claims_of(b) == Some(c) && g.authority_kid == #[trigger] wire::kid_of(name, pk),
{
    let (name, fp) = text::split_first(g.authority_kid, '#').unwrap();
    let pk = trust::authority_key(t, name).unwrap();
    let b = wire::unbase64(g.grant).unwrap();
    let sig = wire::unbase64(g.sig).unwrap();
    assert(crypto::signature_holds(pk, b, sig));
    let kid = g.authority_kid;
    kid.index_of_first_ensures('#');
    let i = kid.index_of_first('#').unwrap();
    assert(kid =~= kid.take(i) + seq!['#'] + kid.skip(i + 1));
    assert(kid == wire::kid_of(name, pk));
}

/// How a grant is judged: its authority must be known under the claimed key, its
/// signature must hold over the exact bytes of its claims, these must read as
/// claims, and it must not be past its expiry. What is wrong is told in this
/// order, and what holds gives the claims as they were signed.
pub proof fn a_grant_is_judged_in_order(
    now: i128,
    g: GrantView,
    t: TrustView,
    name: Seq<char>,
    fp: Seq<char>,
    b: Seq<u8>,
    sig: Seq<u8>,
)
    requires
        g.authority_kid == name + seq!['#'] + fp,
        !name.contains('#'),
        wire::unbase64(g.grant) == Some(b),
        wire::unbase64(g.sig) == Some(sig),
    ensures
        ({
            let r = grant_verdict(now, g, t);
            let known = trust::authority_key(t, name) matches Some(pk) && fp
                == wire::fingerprint_of(pk);
            let pk = trust::authority_key(t, name)->0;
            let holds = known && crypto::signature_holds(pk, b, sig);
            &&& !known ==> r == Err::<ClaimsView, RejectView>(RejectView::UnknownAuthority)
            &&& known && !holds ==> r == Err::<ClaimsView, RejectView>(RejectView::InvalidGrant)
            &&& holds && claims_of(b) is None ==> r == Err::<ClaimsView, RejectView>(
                RejectView::InvalidGrant,
            )
            &&& holds ==> (claims_of(b) matches Some(c) ==> {
                let current = clock::rfc3339_nanos(c.expiry) matches Some(at) && now <= at;
                &&& current ==> r == Ok::<ClaimsView, RejectView>(c)
                &&& !current ==> r == Err::<ClaimsView, RejectView>(RejectView::GrantExpired)
            })
        }),
{
    let kid = name + seq!['#'] + fp;
    let n = name.len() as int;
    kid.index_of_first_ensures('#');
    assert(kid[n] == '#');
    assert(kid.contains('#'));
    let k = kid.index_of_first('#').unwrap();
    if k < n {
        assert(name[k] == kid[k]);
        assert(name.contains('#'));
    }
    assert(kid.take(n) =~= name);
    assert(kid.skip(n + 1) =~= fp);
}

/// A minted grant names its authority by its key id and carries the claims as
/// they are.
pub proof fn a_minted_grant_carries_its_claims(a: AuthorityView, c: ClaimsView, g: GrantView)
    requires
        is_minted(a, c, g),
    ensures
        g.alg == "ML-DSA-65"@,
        g.authority_kid == a.name + seq!['#'] + wire::fingerprint_of(a.public_key),
        wire::unbase64(g.grant) matches Some(b) && claims_of(b) == Some(c),
        wire::unbase64(g.sig) matches Some(s) && (wire::unbase64(g.grant) matches Some(b) && s
            == crypto::ml_dsa_signature(a.seed, b)),
{
}

/// A pasted grant is read behind its prefix, white space around it taken off:
/// base64 of a grant's JSON. What is wrong is an invalid token.
pub proof fn a_pasted_grant_is_read_behind_its_prefix(s: Seq<char>)
    ensures
        grant_token_of(s) matches Err(e) ==> e is InvalidToken,
        grant_token_of(s) matches Ok(g) ==> "agentmsg-grant-v1."@.is_prefix_of(text::trimmed(s)) && (
        wire::unbase64(text::trimmed(s).skip("agentmsg-grant-v1."@.len() as int)) matches Some(b)
            && wire::grant_of(b) == Some(g)),
        "agentmsg-grant-v1."@.is_prefix_of(text::trimmed(s)) && (wire::unbase64(
            text::trimmed(s).skip("agentmsg-grant-v1."@.len() as int),
        ) matches Some(b) && wire::grant_of(b) is Some) ==> grant_token_of(s) is Ok,
{
}

/// Claims that were read say what stands under their names.
pub proof fn claims_are_read_by_their_names(b: Seq<u8>, ms: Seq<json::Member>, c: ClaimsView)
    requires
        json::members_of(b) == Some(ms),
        claims_of(b) == Some(c),
    ensures
        wire::text_under(ms, "id"@, c.id),
        wire::text_under(ms, "action"@, c.action),
        wire::text_under(ms, "scope"@, c.scope),
        wire::text_under(ms, "subject"@, c.subject),
        wire::text_under(ms, "expiry"@, c.expiry),
        wire::text_under(ms, "nonce"@, c.nonce),
{
}

} // verus!
