//! Human-authority signing key. An authority signs grants that authorize an
//! agent to take a privileged action; agents trust authorities through their
//! trust store.

use vstd::prelude::*;
use vstd::string::*;
use vstd::utf8::*;

use crate::crypto;
use crate::error::{Error, ErrorView};
use crate::identity;
use crate::text;
use crate::token;
use crate::wire;

verus! {

/// Prefix of an authority token. The layout is
/// `agentmsg-auth-v2.<base64 body>.<base64 CRC-32 of the body text>`.
pub const AUTH_TOKEN_PREFIX: &'static str = "agentmsg-auth-v2.";

/// A shareable authority public identity.
#[derive(Debug, PartialEq, Eq)]
pub struct AuthorityToken {
    pub name: String,
    pub public_key: Vec<u8>,
}

/// The model of an [`AuthorityToken`].
pub struct AuthorityTokenView {
    pub name: Seq<char>,
    pub public_key: Seq<u8>,
}

impl View for AuthorityToken {
    type V = AuthorityTokenView;

    open spec fn view(&self) -> AuthorityTokenView {
        AuthorityTokenView { name: self.name@, public_key: self.public_key@ }
    }
}

/// What a pasted text stands for.
pub open spec fn authority_token_of(s: Seq<char>) -> Result<AuthorityTokenView, ErrorView> {
    match text::after_prefix(text::trimmed(s), AUTH_TOKEN_PREFIX@) {
        None => Err(ErrorView::NotAnAuthorityToken),
        Some(rest) => match token::unsealed(rest) {
            Err(e) => Err(e),
            Ok(b) => match token::short_body_of(b) {
                None => Err(ErrorView::TokenCorrupt("bad json"@)),
                Some(body) => match token::named_key(body) {
                    Err(e) => Err(e),
                    Ok((name, public_key)) => Ok(AuthorityTokenView { name, public_key }),
                },
            },
        },
    }
}

/// The text of an authority token.
pub open spec fn authority_token_text(t: AuthorityTokenView) -> Seq<char> {
    AUTH_TOKEN_PREFIX@ + token::sealed_text(
        wire::base64url(
            encode_utf8(
                token::body_text(
                    token::BodyView {
                        name: t.name,
                        pk: wire::base64url(t.public_key),
                        kem_pk: None,
                    },
                ),
            ),
        ),
    )
}

/// A token that a reader accepts.
pub open spec fn is_acceptable(t: AuthorityTokenView) -> bool {
    t.name.len() > 0 && t.public_key.len() == crypto::PUBLIC_KEY_LEN
}

impl AuthorityToken {
    /// Short public-key fingerprint (matches the `kid` fingerprint).
    pub fn fingerprint(&self) -> (r: String)
        ensures
            r@ == wire::fingerprint_of(self@.public_key),
    {
        wire::fingerprint(self.public_key.as_slice())
    }

    /// Encode to a single paste-friendly text with a CRC-32 tail. Decoding an
    /// acceptable token's text gives the token back.
    pub fn encode(&self) -> (r: String)
        ensures
            r@ == authority_token_text(self@),
            is_acceptable(self@) ==> authority_token_of(r@) == Ok::<AuthorityTokenView, ErrorView>(
                self@,
            ),
    {
        let body = token::Body {
            name: self.name.clone(),
            pk: wire::b64(self.public_key.as_slice()),
            kem_pk: None,
        };
        let t: String = body.json();
        let sealed: String = token::seal_body(t.as_str());
        let r: String = text::concat2(AUTH_TOKEN_PREFIX, sealed.as_str());
        proof {
            reveal_strlit("agentmsg-auth-v2.");
            assert(AUTH_TOKEN_PREFIX@.len() == 17);
            assert(AUTH_TOKEN_PREFIX@[0] == 'a' && AUTH_TOKEN_PREFIX@[16] == '.');
            assert(token::is_sealed_char(sealed@[sealed@.len() - 1]));
            token::lemma_prefixed(AUTH_TOKEN_PREFIX@, sealed@);
        }
        r
    }

    /// Decode an authority token. A text with another prefix (an identity token,
    /// say) is [`Error::NotAnAuthorityToken`].
    pub fn decode(s: &str) -> (r: Result<AuthorityToken, Error>)
        ensures
            match r {
                Ok(t) => authority_token_of(s@) == Ok::<AuthorityTokenView, ErrorView>(t@),
                Err(e) => authority_token_of(s@) == Err::<AuthorityTokenView, ErrorView>(e@),
            },
    {
        match text::strip_prefix(text::trim(s), AUTH_TOKEN_PREFIX) {
            None => Err(Error::NotAnAuthorityToken),
            Some(rest) => match token::unseal_body(rest) {
                Err(e) => Err(e),
                Ok(b) => match token::Body::read_short(b.as_slice()) {
                    None => Err(Error::TokenCorrupt(text::own("bad json"))),
                    Some(body) => match token::checked_key(&body) {
                        Err(e) => Err(e),
                        Ok(public_key) => Ok(AuthorityToken { name: body.name, public_key }),
                    },
                },
            },
        }
    }
}

/// A loaded human authority signing key.
pub struct Authority {
    pub name: String,
    /// The signing-key seed (private).
    seed: [u8; 32],
    /// Encoded public key.
    public_key: Vec<u8>,
}

/// The model of an [`Authority`].
pub struct AuthorityView {
    pub name: Seq<char>,
    pub seed: Seq<u8>,
    pub public_key: Seq<u8>,
}

impl View for Authority {
    type V = AuthorityView;

    closed spec fn view(&self) -> AuthorityView {
        AuthorityView { name: self.name@, seed: self.seed@, public_key: self.public_key@ }
    }
}

/// The authority of a name and a seed.
pub open spec fn authority_of(name: Seq<char>, seed: Seq<u8>) -> AuthorityView {
    AuthorityView { name, seed, public_key: crypto::ml_dsa_public_key(seed) }
}

/// What holds of every authority that this module hands out.
pub open spec fn is_whole(a: AuthorityView) -> bool {
    &&& a == authority_of(a.name, a.seed)
    &&& a.seed.len() == crypto::SEED_LEN
    &&& a.public_key.len() == crypto::PUBLIC_KEY_LEN
}

impl Authority {
    /// The authority of `name` and `seed`.
    pub fn from_seed(name: &str, seed: [u8; 32]) -> (r: Authority)
        ensures
            r@ == authority_of(name@, seed@),
            is_whole(r@),
    {
        let public_key: Vec<u8> = crypto::public_key_of(&seed);
        Authority { name: text::own(name), seed, public_key }
    }

    /// Generate a fresh authority key for `name`.
    pub fn generate(name: &str) -> (r: Authority)
        ensures
            exists|seed: Seq<u8>| r@ == #[trigger] authority_of(name@, seed),
            is_whole(r@),
            r@.name == name@,
    {
        let seed: [u8; 32] = crypto::fresh_seed();
        Self::from_seed(name, seed)
    }

    /// The authority of a stored name and seed.
    pub fn from_stored(name: &str, seed: &str) -> (r: Result<Authority, Error>)
        ensures
            match r {
                Ok(a) => identity::seed_of(seed@) matches Ok(s) && a@ == authority_of(name@, s)
                    && is_whole(a@),
                Err(e) => identity::seed_of(seed@) matches Err(x) && x == e@,
            },
    {
        match identity::read_seed(seed) {
            Ok(s) => Ok(Self::from_seed(name, s)),
            Err(e) => Err(e),
        }
    }

    /// The seed as it is stored. Loading it gives the same authority.
    pub fn seed_text(&self) -> (r: String)
        ensures
            r@ == wire::base64url(self@.seed),
            is_whole(self@) ==> identity::seed_of(r@) == Ok::<Seq<u8>, ErrorView>(self@.seed),
    {
        wire::b64(&self.seed)
    }

    /// The encoded public key bytes.
    pub fn public_key(&self) -> (r: &[u8])
        ensures
            r@ == self@.public_key,
    {
        self.public_key.as_slice()
    }

    /// Authority key id `<name>#<fingerprint>`.
    pub fn kid(&self) -> (r: String)
        ensures
            r@ == wire::kid_of(self@.name, self@.public_key),
    {
        wire::make_kid(self.name.as_str(), self.public_key.as_slice())
    }

    /// Shareable public authority token.
    pub fn token(&self) -> (r: AuthorityToken)
        ensures
            r@ == (AuthorityTokenView { name: self@.name, public_key: self@.public_key }),
    {
        AuthorityToken {
            name: self.name.clone(),
            public_key: text::copy_bytes(self.public_key.as_slice()),
        }
    }

    /// Sign grant claim bytes. The signature holds under the public key.
    pub fn sign(&self, msg: &[u8]) -> (sig: Vec<u8>)
        ensures
            sig@ == crypto::ml_dsa_signature(self@.seed, msg@),
            is_whole(self@) ==> crypto::signature_holds(self@.public_key, msg@, sig@),
    {
        crypto::sign_with(&self.seed, msg)
    }
}

/// A pasted authority token is accepted only behind its own prefix, with a
/// checksum that holds, a name and a key of the right length; an identity token
/// is none.
pub proof fn an_authority_token_is_whole(s: Seq<char>)
    ensures
        authority_token_of(s) matches Ok(t) ==> {
            &&& "agentmsg-auth-v2."@.is_prefix_of(text::trimmed(s))
            &&& t.name.len() > 0
            &&& t.public_key.len() == 1952
            &&& token::checksum_holds(text::trimmed(s).skip("agentmsg-auth-v2."@.len() as int))
            &&& token::unsealed(
                text::trimmed(s).skip("agentmsg-auth-v2."@.len() as int),
            ) matches Ok(b) && (token::short_body_of(b) matches Some(body) && body.name == t.name
                && wire::unbase64(body.pk) == Some(t.public_key))
        },
        !"agentmsg-auth-v2."@.is_prefix_of(text::trimmed(s)) ==> authority_token_of(s) == Err::<
            AuthorityTokenView,
            ErrorView,
        >(ErrorView::NotAnAuthorityToken),
{
}

/// An authority is its name and its seed: the key follows from the seed.
pub proof fn a_key_follows_from_the_seed(a: AuthorityView, b: AuthorityView)
    requires
        is_whole(a),
        is_whole(b),
        a.seed == b.seed,
    ensures
        a.public_key == b.public_key,
        a.public_key == crypto::ml_dsa_public_key(a.seed),
        a.name == b.name ==> a == b,
{
}

} // verus!
