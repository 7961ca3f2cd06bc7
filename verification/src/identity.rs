//! Local agent identity: the ML-DSA-65 signing key that messages are signed
//! with, and the ML-KEM-768 keypair for encrypted payloads. Both follow from
//! one 32-byte seed, which is all that is ever stored.

use vstd::prelude::*;
use vstd::string::*;

use crate::crypto;
use crate::error::{Error, ErrorView};
use crate::kem;
use crate::text;
use crate::token::{IdentityToken, TokenView};
use crate::wire;

verus! {

/// A loaded local identity.
pub struct Identity {
    pub name: String,
    /// The signing-key seed (private).
    seed: [u8; 32],
    /// Encoded public key.
    public_key: Vec<u8>,
    /// Encoded ML-KEM-768 decapsulation key (private).
    kem_dk: Vec<u8>,
    /// Encoded ML-KEM-768 encapsulation key (public).
    kem_ek: Vec<u8>,
}

/// The model of an [`Identity`].
pub struct IdentityView {
    pub name: Seq<char>,
    pub seed: Seq<u8>,
    pub public_key: Seq<u8>,
    pub kem_dk: Seq<u8>,
    pub kem_ek: Seq<u8>,
}

impl View for Identity {
    type V = IdentityView;

    closed spec fn view(&self) -> IdentityView {
        IdentityView {
            name: self.name@,
            seed: self.seed@,
            public_key: self.public_key@,
            kem_dk: self.kem_dk@,
            kem_ek: self.kem_ek@,
        }
    }
}

/// The identity of a name and a seed.
pub open spec fn identity_of(name: Seq<char>, seed: Seq<u8>) -> IdentityView {
    IdentityView {
        name,
        seed,
        public_key: crypto::ml_dsa_public_key(seed),
        kem_dk: kem::keys_of_seed(seed).0,
        kem_ek: kem::keys_of_seed(seed).1,
    }
}

/// What holds of every identity that this module hands out: its keys are those
/// of its seed, and all of them have their proper lengths.
pub open spec fn is_whole(id: IdentityView) -> bool {
    &&& id == identity_of(id.name, id.seed)
    &&& id.seed.len() == crypto::SEED_LEN
    &&& id.public_key.len() == crypto::PUBLIC_KEY_LEN
    &&& id.kem_dk.len() == kem::KEM_SK_LEN
    &&& id.kem_ek.len() == kem::KEM_PK_LEN
    &&& kem::ml_kem_public(id.kem_dk) == id.kem_ek
}

/// What a stored seed text stands for.
pub open spec fn seed_of(seed: Seq<char>) -> Result<Seq<u8>, ErrorView> {
    match wire::unbase64(seed) {
        None => Err(ErrorView::Crypto("bad seed"@)),
        Some(b) => if b.len() != crypto::SEED_LEN {
            Err(ErrorView::Crypto("seed must be 32 bytes"@))
        } else {
            Ok(b)
        },
    }
}

/// The seed that a stored text stands for.
pub(crate) fn read_seed(seed: &str) -> (r: Result<[u8; 32], Error>)
    ensures
        match r {
            Ok(s) => seed_of(seed@) == Ok::<Seq<u8>, ErrorView>(s@),
            Err(e) => seed_of(seed@) == Err::<Seq<u8>, ErrorView>(e@),
        },
{
    match wire::unb64(seed) {
        Err(_) => Err(Error::Crypto(text::own("bad seed"))),
        Ok(b) => {
            if b.len() != crypto::SEED_LEN {
                Err(Error::Crypto(text::own("seed must be 32 bytes")))
            } else {
                Ok(kem::array32(b.as_slice()))
            }
        },
    }
}

impl Identity {
    /// The identity of `name` and `seed`.
    pub fn from_seed(name: &str, seed: [u8; 32]) -> (r: Identity)
        ensures
            r@ == identity_of(name@, seed@),
            is_whole(r@),
    {
        let public_key: Vec<u8> = crypto::public_key_of(&seed);
        let (kem_dk, kem_ek) = kem::derive_from_seed(&seed);
        Identity { name: text::own(name), seed, public_key, kem_dk, kem_ek }
    }

    /// Generate a fresh identity for `name` (both keypairs).
    pub fn generate(name: &str) -> (r: Identity)
        ensures
            exists|seed: Seq<u8>| r@ == #[trigger] identity_of(name@, seed),
            is_whole(r@),
            r@.name == name@,
    {
        let seed: [u8; 32] = crypto::fresh_seed();
        Self::from_seed(name, seed)
    }

    /// The identity of a stored name and seed.
    pub fn from_stored(name: &str, seed: &str) -> (r: Result<Identity, Error>)
        ensures
            match r {
                Ok(id) => seed_of(seed@) matches Ok(s) && id@ == identity_of(name@, s) && is_whole(
                    id@,
                ),
                Err(e) => seed_of(seed@) matches Err(x) && x == e@,
            },
    {
        match read_seed(seed) {
            Ok(s) => Ok(Self::from_seed(name, s)),
            Err(e) => Err(e),
        }
    }

    /// The seed as it is stored. Loading it gives the same identity.
    pub fn seed_text(&self) -> (r: String)
        ensures
            r@ == wire::base64url(self@.seed),
            is_whole(self@) ==> seed_of(r@) == Ok::<Seq<u8>, ErrorView>(self@.seed),
    {
        wire::b64(&self.seed)
    }

    /// The name under which messages are sent.
    pub fn agent_name(&self) -> (r: &str)
        ensures
            r@ == self@.name,
    {
        self.name.as_str()
    }

    /// The encoded ML-DSA-65 public key bytes.
    pub fn public_key(&self) -> (r: &[u8])
        ensures
            r@ == self@.public_key,
    {
        self.public_key.as_slice()
    }

    /// The encoded ML-KEM-768 encapsulation (public) key bytes.
    pub fn kem_ek(&self) -> (r: &[u8])
        ensures
            r@ == self@.kem_ek,
    {
        self.kem_ek.as_slice()
    }

    /// The encoded ML-KEM-768 decapsulation (private) key bytes.
    pub fn kem_dk(&self) -> (r: &[u8])
        ensures
            r@ == self@.kem_dk,
    {
        self.kem_dk.as_slice()
    }

    /// Fingerprint of the KEM encapsulation key (matches `recipient_kid`).
    pub fn kem_fingerprint(&self) -> (r: String)
        ensures
            r@ == wire::fingerprint_of(self@.kem_ek),
    {
        kem::kem_fingerprint(self.kem_ek.as_slice())
    }

    /// Signer key id `<name>#<fingerprint>`.
    pub fn kid(&self) -> (r: String)
        ensures
            r@ == wire::kid_of(self@.name, self@.public_key),
    {
        wire::make_kid(self.name.as_str(), self.public_key.as_slice())
    }

    /// Shareable public identity token with both public keys.
    pub fn token(&self) -> (r: IdentityToken)
        ensures
            r@ == (TokenView {
                name: self@.name,
                public_key: self@.public_key,
                kem_public_key: Some(self@.kem_ek),
            }),
    {
        IdentityToken::with_kem(
            self.name.as_str(),
            text::copy_bytes(self.public_key.as_slice()),
            Some(text::copy_bytes(self.kem_ek.as_slice())),
        )
    }

    /// Sign a message. The signature holds under the public key.
    pub fn sign(&self, msg: &[u8]) -> (sig: Vec<u8>)
        ensures
            sig@ == crypto::ml_dsa_signature(self@.seed, msg@),
            is_whole(self@) ==> crypto::signature_holds(self@.public_key, msg@, sig@),
    {
        crypto::sign_with(&self.seed, msg)
    }
}

/// The name and the fingerprint of a stored identity, `None` where its seed is
/// unusable.
pub fn name_and_fingerprint(name: &str, seed: &str) -> (r: Option<(String, String)>)
    ensures
        match r {
            Some(p) => seed_of(seed@) matches Ok(s) && p.0@ == name@ && p.1@
                == wire::fingerprint_of(crypto::ml_dsa_public_key(s)),
            None => seed_of(seed@) is Err,
        },
{
    match read_seed(seed) {
        Ok(s) => {
            let pk: Vec<u8> = crypto::public_key_of(&s);
            Some((text::own(name), wire::fingerprint(pk.as_slice())))
        },
        Err(_) => None,
    }
}

/// The name under which a key file is kept before it is overwritten.
pub open spec fn backup_name_of(file: Seq<char>, fp: Option<Seq<char>>) -> Seq<char> {
    file + ".bak-"@ + (match fp {
        Some(f) => f,
        None => "unknown"@,
    })
}

/// The name under which a key file is kept before it is overwritten.
pub fn backup_name(file: &str, fp: Option<&str>) -> (r: String)
    ensures
        r@ == backup_name_of(file@, text::opt_str(fp)),
{
    match fp {
        Some(f) => text::concat3(file, ".bak-", f),
        None => text::concat3(file, ".bak-", "unknown"),
    }
}

/// A backup stands beside its file, under the fingerprint of the key in it, so
/// that backups of different keys do not replace each other.
pub proof fn backups_do_not_replace_each_other(file: Seq<char>, a: Seq<char>, b: Seq<char>)
    ensures
        file.is_prefix_of(backup_name_of(file, Some(a))),
        backup_name_of(file, Some(a)) == file + ".bak-"@ + a,
        backup_name_of(file, None) == file + ".bak-unknown"@,
        a != b ==> backup_name_of(file, Some(a)) != backup_name_of(file, Some(b)),
        backup_name_of(file, Some(a)) != file,
{
    reveal_strlit(".bak-");
    reveal_strlit("unknown");
    reveal_strlit(".bak-unknown");
    assert(".bak-unknown"@ =~= ".bak-"@ + "unknown"@);
    assert(file + ".bak-"@ + "unknown"@ =~= file + (".bak-"@ + "unknown"@));
    let p = file + ".bak-"@;
    let n = p.len() as int;
    assert((p + a).skip(n) =~= a);
    assert((p + b).skip(n) =~= b);
    assert(".bak-"@.len() == 5);
}

/// An identity is its name and its seed: all keys follow from the seed, and the
/// name does not touch them.
pub proof fn keys_follow_from_the_seed(a: IdentityView, b: IdentityView)
    requires
        is_whole(a),
        is_whole(b),
        a.seed == b.seed,
    ensures
        a.public_key == b.public_key,
        a.kem_dk == b.kem_dk,
        a.kem_ek == b.kem_ek,
        a.public_key == crypto::ml_dsa_public_key(a.seed),
        a.name == b.name ==> a == b,
{
}

/// A stored seed is read exactly where it is base64 of 32 bytes.
pub proof fn a_seed_has_its_length(seed: Seq<char>)
    ensures
        seed_of(seed) matches Ok(s) ==> wire::unbase64(seed) == Some(s) && s.len() == 32,
        seed_of(seed) is Ok <==> (wire::unbase64(seed) matches Some(b) && b.len() == 32),
        seed_of(seed) matches Err(e) ==> e is Crypto,
{
}

} // verus!
