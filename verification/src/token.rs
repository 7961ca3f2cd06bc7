//! Paste-friendly identity token: one self-contained block with an agent name
//! and its public keys, and no private material.
//!
//! A token of the second version carries an optional ML-KEM key and a CRC-32
//! tail, so that a truncated or garbled paste is refused instead of imported.
//! Tokens of the first version are still read.

use vstd::prelude::*;
use vstd::string::*;
use vstd::utf8::*;

use crate::crypto;
use crate::error::{Error, ErrorView};
use crate::json;
use crate::text;
use crate::wire;

verus! {

/// Prefix of the first version (read only).
pub const TOKEN_PREFIX_V1: &'static str = "agentmsg-id-v1.";

/// Prefix of the second version. The layout is
/// `agentmsg-id-v2.<base64 body>.<base64 CRC-32 of the body text>`.
pub const TOKEN_PREFIX_V2: &'static str = "agentmsg-id-v2.";

/// A shareable public identity.
#[derive(Debug, PartialEq, Eq)]
pub struct IdentityToken {
    pub name: String,
    pub public_key: Vec<u8>,
    /// ML-KEM-768 encapsulation key, where the peer advertises one.
    pub kem_public_key: Option<Vec<u8>>,
}

/// The model of an [`IdentityToken`].
pub struct TokenView {
    pub name: Seq<char>,
    pub public_key: Seq<u8>,
    pub kem_public_key: Option<Seq<u8>>,
}

/// The model of optional bytes.
pub open spec fn opt_bytes(o: Option<Vec<u8>>) -> Option<Seq<u8>> {
    match o {
        Some(b) => Some(b@),
        None => None,
    }
}

impl View for IdentityToken {
    type V = TokenView;

    open spec fn view(&self) -> TokenView {
        TokenView {
            name: self.name@,
            public_key: self.public_key@,
            kem_public_key: opt_bytes(self.kem_public_key),
        }
    }
}

// ---------------------------------------------------------------------------
// The checksummed envelope.
// ---------------------------------------------------------------------------

/// The CRC-32 checksum.
pub uninterp spec fn crc32(b: Seq<u8>) -> u32;

/// `b` is `a` with one byte replaced by another.
pub open spec fn differ_in_one(a: Seq<u8>, b: Seq<u8>) -> bool {
    exists|i: int| 0 <= i < a.len() && #[trigger] b[i] != a[i] && b == a.update(i, b[i])
}

/// Calls `crc32fast::hash`. The result is named. Bytes that differ in one place
/// have different checksums: each step of the computation looks a byte up in a
/// table whose entries all begin differently, so that it keeps states apart and
/// parts them where the bytes differ.
#[verifier::external_body]
fn checksum(bytes: &[u8]) -> (c: u32)
    ensures
        c == crc32(bytes@),
        forall|other: Seq<u8>| differ_in_one(bytes@, other) ==> #[trigger] crc32(other) != c,
{
    crc32fast::hash(bytes)
}

/// The four bytes of a number, the highest first.
pub open spec fn be_bytes(n: u32) -> Seq<u8> {
    seq![
        (n / 0x100_0000) as u8,
        ((n / 0x1_0000) % 0x100) as u8,
        ((n / 0x100) % 0x100) as u8,
        (n % 0x100) as u8,
    ]
}

/// The number of four bytes, the highest first.
pub open spec fn be_value(b: Seq<u8>) -> int {
    b[0] * 0x100_0000 + b[1] * 0x1_0000 + b[2] * 0x100 + b[3]
}

fn to_be(n: u32) -> (r: Vec<u8>)
    ensures
        r@ == be_bytes(n),
        be_value(r@) == n,
{
    let mut r: Vec<u8> = Vec::new();
    r.push((n / 0x100_0000) as u8);
    r.push(((n / 0x1_0000) % 0x100) as u8);
    r.push(((n / 0x100) % 0x100) as u8);
    r.push((n % 0x100) as u8);
    assert(r@ =~= be_bytes(n));
    r
}

fn from_be(b: &[u8]) -> (n: u32)
    requires
        b@.len() == 4,
    ensures
        n == be_value(b@),
{
    (b[0] as u32) * 0x100_0000 + (b[1] as u32) * 0x1_0000 + (b[2] as u32) * 0x100 + (b[3] as u32)
}

/// A body in base64 with its checksum behind a dot.
pub open spec fn sealed_text(body: Seq<char>) -> Seq<char> {
    body + seq!['.'] + wire::base64url(be_bytes(crc32(encode_utf8(body))))
}

/// The bytes of a checksummed body, or what is wrong with it.
pub open spec fn unsealed(rest: Seq<char>) -> Result<Seq<u8>, ErrorView> {
    match text::split_last(rest, '.') {
        None => Err(ErrorView::TokenCorrupt("missing checksum"@)),
        Some((body, tail)) => match wire::unbase64(tail) {
            None => Err(ErrorView::TokenCorrupt("bad checksum"@)),
            Some(c) => if c.len() != 4 {
                Err(ErrorView::TokenCorrupt("bad checksum length"@))
            } else if crc32(encode_utf8(body)) != be_value(c) {
                Err(ErrorView::TokenCorrupt("checksum mismatch — token truncated/corrupted"@))
            } else {
                match wire::unbase64(body) {
                    None => Err(ErrorView::TokenCorrupt("bad base64"@)),
                    Some(b) => Ok(b),
                }
            },
        },
    }
}

proof fn lemma_split_last(b: Seq<char>, t: Seq<char>, c: char)
    requires
        !t.contains(c),
    ensures
        text::split_last(b + seq![c] + t, c) == Some((b, t)),
{
    let s = b + seq![c] + t;
    let n = b.len() as int;
    s.index_of_last_ensures(c);
    assert(s[n] == c);
    assert(s.contains(c));
    let i = s.index_of_last(c).unwrap();
    if i > n {
        assert(t[i - n - 1] == s[i]);
        assert(t.contains(c));
    }
    assert(i == n);
    assert(s.take(n) =~= b);
    assert(s.skip(n + 1) =~= t);
}

/// A result that says that a token is corrupt.
pub open spec fn is_corrupt<T>(r: Result<T, ErrorView>) -> bool {
    r matches Err(ErrorView::TokenCorrupt(_))
}

/// How long the body of a checksummed text is.
pub open spec fn body_len(rest: Seq<char>) -> int {
    match text::split_last(rest, '.') {
        Some((body, _)) => body.len() as int,
        None => 0,
    }
}

/// Damage to a checksummed text is noticed: where its end is cut off, and where
/// one character of its body is replaced by another of ASCII.
pub open spec fn damage_shows(sealed: Seq<char>) -> bool {
    &&& forall|n: int| 0 <= n < sealed.len() ==> is_corrupt(unsealed(#[trigger] sealed.take(n)))
    &&& forall|i: int, c: char|
        0 <= i < body_len(sealed) && c <= '\u{7f}' && c != sealed[i] ==> is_corrupt(
            unsealed(#[trigger] sealed.update(i, c)),
        )
}

/// A character of a checksummed text.
pub open spec fn is_sealed_char(c: char) -> bool {
    wire::is_base64url_char(c) || c == '.'
}

proof fn lemma_cut(body: Seq<char>, tail: Seq<char>, n: int)
    requires
        forall|i: int| 0 <= i < body.len() ==> wire::is_base64url_char(#[trigger] body[i]),
        forall|i: int| 0 <= i < tail.len() ==> wire::is_base64url_char(#[trigger] tail[i]),
        forall|k: int| 0 <= k < tail.len() ==> wire::is_shorter(#[trigger] tail.take(k), 4),
        0 <= n < body.len() + 1 + tail.len(),
    ensures
        is_corrupt(unsealed((body + seq!['.'] + tail).take(n))),
{
    let sealed = body + seq!['.'] + tail;
    let cut = sealed.take(n);
    if n <= body.len() {
        assert(cut =~= body.take(n));
        assert forall|i: int| 0 <= i < cut.len() implies cut[i] != '.' by {
            assert(wire::is_base64url_char(body[i]));
        }
        cut.index_of_last_ensures('.');
        assert(text::split_last(cut, '.') is None);
    } else {
        let k = n - body.len() - 1;
        let t = tail.take(k);
        assert(cut =~= body + seq!['.'] + t);
        assert forall|i: int| 0 <= i < t.len() implies t[i] != '.' by {
            assert(wire::is_base64url_char(tail[i]));
        }
        lemma_split_last(body, t, '.');
        assert(wire::is_shorter(t, 4));
    }
}

proof fn lemma_garbled(body: Seq<char>, tail: Seq<char>, i: int, c: char)
    requires
        forall|k: int| 0 <= k < body.len() ==> wire::is_base64url_char(#[trigger] body[k]),
        forall|k: int| 0 <= k < tail.len() ==> wire::is_base64url_char(#[trigger] tail[k]),
        0 <= i < body.len(),
        c <= '\u{7f}',
        c != body[i],
        wire::unbase64(tail) == Some(be_bytes(crc32(encode_utf8(body)))),
        forall|other: Seq<u8>|
            differ_in_one(encode_utf8(body), other) ==> #[trigger] crc32(other) != crc32(
                encode_utf8(body),
            ),
    ensures
        is_corrupt(unsealed((body + seq!['.'] + tail).update(i, c))),
{
    let other = body.update(i, c);
    assert((body + seq!['.'] + tail).update(i, c) =~= other + seq!['.'] + tail);
    assert forall|k: int| 0 <= k < tail.len() implies tail[k] != '.' by {
        assert(wire::is_base64url_char(tail[k]));
    }
    lemma_split_last(other, tail, '.');
    assert(is_ascii_chars(body)) by {
        assert forall|k: int| 0 <= k < body.len() implies '\0' <= #[trigger] body[k] <= '\u{7f}' by {
            assert(wire::is_base64url_char(body[k]));
        }
    }
    assert(is_ascii_chars(other)) by {
        assert forall|k: int| 0 <= k < other.len() implies '\0' <= #[trigger] other[k]
            <= '\u{7f}' by {
            if k != i {
                assert(other[k] == body[k]);
            }
        }
    }
    is_ascii_chars_encode_utf8(body);
    is_ascii_chars_encode_utf8(other);
    let a = encode_utf8(body);
    let b = encode_utf8(other);
    assert(b =~= a.update(i, b[i]));
    assert(a[i] == body[i] as u8 && b[i] == c as u8);
    assert(b[i] != a[i]);
    assert(differ_in_one(a, b));
    assert(crc32(b) != crc32(a));
    let n = crc32(a);
    assert(be_value(be_bytes(n)) == n);
}

/// The body in base64 with its checksum; taking it apart gives the body back.
pub(crate) fn seal_body(json: &str) -> (r: String)
    ensures
        r@ == sealed_text(wire::base64url(encode_utf8(json@))),
        unsealed(r@) == Ok::<Seq<u8>, ErrorView>(encode_utf8(json@)),
        damage_shows(r@),
        body_len(r@) < r@.len(),
        forall|i: int| 0 <= i < r@.len() ==> is_sealed_char(#[trigger] r@[i]),
{
    let body: String = wire::b64(json.as_bytes());
    let crc: u32 = checksum(body.as_str().as_bytes());
    let crc_bytes: Vec<u8> = to_be(crc);
    let tail: String = wire::b64(crc_bytes.as_slice());
    let r: String = text::concat3(body.as_str(), ".", tail.as_str());
    proof {
        reveal_strlit(".");
        assert("."@ =~= seq!['.']);
        assert forall|i: int| 0 <= i < tail@.len() implies tail@[i] != '.' by {
            assert(wire::is_base64url_char(tail@[i]));
        }
        lemma_split_last(body@, tail@, '.');
        assert forall|n: int| 0 <= n < r@.len() implies is_corrupt(
            unsealed(#[trigger] r@.take(n)),
        ) by {
            lemma_cut(body@, tail@, n);
        }
        assert(body_len(r@) == body@.len());
        assert forall|i: int, c: char|
            0 <= i < body_len(r@) && c <= '\u{7f}' && c != r@[i] implies is_corrupt(
            unsealed(#[trigger] r@.update(i, c)),
        ) by {
            assert(r@[i] == body@[i]);
            lemma_garbled(body@, tail@, i, c);
        }
    }
    r
}

/// The bytes of a checksummed body.
pub(crate) fn unseal_body(rest: &str) -> (r: Result<Vec<u8>, Error>)
    ensures
        match r {
            Ok(b) => unsealed(rest@) == Ok::<Seq<u8>, ErrorView>(b@),
            Err(e) => unsealed(rest@) == Err::<Seq<u8>, ErrorView>(e@),
        },
{
    match text::rsplit_once(rest, '.') {
        None => Err(Error::TokenCorrupt(text::own("missing checksum"))),
        Some((body, tail)) => match wire::unb64(tail) {
            Err(_) => Err(Error::TokenCorrupt(text::own("bad checksum"))),
            Ok(c) => {
                if c.len() != 4 {
                    return Err(Error::TokenCorrupt(text::own("bad checksum length")));
                }
                if checksum(body.as_bytes()) != from_be(c.as_slice()) {
                    return Err(
                        Error::TokenCorrupt(
                            text::own("checksum mismatch — token truncated/corrupted"),
                        ),
                    );
                }
                match wire::unb64(body) {
                    Err(_) => Err(Error::TokenCorrupt(text::own("bad base64"))),
                    Ok(b) => Ok(b),
                }
            },
        },
    }
}

// ---------------------------------------------------------------------------
// The body.
// ---------------------------------------------------------------------------

/// What a token's body holds: a name, a key and perhaps a second key, the keys
/// in base64.
pub struct BodyView {
    pub name: Seq<char>,
    pub pk: Seq<char>,
    pub kem_pk: Option<Seq<char>>,
}

/// The members of a body.
pub open spec fn body_members(b: BodyView) -> Seq<(Seq<char>, Seq<char>)> {
    let m0 = json::with_text(wire::no_members(), "name"@, b.name);
    let m1 = json::with_text(m0, "pk"@, b.pk);
    json::with_opt_text(m1, "kem_pk"@, b.kem_pk)
}

/// The JSON text of a body.
pub open spec fn body_text(b: BodyView) -> Seq<char> {
    json::object_text(body_members(b))
}

/// The body with two keys that bytes stand for.
pub open spec fn body_of(b: Seq<u8>) -> Option<BodyView> {
    match json::fields_of(b, 3) {
        None => None,
        Some(f) => match (
            json::text_field(f, 0, "name"@),
            json::text_field(f, 1, "pk"@),
            json::opt_text_field(f, 2, "kem_pk"@),
        ) {
            (Some(name), Some(pk), Some(kem_pk)) => Some(BodyView { name, pk, kem_pk }),
            _ => None,
        },
    }
}

/// The body with one key that bytes stand for.
pub open spec fn short_body_of(b: Seq<u8>) -> Option<BodyView> {
    match json::fields_of(b, 2) {
        None => None,
        Some(f) => match (json::text_field(f, 0, "name"@), json::text_field(f, 1, "pk"@)) {
            (Some(name), Some(pk)) => Some(BodyView { name, pk, kem_pk: None }),
            _ => None,
        },
    }
}

/// A body as it was read.
pub(crate) struct Body {
    pub(crate) name: String,
    pub(crate) pk: String,
    pub(crate) kem_pk: Option<String>,
}

impl Body {
    pub(crate) open spec fn view(&self) -> BodyView {
        BodyView { name: self.name@, pk: self.pk@, kem_pk: text::opt_text(self.kem_pk) }
    }

    /// The JSON text of the body, which reads back.
    pub(crate) fn json(&self) -> (t: String)
        ensures
            t@ == body_text(self.view()),
            body_of(encode_utf8(t@)) == Some(self.view()),
            self.view().kem_pk is None ==> short_body_of(encode_utf8(t@)) == Some(self.view()),
    {
        let mut w = json::ObjectWriter::new();
        w.text("name", self.name.as_str());
        w.text("pk", self.pk.as_str());
        w.opt_text("kem_pk", &self.kem_pk);
        let t: String = w.finish();
        proof {
            let b = self.view();
            let m0 = json::with_text(wire::no_members(), "name"@, b.name);
            let m1 = json::with_text(m0, "pk"@, b.pk);
            json::lemma_members_read_back(body_members(b));
            json::lemma_slot_empty();
            json::lemma_slot_push(wire::no_members(), "name"@, json::json_quoted(b.name));
            json::lemma_slot_push(m0, "pk"@, json::json_quoted(b.pk));
            if let Some(k) = b.kem_pk {
                json::lemma_slot_push(m1, "kem_pk"@, json::json_quoted(k));
            }
            reveal_strlit("name");
            reveal_strlit("pk");
            reveal_strlit("kem_pk");
            assert("name"@.len() == 4 && "pk"@.len() == 2 && "kem_pk"@.len() == 6);
            let f = json::Fields::Object(json::as_read(body_members(b)));
            assert(json::text_field(f, 0, "name"@) == Some(b.name));
            assert(json::text_field(f, 1, "pk"@) == Some(b.pk));
            assert(json::opt_text_field(f, 2, "kem_pk"@) == Some(b.kem_pk));
        }
        t
    }

    /// The body with two keys that bytes stand for.
    pub(crate) fn read(b: &[u8]) -> (r: Option<Body>)
        ensures
            match r {
                Some(x) => body_of(b@) == Some(x.view()),
                None => body_of(b@) is None,
            },
    {
        match json::split_fields(b, 3) {
            None => None,
            Some(f) => match (f.text(0, "name"), f.text(1, "pk"), f.opt_text(2, "kem_pk")) {
                (Some(name), Some(pk), Some(kem_pk)) => Some(Body { name, pk, kem_pk }),
                _ => None,
            },
        }
    }

    /// The body with one key that bytes stand for.
    pub(crate) fn read_short(b: &[u8]) -> (r: Option<Body>)
        ensures
            match r {
                Some(x) => short_body_of(b@) == Some(x.view()),
                None => short_body_of(b@) is None,
            },
    {
        match json::split_fields(b, 2) {
            None => None,
            Some(f) => match (f.text(0, "name"), f.text(1, "pk")) {
                (Some(name), Some(pk)) => Some(Body { name, pk, kem_pk: None }),
                _ => None,
            },
        }
    }
}

/// The complaint about a public key of the wrong length.
pub open spec fn length_complaint(n: nat) -> ErrorView {
    ErrorView::TokenCorrupt(
        "public key is "@ + text::decimal(n)
            + " bytes, expected 1952 — token truncated/corrupted"@,
    )
}

/// The name and the signing key of a body, or what is wrong with them.
pub open spec fn named_key(b: BodyView) -> Result<(Seq<char>, Seq<u8>), ErrorView> {
    if b.name.len() == 0 {
        Err(ErrorView::InvalidToken("empty name"@))
    } else {
        match wire::unbase64(b.pk) {
            None => Err(ErrorView::InvalidToken("bad key"@)),
            Some(k) => if k.len() != crypto::PUBLIC_KEY_LEN {
                Err(length_complaint(k.len()))
            } else {
                Ok((b.name, k))
            },
        }
    }
}

/// The signing key of a body, its name and its length checked.
pub(crate) fn checked_key(b: &Body) -> (r: Result<Vec<u8>, Error>)
    ensures
        match r {
            Ok(k) => named_key(b.view()) == Ok::<(Seq<char>, Seq<u8>), ErrorView>((b.name@, k@)),
            Err(e) => named_key(b.view()) == Err::<(Seq<char>, Seq<u8>), ErrorView>(e@),
        },
{
    if b.name.as_str().is_empty() {
        return Err(Error::InvalidToken(text::own("empty name")));
    }
    match wire::unb64(b.pk.as_str()) {
        Err(_) => Err(Error::InvalidToken(text::own("bad key"))),
        Ok(k) => {
            if k.len() != crypto::PUBLIC_KEY_LEN {
                let n: String = text::decimal_u64(k.len() as u64);
                return Err(
                    Error::TokenCorrupt(
                        text::concat3(
                            "public key is ",
                            n.as_str(),
                            " bytes, expected 1952 — token truncated/corrupted",
                        ),
                    ),
                );
            }
            Ok(k)
        },
    }
}

// ---------------------------------------------------------------------------
// The token.
// ---------------------------------------------------------------------------

/// What a token of the second version stands for, its prefix taken off.
pub open spec fn token_v2(rest: Seq<char>) -> Result<TokenView, ErrorView> {
    match unsealed(rest) {
        Err(e) => Err(e),
        Ok(b) => match body_of(b) {
            None => Err(ErrorView::TokenCorrupt("bad json"@)),
            Some(body) => match named_key(body) {
                Err(e) => Err(e),
                Ok((name, public_key)) => match body.kem_pk {
                    None => Ok(TokenView { name, public_key, kem_public_key: None }),
                    Some(t) => match wire::unbase64(t) {
                        None => Err(ErrorView::InvalidToken("bad kem key"@)),
                        Some(k) => Ok(TokenView { name, public_key, kem_public_key: Some(k) }),
                    },
                },
            },
        },
    }
}

/// What a token of the first version stands for, its prefix taken off.
pub open spec fn token_v1(rest: Seq<char>) -> Result<TokenView, ErrorView> {
    match wire::unbase64(rest) {
        None => Err(ErrorView::InvalidToken("bad base64"@)),
        Some(b) => match short_body_of(b) {
            None => Err(ErrorView::InvalidToken("bad json"@)),
            Some(body) => match named_key(body) {
                Err(e) => Err(e),
                Ok((name, public_key)) => Ok(
                    TokenView { name, public_key, kem_public_key: None },
                ),
            },
        },
    }
}

/// What a pasted text stands for.
pub open spec fn token_of(s: Seq<char>) -> Result<TokenView, ErrorView> {
    let t = text::trimmed(s);
    match text::after_prefix(t, TOKEN_PREFIX_V2@) {
        Some(rest) => token_v2(rest),
        None => match text::after_prefix(t, TOKEN_PREFIX_V1@) {
            Some(rest) => token_v1(rest),
            None => Err(ErrorView::InvalidToken("missing agentmsg-id-v2/v1 prefix"@)),
        },
    }
}

/// The base64 text of optional bytes.
pub open spec fn opt_base64(o: Option<Seq<u8>>) -> Option<Seq<char>> {
    match o {
        Some(b) => Some(wire::base64url(b)),
        None => None,
    }
}

/// The text of a token.
pub open spec fn token_text(t: TokenView) -> Seq<char> {
    TOKEN_PREFIX_V2@ + sealed_text(
        wire::base64url(
            encode_utf8(
                body_text(
                    BodyView {
                        name: t.name,
                        pk: wire::base64url(t.public_key),
                        kem_pk: opt_base64(t.kem_public_key),
                    },
                ),
            ),
        ),
    )
}

/// A token that a reader accepts: it has a name, and its key has the length of
/// an ML-DSA-65 key.
pub open spec fn is_acceptable(t: TokenView) -> bool {
    t.name.len() > 0 && t.public_key.len() == crypto::PUBLIC_KEY_LEN
}

/// The checksum behind the last dot is that of what stands before it.
pub open spec fn checksum_holds(rest: Seq<char>) -> bool {
    text::split_last(rest, '.') matches Some((body, tail)) && (wire::unbase64(tail) matches Some(c)
        && c.len() == 4 && be_value(c) == crc32(encode_utf8(body)))
}

/// A token whose end is cut off anywhere behind its prefix is refused as corrupt.
pub open spec fn cut_tokens_are_corrupt(e: Seq<char>) -> bool {
    forall|n: int|
        TOKEN_PREFIX_V2@.len() <= n < e.len() ==> is_corrupt(token_of(#[trigger] e.take(n)))
}

/// A token with one character between its prefix and its last dot replaced by
/// another of ASCII is refused as corrupt.
pub open spec fn garbled_tokens_are_corrupt(e: Seq<char>) -> bool {
    let p = TOKEN_PREFIX_V2@.len() as int;
    forall|i: int, c: char|
        p <= i < p + body_len(e.skip(p)) && c <= '\u{7f}' && c != e[i] ==> is_corrupt(
            token_of(#[trigger] e.update(i, c)),
        )
}

/// A token whose checksum is missing, has not four bytes or does not fit is
/// refused as corrupt.
pub proof fn a_false_checksum_is_corrupt(s: Seq<char>, rest: Seq<char>)
    requires
        text::after_prefix(text::trimmed(s), TOKEN_PREFIX_V2@) == Some(rest),
        !checksum_holds(rest),
    ensures
        is_corrupt(token_of(s)),
{
}

/// A token that is accepted is whole: it has a name and a key of the right
/// length, and where it carries a checksum, that holds. So a paste that lost or
/// garbled something is not stored, unless its checksum still fits.
pub proof fn an_accepted_token_is_whole(s: Seq<char>, t: TokenView)
    requires
        token_of(s) == Ok::<TokenView, ErrorView>(t),
    ensures
        is_acceptable(t),
        text::after_prefix(text::trimmed(s), TOKEN_PREFIX_V2@) matches Some(rest)
            ==> checksum_holds(rest),
{
}

/// White space around a token changes nothing.
pub proof fn surrounding_space_is_ignored(before: Seq<char>, s: Seq<char>, after: Seq<char>)
    requires
        forall|i: int| 0 <= i < before.len() ==> text::is_space(#[trigger] before[i]),
        forall|i: int| 0 <= i < after.len() ==> text::is_space(#[trigger] after[i]),
    ensures
        token_of(before + s + after) == token_of(s),
{
    lemma_padding(before, s, after);
}

proof fn lemma_padding(before: Seq<char>, s: Seq<char>, after: Seq<char>)
    requires
        forall|i: int| 0 <= i < before.len() ==> text::is_space(#[trigger] before[i]),
        forall|i: int| 0 <= i < after.len() ==> text::is_space(#[trigger] after[i]),
    ensures
        text::trimmed(before + s + after) == text::trimmed(s),
    decreases before.len() + after.len() + s.len(),
{
    let all = before + s + after;
    if before.len() > 0 {
        assert(all.skip(1) =~= before.skip(1) + s + after);
        assert(text::is_space(before[0]));
        assert(all[0] == before[0]);
        lemma_padding(before.skip(1), s, after);
    } else if s.len() == 0 {
        assert(all =~= after);
        if after.len() > 0 {
            assert(text::is_space(after[0]));
            assert(after.skip(1) =~= before + s + after.skip(1));
            lemma_padding(before, s, after.skip(1));
        } else {
            assert(all =~= s);
        }
    } else if text::is_space(s[0]) {
        assert(all[0] == s[0]);
        assert(all.skip(1) =~= before + s.skip(1) + after);
        lemma_padding(before, s.skip(1), after);
    } else if after.len() > 0 {
        assert(all[0] == s[0]);
        assert(all.last() == after.last());
        assert(text::is_space(after[after.len() - 1]));
        assert(all.drop_last() =~= before + s + after.drop_last());
        lemma_padding(before, s, after.drop_last());
    } else {
        assert(all =~= s);
    }
}

/// Text that begins with a prefix and does not end in white space is found
/// behind the prefix again.
pub(crate) proof fn lemma_prefixed(p: Seq<char>, rest: Seq<char>)
    requires
        p.len() > 0,
        !text::is_space(p[0]),
        !text::is_space(p.last()),
        rest.len() > 0 ==> !text::is_space(rest.last()),
    ensures
        text::after_prefix(text::trimmed(p + rest), p) == Some(rest),
{
    let s = p + rest;
    assert(s[0] == p[0]);
    assert(s.last() == (if rest.len() > 0 {
        rest.last()
    } else {
        p.last()
    }));
    text::lemma_trimmed_id(s);
    assert(s.take(p.len() as int) =~= p);
    assert(p.is_prefix_of(s));
    assert(s.skip(p.len() as int) =~= rest);
}

impl IdentityToken {
    /// A signing-only token (no KEM key).
    pub fn new(name: &str, public_key: Vec<u8>) -> (r: IdentityToken)
        ensures
            r@ == (TokenView { name: name@, public_key: public_key@, kem_public_key: None }),
    {
        IdentityToken { name: text::own(name), public_key, kem_public_key: None }
    }

    /// A token with both the signing and the KEM public key.
    pub fn with_kem(
        name: &str,
        public_key: Vec<u8>,
        kem_public_key: Option<Vec<u8>>,
    ) -> (r: IdentityToken)
        ensures
            r@ == (TokenView {
                name: name@,
                public_key: public_key@,
                kem_public_key: opt_bytes(kem_public_key),
            }),
    {
        IdentityToken { name: text::own(name), public_key, kem_public_key }
    }

    /// Short public-key fingerprint (matches the `kid` fingerprint).
    pub fn fingerprint(&self) -> (r: String)
        ensures
            r@ == wire::fingerprint_of(self@.public_key),
    {
        wire::fingerprint(self.public_key.as_slice())
    }

    /// Encode to a single paste-friendly text with a CRC-32 tail. Decoding an
    /// acceptable token's text gives the token back.
    pub fn encode(&self) -> (r: String)
        ensures
            r@ == token_text(self@),
            is_acceptable(self@) ==> token_of(r@) == Ok::<TokenView, ErrorView>(self@),
            cut_tokens_are_corrupt(r@),
            garbled_tokens_are_corrupt(r@),
    {
        let kem_pk: Option<String> = match &self.kem_public_key {
            Some(k) => Some(wire::b64(k.as_slice())),
            None => None,
        };
        let body = Body {
            name: self.name.clone(),
            pk: wire::b64(self.public_key.as_slice()),
            kem_pk,
        };
        let t: String = body.json();
        let sealed: String = seal_body(t.as_str());
        let r: String = text::concat2(TOKEN_PREFIX_V2, sealed.as_str());
        proof {
            reveal_strlit("agentmsg-id-v2.");
            assert(TOKEN_PREFIX_V2@.len() == 15);
            assert(TOKEN_PREFIX_V2@[0] == 'a' && TOKEN_PREFIX_V2@[14] == '.');
            let p = TOKEN_PREFIX_V2@;
            assert(is_sealed_char(sealed@[sealed@.len() - 1]));
            lemma_prefixed(p, sealed@);
            assert forall|n: int| p.len() <= n < r@.len() implies is_corrupt(
                token_of(#[trigger] r@.take(n)),
            ) by {
                let rest = sealed@.take(n - p.len());
                assert(r@.take(n) =~= p + rest);
                if rest.len() > 0 {
                    assert(is_sealed_char(sealed@[rest.len() - 1]));
                }
                lemma_prefixed(p, rest);
                assert(is_corrupt(unsealed(rest)));
            }
            assert forall|i: int, c: char|
                p.len() <= i < p.len() + body_len(r@.skip(p.len() as int)) && c <= '\u{7f}' && c
                    != r@[i] implies is_corrupt(token_of(#[trigger] r@.update(i, c))) by {
                assert(r@.skip(p.len() as int) =~= sealed@);
                let rest = sealed@.update(i - p.len(), c);
                assert(r@.update(i, c) =~= p + rest);
                assert(rest.last() == sealed@.last());
                lemma_prefixed(p, rest);
                assert(is_corrupt(unsealed(rest)));
            }
        }
        r
    }

    /// Decode a token text, tolerating surrounding white space. Both versions
    /// enforce the length of the public key.
    pub fn decode(s: &str) -> (r: Result<IdentityToken, Error>)
        ensures
            match r {
                Ok(t) => token_of(s@) == Ok::<TokenView, ErrorView>(t@),
                Err(e) => token_of(s@) == Err::<TokenView, ErrorView>(e@),
            },
    {
        let t: &str = text::trim(s);
        match text::strip_prefix(t, TOKEN_PREFIX_V2) {
            Some(rest) => Self::decode_v2(rest),
            None => match text::strip_prefix(t, TOKEN_PREFIX_V1) {
                Some(rest) => Self::decode_v1(rest),
                None => Err(Error::InvalidToken(text::own("missing agentmsg-id-v2/v1 prefix"))),
            },
        }
    }

    fn decode_v1(rest: &str) -> (r: Result<IdentityToken, Error>)
        ensures
            match r {
                Ok(t) => token_v1(rest@) == Ok::<TokenView, ErrorView>(t@),
                Err(e) => token_v1(rest@) == Err::<TokenView, ErrorView>(e@),
            },
    {
        match wire::unb64(rest) {
            Err(_) => Err(Error::InvalidToken(text::own("bad base64"))),
            Ok(b) => match Body::read_short(b.as_slice()) {
                None => Err(Error::InvalidToken(text::own("bad json"))),
                Some(body) => match checked_key(&body) {
                    Err(e) => Err(e),
                    Ok(public_key) => Ok(
                        IdentityToken { name: body.name, public_key, kem_public_key: None },
                    ),
                },
            },
        }
    }

    fn decode_v2(rest: &str) -> (r: Result<IdentityToken, Error>)
        ensures
            match r {
                Ok(t) => token_v2(rest@) == Ok::<TokenView, ErrorView>(t@),
                Err(e) => token_v2(rest@) == Err::<TokenView, ErrorView>(e@),
            },
    {
        match unseal_body(rest) {
            Err(e) => Err(e),
            Ok(b) => match Body::read(b.as_slice()) {
                None => Err(Error::TokenCorrupt(text::own("bad json"))),
                Some(body) => match checked_key(&body) {
                    Err(e) => Err(e),
                    Ok(public_key) => match body.kem_pk {
                        None => Ok(
                            IdentityToken { name: body.name, public_key, kem_public_key: None },
                        ),
                        Some(t) => match wire::unb64(t.as_str()) {
                            Err(_) => Err(Error::InvalidToken(text::own("bad kem key"))),
                            Ok(k) => Ok(
                                IdentityToken {
                                    name: body.name,
                                    public_key,
                                    kem_public_key: Some(k),
                                },
                            ),
                        },
                    },
                },
            },
        }
    }
}

/// Four bytes with the highest first hold a number and give it back.
pub proof fn a_number_is_held_highest_first(n: u32)
    ensures
        be_bytes(n).len() == 4,
        be_bytes(n)[0] * 0x100_0000 + be_bytes(n)[1] * 0x1_0000 + be_bytes(n)[2] * 0x100
            + be_bytes(n)[3] == n,
        be_value(be_bytes(n)) == n,
{
}

/// An accepted token says what its body says: a token of the second version has
/// the encryption key of the body, if that has one, and one of the first version
/// has none.
pub proof fn an_accepted_token_says_what_its_body_says(s: Seq<char>, t: TokenView)
    requires
        token_of(s) == Ok::<TokenView, ErrorView>(t),
    ensures
        t.name.len() > 0,
        t.public_key.len() == 1952,
        ({
            let p = text::trimmed(s);
            let second = "agentmsg-id-v2."@.is_prefix_of(p);
            &&& second ==> (unsealed(p.skip("agentmsg-id-v2."@.len() as int)) matches Ok(b) && (
            body_of(b) matches Some(x) && x.name == t.name && wire::unbase64(x.pk) == Some(
                t.public_key,
            ) && (x.kem_pk is None ==> t.kem_public_key is None) && (x.kem_pk matches Some(k)
                ==> t.kem_public_key is Some && wire::unbase64(k) == t.kem_public_key)))
            &&& !second ==> "agentmsg-id-v1."@.is_prefix_of(p) && t.kem_public_key is None && (
            wire::unbase64(p.skip("agentmsg-id-v1."@.len() as int)) matches Some(b) && (
            short_body_of(b) matches Some(x) && x.name == t.name && wire::unbase64(x.pk) == Some(
                t.public_key,
            )))
        }),
{
}

/// What is wrong with a body: no name and an unreadable key make a token invalid,
/// and a key of another length than 1952 bytes makes it corrupt.
pub proof fn a_key_of_another_length_is_corrupt(b: BodyView)
    ensures
        b.name.len() == 0 ==> (named_key(b) matches Err(ErrorView::InvalidToken(_))),
        b.name.len() > 0 && wire::unbase64(b.pk) is None ==> (named_key(b) matches Err(
            ErrorView::InvalidToken(_),
        )),
        b.name.len() > 0 ==> (wire::unbase64(b.pk) matches Some(k) ==> {
            &&& k.len() != 1952 ==> is_corrupt(named_key(b))
            &&& k.len() == 1952 ==> named_key(b) == Ok::<(Seq<char>, Seq<u8>), ErrorView>(
                (b.name, k),
            )
        }),
{
}

/// A checksummed text is opened exactly where the checksum of what stands before
/// its last dot follows that dot in four bytes, the highest first, and gives what
/// stands there in base64.
pub proof fn a_checksummed_text_is_opened(rest: Seq<char>)
    ensures
        unsealed(rest) matches Err(e) ==> e is TokenCorrupt,
        unsealed(rest) matches Ok(b) ==> (text::split_last(rest, '.') matches Some(p)
            && wire::unbase64(p.0) == Some(b) && (wire::unbase64(p.1) matches Some(c) && c.len()
            == 4 && c[0] * 0x100_0000 + c[1] * 0x1_0000 + c[2] * 0x100 + c[3] == crc32(
            encode_utf8(p.0),
        ))),
        checksum_holds(rest) && (text::split_last(rest, '.') matches Some(p) && wire::unbase64(
            p.0,
        ) is Some) ==> unsealed(rest) is Ok,
{
}

/// A body that was read says what stands under its names.
pub proof fn a_body_is_read_by_its_names(b: Seq<u8>, ms: Seq<json::Member>)
    requires
        json::members_of(b) == Some(ms),
    ensures
        body_of(b) matches Some(x) ==> wire::text_under(ms, "name"@, x.name) && wire::text_under(
            ms,
            "pk"@,
            x.pk,
        ) && wire::opt_text_under(ms, "kem_pk"@, x.kem_pk),
        short_body_of(b) matches Some(x) ==> wire::text_under(ms, "name"@, x.name)
            && wire::text_under(ms, "pk"@, x.pk) && x.kem_pk is None,
{
}

} // verus!
