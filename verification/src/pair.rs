//! Trust on first use with a short authentication string. Two agents establish
//! mutual trust over the broker without copying tokens by hand: each broadcasts
//! a self-signed hello that proves possession of the key it advertises, and the
//! operators compare a code before they confirm the peer.

use vstd::prelude::*;
use vstd::string::*;

use crate::text;
use crate::token;
use crate::wire;

verus! {

/// The JSON body of a pairing hello.
#[derive(Debug, PartialEq, Eq)]
pub struct PairBody {
    /// Advertised sender name.
    pub name: String,
    /// base64url ML-DSA-65 public key.
    pub pk: String,
    /// base64url ML-KEM-768 encapsulation key.
    pub kem_pk: Option<String>,
}

/// A verified pairing hello (possession of the key is proved).
#[derive(Debug, PartialEq, Eq)]
pub struct PairHello {
    pub name: String,
    pub public_key: Vec<u8>,
    pub kem_public_key: Option<Vec<u8>>,
}

/// The model of a [`PairHello`].
pub struct HelloView {
    pub name: Seq<char>,
    pub public_key: Seq<u8>,
    pub kem_public_key: Option<Seq<u8>>,
}

impl View for PairBody {
    type V = token::BodyView;

    open spec fn view(&self) -> token::BodyView {
        token::BodyView { name: self.name@, pk: self.pk@, kem_pk: text::opt_text(self.kem_pk) }
    }
}

impl View for PairHello {
    type V = HelloView;

    open spec fn view(&self) -> HelloView {
        HelloView {
            name: self.name@,
            public_key: self.public_key@,
            kem_public_key: token::opt_bytes(self.kem_public_key),
        }
    }
}

/// `a` comes before `b` in the order of their bytes, or they are equal.
pub open spec fn bytes_le(a: Seq<u8>, b: Seq<u8>) -> bool
    decreases a.len(),
{
    if a.len() == 0 {
        true
    } else if b.len() == 0 {
        false
    } else if a[0] != b[0] {
        a[0] < b[0]
    } else {
        bytes_le(a.skip(1), b.skip(1))
    }
}

/// Both keys, the smaller first.
pub open spec fn joined(a: Seq<u8>, b: Seq<u8>) -> Seq<u8> {
    if bytes_le(a, b) {
        a + b
    } else {
        b + a
    }
}

/// The six-digit number of a digest: its first three bytes, reduced.
pub open spec fn sas_number(d: Seq<u8>) -> nat {
    ((d[0] as nat) * 65536 + (d[1] as nat) * 256 + (d[2] as nat)) % 1_000_000
}

/// A number below a thousand in three digits.
pub open spec fn three_digits(n: nat) -> Seq<char> {
    seq![text::digit(n / 100), text::digit((n / 10) % 10), text::digit(n % 10)]
}

/// The code of a number: two groups of three digits.
pub open spec fn sas_text(n: nat) -> Seq<char> {
    three_digits(n / 1000) + seq![' '] + three_digits(n % 1000)
}

/// The short authentication string of two public keys.
pub open spec fn sas_of(a: Seq<u8>, b: Seq<u8>) -> Seq<char> {
    sas_text(sas_number(wire::sha256(joined(a, b))))
}

fn at_most(a: &[u8], b: &[u8]) -> (r: bool)
    ensures
        r == bytes_le(a@, b@),
{
    let n: usize = a.len();
    let m: usize = b.len();
    let mut i: usize = 0;
    proof {
        assert(a@.skip(0) =~= a@);
        assert(b@.skip(0) =~= b@);
    }
    while i < n && i < m
        invariant
            i <= n,
            i <= m,
            n == a@.len(),
            m == b@.len(),
            bytes_le(a@, b@) == bytes_le(a@.skip(i as int), b@.skip(i as int)),
        decreases n - i,
    {
        if a[i] != b[i] {
            return a[i] < b[i];
        }
        proof {
            assert(a@.skip(i as int).skip(1) =~= a@.skip(i + 1));
            assert(b@.skip(i as int).skip(1) =~= b@.skip(i + 1));
        }
        i = i + 1;
    }
    i == n
}

fn three(n: u32) -> (r: String)
    requires
        n < 1000,
    ensures
        r@ == three_digits(n as nat),
{
    let a: String = text::decimal_u64((n / 100) as u64);
    let b: String = text::decimal_u64(((n / 10) % 10) as u64);
    let c: String = text::decimal_u64((n % 10) as u64);
    let r: String = text::concat3(a.as_str(), b.as_str(), c.as_str());
    assert(r@ =~= three_digits(n as nat));
    r
}

/// Compute the short authentication string of a pair of public keys.
///
/// The digest is taken over both keys in the order of their bytes, so both peers
/// see the same code whoever began.
pub fn sas(pk_a: &[u8], pk_b: &[u8]) -> (r: String)
    ensures
        r@ == sas_of(pk_a@, pk_b@),
{
    let mut input: Vec<u8>;
    let mut tail: Vec<u8>;
    if at_most(pk_a, pk_b) {
        input = text::copy_bytes(pk_a);
        tail = text::copy_bytes(pk_b);
    } else {
        input = text::copy_bytes(pk_b);
        tail = text::copy_bytes(pk_a);
    }
    input.append(&mut tail);
    let d: Vec<u8> = wire::digest(input.as_slice());
    let n: u32 = (d[0] as u32) * 65536 + (d[1] as u32) * 256 + (d[2] as u32);
    let code: u32 = n % 1_000_000;
    let head: String = three(code / 1000);
    let rest: String = three(code % 1000);
    proof {
        reveal_strlit(" ");
        assert(" "@ =~= seq![' ']);
    }
    text::concat3(head.as_str(), " ", rest.as_str())
}

proof fn lemma_bytes_le_total(a: Seq<u8>, b: Seq<u8>)
    ensures
        bytes_le(a, b) || bytes_le(b, a),
        bytes_le(a, b) && bytes_le(b, a) ==> a == b,
    decreases a.len(),
{
    if a.len() == 0 {
        if b.len() == 0 {
            assert(a =~= b);
        }
    } else if b.len() > 0 && a[0] == b[0] {
        lemma_bytes_le_total(a.skip(1), b.skip(1));
        if a.skip(1) == b.skip(1) {
            assert(a =~= seq![a[0]] + a.skip(1));
            assert(b =~= seq![b[0]] + b.skip(1));
        }
    }
}

/// Both peers see the same code, whoever of them computes it.
pub proof fn sas_is_symmetric(a: Seq<u8>, b: Seq<u8>)
    ensures
        sas_of(a, b) == sas_of(b, a),
{
    lemma_bytes_le_total(a, b);
}

/// Every code is two groups of three decimal digits with a space between.
pub proof fn sas_is_six_digits_grouped(a: Seq<u8>, b: Seq<u8>)
    ensures
        sas_of(a, b).len() == 7,
        sas_of(a, b)[3] == ' ',
        forall|i: int|
            0 <= i < 7 && i != 3 ==> '0' <= #[trigger] sas_of(a, b)[i] <= '9',
{
}

/// The number of a decimal digit.
pub open spec fn digit_value(c: char) -> int {
    c as int - '0' as int
}

proof fn lemma_three_digits(n: nat)
    requires
        n < 1000,
    ensures
        three_digits(n).len() == 3,
        digit_value(three_digits(n)[0]) * 100 + digit_value(three_digits(n)[1]) * 10 + digit_value(
            three_digits(n)[2],
        ) == n,
{
    let (a, b, c) = (n / 100, (n / 10) % 10, n % 10);
    assert(a < 10 && b < 10 && c < 10);
    assert(text::digit(a) as int == '0' as int + a);
    assert(text::digit(b) as int == '0' as int + b);
    assert(text::digit(c) as int == '0' as int + c);
    assert(a * 100 + b * 10 + c == n);
}

proof fn lemma_code(n: nat)
    requires
        n < 1_000_000,
    ensures
        ({
            let s = sas_text(n);
            digit_value(s[0]) * 100_000 + digit_value(s[1]) * 10_000 + digit_value(s[2]) * 1000
                + digit_value(s[4]) * 100 + digit_value(s[5]) * 10 + digit_value(s[6]) == n
        }),
{
    let (h, l) = (three_digits(n / 1000), three_digits(n % 1000));
    let s = sas_text(n);
    lemma_three_digits(n / 1000);
    lemma_three_digits(n % 1000);
    assert(s[0] == h[0] && s[1] == h[1] && s[2] == h[2]);
    assert(s[4] == l[0] && s[5] == l[1] && s[6] == l[2]);
}

/// The six digits of a code are the first three bytes of the digest over both
/// keys, the smaller first, as a number of six decimal places.
pub proof fn a_code_is_the_digest_of_both_keys(a: Seq<u8>, b: Seq<u8>)
    ensures
        ({
            let s = sas_of(a, b);
            let d = wire::sha256(
                if bytes_le(a, b) {
                    a + b
                } else {
                    b + a
                },
            );
            digit_value(s[0]) * 100_000 + digit_value(s[1]) * 10_000 + digit_value(s[2]) * 1000
                + digit_value(s[4]) * 100 + digit_value(s[5]) * 10 + digit_value(s[6]) == (d[0]
                * 65536 + d[1] * 256 + d[2]) % 1_000_000
        }),
{
    lemma_code(sas_number(wire::sha256(joined(a, b))));
}

/// Keys are ordered where they first differ, and a key comes behind its
/// beginnings.
pub proof fn the_first_difference_orders_keys(p: Seq<u8>, a: u8, x: Seq<u8>, b: u8, y: Seq<u8>)
    ensures
        a < b ==> bytes_le(p + seq![a] + x, p + seq![b] + y),
        a < b ==> !bytes_le(p + seq![b] + y, p + seq![a] + x),
        bytes_le(p, p + seq![a] + x),
        !bytes_le(p + seq![a] + x, p),
    decreases p.len(),
{
    let (s, t) = (p + seq![a] + x, p + seq![b] + y);
    if p.len() > 0 {
        let q = p.skip(1);
        the_first_difference_orders_keys(q, a, x, b, y);
        assert(s.skip(1) =~= q + seq![a] + x);
        assert(t.skip(1) =~= q + seq![b] + y);
        assert(s[0] == p[0] && t[0] == p[0]);
    } else {
        assert(s[0] == a && t[0] == b);
    }
}

} // verus!
