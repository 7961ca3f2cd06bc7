//! Text helpers: trimming, splitting, comparing, joining and decimal numbers.

use vstd::prelude::*;
use vstd::string::*;
use vstd::utf8::*;

verus! {

/// The characters with the Unicode property White_Space.
pub open spec fn is_space(c: char) -> bool {
    ||| '\u{9}' <= c <= '\u{d}'
    ||| c == '\u{20}'
    ||| c == '\u{85}'
    ||| c == '\u{a0}'
    ||| c == '\u{1680}'
    ||| '\u{2000}' <= c <= '\u{200a}'
    ||| c == '\u{2028}'
    ||| c == '\u{2029}'
    ||| c == '\u{202f}'
    ||| c == '\u{205f}'
    ||| c == '\u{3000}'
}

/// Text without its leading and trailing white space.
pub open spec fn trimmed(s: Seq<char>) -> Seq<char>
    decreases s.len(),
{
    if s.len() == 0 {
        s
    } else if is_space(s[0]) {
        trimmed(s.skip(1))
    } else if is_space(s.last()) {
        trimmed(s.drop_last())
    } else {
        s
    }
}

/// The parts of a text before and after the first `c`.
pub open spec fn split_first(s: Seq<char>, c: char) -> Option<(Seq<char>, Seq<char>)> {
    match s.index_of_first(c) {
        Some(i) => Some((s.take(i), s.skip(i + 1))),
        None => None,
    }
}

/// The parts of a text before and after the last `c`.
pub open spec fn split_last(s: Seq<char>, c: char) -> Option<(Seq<char>, Seq<char>)> {
    match s.index_of_last(c) {
        Some(i) => Some((s.take(i), s.skip(i + 1))),
        None => None,
    }
}

/// The rest of a text that begins with `p`.
pub open spec fn after_prefix(s: Seq<char>, p: Seq<char>) -> Option<Seq<char>> {
    if p.is_prefix_of(s) {
        Some(s.skip(p.len() as int))
    } else {
        None
    }
}

/// `a` comes strictly before `b` in the order of code points.
pub open spec fn text_lt(a: Seq<char>, b: Seq<char>) -> bool
    decreases a.len(),
{
    if b.len() == 0 {
        false
    } else if a.len() == 0 {
        true
    } else if a[0] != b[0] {
        a[0] < b[0]
    } else {
        text_lt(a.skip(1), b.skip(1))
    }
}

/// The decimal digits of a natural number, without leading zeros.
pub open spec fn decimal(n: nat) -> Seq<char>
    decreases n,
{
    if n < 10 {
        seq![digit(n)]
    } else {
        decimal(n / 10).push(digit(n % 10))
    }
}

/// The character of a decimal digit.
pub open spec fn digit(d: nat) -> char {
    (('0' as nat) + d) as char
}

/// The decimal text of an integer.
pub open spec fn decimal_int(n: int) -> Seq<char> {
    if n < 0 {
        seq!['-'] + decimal((-n) as nat)
    } else {
        decimal(n as nat)
    }
}

/// The view of an optional text.
pub open spec fn opt_text(o: Option<String>) -> Option<Seq<char>> {
    match o {
        Some(s) => Some(s@),
        None => None,
    }
}

/// The view of an optional borrowed text.
pub open spec fn opt_str(o: Option<&str>) -> Option<Seq<char>> {
    match o {
        Some(s) => Some(s@),
        None => None,
    }
}

/// The views of a list of texts.
pub open spec fn texts(v: Seq<String>) -> Seq<Seq<char>> {
    Seq::new(v.len(), |i: int| v[i]@)
}

pub proof fn lemma_trimmed_bounds(s: Seq<char>, i: int, j: int)
    requires
        0 <= i <= j <= s.len(),
        forall|k: int| 0 <= k < i ==> is_space(#[trigger] s[k]),
        forall|k: int| j <= k < s.len() ==> is_space(#[trigger] s[k]),
        i < j ==> !is_space(s[i]) && !is_space(s[j - 1]),
    ensures
        trimmed(s) == s.subrange(i, j),
    decreases s.len(),
{
    if s.len() == 0 {
        assert(s.subrange(i, j) =~= s);
    } else if is_space(s[0]) {
        let t = s.skip(1);
        if i > 0 {
            lemma_trimmed_bounds(t, i - 1, j - 1);
            assert(t.subrange(i - 1, j - 1) =~= s.subrange(i, j));
        } else {
            assert(j == 0);
            lemma_trimmed_bounds(t, 0, 0);
            assert(t.subrange(0, 0) =~= s.subrange(i, j));
        }
    } else if is_space(s.last()) {
        let t = s.drop_last();
        if j < s.len() {
            if i == 0 {
                lemma_trimmed_bounds(t, i, j);
                assert(t.subrange(i, j) =~= s.subrange(i, j));
            }
        }
    } else {
        assert(i == 0);
        assert(j == s.len());
        assert(s.subrange(0, s.len() as int) =~= s);
    }
}

/// A text that neither begins nor ends with white space is its own trimming.
pub proof fn lemma_trimmed_id(s: Seq<char>)
    requires
        s.len() > 0 ==> !is_space(s[0]) && !is_space(s.last()),
    ensures
        trimmed(s) == s,
{
}

fn space(c: char) -> (r: bool)
    ensures
        r == is_space(c),
{
    ('\u{9}' <= c && c <= '\u{d}') || c == '\u{20}' || c == '\u{85}' || c == '\u{a0}' || c
        == '\u{1680}' || ('\u{2000}' <= c && c <= '\u{200a}') || c == '\u{2028}' || c == '\u{2029}'
        || c == '\u{202f}' || c == '\u{205f}' || c == '\u{3000}'
}

/// `s` without its leading and trailing white space.
pub fn trim(s: &str) -> (r: &str)
    ensures
        r@ == trimmed(s@),
{
    let n: usize = s.unicode_len();
    let mut i: usize = 0;
    while i < n && space(s.get_char(i))
        invariant
            i <= n,
            n == s@.len(),
            forall|k: int| 0 <= k < i ==> is_space(#[trigger] s@[k]),
        decreases n - i,
    {
        i = i + 1;
    }
    let mut j: usize = n;
    while j > i && space(s.get_char(j - 1))
        invariant
            i <= j <= n,
            n == s@.len(),
            i < n ==> !is_space(s@[i as int]),
            forall|k: int| j <= k < n ==> is_space(#[trigger] s@[k]),
        decreases j,
    {
        j = j - 1;
    }
    proof {
        lemma_trimmed_bounds(s@, i as int, j as int);
    }
    s.substring_char(i, j)
}

/// The parts of `s` before and after the first `c`.
pub fn split_once(s: &str, c: char) -> (r: Option<(&str, &str)>)
    ensures
        match r {
            Some(p) => split_first(s@, c) == Some((p.0@, p.1@)),
            None => split_first(s@, c) is None,
        },
{
    let n: usize = s.unicode_len();
    let mut i: usize = 0;
    proof {
        s@.index_of_first_ensures(c);
    }
    while i < n
        invariant
            i <= n,
            n == s@.len(),
            forall|k: int| 0 <= k < i ==> s@[k] != c,
        decreases n - i,
    {
        if s.get_char(i) == c {
            proof {
                s@.index_of_first_ensures(c);
                assert(s@.contains(c));
                assert(s@.index_of_first(c) == Some(i as int));
                assert(s@.subrange(0, i as int) =~= s@.take(i as int));
                assert(s@.subrange(i + 1, n as int) =~= s@.skip(i + 1));
            }
            return Some((s.substring_char(0, i), s.substring_char(i + 1, n)));
        }
        i = i + 1;
    }
    assert(!s@.contains(c));
    None
}

/// The parts of `s` before and after the last `c`.
pub fn rsplit_once(s: &str, c: char) -> (r: Option<(&str, &str)>)
    ensures
        match r {
            Some(p) => split_last(s@, c) == Some((p.0@, p.1@)),
            None => split_last(s@, c) is None,
        },
{
    let n: usize = s.unicode_len();
    let mut i: usize = n;
    proof {
        s@.index_of_last_ensures(c);
    }
    while i > 0
        invariant
            i <= n,
            n == s@.len(),
            forall|k: int| i <= k < n ==> s@[k] != c,
        decreases i,
    {
        if s.get_char(i - 1) == c {
            proof {
                s@.index_of_last_ensures(c);
                assert(s@[i - 1] == c);
                assert(s@.contains(c));
                assert(s@.index_of_last(c) == Some(i - 1));
                assert(s@.subrange(0, i - 1) =~= s@.take(i - 1));
                assert(s@.subrange(i as int, n as int) =~= s@.skip(i as int));
            }
            return Some((s.substring_char(0, i - 1), s.substring_char(i, n)));
        }
        i = i - 1;
    }
    assert(!s@.contains(c));
    None
}

/// The rest of `s` where it begins with `p`.
pub fn strip_prefix<'a>(s: &'a str, p: &str) -> (r: Option<&'a str>)
    ensures
        opt_str(r) == after_prefix(s@, p@),
{
    let n: usize = s.unicode_len();
    let m: usize = p.unicode_len();
    if m > n {
        return None;
    }
    let mut i: usize = 0;
    while i < m
        invariant
            i <= m <= n,
            n == s@.len(),
            m == p@.len(),
            forall|k: int| 0 <= k < i ==> s@[k] == p@[k],
        decreases m - i,
    {
        if s.get_char(i) != p.get_char(i) {
            assert(s@.take(m as int)[i as int] != p@[i as int]);
            return None;
        }
        i = i + 1;
    }
    assert(p@ =~= s@.take(m as int));
    assert(p@.is_prefix_of(s@));
    assert(s@.subrange(m as int, n as int) =~= s@.skip(m as int));
    Some(s.substring_char(m, n))
}

/// Whether `c` occurs in `s`.
pub fn has_char(s: &str, c: char) -> (r: bool)
    ensures
        r == s@.contains(c),
{
    let n: usize = s.unicode_len();
    let mut i: usize = 0;
    while i < n
        invariant
            i <= n,
            n == s@.len(),
            forall|k: int| 0 <= k < i ==> s@[k] != c,
        decreases n - i,
    {
        if s.get_char(i) == c {
            assert(s@[i as int] == c);
            return true;
        }
        i = i + 1;
    }
    false
}

/// Byte-wise equality.
pub fn bytes_eq(a: &[u8], b: &[u8]) -> (r: bool)
    ensures
        r == (a@ == b@),
{
    if a.len() != b.len() {
        return false;
    }
    let n: usize = a.len();
    let mut i: usize = 0;
    while i < n
        invariant
            i <= n,
            n == a@.len(),
            n == b@.len(),
            forall|k: int| 0 <= k < i ==> a@[k] == b@[k],
        decreases n - i,
    {
        if a[i] != b[i] {
            return false;
        }
        i = i + 1;
    }
    assert(a@ =~= b@);
    true
}

/// Equality of two texts.
pub fn str_eq(a: &str, b: &str) -> (r: bool)
    ensures
        r == (a@ == b@),
{
    proof {
        encode_utf8_decode_utf8(a@);
        encode_utf8_decode_utf8(b@);
    }
    bytes_eq(a.as_bytes(), b.as_bytes())
}

/// A text of its own that equals `s`.
pub fn own(s: &str) -> (r: String)
    ensures
        r@ == s@,
{
    s.to_owned()
}

/// An optional text of its own that equals `s`.
pub fn own_opt(s: Option<&str>) -> (r: Option<String>)
    ensures
        opt_text(r) == opt_str(s),
{
    match s {
        Some(t) => Some(t.to_owned()),
        None => None,
    }
}

/// A copy of an optional text.
pub fn copy_opt(s: &Option<String>) -> (r: Option<String>)
    ensures
        opt_text(r) == opt_text(*s),
{
    match s {
        Some(t) => Some(t.clone()),
        None => None,
    }
}

/// A borrow of an optional text.
pub fn borrow_opt(s: &Option<String>) -> (r: Option<&str>)
    ensures
        opt_str(r) == opt_text(*s),
{
    match s {
        Some(t) => Some(t.as_str()),
        None => None,
    }
}

/// A copy of a byte string.
pub fn copy_bytes(b: &[u8]) -> (r: Vec<u8>)
    ensures
        r@ == b@,
{
    vstd::slice::slice_to_vec(b)
}

/// Calls `String::from_utf8`: the text of bytes that are UTF-8, nothing for
/// others.
#[verifier::external_body]
pub(crate) fn from_utf8(b: Vec<u8>) -> (r: Option<String>)
    ensures
        match r {
            Some(s) => valid_utf8(b@) && s@ == decode_utf8(b@),
            None => !valid_utf8(b@),
        },
{
    String::from_utf8(b).ok()
}

/// A copy of a list of texts.
pub fn copy_texts(v: &Vec<String>) -> (r: Vec<String>)
    ensures
        texts(r@) == texts(v@),
{
    let mut out: Vec<String> = Vec::new();
    let mut i: usize = 0;
    while i < v.len()
        invariant
            i <= v.len(),
            out@.len() == i,
            forall|k: int| 0 <= k < i ==> (#[trigger] out@[k])@ == v@[k]@,
        decreases v.len() - i,
    {
        out.push(v[i].clone());
        i = i + 1;
    }
    assert(texts(out@) =~= texts(v@));
    out
}

/// Whether `a` comes strictly before `b` in the order of code points.
pub fn text_less(a: &str, b: &str) -> (r: bool)
    ensures
        r == text_lt(a@, b@),
{
    let n: usize = a.unicode_len();
    let m: usize = b.unicode_len();
    let mut i: usize = 0;
    proof {
        assert(a@.skip(0) =~= a@);
        assert(b@.skip(0) =~= b@);
    }
    while i < n && i < m
        invariant
            i <= n,
            i <= m,
            n == a@.len(),
            m == b@.len(),
            text_lt(a@, b@) == text_lt(a@.skip(i as int), b@.skip(i as int)),
        decreases n - i,
    {
        let c: char = a.get_char(i);
        let d: char = b.get_char(i);
        if c != d {
            return c < d;
        }
        proof {
            assert(a@.skip(i as int).skip(1) =~= a@.skip(i + 1));
            assert(b@.skip(i as int).skip(1) =~= b@.skip(i + 1));
        }
        i = i + 1;
    }
    i < m
}

pub proof fn lemma_text_lt_irreflexive(a: Seq<char>)
    ensures
        !text_lt(a, a),
    decreases a.len(),
{
    if a.len() > 0 {
        lemma_text_lt_irreflexive(a.skip(1));
    }
}

pub proof fn lemma_text_lt_transitive(a: Seq<char>, b: Seq<char>, c: Seq<char>)
    requires
        text_lt(a, b),
        text_lt(b, c),
    ensures
        text_lt(a, c),
    decreases a.len(),
{
    if a.len() > 0 && a[0] == b[0] && b[0] == c[0] {
        lemma_text_lt_transitive(a.skip(1), b.skip(1), c.skip(1));
    }
}

pub proof fn lemma_text_lt_total(a: Seq<char>, b: Seq<char>)
    requires
        a != b,
    ensures
        text_lt(a, b) || text_lt(b, a),
    decreases a.len(),
{
    if a.len() == 0 {
        if b.len() == 0 {
            assert(a =~= b);
        }
    } else if b.len() > 0 && a[0] == b[0] {
        if a.skip(1) == b.skip(1) {
            assert(a =~= seq![a[0]] + a.skip(1));
            assert(b =~= seq![b[0]] + b.skip(1));
        }
        lemma_text_lt_total(a.skip(1), b.skip(1));
    }
}

/// `a` followed by `b`.
pub fn concat2(a: &str, b: &str) -> (r: String)
    ensures
        r@ == a@ + b@,
{
    let mut out: String = a.to_owned();
    out.append(b);
    out
}

/// `a`, `b` and `c` joined.
pub fn concat3(a: &str, b: &str, c: &str) -> (r: String)
    ensures
        r@ == a@ + b@ + c@,
{
    let mut out: String = a.to_owned();
    out.append(b);
    out.append(c);
    out
}

fn digit_str(d: u64) -> (r: &'static str)
    requires
        d < 10,
    ensures
        r@ == seq![digit(d as nat)],
{
    proof {
        reveal_strlit("0");
        reveal_strlit("1");
        reveal_strlit("2");
        reveal_strlit("3");
        reveal_strlit("4");
        reveal_strlit("5");
        reveal_strlit("6");
        reveal_strlit("7");
        reveal_strlit("8");
        reveal_strlit("9");
    }
    let r: &'static str = if d == 0 {
        "0"
    } else if d == 1 {
        "1"
    } else if d == 2 {
        "2"
    } else if d == 3 {
        "3"
    } else if d == 4 {
        "4"
    } else if d == 5 {
        "5"
    } else if d == 6 {
        "6"
    } else if d == 7 {
        "7"
    } else if d == 8 {
        "8"
    } else {
        "9"
    };
    assert(r@ =~= seq![digit(d as nat)]);
    r
}

/// The decimal text of `n`.
pub fn decimal_u64(n: u64) -> (r: String)
    ensures
        r@ == decimal(n as nat),
    decreases n,
{
    if n < 10 {
        digit_str(n).to_owned()
    } else {
        let mut out: String = decimal_u64(n / 10);
        out.append(digit_str(n % 10));
        assert(out@ =~= decimal(n as nat));
        out
    }
}

/// The decimal text of `n`.
pub fn decimal_i64(n: i64) -> (r: String)
    ensures
        r@ == decimal_int(n as int),
{
    if n < 0 {
        let m: u64 = if n == i64::MIN {
            0x8000_0000_0000_0000u64
        } else {
            (-n) as u64
        };
        let mut out: String = "-".to_owned();
        let d: String = decimal_u64(m);
        out.append(d.as_str());
        proof {
            reveal_strlit("-");
            assert("-"@ =~= seq!['-']);
        }
        out
    } else {
        decimal_u64(n as u64)
    }
}

/// A line without the carriage return at its end.
pub open spec fn without_return(s: Seq<char>) -> Seq<char> {
    if s.len() > 0 && s.last() == '\r' {
        s.drop_last()
    } else {
        s
    }
}

/// The lines of a text. A line ends with a line feed, or with a carriage return
/// and a line feed; the last one may have no end.
pub open spec fn lines_of(s: Seq<char>) -> Seq<Seq<char>>
    decreases s.len(),
{
    if s.len() == 0 {
        Seq::empty()
    } else {
        match s.index_of_first('\n') {
            None => seq![s],
            Some(i) => {
                proof {
                    s.index_of_first_ensures('\n');
                }
                seq![without_return(s.take(i))] + lines_of(s.skip(i + 1))
            },
        }
    }
}

/// Texts joined by a separator.
pub open spec fn joined(parts: Seq<Seq<char>>, sep: Seq<char>) -> Seq<char>
    decreases parts.len(),
{
    if parts.len() == 0 {
        Seq::empty()
    } else if parts.len() == 1 {
        parts[0]
    } else {
        joined(parts.drop_last(), sep) + sep + parts.last()
    }
}

/// The last `n` of a sequence, or all of it where it has fewer.
pub open spec fn last_of<T>(s: Seq<T>, n: nat) -> Seq<T> {
    if s.len() <= n {
        s
    } else {
        s.skip(s.len() - n)
    }
}

fn strip_return(s: &str) -> (r: &str)
    ensures
        r@ == without_return(s@),
{
    match rsplit_once(s, '\r') {
        Some((front, rest)) => {
            proof {
                s@.index_of_last_ensures('\r');
                let i = s@.index_of_last('\r').unwrap();
                if rest@.len() == 0 {
                    assert(i == s@.len() - 1);
                    assert(s@.take(i) =~= s@.drop_last());
                } else if s@.len() > 0 && s@.last() == '\r' {
                    assert(i == s@.len() - 1);
                }
            }
            if rest.is_empty() {
                front
            } else {
                s
            }
        },
        None => {
            proof {
                s@.index_of_last_ensures('\r');
                if s@.len() > 0 && s@.last() == '\r' {
                    assert(s@.contains('\r'));
                }
            }
            s
        },
    }
}

/// The lines of a text.
pub fn lines(s: &str) -> (r: Vec<String>)
    ensures
        texts(r@) == lines_of(s@),
{
    let mut out: Vec<String> = Vec::new();
    let mut rest: &str = s;
    let ghost all = lines_of(s@);
    assert(texts(out@) + lines_of(rest@) =~= all);
    while !rest.is_empty()
        invariant
            all == lines_of(s@),
            texts(out@) + lines_of(rest@) == all,
        decreases rest@.len(),
    {
        let ghost before = texts(out@);
        let ghost now = rest@;
        match split_once(rest, '\n') {
            None => {
                out.push(own(rest));
                proof {
                    assert(texts(out@) =~= before.push(now));
                    assert(texts(out@) =~= all);
                }
                return out;
            },
            Some((line, tail)) => {
                proof {
                    now.index_of_first_ensures('\n');
                }
                let line: &str = strip_return(line);
                out.push(own(line));
                proof {
                    assert(texts(out@) =~= before.push(line@));
                    assert(texts(out@) + lines_of(tail@) =~= before + (seq![line@] + lines_of(
                        tail@,
                    )));
                }
                rest = tail;
            },
        }
    }
    assert(texts(out@) =~= all);
    out
}

/// Texts joined by a separator.
pub fn join(parts: &Vec<String>, sep: &str) -> (r: String)
    ensures
        r@ == joined(texts(parts@), sep@),
{
    let ghost all = texts(parts@);
    if parts.len() == 0 {
        return String::new();
    }
    let mut out: String = parts[0].clone();
    let mut i: usize = 1;
    assert(all.take(1)[0] == parts@[0]@);
    while i < parts.len()
        invariant
            1 <= i <= parts.len(),
            all == texts(parts@),
            out@ == joined(all.take(i as int), sep@),
        decreases parts.len() - i,
    {
        out.append(sep);
        out.append(parts[i].as_str());
        assert(all.take(i + 1).drop_last() =~= all.take(i as int));
        i = i + 1;
    }
    assert(all.take(i as int) =~= all);
    out
}

/// The last `n` lines of a text, joined by line feeds.
pub fn tail_lines(s: &str, n: usize) -> (r: String)
    ensures
        r@ == joined(last_of(lines_of(s@), n as nat), "\n"@),
{
    let all: Vec<String> = lines(s);
    let start: usize = if all.len() <= n {
        0
    } else {
        all.len() - n
    };
    let mut last: Vec<String> = Vec::new();
    let mut i: usize = start;
    while i < all.len()
        invariant
            start <= i <= all.len(),
            last@.len() == i - start,
            forall|k: int| 0 <= k < i - start ==> (#[trigger] last@[k])@ == all@[start + k]@,
        decreases all.len() - i,
    {
        last.push(all[i].clone());
        i = i + 1;
    }
    assert(texts(last@) =~= last_of(texts(all@), n as nat));
    join(&last, "\n")
}

/// The characters of `s` from `i` up to `j` are white space.
pub open spec fn all_space(s: Seq<char>, i: int, j: int) -> bool {
    forall|k: int| i <= k < j ==> is_space(#[trigger] s[k])
}

/// `t` is what stands in `s` from `i` up to `j`, and white space surrounds it.
pub open spec fn is_cut_from(t: Seq<char>, s: Seq<char>, i: int, j: int) -> bool {
    0 <= i <= j <= s.len() && t == s.subrange(i, j) && all_space(s, 0, i) && all_space(
        s,
        j,
        s.len() as int,
    )
}

proof fn lemma_cut_front(t: Seq<char>, s: Seq<char>, i: int, j: int)
    requires
        s.len() > 0,
        is_space(s[0]),
        is_cut_from(t, s.skip(1), i, j),
    ensures
        is_cut_from(t, s, i + 1, j + 1),
{
    let r = s.skip(1);
    assert(s.subrange(i + 1, j + 1) =~= r.subrange(i, j));
    assert forall|k: int| 0 <= k < i + 1 implies is_space(#[trigger] s[k]) by {
        if k > 0 {
            assert(r[k - 1] == s[k]);
        }
    }
    assert forall|k: int| j + 1 <= k < s.len() implies is_space(#[trigger] s[k]) by {
        assert(r[k - 1] == s[k]);
    }
}

proof fn lemma_cut_back(t: Seq<char>, s: Seq<char>, i: int, j: int)
    requires
        s.len() > 0,
        is_space(s.last()),
        is_cut_from(t, s.drop_last(), i, j),
    ensures
        is_cut_from(t, s, i, j),
{
    let r = s.drop_last();
    assert(s.subrange(i, j) =~= r.subrange(i, j));
    assert forall|k: int| 0 <= k < i implies is_space(#[trigger] s[k]) by {
        assert(r[k] == s[k]);
    }
    assert forall|k: int| j <= k < s.len() implies is_space(#[trigger] s[k]) by {
        if k < r.len() {
            assert(r[k] == s[k]);
        }
    }
}

/// Trimming takes white space off both ends, all of it and nothing else.
#[verifier::rlimit(40)]
pub proof fn only_space_is_trimmed(s: Seq<char>)
    ensures
        trimmed(s).len() > 0 ==> !is_space(trimmed(s)[0]) && !is_space(trimmed(s).last()),
        exists|i: int, j: int| #[trigger] is_cut_from(trimmed(s), s, i, j),
    decreases s.len(),
{
    if s.len() == 0 {
        assert(s.subrange(0, 0) =~= s);
        assert(is_cut_from(trimmed(s), s, 0, 0));
    } else if is_space(s[0]) {
        only_space_is_trimmed(s.skip(1));
        let (i, j) = choose|i: int, j: int| #[trigger]
            is_cut_from(trimmed(s.skip(1)), s.skip(1), i, j);
        lemma_cut_front(trimmed(s), s, i, j);
    } else if is_space(s.last()) {
        only_space_is_trimmed(s.drop_last());
        let (i, j) = choose|i: int, j: int| #[trigger]
            is_cut_from(trimmed(s.drop_last()), s.drop_last(), i, j);
        lemma_cut_back(trimmed(s), s, i, j);
    } else {
        assert(s.subrange(0, s.len() as int) =~= s);
        assert(is_cut_from(trimmed(s), s, 0, s.len() as int));
    }
}

/// Splitting takes out one separator: the first, or the last.
pub proof fn a_split_takes_out_one_separator(s: Seq<char>, c: char)
    ensures
        split_first(s, c) is None <==> !s.contains(c),
        split_last(s, c) is None <==> !s.contains(c),
        split_first(s, c) matches Some(p) ==> s == p.0 + seq![c] + p.1 && !p.0.contains(c),
        split_last(s, c) matches Some(p) ==> s == p.0 + seq![c] + p.1 && !p.1.contains(c),
{
    s.index_of_first_ensures(c);
    s.index_of_last_ensures(c);
    if let Some(p) = split_first(s, c) {
        let i = s.index_of_first(c)->0;
        assert(s =~= p.0 + seq![c] + p.1);
        if p.0.contains(c) {
            let k = choose|k: int| 0 <= k < p.0.len() && p.0[k] == c;
            assert(s[k] == c);
        }
    }
    if let Some(p) = split_last(s, c) {
        let i = s.index_of_last(c)->0;
        assert(s =~= p.0 + seq![c] + p.1);
        if p.1.contains(c) {
            let k = choose|k: int| 0 <= k < p.1.len() && p.1[k] == c;
            assert(s[i + 1 + k] == c);
        }
    }
}

/// The number that decimal digits stand for.
pub open spec fn decimal_value(s: Seq<char>) -> int
    decreases s.len(),
{
    if s.len() == 0 {
        0
    } else {
        decimal_value(s.drop_last()) * 10 + (s.last() as int - '0' as int)
    }
}

/// The decimal text of a number stands for it, and is made of digits without a
/// zero in front.
pub proof fn a_decimal_text_stands_for_its_number(n: nat)
    ensures
        decimal_value(decimal(n)) == n,
        decimal(n).len() > 0,
        n > 0 ==> decimal(n)[0] != '0',
        forall|i: int| 0 <= i < decimal(n).len() ==> '0' <= #[trigger] decimal(n)[i] <= '9',
    decreases n,
{
    if n < 10 {
        let s = seq![digit(n)];
        assert(s.drop_last() =~= Seq::<char>::empty());
        assert(decimal_value(s.drop_last()) == 0);
        assert(s.last() as int == '0' as int + n);
    } else {
        a_decimal_text_stands_for_its_number(n / 10);
        let s = decimal(n);
        assert(s.drop_last() =~= decimal(n / 10));
        assert(s.last() as int == '0' as int + n % 10);
        assert(s[0] == decimal(n / 10)[0]);
    }
}

/// A negative number has a minus sign in front, no other has.
pub proof fn only_a_negative_number_has_a_sign(n: int)
    ensures
        n >= 0 ==> decimal_value(decimal_int(n)) == n && decimal_int(n)[0] != '-',
        n < 0 ==> decimal_int(n)[0] == '-' && decimal_value(decimal_int(n).skip(1)) == -n,
{
    if n >= 0 {
        a_decimal_text_stands_for_its_number(n as nat);
    } else {
        a_decimal_text_stands_for_its_number((-n) as nat);
        assert(decimal_int(n).skip(1) =~= decimal((-n) as nat));
    }
}

/// The order of texts is decided where they first differ, and a text comes behind
/// its beginnings.
pub proof fn the_first_difference_decides(p: Seq<char>, a: char, x: Seq<char>, b: char, y: Seq<char>)
    ensures
        a < b ==> text_lt(p + seq![a] + x, p + seq![b] + y),
        a < b ==> !text_lt(p + seq![b] + y, p + seq![a] + x),
        text_lt(p, p + seq![a] + x),
        !text_lt(p + seq![a] + x, p),
    decreases p.len(),
{
    let (s, t) = (p + seq![a] + x, p + seq![b] + y);
    if p.len() > 0 {
        let q = p.skip(1);
        the_first_difference_decides(q, a, x, b, y);
        assert(s.skip(1) =~= q + seq![a] + x);
        assert(t.skip(1) =~= q + seq![b] + y);
        assert(s[0] == p[0] && t[0] == p[0]);
    } else {
        assert(s[0] == a && t[0] == b);
    }
}

/// A line feed ends a line, and a carriage return before it is not part of it.
pub proof fn a_line_feed_ends_a_line(line: Seq<char>, rest: Seq<char>)
    requires
        !line.contains('\n'),
    ensures
        ({
            let all = lines_of(line + seq!['\n'] + rest);
            &&& all.len() == lines_of(rest).len() + 1
            &&& all.skip(1) == lines_of(rest)
            &&& line.len() == 0 || line.last() != '\r' ==> all[0] == line
            &&& line.len() > 0 && line.last() == '\r' ==> all[0] == line.drop_last()
        }),
{
    let s = line + seq!['\n'] + rest;
    let n = line.len() as int;
    s.index_of_first_ensures('\n');
    assert(s[n] == '\n');
    assert(s.contains('\n'));
    let i = s.index_of_first('\n')->0;
    if i < n {
        assert(line[i] == s[i]);
        assert(line.contains('\n'));
    }
    assert(s.take(n) =~= line);
    assert(s.skip(n + 1) =~= rest);
    assert(lines_of(s) == seq![without_return(line)] + lines_of(rest));
    assert(lines_of(s).skip(1) =~= lines_of(rest));
}

/// A line holds no line feed, and a text without one is one line.
pub proof fn a_line_holds_no_line_feed(s: Seq<char>)
    ensures
        forall|i: int| 0 <= i < lines_of(s).len() ==> !(#[trigger] lines_of(s)[i]).contains('\n'),
        s.len() == 0 ==> lines_of(s).len() == 0,
        s.len() > 0 && !s.contains('\n') ==> lines_of(s) == seq![s],
    decreases s.len(),
{
    s.index_of_first_ensures('\n');
    if s.len() > 0 {
        if let Some(i) = s.index_of_first('\n') {
            let rest = s.skip(i + 1);
            a_line_holds_no_line_feed(rest);
            let head = without_return(s.take(i));
            assert(!head.contains('\n')) by {
                if head.contains('\n') {
                    let k = choose|k: int| 0 <= k < head.len() && head[k] == '\n';
                    assert(s[k] == '\n');
                }
            }
            let all = lines_of(s);
            assert(all == seq![head] + lines_of(rest));
            assert forall|k: int| 0 <= k < all.len() implies !(#[trigger] all[k]).contains('\n') by {
                if k > 0 {
                    assert(all[k] == lines_of(rest)[k - 1]);
                }
            }
        } else {
            assert(lines_of(s) == seq![s]);
        }
    }
}

/// The last of a sequence are its end: as many as are asked for, where there are
/// as many.
pub proof fn the_last_are_the_end<T>(s: Seq<T>, n: nat)
    ensures
        last_of(s, n).len() == if s.len() < n {
            s.len()
        } else {
            n
        },
        s.skip(s.len() - last_of(s, n).len()) == last_of(s, n),
{
    assert(s.skip(0) =~= s);
}

} // verus!
