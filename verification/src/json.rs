//! JSON objects, as the wire format and the tokens use them.
//!
//! An object is written as compact text, member by member. Reading takes an
//! object (or an array, whose elements stand for the fields in order) apart
//! into the texts of its values. Strings, numbers and the extent of a value
//! are `serde_json`'s business.

use vstd::prelude::*;
use vstd::slice::*;
use vstd::string::*;
use vstd::utf8::*;

use crate::text;

verus! {

// ---------------------------------------------------------------------------
// What serde_json returns.
// ---------------------------------------------------------------------------

/// The JSON text of a string.
pub uninterp spec fn json_quoted(s: Seq<char>) -> Seq<char>;

/// Where the JSON value at the start of `b` ends.
pub uninterp spec fn json_value_end(b: Seq<u8>) -> Option<nat>;

/// The string that the JSON document `b` is.
pub uninterp spec fn json_string(b: Seq<u8>) -> Option<Seq<char>>;

/// The unsigned byte that the JSON document `b` is.
pub uninterp spec fn json_byte(b: Seq<u8>) -> Option<u8>;

/// The signed integer that the JSON document `b` is.
pub uninterp spec fn json_integer(b: Seq<u8>) -> Option<i64>;

/// JSON white space.
pub open spec fn is_json_space(b: u8) -> bool {
    b == 0x20 || b == 0x0a || b == 0x09 || b == 0x0d
}

/// What may stand behind a member's key or value in compact text.
pub open spec fn ends_value(rest: Seq<u8>) -> bool {
    rest.len() > 0 && (rest[0] == 0x2c || rest[0] == 0x3a || rest[0] == 0x7d)
}

/// `v` is the text of one JSON value: inside an object it ends where it ends.
pub open spec fn is_value(v: Seq<u8>) -> bool {
    &&& v.len() > 0
    &&& !is_json_space(v[0])
    &&& forall|rest: Seq<u8>|
        ends_value(rest) ==> #[trigger] json_value_end(v + rest) == Some(v.len())
}

/// `q` is the text of one JSON string, and reading it gives `s`.
pub open spec fn reads_back_from(s: Seq<char>, q: Seq<char>) -> bool {
    &&& is_value(encode_utf8(q))
    &&& encode_utf8(q)[0] == 0x22
    &&& json_string(encode_utf8(q)) == Some(s)
}

/// The JSON text of `s` is one value, and reading it gives `s` back.
pub open spec fn reads_back(s: Seq<char>) -> bool {
    reads_back_from(s, json_quoted(s))
}

/// Calls `serde_json::to_string` on a string slice. The result is named, it is
/// one JSON value that starts with a quotation mark, and `from_slice` reads
/// `s` back from it.
#[verifier::external_body]
fn quote(s: &str) -> (q: String)
    ensures
        q@ == json_quoted(s@),
        reads_back_from(s@, q@),
{
    serde_json::to_string(s).expect("a string has a JSON form")
}

/// Calls `serde_json::to_string` on a `u8`: the decimal text, which is one JSON
/// value and which `from_slice` reads back.
#[verifier::external_body]
fn write_byte(n: u8) -> (t: String)
    ensures
        t@ == text::decimal(n as nat),
        is_value(encode_utf8(t@)),
        json_byte(encode_utf8(t@)) == Some(n),
{
    serde_json::to_string(&n).expect("a number has a JSON form")
}

/// Calls `serde_json::to_string` on an `i64`: the decimal text, which is one
/// JSON value and which `from_slice` reads back.
#[verifier::external_body]
fn write_integer(n: i64) -> (t: String)
    ensures
        t@ == text::decimal_int(n as int),
        is_value(encode_utf8(t@)),
        json_integer(encode_utf8(t@)) == Some(n),
{
    serde_json::to_string(&n).expect("a number has a JSON form")
}

/// The members of an object whose values are all strings.
pub open spec fn string_members(fields: Seq<(&str, &str)>) -> Seq<(Seq<char>, Seq<char>)> {
    Seq::new(fields.len(), |i: int| (fields[i].0@, json_quoted(fields[i].1@)))
}

/// `t` is the object with the given string members: it is one JSON value, and
/// every key and every value of it reads back.
pub open spec fn is_string_object(fields: Seq<(&str, &str)>, t: Seq<char>) -> bool {
    &&& t == object_text(string_members(fields))
    &&& is_value(encode_utf8(t))
    &&& forall|i: int|
        0 <= i < fields.len() ==> reads_back((#[trigger] fields[i]).0@) && reads_back(fields[i].1@)
}

/// Calls `collect_map` of `serde_json`'s compact serializer on pairs of string
/// slices: the object with these members in this order, which is one JSON
/// value and whose keys and values read back.
#[verifier::external_body]
pub(crate) fn write_strings(fields: &[(&str, &str)]) -> (t: String)
    ensures
        is_string_object(fields@, t@),
{
    let mut out: Vec<u8> = Vec::new();
    let mut ser = serde_json::Serializer::new(&mut out);
    serde::Serializer::collect_map(&mut ser, fields.iter().copied()).expect("strings have a JSON form");
    String::from_utf8(out).expect("JSON text is UTF-8")
}

/// Calls `next` and `byte_offset` of `serde_json`'s stream deserializer, with
/// the value itself ignored: where the first value of `b` ends.
#[verifier::external_body]
fn value_end(b: &[u8]) -> (r: Option<usize>)
    ensures
        match r {
            Some(n) => json_value_end(b@) == Some(n as nat) && 0 < n <= b@.len(),
            None => json_value_end(b@) is None,
        },
{
    let mut values = serde_json::Deserializer::from_slice(b).into_iter::<serde::de::IgnoredAny>();
    match values.next() {
        Some(Ok(_)) => Some(values.byte_offset()),
        _ => None,
    }
}

/// Calls `serde_json::from_slice` for a `String`. The result is named.
#[verifier::external_body]
pub(crate) fn read_string(b: &[u8]) -> (r: Option<String>)
    ensures
        text::opt_text(r) == json_string(b@),
{
    serde_json::from_slice::<String>(b).ok()
}

/// Calls `serde_json::from_slice` for a `u8`. The result is named.
#[verifier::external_body]
fn read_byte(b: &[u8]) -> (r: Option<u8>)
    ensures
        r == json_byte(b@),
{
    serde_json::from_slice::<u8>(b).ok()
}

/// Calls `serde_json::from_slice` for an `i64`. The result is named.
#[verifier::external_body]
fn read_integer(b: &[u8]) -> (r: Option<i64>)
    ensures
        r == json_integer(b@),
{
    serde_json::from_slice::<i64>(b).ok()
}

// ---------------------------------------------------------------------------
// Writing an object.
// ---------------------------------------------------------------------------

/// One member: the quoted key, a colon, the text of the value.
pub open spec fn member_text(m: (Seq<char>, Seq<char>)) -> Seq<char> {
    json_quoted(m.0) + seq![':'] + m.1
}

/// The members, separated by commas.
pub open spec fn members_text(ms: Seq<(Seq<char>, Seq<char>)>) -> Seq<char>
    decreases ms.len(),
{
    if ms.len() == 0 {
        Seq::empty()
    } else if ms.len() == 1 {
        member_text(ms[0])
    } else {
        members_text(ms.drop_last()) + seq![','] + member_text(ms.last())
    }
}

/// The object with the given members, each a key and the text of a value.
pub open spec fn object_text(ms: Seq<(Seq<char>, Seq<char>)>) -> Seq<char> {
    seq!['{'] + members_text(ms) + seq!['}']
}

/// A list of members extended by one whose value is a string.
pub open spec fn with_text(
    ms: Seq<(Seq<char>, Seq<char>)>,
    key: Seq<char>,
    s: Seq<char>,
) -> Seq<(Seq<char>, Seq<char>)> {
    ms.push((key, json_quoted(s)))
}

/// A list of members extended by one, where there is a string.
pub open spec fn with_opt_text(
    ms: Seq<(Seq<char>, Seq<char>)>,
    key: Seq<char>,
    s: Option<Seq<char>>,
) -> Seq<(Seq<char>, Seq<char>)> {
    match s {
        Some(t) => with_text(ms, key, t),
        None => ms,
    }
}

/// A list of members extended by one, where there is the text of a value.
pub open spec fn with_opt_value(
    ms: Seq<(Seq<char>, Seq<char>)>,
    key: Seq<char>,
    v: Option<Seq<char>>,
) -> Seq<(Seq<char>, Seq<char>)> {
    match v {
        Some(t) => ms.push((key, t)),
        None => ms,
    }
}

/// Every key reads back, and every value is one JSON value.
pub open spec fn all_read_back(ms: Seq<(Seq<char>, Seq<char>)>) -> bool {
    forall|i: int|
        0 <= i < ms.len() ==> reads_back((#[trigger] ms[i]).0) && is_value(encode_utf8(ms[i].1))
}

/// An object that is being written.
pub(crate) struct ObjectWriter {
    out: String,
    members: Ghost<Seq<(Seq<char>, Seq<char>)>>,
}

impl ObjectWriter {
    /// The members written so far.
    pub(crate) closed spec fn members(&self) -> Seq<(Seq<char>, Seq<char>)> {
        self.members@
    }

    /// The text is that of the members, and all of them read back.
    pub(crate) closed spec fn wf(&self) -> bool {
        &&& self.out@ == seq!['{'] + members_text(self.members@)
        &&& all_read_back(self.members@)
    }

    pub(crate) fn new() -> (w: ObjectWriter)
        ensures
            w.wf(),
            w.members() == Seq::<(Seq<char>, Seq<char>)>::empty(),
    {
        proof {
            reveal_strlit("{");
        }
        let w = ObjectWriter { out: "{".to_owned(), members: Ghost(Seq::empty()) };
        assert(w.out@ =~= seq!['{'] + members_text(w.members@));
        w
    }

    /// Write a member with the text of a value.
    pub(crate) fn value(&mut self, key: &str, v: &str)
        requires
            old(self).wf(),
            is_value(encode_utf8(v@)),
        ensures
            final(self).wf(),
            final(self).members() == old(self).members().push((key@, v@)),
    {
        let ghost before = self.out@;
        let q: String = quote(key);
        proof {
            reveal_strlit("{");
            reveal_strlit(",");
            reveal_strlit(":");
            assert(","@ =~= seq![',']);
            assert(":"@ =~= seq![':']);
        }
        if self.out.as_str().unicode_len() > 1 {
            self.out.append(",");
        }
        self.out.append(q.as_str());
        self.out.append(":");
        self.out.append(v);
        let ghost ms = self.members@;
        let ghost next = ms.push((key@, v@));
        proof {
            assert(next.drop_last() =~= ms);
            lemma_members_text_len(ms);
            if ms.len() == 0 {
                assert(members_text(ms) =~= Seq::empty());
                assert(self.out@ =~= seq!['{'] + members_text(next));
            } else {
                assert(self.out@ =~= seq!['{'] + members_text(next));
            }
        }
        self.members = Ghost(next);
    }

    /// Write a member whose value is a string.
    pub(crate) fn text(&mut self, key: &str, s: &str)
        requires
            old(self).wf(),
        ensures
            final(self).wf(),
            final(self).members() == with_text(old(self).members(), key@, s@),
            reads_back(s@),
    {
        let q: String = quote(s);
        self.value(key, q.as_str());
    }

    /// Write a member whose value is a string, where there is one.
    pub(crate) fn opt_text(&mut self, key: &str, s: &Option<String>)
        requires
            old(self).wf(),
        ensures
            final(self).wf(),
            final(self).members() == with_opt_text(old(self).members(), key@, text::opt_text(*s)),
            s matches Some(t) ==> reads_back(t@),
    {
        if let Some(t) = s {
            self.text(key, t.as_str());
        }
    }

    /// Write a member whose value is a small number.
    pub(crate) fn byte(&mut self, key: &str, n: u8)
        requires
            old(self).wf(),
        ensures
            final(self).wf(),
            final(self).members() == old(self).members().push((key@, text::decimal(n as nat))),
            json_byte(encode_utf8(text::decimal(n as nat))) == Some(n),
    {
        let t: String = write_byte(n);
        self.value(key, t.as_str());
    }

    /// Write a member whose value is a number.
    pub(crate) fn integer(&mut self, key: &str, n: i64)
        requires
            old(self).wf(),
        ensures
            final(self).wf(),
            final(self).members() == old(self).members().push((key@, text::decimal_int(n as int))),
            json_integer(encode_utf8(text::decimal_int(n as int))) == Some(n),
    {
        let t: String = write_integer(n);
        self.value(key, t.as_str());
    }

    /// The finished object.
    pub(crate) fn finish(self) -> (t: String)
        requires
            self.wf(),
        ensures
            t@ == object_text(self.members()),
            all_read_back(self.members()),
    {
        let mut out: String = self.out;
        out.append("}");
        proof {
            reveal_strlit("}");
            assert("}"@ =~= seq!['}']);
        }
        out
    }
}

proof fn lemma_members_text_len(ms: Seq<(Seq<char>, Seq<char>)>)
    ensures
        ms.len() == 0 <==> members_text(ms).len() == 0,
{
}

// ---------------------------------------------------------------------------
// Taking an object apart.
// ---------------------------------------------------------------------------

/// A member of an object: its key and the text of its value.
pub struct Member {
    pub key: Seq<char>,
    pub value: Seq<u8>,
}

/// The fields of a structure: named members, or elements in order.
pub enum Fields {
    Object(Seq<Member>),
    Array(Seq<Seq<u8>>),
}

/// What stands for one field.
pub enum Slot {
    Absent,
    Twice,
    At(Seq<u8>),
}

/// `b` without leading white space.
pub open spec fn skip_space(b: Seq<u8>) -> Seq<u8>
    decreases b.len(),
{
    if b.len() > 0 && is_json_space(b[0]) {
        skip_space(b.skip(1))
    } else {
        b
    }
}

/// The value at the start of `b`, and what follows it.
pub open spec fn read_value(b: Seq<u8>) -> Option<(Seq<u8>, Seq<u8>)> {
    match json_value_end(b) {
        Some(n) => if 0 < n <= b.len() {
            Some((b.take(n as int), skip_space(b.skip(n as int))))
        } else {
            None
        },
        None => None,
    }
}

/// The member at the start of `b`, and what follows it.
pub open spec fn read_member(b: Seq<u8>) -> Option<(Member, Seq<u8>)> {
    if b.len() == 0 || b[0] != 0x22 {
        None
    } else {
        match read_value(b) {
            None => None,
            Some((k, c)) => match json_string(k) {
                None => None,
                Some(key) => if c.len() == 0 || c[0] != 0x3a {
                    None
                } else {
                    match read_value(skip_space(c.skip(1))) {
                        None => None,
                        Some((value, rest)) => Some((Member { key, value }, rest)),
                    }
                },
            },
        }
    }
}

/// The members at the start of `b` up to the closing brace, and what follows.
pub open spec fn read_members(b: Seq<u8>) -> Option<(Seq<Member>, Seq<u8>)>
    decreases b.len(),
{
    match read_member(b) {
        None => None,
        Some((m, rest)) => if rest.len() > 0 && rest[0] == 0x7d {
            Some((seq![m], rest.skip(1)))
        } else if rest.len() > 0 && rest[0] == 0x2c {
            proof {
                lemma_read_member_shrinks(b);
                lemma_skip_space_len(rest.skip(1));
            }
            match read_members(skip_space(rest.skip(1))) {
                None => None,
                Some((ms, end)) => Some((seq![m] + ms, end)),
            }
        } else {
            None
        },
    }
}

/// The elements at the start of `b` up to the closing bracket, and what follows.
pub open spec fn read_elements(b: Seq<u8>) -> Option<(Seq<Seq<u8>>, Seq<u8>)>
    decreases b.len(),
{
    match read_value(b) {
        None => None,
        Some((v, rest)) => if rest.len() > 0 && rest[0] == 0x5d {
            Some((seq![v], rest.skip(1)))
        } else if rest.len() > 0 && rest[0] == 0x2c {
            proof {
                lemma_read_value_shrinks(b);
                lemma_skip_space_len(rest.skip(1));
            }
            match read_elements(skip_space(rest.skip(1))) {
                None => None,
                Some((vs, end)) => Some((seq![v] + vs, end)),
            }
        } else {
            None
        },
    }
}

/// The members of the JSON document `b`, where it is an object.
pub open spec fn members_of(b: Seq<u8>) -> Option<Seq<Member>> {
    let open = skip_space(b);
    if open.len() == 0 || open[0] != 0x7b {
        None
    } else {
        let first = skip_space(open.skip(1));
        if first.len() > 0 && first[0] == 0x7d {
            if skip_space(first.skip(1)).len() == 0 {
                Some(Seq::empty())
            } else {
                None
            }
        } else {
            match read_members(first) {
                Some((ms, rest)) => if skip_space(rest).len() == 0 {
                    Some(ms)
                } else {
                    None
                },
                None => None,
            }
        }
    }
}

/// The elements of the JSON document `b`, where it is an array.
pub open spec fn elements_of(b: Seq<u8>) -> Option<Seq<Seq<u8>>> {
    let open = skip_space(b);
    if open.len() == 0 || open[0] != 0x5b {
        None
    } else {
        let first = skip_space(open.skip(1));
        if first.len() > 0 && first[0] == 0x5d {
            if skip_space(first.skip(1)).len() == 0 {
                Some(Seq::empty())
            } else {
                None
            }
        } else {
            match read_elements(first) {
                Some((vs, rest)) => if skip_space(rest).len() == 0 {
                    Some(vs)
                } else {
                    None
                },
                None => None,
            }
        }
    }
}

/// The fields of the JSON document `b`: an object, or an array of at most `n`
/// elements.
pub open spec fn fields_of(b: Seq<u8>, n: nat) -> Option<Fields> {
    match members_of(b) {
        Some(ms) => Some(Fields::Object(ms)),
        None => match elements_of(b) {
            Some(vs) => if vs.len() <= n {
                Some(Fields::Array(vs))
            } else {
                None
            },
            None => None,
        },
    }
}

/// What the members hold under `key`.
pub open spec fn slot_in(ms: Seq<Member>, key: Seq<char>) -> Slot
    decreases ms.len(),
{
    if ms.len() == 0 {
        Slot::Absent
    } else if ms.last().key == key {
        match slot_in(ms.drop_last(), key) {
            Slot::Absent => Slot::At(ms.last().value),
            _ => Slot::Twice,
        }
    } else {
        slot_in(ms.drop_last(), key)
    }
}

/// What stands for the field at position `i` that is named `key`.
pub open spec fn slot(f: Fields, i: int, key: Seq<char>) -> Slot {
    match f {
        Fields::Object(ms) => slot_in(ms, key),
        Fields::Array(vs) => if 0 <= i < vs.len() {
            Slot::At(vs[i])
        } else {
            Slot::Absent
        },
    }
}

/// The JSON text `null`.
pub open spec fn null_text() -> Seq<u8> {
    seq![0x6eu8, 0x75, 0x6c, 0x6c]
}

/// A required string.
pub open spec fn text_field(f: Fields, i: int, key: Seq<char>) -> Option<Seq<char>> {
    match slot(f, i, key) {
        Slot::At(v) => json_string(v),
        _ => None,
    }
}

/// An optional string: absent and `null` both stand for none.
pub open spec fn opt_text_field(f: Fields, i: int, key: Seq<char>) -> Option<Option<Seq<char>>> {
    match slot(f, i, key) {
        Slot::Absent => Some(None),
        Slot::Twice => None,
        Slot::At(v) => if v == null_text() {
            Some(None)
        } else {
            match json_string(v) {
                Some(s) => Some(Some(s)),
                None => None,
            }
        },
    }
}

/// An optional value, as text: absent and `null` both stand for none.
pub open spec fn opt_value_field(f: Fields, i: int, key: Seq<char>) -> Option<Option<Seq<u8>>> {
    match slot(f, i, key) {
        Slot::Absent => Some(None),
        Slot::Twice => None,
        Slot::At(v) => if v == null_text() {
            Some(None)
        } else {
            Some(Some(v))
        },
    }
}

/// A required small number.
pub open spec fn byte_field(f: Fields, i: int, key: Seq<char>) -> Option<u8> {
    match slot(f, i, key) {
        Slot::At(v) => json_byte(v),
        _ => None,
    }
}

/// A string that is empty where it is absent.
pub open spec fn default_text_field(f: Fields, i: int, key: Seq<char>) -> Option<Seq<char>> {
    match slot(f, i, key) {
        Slot::Absent => Some(Seq::empty()),
        Slot::Twice => None,
        Slot::At(v) => json_string(v),
    }
}

/// A number that is zero where it is absent.
pub open spec fn default_integer_field(f: Fields, i: int, key: Seq<char>) -> Option<i64> {
    match slot(f, i, key) {
        Slot::Absent => Some(0i64),
        Slot::Twice => None,
        Slot::At(v) => json_integer(v),
    }
}

/// The name of a variant without data: a string, or an object whose one member
/// is `null`.
pub open spec fn variant_name(v: Seq<u8>) -> Option<Seq<char>> {
    match members_of(v) {
        Some(ms) => if ms.len() == 1 && ms[0].value == null_text() {
            Some(ms[0].key)
        } else {
            None
        },
        None => json_string(v),
    }
}

pub proof fn lemma_skip_space_len(b: Seq<u8>)
    ensures
        skip_space(b).len() <= b.len(),
    decreases b.len(),
{
    if b.len() > 0 && is_json_space(b[0]) {
        lemma_skip_space_len(b.skip(1));
    }
}

pub proof fn lemma_read_value_shrinks(b: Seq<u8>)
    ensures
        read_value(b) matches Some((v, rest)) ==> rest.len() < b.len(),
{
    if let Some(n) = json_value_end(b) {
        if 0 < n <= b.len() {
            lemma_skip_space_len(b.skip(n as int));
        }
    }
}

pub proof fn lemma_read_member_shrinks(b: Seq<u8>)
    ensures
        read_member(b) matches Some((m, rest)) ==> rest.len() < b.len(),
{
    lemma_read_value_shrinks(b);
    if let Some((k, c)) = read_value(b) {
        if c.len() > 0 {
            lemma_skip_space_len(c.skip(1));
            lemma_read_value_shrinks(skip_space(c.skip(1)));
        }
    }
}

// ---------------------------------------------------------------------------
// Reading gives back what was written.
// ---------------------------------------------------------------------------

/// The members of a written object as a reader sees them.
pub open spec fn as_read(ms: Seq<(Seq<char>, Seq<char>)>) -> Seq<Member> {
    Seq::new(ms.len(), |i: int| Member { key: ms[i].0, value: encode_utf8(ms[i].1) })
}

spec fn tail_text(ms: Seq<(Seq<char>, Seq<char>)>) -> Seq<char>
    decreases ms.len(),
{
    if ms.len() == 0 {
        Seq::empty()
    } else if ms.len() == 1 {
        member_text(ms[0])
    } else {
        member_text(ms[0]) + seq![','] + tail_text(ms.skip(1))
    }
}

proof fn lemma_tail_push(ms: Seq<(Seq<char>, Seq<char>)>, m: (Seq<char>, Seq<char>))
    requires
        ms.len() > 0,
    ensures
        tail_text(ms.push(m)) == tail_text(ms) + seq![','] + member_text(m),
    decreases ms.len(),
{
    let all = ms.push(m);
    if ms.len() == 1 {
        assert(all.skip(1) =~= seq![m]);
        assert(tail_text(all.skip(1)) == member_text(m));
        assert(all[0] == ms[0]);
    } else {
        assert(all.skip(1) =~= ms.skip(1).push(m));
        lemma_tail_push(ms.skip(1), m);
        assert(all[0] == ms[0]);
        assert(tail_text(all) =~= tail_text(ms) + seq![','] + member_text(m));
    }
}

proof fn lemma_members_text_is_tail_text(ms: Seq<(Seq<char>, Seq<char>)>)
    ensures
        members_text(ms) == tail_text(ms),
    decreases ms.len(),
{
    if ms.len() > 1 {
        lemma_members_text_is_tail_text(ms.drop_last());
        lemma_tail_push(ms.drop_last(), ms.last());
        assert(ms.drop_last().push(ms.last()) =~= ms);
    }
}

/// The bytes of a joined text are the joined bytes.
pub proof fn lemma_utf8_concat(a: Seq<char>, b: Seq<char>)
    ensures
        encode_utf8(a + b) == encode_utf8(a) + encode_utf8(b),
    decreases a.len(),
{
    if a.len() == 0 {
        assert(a + b =~= b);
        assert(encode_utf8(a) + encode_utf8(b) =~= encode_utf8(b));
    } else {
        assert((a + b).drop_first() =~= a.drop_first() + b);
        lemma_utf8_concat(a.drop_first(), b);
        assert(encode_utf8(a + b) =~= encode_utf8(a) + encode_utf8(b));
    }
}

proof fn lemma_ascii_byte(c: char)
    requires
        c as u32 <= 0x7f,
    ensures
        encode_utf8(seq![c]) == seq![c as u8],
{
    let s = seq![c];
    assert(is_ascii_chars(s));
    is_ascii_chars_encode_utf8(s);
    assert(encode_utf8(s) =~= seq![c as u8]);
}

proof fn lemma_member_bytes(m: (Seq<char>, Seq<char>))
    ensures
        encode_utf8(member_text(m)) == encode_utf8(json_quoted(m.0)) + seq![0x3au8] + encode_utf8(
            m.1,
        ),
{
    lemma_ascii_byte(':');
    lemma_utf8_concat(json_quoted(m.0) + seq![':'], m.1);
    lemma_utf8_concat(json_quoted(m.0), seq![':']);
}

proof fn lemma_read_value_back(v: Seq<u8>, rest: Seq<u8>)
    requires
        is_value(v),
        ends_value(rest),
    ensures
        read_value(v + rest) == Some((v, rest)),
{
    let b = v + rest;
    assert(json_value_end(v + rest) == Some(v.len()));
    assert(b.take(v.len() as int) =~= v);
    assert(b.skip(v.len() as int) =~= rest);
}

proof fn lemma_read_member_back(m: (Seq<char>, Seq<char>), rest: Seq<u8>)
    requires
        reads_back(m.0),
        is_value(encode_utf8(m.1)),
        ends_value(rest),
    ensures
        read_member(encode_utf8(member_text(m)) + rest) == Some(
            (Member { key: m.0, value: encode_utf8(m.1) }, rest),
        ),
{
    let q = encode_utf8(json_quoted(m.0));
    let v = encode_utf8(m.1);
    let b = encode_utf8(member_text(m)) + rest;
    lemma_member_bytes(m);
    let c = seq![0x3au8] + v + rest;
    assert(b =~= q + c);
    lemma_read_value_back(q, c);
    assert(c.skip(1) =~= v + rest);
    assert((v + rest)[0] == v[0]);
    assert(skip_space(v + rest) == v + rest);
    lemma_read_value_back(v, rest);
}

proof fn lemma_read_members_back(ms: Seq<(Seq<char>, Seq<char>)>)
    requires
        all_read_back(ms),
        ms.len() > 0,
    ensures
        read_members(encode_utf8(tail_text(ms)) + seq![0x7du8]) == Some(
            (as_read(ms), Seq::<u8>::empty()),
        ),
    decreases ms.len(),
{
    let m = ms[0];
    let b = encode_utf8(tail_text(ms)) + seq![0x7du8];
    let close = seq![0x7du8];
    let mv = Member { key: m.0, value: encode_utf8(m.1) };
    assert(reads_back(ms[0].0));
    if ms.len() == 1 {
        lemma_read_member_back(m, close);
        assert(close.skip(1) =~= Seq::<u8>::empty());
        assert(seq![mv] =~= as_read(ms));
    } else {
        let next = ms.skip(1);
        assert forall|i: int| 0 <= i < next.len() implies reads_back((#[trigger] next[i]).0)
            && is_value(encode_utf8(next[i].1)) by {
            assert(next[i] == ms[i + 1]);
        }
        lemma_read_members_back(next);
        let nb = encode_utf8(tail_text(next)) + close;
        let rest = seq![0x2cu8] + nb;
        lemma_utf8_concat(member_text(m) + seq![','], tail_text(next));
        lemma_utf8_concat(member_text(m), seq![',']);
        lemma_ascii_byte(',');
        assert(b =~= encode_utf8(member_text(m)) + rest);
        lemma_read_member_back(m, rest);
        assert(rest.skip(1) =~= nb);
        lemma_tail_starts(next);
        assert(nb[0] == encode_utf8(tail_text(next))[0]);
        assert(skip_space(nb) == nb);
        assert(seq![mv] + as_read(next) =~= as_read(ms));
    }
}

proof fn lemma_tail_starts(ms: Seq<(Seq<char>, Seq<char>)>)
    requires
        all_read_back(ms),
        ms.len() > 0,
    ensures
        encode_utf8(tail_text(ms)).len() > 0,
        encode_utf8(tail_text(ms))[0] == 0x22,
{
    let m = ms[0];
    assert(reads_back(ms[0].0));
    lemma_member_bytes(m);
    if ms.len() > 1 {
        lemma_utf8_concat(member_text(m) + seq![','], tail_text(ms.skip(1)));
        lemma_utf8_concat(member_text(m), seq![',']);
    }
}

/// Taking a written object apart gives back the members that were written.
pub proof fn lemma_members_read_back(ms: Seq<(Seq<char>, Seq<char>)>)
    requires
        all_read_back(ms),
    ensures
        members_of(encode_utf8(object_text(ms))) == Some(as_read(ms)),
{
    let b = encode_utf8(object_text(ms));
    let inside = encode_utf8(members_text(ms));
    lemma_utf8_concat(seq!['{'] + members_text(ms), seq!['}']);
    lemma_utf8_concat(seq!['{'], members_text(ms));
    lemma_ascii_byte('{');
    lemma_ascii_byte('}');
    assert(b =~= seq![0x7bu8] + (inside + seq![0x7du8]));
    assert(skip_space(b) == b);
    assert(b.skip(1) =~= inside + seq![0x7du8]);
    let first = inside + seq![0x7du8];
    if ms.len() == 0 {
        assert(members_text(ms) =~= Seq::<char>::empty());
        assert(inside =~= Seq::<u8>::empty());
        assert(first =~= seq![0x7du8]);
        assert(skip_space(first) == first);
        assert(first.skip(1) =~= Seq::<u8>::empty());
        assert(as_read(ms) =~= Seq::<Member>::empty());
    } else {
        lemma_members_text_is_tail_text(ms);
        lemma_tail_starts(ms);
        assert(first[0] == inside[0]);
        assert(skip_space(first) == first);
        lemma_read_members_back(ms);
    }
}

/// What a written object holds under each key, one more member written.
pub proof fn lemma_slot_push(ms: Seq<(Seq<char>, Seq<char>)>, k: Seq<char>, v: Seq<char>)
    ensures
        forall|key: Seq<char>| #[trigger]
            slot_in(as_read(ms.push((k, v))), key) == (if k == key {
                match slot_in(as_read(ms), key) {
                    Slot::Absent => Slot::At(encode_utf8(v)),
                    _ => Slot::Twice,
                }
            } else {
                slot_in(as_read(ms), key)
            }),
{
    let all = as_read(ms.push((k, v)));
    assert(all.drop_last() =~= as_read(ms));
    assert(all.last() == Member { key: k, value: encode_utf8(v) });
}

/// An object without members holds nothing.
pub proof fn lemma_slot_empty()
    ensures
        forall|key: Seq<char>| #[trigger]
            slot_in(as_read(Seq::<(Seq<char>, Seq<char>)>::empty()), key) == Slot::Absent,
{
}

/// The text of a written object does not start like `null`.
pub proof fn lemma_object_starts(ms: Seq<(Seq<char>, Seq<char>)>)
    ensures
        encode_utf8(object_text(ms)).len() > 0,
        encode_utf8(object_text(ms))[0] == 0x7b,
{
    lemma_utf8_concat(seq!['{'] + members_text(ms), seq!['}']);
    lemma_utf8_concat(seq!['{'], members_text(ms));
    lemma_ascii_byte('{');
}

/// A written string reads back as the name of a variant.
pub proof fn lemma_variant_reads_back(s: Seq<char>)
    requires
        reads_back(s),
    ensures
        variant_name(encode_utf8(json_quoted(s))) == Some(s),
{
    let b = encode_utf8(json_quoted(s));
    assert(skip_space(b) == b);
}

// --- executable readers ----------------------------------------------------

/// The fields of a structure, borrowed from the document.
pub(crate) enum FieldsOf<'a> {
    Object(Vec<(String, &'a [u8])>),
    Array(Vec<&'a [u8]>),
}

pub(crate) open spec fn members_view(v: Seq<(String, &[u8])>) -> Seq<Member> {
    Seq::new(v.len(), |i: int| Member { key: v[i].0@, value: v[i].1@ })
}

pub(crate) open spec fn elements_view(v: Seq<&[u8]>) -> Seq<Seq<u8>> {
    Seq::new(v.len(), |i: int| v[i]@)
}

impl<'a> FieldsOf<'a> {
    pub(crate) open spec fn view(&self) -> Fields {
        match *self {
            FieldsOf::Object(v) => Fields::Object(members_view(v@)),
            FieldsOf::Array(v) => Fields::Array(elements_view(v@)),
        }
    }
}

fn skip_white<'a>(b: &'a [u8]) -> (r: &'a [u8])
    ensures
        r@ == skip_space(b@),
        r@.len() <= b@.len(),
{
    let n: usize = b.len();
    let mut i: usize = 0;
    proof {
        assert(b@.skip(0) =~= b@);
    }
    while i < n && (b[i] == 0x20 || b[i] == 0x0a || b[i] == 0x09 || b[i] == 0x0d)
        invariant
            i <= n,
            n == b@.len(),
            skip_space(b@) == skip_space(b@.skip(i as int)),
        decreases n - i,
    {
        proof {
            assert(b@.skip(i as int).skip(1) =~= b@.skip(i + 1));
        }
        i = i + 1;
    }
    assert(b@.subrange(i as int, n as int) =~= b@.skip(i as int));
    slice_subrange(b, i, n)
}

fn tail<'a>(b: &'a [u8]) -> (r: &'a [u8])
    requires
        b@.len() > 0,
    ensures
        r@ == b@.skip(1),
{
    assert(b@.subrange(1, b@.len() as int) =~= b@.skip(1));
    slice_subrange(b, 1, b.len())
}

fn next_value<'a>(b: &'a [u8]) -> (r: Option<(&'a [u8], &'a [u8])>)
    ensures
        match r {
            Some(p) => read_value(b@) == Some((p.0@, p.1@)),
            None => read_value(b@) is None,
        },
{
    match value_end(b) {
        Some(n) => {
            let v: &'a [u8] = slice_subrange(b, 0, n);
            let w: &'a [u8] = slice_subrange(b, n, b.len());
            assert(v@ =~= b@.take(n as int));
            assert(w@ =~= b@.skip(n as int));
            Some((v, skip_white(w)))
        },
        None => None,
    }
}

fn next_member<'a>(b: &'a [u8]) -> (r: Option<((String, &'a [u8]), &'a [u8])>)
    ensures
        match r {
            Some(p) => read_member(b@) == Some((Member { key: p.0.0@, value: p.0.1@ }, p.1@)),
            None => read_member(b@) is None,
        },
{
    if b.len() == 0 || b[0] != 0x22 {
        return None;
    }
    match next_value(b) {
        None => None,
        Some((k, c)) => match read_string(k) {
            None => None,
            Some(key) => {
                if c.len() == 0 || c[0] != 0x3a {
                    return None;
                }
                match next_value(skip_white(tail(c))) {
                    None => None,
                    Some((value, rest)) => Some(((key, value), rest)),
                }
            },
        },
    }
}

/// The members of the document `b`, where it is an object.
pub(crate) fn split_object<'a>(b: &'a [u8]) -> (r: Option<Vec<(String, &'a [u8])>>)
    ensures
        match r {
            Some(v) => members_of(b@) == Some(members_view(v@)),
            None => members_of(b@) is None,
        },
{
    let open: &'a [u8] = skip_white(b);
    if open.len() == 0 || open[0] != 0x7b {
        return None;
    }
    let first: &'a [u8] = skip_white(tail(open));
    let mut out: Vec<(String, &'a [u8])> = Vec::new();
    if first.len() > 0 && first[0] == 0x7d {
        if skip_white(tail(first)).len() == 0 {
            assert(members_view(out@) =~= Seq::empty());
            return Some(out);
        }
        return None;
    }
    let mut cur: &'a [u8] = first;
    let ghost whole = read_members(first@);
    proof {
        if let Some((ms, rest)) = whole {
            assert(members_view(out@) + ms =~= ms);
        }
    }
    loop
        invariant
            members_of(b@) == (match whole {
                Some((ms, rest)) => if skip_space(rest).len() == 0 {
                    Some(ms)
                } else {
                    None
                },
                None => None,
            }),
            whole == (match read_members(cur@) {
                Some((ms, rest)) => Some((members_view(out@) + ms, rest)),
                None => None,
            }),
        decreases cur@.len(),
    {
        let ghost here = cur@;
        let ghost sofar = members_view(out@);
        proof {
            lemma_read_member_shrinks(cur@);
        }
        match next_member(cur) {
            None => {
                return None;
            },
            Some((m, rest)) => {
                let ghost mv = Member { key: m.0@, value: m.1@ };
                out.push(m);
                assert(members_view(out@) =~= sofar.push(mv));
                if rest.len() > 0 && rest[0] == 0x7d {
                    assert(sofar + seq![mv] =~= members_view(out@));
                    if skip_white(tail(rest)).len() == 0 {
                        return Some(out);
                    }
                    return None;
                } else if rest.len() > 0 && rest[0] == 0x2c {
                    cur = skip_white(tail(rest));
                    proof {
                        if let Some((ms, end)) = read_members(cur@) {
                            assert(sofar + (seq![mv] + ms) =~= members_view(out@) + ms);
                        }
                    }
                } else {
                    return None;
                }
            },
        }
    }
}

/// The elements of the document `b`, where it is an array.
fn split_array<'a>(b: &'a [u8]) -> (r: Option<Vec<&'a [u8]>>)
    ensures
        match r {
            Some(v) => elements_of(b@) == Some(elements_view(v@)),
            None => elements_of(b@) is None,
        },
{
    let open: &'a [u8] = skip_white(b);
    if open.len() == 0 || open[0] != 0x5b {
        return None;
    }
    let first: &'a [u8] = skip_white(tail(open));
    let mut out: Vec<&'a [u8]> = Vec::new();
    if first.len() > 0 && first[0] == 0x5d {
        if skip_white(tail(first)).len() == 0 {
            assert(elements_view(out@) =~= Seq::empty());
            return Some(out);
        }
        return None;
    }
    let mut cur: &'a [u8] = first;
    let ghost whole = read_elements(first@);
    proof {
        if let Some((vs, rest)) = whole {
            assert(elements_view(out@) + vs =~= vs);
        }
    }
    loop
        invariant
            elements_of(b@) == (match whole {
                Some((vs, rest)) => if skip_space(rest).len() == 0 {
                    Some(vs)
                } else {
                    None
                },
                None => None,
            }),
            whole == (match read_elements(cur@) {
                Some((vs, rest)) => Some((elements_view(out@) + vs, rest)),
                None => None,
            }),
        decreases cur@.len(),
    {
        let ghost sofar = elements_view(out@);
        proof {
            lemma_read_value_shrinks(cur@);
        }
        match next_value(cur) {
            None => {
                return None;
            },
            Some((v, rest)) => {
                out.push(v);
                assert(elements_view(out@) =~= sofar.push(v@));
                if rest.len() > 0 && rest[0] == 0x5d {
                    assert(sofar + seq![v@] =~= elements_view(out@));
                    if skip_white(tail(rest)).len() == 0 {
                        return Some(out);
                    }
                    return None;
                } else if rest.len() > 0 && rest[0] == 0x2c {
                    cur = skip_white(tail(rest));
                    proof {
                        if let Some((vs, end)) = read_elements(cur@) {
                            assert(sofar + (seq![v@] + vs) =~= elements_view(out@) + vs);
                        }
                    }
                } else {
                    return None;
                }
            },
        }
    }
}

/// The fields of the document `b`, of which there are at most `n`.
pub(crate) fn split_fields<'a>(b: &'a [u8], n: usize) -> (r: Option<FieldsOf<'a>>)
    ensures
        match r {
            Some(f) => fields_of(b@, n as nat) == Some(f@),
            None => fields_of(b@, n as nat) is None,
        },
{
    match split_object(b) {
        Some(ms) => Some(FieldsOf::Object(ms)),
        None => match split_array(b) {
            Some(vs) => {
                if vs.len() <= n {
                    Some(FieldsOf::Array(vs))
                } else {
                    None
                }
            },
            None => None,
        },
    }
}

/// What stands for one field.
pub(crate) enum SlotOf<'a> {
    Absent,
    Twice,
    At(&'a [u8]),
}

impl<'a> SlotOf<'a> {
    pub(crate) open spec fn view(&self) -> Slot {
        match *self {
            SlotOf::Absent => Slot::Absent,
            SlotOf::Twice => Slot::Twice,
            SlotOf::At(v) => Slot::At(v@),
        }
    }
}

fn is_null(v: &[u8]) -> (r: bool)
    ensures
        r == (v@ == null_text()),
{
    if v.len() == 4 && v[0] == 0x6e && v[1] == 0x75 && v[2] == 0x6c && v[3] == 0x6c {
        assert(v@ =~= null_text());
        true
    } else {
        false
    }
}

impl<'a> FieldsOf<'a> {
    pub(crate) fn slot(&self, i: usize, key: &str) -> (r: SlotOf<'a>)
        ensures
            r@ == slot(self@, i as int, key@),
    {
        match self {
            FieldsOf::Object(ms) => {
                let mut found: SlotOf<'a> = SlotOf::Absent;
                let mut j: usize = 0;
                let ghost all = members_view(ms@);
                while j < ms.len()
                    invariant
                        j <= ms.len(),
                        all == members_view(ms@),
                        found@ == slot_in(all.take(j as int), key@),
                    decreases ms.len() - j,
                {
                    proof {
                        assert(all.take(j + 1).drop_last() =~= all.take(j as int));
                    }
                    if text::str_eq(ms[j].0.as_str(), key) {
                        found = match found {
                            SlotOf::Absent => SlotOf::At(ms[j].1),
                            _ => SlotOf::Twice,
                        };
                    }
                    j = j + 1;
                }
                assert(all.take(j as int) =~= all);
                found
            },
            FieldsOf::Array(vs) => {
                if i < vs.len() {
                    SlotOf::At(vs[i])
                } else {
                    SlotOf::Absent
                }
            },
        }
    }

    pub(crate) fn text(&self, i: usize, key: &str) -> (r: Option<String>)
        ensures
            text::opt_text(r) == text_field(self@, i as int, key@),
    {
        match self.slot(i, key) {
            SlotOf::At(v) => read_string(v),
            _ => None,
        }
    }

    pub(crate) fn opt_text(&self, i: usize, key: &str) -> (r: Option<Option<String>>)
        ensures
            match r {
                Some(o) => opt_text_field(self@, i as int, key@) == Some(text::opt_text(o)),
                None => opt_text_field(self@, i as int, key@) is None,
            },
    {
        match self.slot(i, key) {
            SlotOf::Absent => Some(None),
            SlotOf::Twice => None,
            SlotOf::At(v) => {
                if is_null(v) {
                    Some(None)
                } else {
                    match read_string(v) {
                        Some(s) => Some(Some(s)),
                        None => None,
                    }
                }
            },
        }
    }

    pub(crate) fn opt_value(&self, i: usize, key: &str) -> (r: Option<Option<&'a [u8]>>)
        ensures
            match r {
                Some(Some(v)) => opt_value_field(self@, i as int, key@) == Some(Some(v@)),
                Some(None) => opt_value_field(self@, i as int, key@) == Some(None::<Seq<u8>>),
                None => opt_value_field(self@, i as int, key@) is None,
            },
    {
        match self.slot(i, key) {
            SlotOf::Absent => Some(None),
            SlotOf::Twice => None,
            SlotOf::At(v) => {
                if is_null(v) {
                    Some(None)
                } else {
                    Some(Some(v))
                }
            },
        }
    }

    pub(crate) fn byte(&self, i: usize, key: &str) -> (r: Option<u8>)
        ensures
            r == byte_field(self@, i as int, key@),
    {
        match self.slot(i, key) {
            SlotOf::At(v) => read_byte(v),
            _ => None,
        }
    }

    pub(crate) fn default_text(&self, i: usize, key: &str) -> (r: Option<String>)
        ensures
            text::opt_text(r) == default_text_field(self@, i as int, key@),
    {
        match self.slot(i, key) {
            SlotOf::Absent => Some(String::new()),
            SlotOf::Twice => None,
            SlotOf::At(v) => read_string(v),
        }
    }

    pub(crate) fn default_integer(&self, i: usize, key: &str) -> (r: Option<i64>)
        ensures
            r == default_integer_field(self@, i as int, key@),
    {
        match self.slot(i, key) {
            SlotOf::Absent => Some(0),
            SlotOf::Twice => None,
            SlotOf::At(v) => read_integer(v),
        }
    }
}

/// The name of a variant without data.
pub(crate) fn read_variant(v: &[u8]) -> (r: Option<String>)
    ensures
        text::opt_text(r) == variant_name(v@),
{
    match split_object(v) {
        Some(mut ms) => {
            if ms.len() == 1 && is_null(ms[0].1) {
                let (k, _) = ms.remove(0);
                Some(k)
            } else {
                None
            }
        },
        None => read_string(v),
    }
}

/// How often a key occurs among the first members.
pub open spec fn occurrences(ms: Seq<Member>, key: Seq<char>) -> int
    decreases ms.len(),
{
    if ms.len() == 0 {
        0
    } else {
        occurrences(ms.drop_last(), key) + if ms.last().key == key {
            1int
        } else {
            0int
        }
    }
}

/// A key that occurs once stands for its value, one that does not occur is
/// absent, and one that occurs more than once is refused.
pub proof fn a_key_stands_for_its_only_value(ms: Seq<Member>, key: Seq<char>)
    ensures
        occurrences(ms, key) >= 0,
        slot_in(ms, key) == Slot::Absent <==> occurrences(ms, key) == 0,
        slot_in(ms, key) == Slot::Twice <==> occurrences(ms, key) > 1,
        slot_in(ms, key) is At <==> occurrences(ms, key) == 1,
        slot_in(ms, key) matches Slot::At(v) ==> exists|i: int|
            0 <= i < ms.len() && (#[trigger] ms[i]).key == key && ms[i].value == v,
    decreases ms.len(),
{
    if ms.len() > 0 {
        let front = ms.drop_last();
        a_key_stands_for_its_only_value(front, key);
        if let Slot::At(v) = slot_in(ms, key) {
            if ms.last().key == key {
                assert(ms[ms.len() - 1].value == v);
            } else {
                let i = choose|i: int|
                    0 <= i < front.len() && (#[trigger] front[i]).key == key && front[i].value == v;
                assert(ms[i] == front[i]);
            }
        }
    }
}

/// An optional field is none where it is absent or `null`, and may not be there
/// twice. One with a default is empty or zero where it is absent, and there only.
pub proof fn absent_fields_have_their_defaults(ms: Seq<Member>, i: int, key: Seq<char>)
    ensures
        ({
            let f = Fields::Object(ms);
            let s = slot_in(ms, key);
            &&& s == Slot::Absent ==> opt_text_field(f, i, key) == Some(None::<Seq<char>>)
                && opt_value_field(f, i, key) == Some(None::<Seq<u8>>) && default_text_field(
                f,
                i,
                key,
            ) == Some(Seq::<char>::empty()) && default_integer_field(f, i, key) == Some(0i64)
                && text_field(f, i, key) is None && byte_field(f, i, key) is None
            &&& s == Slot::Twice ==> opt_text_field(f, i, key) is None && opt_value_field(
                f,
                i,
                key,
            ) is None && default_text_field(f, i, key) is None && default_integer_field(
                f,
                i,
                key,
            ) is None && text_field(f, i, key) is None && byte_field(f, i, key) is None
            &&& s == Slot::At(seq![0x6eu8, 0x75, 0x6c, 0x6c]) ==> opt_text_field(f, i, key) == Some(
                None::<Seq<char>>,
            ) && opt_value_field(f, i, key) == Some(None::<Seq<u8>>)
            &&& s matches Slot::At(v) ==> {
                &&& text_field(f, i, key) == json_string(v)
                &&& byte_field(f, i, key) == json_byte(v)
                &&& default_text_field(f, i, key) == json_string(v)
                &&& default_integer_field(f, i, key) == json_integer(v)
                &&& v != seq![0x6eu8, 0x75, 0x6c, 0x6c] ==> opt_value_field(f, i, key) == Some(
                    Some(v),
                ) && (opt_text_field(f, i, key) matches Some(o) ==> o is Some && json_string(v)
                    == o) && (opt_text_field(f, i, key) is None <==> json_string(v) is None)
            }
        }),
{
}

/// White space in front is skipped, all of it and nothing else.
pub proof fn only_space_is_skipped(b: Seq<u8>)
    ensures
        skip_space(b).len() > 0 ==> !(skip_space(b)[0] == 0x20 || skip_space(b)[0] == 0x0a
            || skip_space(b)[0] == 0x09 || skip_space(b)[0] == 0x0d),
        skip_space(b).len() <= b.len(),
        b.skip(b.len() - skip_space(b).len()) == skip_space(b),
        forall|i: int|
            0 <= i < b.len() - skip_space(b).len() ==> (#[trigger] b[i] == 0x20 || b[i] == 0x0a
                || b[i] == 0x09 || b[i] == 0x0d),
    decreases b.len(),
{
    if b.len() > 0 && is_json_space(b[0]) {
        let rest = b.skip(1);
        only_space_is_skipped(rest);
        let n = b.len() - skip_space(b).len();
        assert(b.skip(n) =~= rest.skip(n - 1));
        assert forall|i: int| 0 <= i < n implies (#[trigger] b[i] == 0x20 || b[i] == 0x0a || b[i]
            == 0x09 || b[i] == 0x0d) by {
            if i > 0 {
                assert(b[i] == rest[i - 1]);
            }
        }
    } else {
        assert(b.skip(0) =~= b);
    }
}

} // verus!
