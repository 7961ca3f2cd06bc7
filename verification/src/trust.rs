//! Trust store of known agents and authorities: the sole authority for which
//! signers an agent acts on.

use vstd::prelude::*;
use vstd::string::*;

use crate::authority::AuthorityToken;
use crate::error::{Error, ErrorView};
use crate::names;
use crate::names::NameMap;
use crate::text;
use crate::token;
use crate::token::IdentityToken;
use crate::wire;

verus! {

/// What is stored under a name: the keys in base64.
pub struct Record {
    pub pk: String,
    pub kem_pk: Option<String>,
}

/// The model of a [`Record`].
pub struct RecordView {
    pub pk: Seq<char>,
    pub kem_pk: Option<Seq<char>>,
}

impl View for Record {
    type V = RecordView;

    open spec fn view(&self) -> RecordView {
        RecordView { pk: self.pk@, kem_pk: text::opt_text(self.kem_pk) }
    }
}

/// A trusted agent entry (decoded).
#[derive(Debug, PartialEq, Eq)]
pub struct KnownAgent {
    pub name: String,
    pub public_key: Vec<u8>,
    /// ML-KEM-768 encapsulation key, where known.
    pub kem_public_key: Option<Vec<u8>>,
}

/// The model of a [`KnownAgent`].
pub struct KnownAgentView {
    pub name: Seq<char>,
    pub public_key: Seq<u8>,
    pub kem_public_key: Option<Seq<u8>>,
}

impl View for KnownAgent {
    type V = KnownAgentView;

    open spec fn view(&self) -> KnownAgentView {
        KnownAgentView {
            name: self.name@,
            public_key: self.public_key@,
            kem_public_key: token::opt_bytes(self.kem_public_key),
        }
    }
}

impl KnownAgent {
    /// Short public-key fingerprint.
    pub fn fingerprint(&self) -> (r: String)
        ensures
            r@ == wire::fingerprint_of(self@.public_key),
    {
        wire::fingerprint(self.public_key.as_slice())
    }
}

/// The model of a [`TrustStore`]: the records of agents and of authorities, each
/// by name.
pub struct TrustView {
    pub agents: Map<Seq<char>, RecordView>,
    pub authorities: Map<Seq<char>, RecordView>,
}

/// The known agents and authorities.
pub struct TrustStore {
    agents: NameMap<Record>,
    authorities: NameMap<Record>,
}

/// The models of the values of a map.
spec fn record_views(m: Map<Seq<char>, Record>) -> Map<Seq<char>, RecordView> {
    Map::new(|k: Seq<char>| m.contains_key(k), |k: Seq<char>| m[k]@)
}

impl View for TrustStore {
    type V = TrustView;

    closed spec fn view(&self) -> TrustView {
        TrustView {
            agents: record_views(self.agents@),
            authorities: record_views(self.authorities@),
        }
    }
}

/// The signing key of a known agent.
pub open spec fn trusted_key(t: TrustView, name: Seq<char>) -> Option<Seq<u8>> {
    if t.agents.contains_key(name) {
        wire::unbase64(t.agents[name].pk)
    } else {
        None
    }
}

/// Every stored key can be read. This holds of an empty store, and adding and
/// removing keep it; a record that was stored elsewhere may break it.
pub open spec fn every_key_decodes(t: TrustView) -> bool {
    &&& forall|name: Seq<char>| #[trigger]
        t.agents.contains_key(name) ==> wire::unbase64(t.agents[name].pk) is Some
    &&& forall|name: Seq<char>| #[trigger]
        t.authorities.contains_key(name) ==> wire::unbase64(t.authorities[name].pk) is Some
}

/// The KEM key of a record.
pub open spec fn record_kem_key(r: RecordView) -> Option<Seq<u8>> {
    match r.kem_pk {
        Some(k) => wire::unbase64(k),
        None => None,
    }
}

/// The KEM key of a known agent.
pub open spec fn trusted_kem_key(t: TrustView, name: Seq<char>) -> Option<Seq<u8>> {
    if t.agents.contains_key(name) {
        record_kem_key(t.agents[name])
    } else {
        None
    }
}

/// The key of a known authority.
pub open spec fn authority_key(t: TrustView, name: Seq<char>) -> Option<Seq<u8>> {
    if t.authorities.contains_key(name) {
        wire::unbase64(t.authorities[name].pk)
    } else {
        None
    }
}

/// The record of two keys.
pub open spec fn record_of(public_key: Seq<u8>, kem_public_key: Option<Seq<u8>>) -> RecordView {
    RecordView { pk: wire::base64url(public_key), kem_pk: token::opt_base64(kem_public_key) }
}

/// The records under the given names, decoded, those with an unusable key left
/// out.
pub open spec fn decoded(
    names: Seq<Seq<char>>,
    m: Map<Seq<char>, RecordView>,
    with_kem: bool,
) -> Seq<KnownAgentView>
    decreases names.len(),
{
    if names.len() == 0 {
        Seq::empty()
    } else {
        let name = names.last();
        let before = decoded(names.drop_last(), m, with_kem);
        match wire::unbase64(m[name].pk) {
            None => before,
            Some(public_key) => before.push(
                KnownAgentView {
                    name,
                    public_key,
                    kem_public_key: if with_kem {
                        record_kem_key(m[name])
                    } else {
                        None
                    },
                },
            ),
        }
    }
}

/// `list` holds the decoded records of `m` in the order of their names.
pub open spec fn is_listing(
    list: Seq<KnownAgentView>,
    m: Map<Seq<char>, RecordView>,
    with_kem: bool,
) -> bool {
    exists|names: Seq<Seq<char>>|
        names::lists(names, m) && list == #[trigger] decoded(names, m, with_kem)
}

/// The models of a list of agents.
pub open spec fn agent_views(v: Seq<KnownAgent>) -> Seq<KnownAgentView> {
    Seq::new(v.len(), |i: int| v[i]@)
}

/// A record as it is saved.
pub struct StoredRecord {
    pub name: String,
    pub pk: String,
    pub kem_pk: Option<String>,
}

/// `list` holds every record of `m`, once and in the order of the names.
pub open spec fn are_records(list: Seq<StoredRecord>, m: Map<Seq<char>, RecordView>) -> bool {
    &&& names::lists(Seq::new(list.len(), |i: int| list[i].name@), m)
    &&& forall|i: int|
        0 <= i < list.len() ==> m[(#[trigger] list[i]).name@] == (RecordView {
            pk: list[i].pk@,
            kem_pk: text::opt_text(list[i].kem_pk),
        })
}

/// The model of optional borrowed bytes.
pub open spec fn opt_slice(o: Option<&[u8]>) -> Option<Seq<u8>> {
    match o {
        Some(b) => Some(b@),
        None => None,
    }
}

fn put(rows: &mut NameMap<Record>, name: String, r: Record)
    requires
        old(rows).wf(),
    ensures
        final(rows).wf(),
        record_views(final(rows)@) == record_views(old(rows)@).insert(name@, r@),
{
    let ghost before = rows@;
    let ghost k = name@;
    rows.put(name, r);
    assert(record_views(rows@) =~= record_views(before).insert(k, r@));
}

fn take(rows: &mut NameMap<Record>, name: &str) -> (r: bool)
    requires
        old(rows).wf(),
    ensures
        final(rows).wf(),
        r == record_views(old(rows)@).contains_key(name@),
        record_views(final(rows)@) == record_views(old(rows)@).remove(name@),
{
    let ghost before = rows@;
    let r: bool = rows.remove(name);
    assert(record_views(rows@) =~= record_views(before).remove(name@));
    r
}

proof fn lemma_lists(names: Seq<Seq<char>>, m: Map<Seq<char>, Record>)
    requires
        names::lists(names, m),
    ensures
        names::lists(names, record_views(m)),
{
    let v = record_views(m);
    assert forall|i: int| 0 <= i < names.len() implies v.contains_key(#[trigger] names[i]) by {
        assert(m.contains_key(names[i]));
    }
    assert forall|k: Seq<char>| #[trigger] v.contains_key(k) implies names.contains(k) by {
        assert(m.contains_key(k));
    }
}

fn listing(rows: &NameMap<Record>, with_kem: bool) -> (r: Vec<KnownAgent>)
    requires
        rows.wf(),
    ensures
        is_listing(agent_views(r@), record_views(rows@), with_kem),
{
    let mut out: Vec<KnownAgent> = Vec::new();
    let mut i: usize = 0;
    let ghost m = record_views(rows@);
    let ghost names = rows.names();
    proof {
        rows.lemma_names();
        lemma_lists(names, rows@);
        assert(agent_views(out@) =~= decoded(names.take(0), m, with_kem));
    }
    while i < rows.len()
        invariant
            i <= names.len(),
            names == rows.names(),
            rows.wf(),
            m == record_views(rows@),
            agent_views(out@) == decoded(names.take(i as int), m, with_kem),
        decreases names.len() - i,
    {
        let (name, rec) = rows.at(i);
        let ghost before = agent_views(out@);
        proof {
            assert(names.take(i + 1).drop_last() =~= names.take(i as int));
        }
        if let Ok(public_key) = wire::unb64(rec.pk.as_str()) {
            let kem_public_key: Option<Vec<u8>> = if with_kem {
                kem_key(rec)
            } else {
                None
            };
            out.push(KnownAgent { name: text::own(name), public_key, kem_public_key });
            assert(agent_views(out@) =~= before.push(out@.last()@));
        }
        i = i + 1;
    }
    assert(names.take(i as int) =~= names);
    out
}

fn kem_key(r: &Record) -> (k: Option<Vec<u8>>)
    ensures
        token::opt_bytes(k) == record_kem_key(r@),
{
    match &r.kem_pk {
        Some(k) => match wire::unb64(k.as_str()) {
            Ok(b) => Some(b),
            Err(_) => None,
        },
        None => None,
    }
}

fn records(rows: &NameMap<Record>) -> (r: Vec<StoredRecord>)
    requires
        rows.wf(),
    ensures
        are_records(r@, record_views(rows@)),
{
    let mut out: Vec<StoredRecord> = Vec::new();
    let mut i: usize = 0;
    let ghost m = record_views(rows@);
    let ghost names = rows.names();
    while i < rows.len()
        invariant
            i <= names.len(),
            names == rows.names(),
            rows.wf(),
            m == record_views(rows@),
            out@.len() == i,
            forall|a: int|
                0 <= a < i ==> (#[trigger] out@[a]).name@ == names[a] && m[names[a]] == (
                RecordView { pk: out@[a].pk@, kem_pk: text::opt_text(out@[a].kem_pk) }),
        decreases names.len() - i,
    {
        let (name, rec) = rows.at(i);
        out.push(
            StoredRecord {
                name: text::own(name),
                pk: rec.pk.clone(),
                kem_pk: text::copy_opt(&rec.kem_pk),
            },
        );
        i = i + 1;
    }
    proof {
        rows.lemma_names();
        lemma_lists(names, rows@);
        assert(Seq::new(out@.len(), |a: int| out@[a].name@) =~= names);
    }
    out
}

impl Default for TrustStore {
    fn default() -> (t: TrustStore)
        ensures
            t.wf(),
            t@.agents == Map::<Seq<char>, RecordView>::empty(),
            t@.authorities == Map::<Seq<char>, RecordView>::empty(),
            every_key_decodes(t@),
    {
        let t = TrustStore { agents: NameMap::new(), authorities: NameMap::new() };
        assert(record_views(t.agents@) =~= Map::empty());
        assert(record_views(t.authorities@) =~= Map::empty());
        t
    }
}

impl TrustStore {
    /// No name stands twice among the agents, nor among the authorities.
    pub closed spec fn wf(&self) -> bool {
        self.agents.wf() && self.authorities.wf()
    }

    /// Put a stored agent record in place.
    pub fn put_agent_record(&mut self, name: &str, pk: &str, kem_pk: Option<&str>)
        requires
            old(self).wf(),
        ensures
            final(self).wf(),
            final(self)@.agents == old(self)@.agents.insert(
                name@,
                (RecordView { pk: pk@, kem_pk: text::opt_str(kem_pk) }),
            ),
            final(self)@.authorities == old(self)@.authorities,
    {
        let r = Record { pk: text::own(pk), kem_pk: text::own_opt(kem_pk) };
        put(&mut self.agents, text::own(name), r);
    }

    /// Put a stored authority record in place.
    pub fn put_authority_record(&mut self, name: &str, pk: &str, kem_pk: Option<&str>)
        requires
            old(self).wf(),
        ensures
            final(self).wf(),
            final(self)@.agents == old(self)@.agents,
            final(self)@.authorities == old(self)@.authorities.insert(
                name@,
                (RecordView { pk: pk@, kem_pk: text::opt_str(kem_pk) }),
            ),
    {
        let r = Record { pk: text::own(pk), kem_pk: text::own_opt(kem_pk) };
        put(&mut self.authorities, text::own(name), r);
    }

    /// Add or replace a known agent from a parsed identity token, with its KEM
    /// key where there is one.
    pub fn add_from_token(&mut self, token: &IdentityToken)
        requires
            old(self).wf(),
        ensures
            final(self).wf(),
            final(self)@.agents == old(self)@.agents.insert(
                token@.name,
                record_of(token@.public_key, token@.kem_public_key),
            ),
            final(self)@.authorities == old(self)@.authorities,
            trusted_key(final(self)@, token@.name) == Some(token@.public_key),
            trusted_kem_key(final(self)@, token@.name) == token@.kem_public_key,
            every_key_decodes(old(self)@) ==> every_key_decodes(final(self)@),
    {
        let kem_pk: Option<&[u8]> = match &token.kem_public_key {
            Some(k) => Some(k.as_slice()),
            None => None,
        };
        self.add_with_kem(token.name.as_str(), token.public_key.as_slice(), kem_pk);
    }

    /// Add or replace by explicit name and key.
    pub fn add(&mut self, name: &str, public_key: &[u8])
        requires
            old(self).wf(),
        ensures
            final(self).wf(),
            final(self)@.agents == old(self)@.agents.insert(name@, record_of(public_key@, None)),
            final(self)@.authorities == old(self)@.authorities,
            trusted_key(final(self)@, name@) == Some(public_key@),
            trusted_kem_key(final(self)@, name@) is None,
            every_key_decodes(old(self)@) ==> every_key_decodes(final(self)@),
    {
        self.add_with_kem(name, public_key, None);
    }

    /// Add or replace by explicit name, signing key and optional KEM key.
    pub fn add_with_kem(&mut self, name: &str, public_key: &[u8], kem_public_key: Option<&[u8]>)
        requires
            old(self).wf(),
        ensures
            final(self).wf(),
            final(self)@.agents == old(self)@.agents.insert(
                name@,
                record_of(public_key@, opt_slice(kem_public_key)),
            ),
            final(self)@.authorities == old(self)@.authorities,
            trusted_key(final(self)@, name@) == Some(public_key@),
            trusted_kem_key(final(self)@, name@) == opt_slice(kem_public_key),
            every_key_decodes(old(self)@) ==> every_key_decodes(final(self)@),
    {
        let pk: String = wire::b64(public_key);
        let kem_pk: Option<String> = match kem_public_key {
            Some(k) => Some(wire::b64(k)),
            None => None,
        };
        put(&mut self.agents, text::own(name), Record { pk, kem_pk });
    }

    /// Remove a known agent; true if it existed.
    pub fn remove(&mut self, name: &str) -> (r: bool)
        requires
            old(self).wf(),
        ensures
            final(self).wf(),
            r == old(self)@.agents.contains_key(name@),
            final(self)@.agents == old(self)@.agents.remove(name@),
            final(self)@.authorities == old(self)@.authorities,
            every_key_decodes(old(self)@) ==> every_key_decodes(final(self)@),
    {
        take(&mut self.agents, name)
    }

    /// Look up a trusted agent's public key by name.
    pub fn public_key(&self, name: &str) -> (r: Result<Vec<u8>, Error>)
        requires
            self.wf(),
        ensures
            match r {
                Ok(k) => trusted_key(self@, name@) == Some(k@),
                Err(e) => trusted_key(self@, name@) is None && e@ == (if self@.agents.contains_key(
                    name@,
                ) {
                    ErrorView::Store("corrupt trust key"@)
                } else {
                    ErrorView::UnknownAgent(name@)
                }),
            },
    {
        match self.agents.get(name) {
            Some(rec) => match wire::unb64(rec.pk.as_str()) {
                Ok(k) => Ok(k),
                Err(_) => Err(Error::Store(text::own("corrupt trust key"))),
            },
            None => Err(Error::UnknownAgent(text::own(name))),
        }
    }

    /// The currently stored signing key for `name`, if any.
    pub fn current_key(&self, name: &str) -> (r: Option<Vec<u8>>)
        requires
            self.wf(),
        ensures
            token::opt_bytes(r) == trusted_key(self@, name@),
    {
        match self.public_key(name) {
            Ok(k) => Some(k),
            Err(_) => None,
        }
    }

    /// The stored KEM encapsulation key for `name`, if known.
    pub fn kem_public_key(&self, name: &str) -> (r: Option<Vec<u8>>)
        requires
            self.wf(),
        ensures
            token::opt_bytes(r) == trusted_kem_key(self@, name@),
    {
        match self.agents.get(name) {
            Some(rec) => kem_key(rec),
            None => None,
        }
    }

    /// True if the named agent is trusted.
    pub fn contains(&self, name: &str) -> (r: bool)
        requires
            self.wf(),
        ensures
            r == self@.agents.contains_key(name@),
    {
        self.agents.get(name).is_some()
    }

    /// List trusted agents in the order of their names.
    pub fn list(&self) -> (r: Vec<KnownAgent>)
        requires
            self.wf(),
        ensures
            is_listing(agent_views(r@), self@.agents, true),
    {
        listing(&self.agents, true)
    }

    /// Add or replace a trusted human authority from its token.
    pub fn add_authority_from_token(&mut self, token: &AuthorityToken)
        requires
            old(self).wf(),
        ensures
            final(self).wf(),
            final(self)@.agents == old(self)@.agents,
            final(self)@.authorities == old(self)@.authorities.insert(
                token@.name,
                record_of(token@.public_key, None),
            ),
            authority_key(final(self)@, token@.name) == Some(token@.public_key),
            every_key_decodes(old(self)@) ==> every_key_decodes(final(self)@),
    {
        let pk: String = wire::b64(token.public_key.as_slice());
        put(&mut self.authorities, token.name.clone(), Record { pk, kem_pk: None });
    }

    /// Look up a trusted authority's public key by name.
    pub fn authority_public_key(&self, name: &str) -> (r: Result<Vec<u8>, Error>)
        requires
            self.wf(),
        ensures
            match r {
                Ok(k) => authority_key(self@, name@) == Some(k@),
                Err(e) => authority_key(self@, name@) is None && e@ == (
                if self@.authorities.contains_key(name@) {
                    ErrorView::Store("corrupt authority key"@)
                } else {
                    ErrorView::UnknownAgent(name@)
                }),
            },
    {
        match self.authorities.get(name) {
            Some(rec) => match wire::unb64(rec.pk.as_str()) {
                Ok(k) => Ok(k),
                Err(_) => Err(Error::Store(text::own("corrupt authority key"))),
            },
            None => Err(Error::UnknownAgent(text::own(name))),
        }
    }

    /// Remove a trusted authority; true if it existed.
    pub fn remove_authority(&mut self, name: &str) -> (r: bool)
        requires
            old(self).wf(),
        ensures
            final(self).wf(),
            r == old(self)@.authorities.contains_key(name@),
            final(self)@.agents == old(self)@.agents,
            final(self)@.authorities == old(self)@.authorities.remove(name@),
            every_key_decodes(old(self)@) ==> every_key_decodes(final(self)@),
    {
        take(&mut self.authorities, name)
    }

    /// List trusted authorities in the order of their names.
    pub fn list_authorities(&self) -> (r: Vec<KnownAgent>)
        requires
            self.wf(),
        ensures
            is_listing(agent_views(r@), self@.authorities, false),
    {
        listing(&self.authorities, false)
    }

    /// The stored agent records in the order of their names, for saving.
    pub fn agent_records(&self) -> (r: Vec<StoredRecord>)
        requires
            self.wf(),
        ensures
            are_records(r@, self@.agents),
    {
        records(&self.agents)
    }

    /// The stored authority records in the order of their names, for saving.
    pub fn authority_records(&self) -> (r: Vec<StoredRecord>)
        requires
            self.wf(),
        ensures
            are_records(r@, self@.authorities),
    {
        records(&self.authorities)
    }
}

/// A later record under a name replaces the earlier one, and no other name is
/// touched by it.
pub proof fn a_later_record_replaces_an_earlier_one(
    m: Map<Seq<char>, RecordView>,
    name: Seq<char>,
    earlier: RecordView,
    later: RecordView,
    other: Seq<char>,
)
    ensures
        m.insert(name, earlier).insert(name, later) == m.insert(name, later),
        other != name ==> m.insert(name, later).contains_key(other) == m.contains_key(other),
        other != name && m.contains_key(other) ==> m.insert(name, later)[other] == m[other],
{
    assert(m.insert(name, earlier).insert(name, later) =~= m.insert(name, later));
}

/// Where every stored key can be read, exactly the known names have a key.
pub proof fn every_known_name_has_a_key(t: TrustView, name: Seq<char>)
    requires
        every_key_decodes(t),
    ensures
        trusted_key(t, name) is Some <==> t.agents.contains_key(name),
        authority_key(t, name) is Some <==> t.authorities.contains_key(name),
{
}

/// A listing holds every known name whose key can be read, once and in the order
/// of the names, with the keys that are known for it.
pub proof fn a_listing_shows_every_readable_key(
    list: Seq<KnownAgentView>,
    m: Map<Seq<char>, RecordView>,
    with_kem: bool,
    name: Seq<char>,
)
    requires
        is_listing(list, m, with_kem),
    ensures
        m.contains_key(name) && wire::unbase64(m[name].pk) is Some ==> exists|i: int|
            0 <= i < list.len() && (#[trigger] list[i]).name == name,
        forall|i: int|
            0 <= i < list.len() ==> m.contains_key((#[trigger] list[i]).name) && wire::unbase64(
                m[list[i].name].pk,
            ) == Some(list[i].public_key) && (!with_kem ==> list[i].kem_public_key is None) && (
            with_kem ==> list[i].kem_public_key == (match m[list[i].name].kem_pk {
                Some(k) => wire::unbase64(k),
                None => None,
            })),
        forall|i: int, j: int|
            0 <= i < j < list.len() ==> text::text_lt(
                (#[trigger] list[i]).name,
                (#[trigger] list[j]).name,
            ),
{
    let ns = choose|ns: Seq<Seq<char>>|
        names::lists(ns, m) && list == #[trigger] decoded(ns, m, with_kem);
    lemma_decoded(ns, m, with_kem);
    if m.contains_key(name) && wire::unbase64(m[name].pk) is Some {
        assert(ns.contains(name));
        let k = choose|k: int| 0 <= k < ns.len() && ns[k] == name;
        assert(is_listed(list, ns[k]));
    }
}

spec fn is_listed(list: Seq<KnownAgentView>, name: Seq<char>) -> bool {
    exists|i: int| 0 <= i < list.len() && (#[trigger] list[i]).name == name
}

#[verifier::rlimit(40)]
proof fn lemma_decoded(ns: Seq<Seq<char>>, m: Map<Seq<char>, RecordView>, with_kem: bool)
    requires
        names::ascending(ns),
        forall|i: int| 0 <= i < ns.len() ==> m.contains_key(#[trigger] ns[i]),
    ensures
        ({
            let list = decoded(ns, m, with_kem);
            &&& forall|i: int|
                0 <= i < list.len() ==> ns.contains((#[trigger] list[i]).name) && m.contains_key(
                    list[i].name,
                ) && wire::unbase64(m[list[i].name].pk) == Some(list[i].public_key)
                    && list[i].kem_public_key == (if with_kem {
                    record_kem_key(m[list[i].name])
                } else {
                    None
                })
            &&& forall|k: int|
                0 <= k < ns.len() && wire::unbase64(m[#[trigger] ns[k]].pk) is Some ==> is_listed(
                    list,
                    ns[k],
                )
            &&& forall|i: int, j: int|
                0 <= i < j < list.len() ==> text::text_lt(
                    (#[trigger] list[i]).name,
                    (#[trigger] list[j]).name,
                )
        }),
    decreases ns.len(),
{
    let list = decoded(ns, m, with_kem);
    if ns.len() > 0 {
        let front = ns.drop_last();
        assert forall|i: int, j: int| 0 <= i < j < front.len() implies text::text_lt(
            #[trigger] front[i],
            #[trigger] front[j],
        ) by {
            assert(front[i] == ns[i] && front[j] == ns[j]);
        }
        assert forall|i: int| 0 <= i < front.len() implies m.contains_key(#[trigger] front[i]) by {
            assert(front[i] == ns[i]);
        }
        lemma_decoded(front, m, with_kem);
        let before = decoded(front, m, with_kem);
        assert(ns[ns.len() - 1] == ns.last());
        assert forall|i: int| 0 <= i < list.len() implies ns.contains((#[trigger] list[i]).name)
            && m.contains_key(list[i].name) && wire::unbase64(m[list[i].name].pk) == Some(
            list[i].public_key,
        ) && list[i].kem_public_key == (if with_kem {
            record_kem_key(m[list[i].name])
        } else {
            None
        }) by {
            if i < before.len() {
                assert(list[i] == before[i]);
                let k = choose|k: int| 0 <= k < front.len() && front[k] == before[i].name;
                assert(ns[k] == list[i].name);
            } else {
                assert(ns[ns.len() - 1] == list[i].name);
            }
        }
        assert forall|k: int|
            0 <= k < ns.len() && wire::unbase64(m[#[trigger] ns[k]].pk) is Some implies is_listed(
            list,
            ns[k],
        ) by {
            if k < front.len() {
                assert(front[k] == ns[k]);
                assert(is_listed(before, front[k]));
                let i = choose|i: int| 0 <= i < before.len() && (#[trigger] before[i]).name == ns[k];
                assert(list[i] == before[i]);
            } else {
                assert(list[list.len() - 1].name == ns[k]);
            }
        }
        assert forall|i: int, j: int| 0 <= i < j < list.len() implies text::text_lt(
            (#[trigger] list[i]).name,
            (#[trigger] list[j]).name,
        ) by {
            assert(list[i] == before[i]);
            if j < before.len() {
                assert(list[j] == before[j]);
            } else {
                let k = choose|k: int| 0 <= k < front.len() && front[k] == before[i].name;
                assert(front.contains(before[i].name));
                assert(ns[k] == list[i].name);
                assert(text::text_lt(ns[k], ns[ns.len() - 1]));
            }
        }
    }
}

/// What is known for a name is what stands under it: agents and authorities have
/// their own lists, and signing keys and encryption keys their own places.
pub proof fn a_record_is_known_by_its_name(t: TrustView, name: Seq<char>)
    ensures
        trusted_key(t, name) matches Some(k) ==> t.agents.contains_key(name) && wire::unbase64(
            t.agents[name].pk,
        ) == Some(k),
        trusted_kem_key(t, name) matches Some(k) ==> t.agents.contains_key(name) && (
        t.agents[name].kem_pk matches Some(x) && wire::unbase64(x) == Some(k)),
        authority_key(t, name) matches Some(k) ==> t.authorities.contains_key(name)
            && wire::unbase64(t.authorities[name].pk) == Some(k),
        t.agents.contains_key(name) ==> trusted_key(t, name) == wire::unbase64(t.agents[name].pk),
        t.authorities.contains_key(name) ==> authority_key(t, name) == wire::unbase64(
            t.authorities[name].pk,
        ),
        t.agents.contains_key(name) && t.agents[name].kem_pk is Some ==> trusted_kem_key(t, name)
            == wire::unbase64(t.agents[name].kem_pk->0),
{
}

/// The record of two keys holds each in base64 in its own place.
pub proof fn a_record_holds_both_keys(public_key: Seq<u8>, kem_public_key: Option<Seq<u8>>)
    ensures
        record_of(public_key, kem_public_key).pk == wire::base64url(public_key),
        kem_public_key is None ==> record_of(public_key, kem_public_key).kem_pk is None,
        kem_public_key matches Some(k) ==> record_of(public_key, kem_public_key).kem_pk == Some(
            wire::base64url(k),
        ),
{
}

} // verus!
