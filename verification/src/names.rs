//! A map from names to values that is walked in the order of the names.

use vstd::prelude::*;
use vstd::string::*;

use crate::text;

verus! {

/// A map from names to values.
pub struct NameMap<V> {
    rows: Vec<(String, V)>,
}

spec fn has_name<V>(rows: Seq<(String, V)>, k: Seq<char>) -> bool {
    exists|i: int| 0 <= i < rows.len() && #[trigger] rows[i].0@ == k
}

spec fn place_of<V>(rows: Seq<(String, V)>, k: Seq<char>) -> int {
    choose|i: int| 0 <= i < rows.len() && #[trigger] rows[i].0@ == k
}

spec fn table<V>(rows: Seq<(String, V)>) -> Map<Seq<char>, V> {
    Map::new(|k: Seq<char>| has_name(rows, k), |k: Seq<char>| rows[place_of(rows, k)].1)
}

spec fn in_order<V>(rows: Seq<(String, V)>) -> bool {
    forall|i: int, j: int|
        0 <= i < j < rows.len() ==> text::text_lt(#[trigger] rows[i].0@, #[trigger] rows[j].0@)
}

/// The names stand in their order, each once.
pub open spec fn ascending(names: Seq<Seq<char>>) -> bool {
    forall|i: int, j: int|
        0 <= i < j < names.len() ==> text::text_lt(#[trigger] names[i], #[trigger] names[j])
}

/// `names` holds the names of `m` in their order, each once.
pub open spec fn lists<V>(names: Seq<Seq<char>>, m: Map<Seq<char>, V>) -> bool {
    &&& ascending(names)
    &&& forall|i: int| 0 <= i < names.len() ==> m.contains_key(#[trigger] names[i])
    &&& forall|k: Seq<char>| #[trigger] m.contains_key(k) ==> names.contains(k)
}

proof fn lemma_place<V>(rows: Seq<(String, V)>, i: int)
    requires
        in_order(rows),
        0 <= i < rows.len(),
    ensures
        has_name(rows, rows[i].0@),
        place_of(rows, rows[i].0@) == i,
        table(rows).contains_key(rows[i].0@),
        table(rows)[rows[i].0@] == rows[i].1,
{
    let k = rows[i].0@;
    let p = place_of(rows, k);
    text::lemma_text_lt_irreflexive(k);
    assert(rows[p].0@ == k);
    if p < i {
        assert(text::text_lt(rows[p].0@, rows[i].0@));
    } else if i < p {
        assert(text::text_lt(rows[i].0@, rows[p].0@));
    }
}

impl<V> View for NameMap<V> {
    type V = Map<Seq<char>, V>;

    closed spec fn view(&self) -> Map<Seq<char>, V> {
        table(self.rows@)
    }
}

impl<V> NameMap<V> {
    /// The names stand in their order, each once.
    pub closed spec fn wf(&self) -> bool {
        in_order(self.rows@)
    }

    /// The names in their order.
    pub closed spec fn names(&self) -> Seq<Seq<char>> {
        Seq::new(self.rows@.len(), |i: int| self.rows@[i].0@)
    }

    /// A map without names.
    pub fn new() -> (r: NameMap<V>)
        ensures
            r.wf(),
            r@ == Map::<Seq<char>, V>::empty(),
    {
        let r = NameMap { rows: Vec::new() };
        assert(table(r.rows@) =~= Map::<Seq<char>, V>::empty());
        r
    }

    /// The names of a map are listed by [`NameMap::names`].
    pub proof fn lemma_names(&self)
        requires
            self.wf(),
        ensures
            lists(self.names(), self@),
    {
        let names = self.names();
        assert forall|i: int| 0 <= i < names.len() implies self@.contains_key(
            #[trigger] names[i],
        ) by {
            lemma_place(self.rows@, i);
        }
        assert forall|k: Seq<char>| #[trigger] self@.contains_key(k) implies names.contains(k) by {
            let p = place_of(self.rows@, k);
            assert(names[p] == k);
        }
    }

    /// Where the name stands, or where it would be inserted.
    fn find(&self, name: &str) -> (r: Result<usize, usize>)
        requires
            self.wf(),
        ensures
            match r {
                Ok(i) => i < self.rows.len() && self.rows@[i as int].0@ == name@,
                Err(i) => {
                    &&& i <= self.rows.len()
                    &&& !has_name(self.rows@, name@)
                    &&& forall|j: int|
                        0 <= j < i ==> text::text_lt(#[trigger] self.rows@[j].0@, name@)
                    &&& forall|j: int|
                        i <= j < self.rows.len() ==> text::text_lt(
                            name@,
                            #[trigger] self.rows@[j].0@,
                        )
                },
            },
    {
        let mut i: usize = 0;
        while i < self.rows.len()
            invariant
                i <= self.rows.len(),
                in_order(self.rows@),
                forall|j: int| 0 <= j < i ==> text::text_lt(#[trigger] self.rows@[j].0@, name@),
            decreases self.rows.len() - i,
        {
            if text::str_eq(self.rows[i].0.as_str(), name) {
                return Ok(i);
            }
            if !text::text_less(self.rows[i].0.as_str(), name) {
                proof {
                    let rows = self.rows@;
                    text::lemma_text_lt_total(rows[i as int].0@, name@);
                    assert forall|j: int| i <= j < rows.len() implies text::text_lt(
                        name@,
                        #[trigger] rows[j].0@,
                    ) by {
                        if j > i {
                            text::lemma_text_lt_transitive(name@, rows[i as int].0@, rows[j].0@);
                        }
                    }
                    text::lemma_text_lt_irreflexive(name@);
                }
                return Err(i);
            }
            i = i + 1;
        }
        proof {
            text::lemma_text_lt_irreflexive(name@);
        }
        Err(i)
    }

    /// Put a value under a name, in place of the one that may stand there.
    pub fn put(&mut self, name: String, value: V)
        requires
            old(self).wf(),
        ensures
            final(self).wf(),
            final(self)@ == old(self)@.insert(name@, value),
    {
        let ghost before = self.rows@;
        let ghost k = name@;
        match self.find(name.as_str()) {
            Ok(i) => {
                self.rows.set(i, (name, value));
                proof {
                    let after = self.rows@;
                    assert forall|a: int, b: int| 0 <= a < b < after.len() implies text::text_lt(
                        #[trigger] after[a].0@,
                        #[trigger] after[b].0@,
                    ) by {
                        assert(text::text_lt(before[a].0@, before[b].0@));
                    }
                    assert forall|n: Seq<char>| has_name(before, n) == has_name(after, n) by {
                        if has_name(before, n) {
                            let p = place_of(before, n);
                            assert(after[p].0@ == n);
                        }
                        if has_name(after, n) {
                            let p = place_of(after, n);
                            assert(before[p].0@ == n);
                        }
                    }
                    lemma_place(after, i as int);
                    assert forall|n: Seq<char>|
                        has_name(before, n) && n != k implies #[trigger] table(after)[n] == table(
                        before,
                    )[n] by {
                        let p = place_of(before, n);
                        lemma_place(before, p);
                        lemma_place(after, p);
                    }
                    assert(table(after) =~= table(before).insert(k, value));
                }
            },
            Err(i) => {
                self.rows.insert(i, (name, value));
                proof {
                    let after = self.rows@;
                    assert forall|a: int, b: int| 0 <= a < b < after.len() implies text::text_lt(
                        #[trigger] after[a].0@,
                        #[trigger] after[b].0@,
                    ) by {
                        let pa = if a < i { a } else { a - 1 };
                        let pb = if b < i { b } else { b - 1 };
                        if a != i && b != i {
                            assert(after[a] == before[pa] && after[b] == before[pb]);
                            assert(text::text_lt(before[pa].0@, before[pb].0@));
                        } else if a == i {
                            assert(after[b] == before[pb]);
                        } else {
                            assert(after[a] == before[pa]);
                        }
                    }
                    lemma_place(after, i as int);
                    assert forall|n: Seq<char>| n != k implies #[trigger] has_name(before, n)
                        == has_name(after, n) by {
                        if has_name(before, n) {
                            let p = place_of(before, n);
                            let q = if p < i { p } else { p + 1 };
                            assert(after[q].0@ == n);
                        }
                        if has_name(after, n) {
                            let p = place_of(after, n);
                            let q = if p < i { p } else { p - 1 };
                            assert(before[q].0@ == n);
                        }
                    }
                    assert forall|n: Seq<char>|
                        has_name(before, n) && n != k implies #[trigger] table(after)[n] == table(
                        before,
                    )[n] by {
                        let p = place_of(before, n);
                        let q = if p < i { p } else { p + 1 };
                        lemma_place(before, p);
                        assert(after[q] == before[p]);
                        lemma_place(after, q);
                    }
                    assert(table(after) =~= table(before).insert(k, value));
                }
            },
        }
    }

    /// Remove a name; whether it was there.
    pub fn remove(&mut self, name: &str) -> (r: bool)
        requires
            old(self).wf(),
        ensures
            final(self).wf(),
            r == old(self)@.contains_key(name@),
            final(self)@ == old(self)@.remove(name@),
    {
        let ghost before = self.rows@;
        match self.find(name) {
            Ok(i) => {
                self.rows.remove(i);
                proof {
                    let after = self.rows@;
                    let k = name@;
                    lemma_place(before, i as int);
                    assert forall|a: int, b: int| 0 <= a < b < after.len() implies text::text_lt(
                        #[trigger] after[a].0@,
                        #[trigger] after[b].0@,
                    ) by {
                        let pa = if a < i { a } else { a + 1 };
                        let pb = if b < i { b } else { b + 1 };
                        assert(after[a] == before[pa] && after[b] == before[pb]);
                        assert(text::text_lt(before[pa].0@, before[pb].0@));
                    }
                    assert forall|n: Seq<char>| #[trigger]
                        has_name(after, n) == (has_name(before, n) && n != k) by {
                        if has_name(before, n) && n != k {
                            let p = place_of(before, n);
                            let q = if p < i { p } else { p - 1 };
                            assert(after[q].0@ == n);
                        }
                        if has_name(after, n) {
                            let p = place_of(after, n);
                            let q = if p < i { p } else { p + 1 };
                            assert(before[q].0@ == n);
                            if n == k {
                                lemma_place(before, q);
                            }
                        }
                    }
                    assert forall|n: Seq<char>| has_name(after, n) implies #[trigger] table(
                        after,
                    )[n] == table(before)[n] by {
                        let p = place_of(after, n);
                        let q = if p < i { p } else { p + 1 };
                        lemma_place(after, p);
                        assert(after[p] == before[q]);
                        lemma_place(before, q);
                    }
                    assert(table(after) =~= table(before).remove(k));
                }
                true
            },
            Err(_) => {
                assert(table(before).remove(name@) =~= table(before));
                false
            },
        }
    }

    /// The value under a name.
    pub fn get(&self, name: &str) -> (r: Option<&V>)
        requires
            self.wf(),
        ensures
            match r {
                Some(v) => self@.contains_key(name@) && self@[name@] == *v,
                None => !self@.contains_key(name@),
            },
    {
        match self.find(name) {
            Ok(i) => {
                proof {
                    lemma_place(self.rows@, i as int);
                }
                Some(&self.rows[i].1)
            },
            Err(_) => None,
        }
    }

    /// The number of names.
    pub fn len(&self) -> (n: usize)
        ensures
            n == self.names().len(),
    {
        self.rows.len()
    }

    /// The name at a position in the order of the names, and its value.
    pub fn at(&self, i: usize) -> (r: (&str, &V))
        requires
            self.wf(),
            i < self.names().len(),
        ensures
            r.0@ == self.names()[i as int],
            self@.contains_key(r.0@),
            *r.1 == self@[r.0@],
    {
        proof {
            lemma_place(self.rows@, i as int);
        }
        (self.rows[i].0.as_str(), &self.rows[i].1)
    }
}

} // verus!
