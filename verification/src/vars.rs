//! A small string-to-string map that keeps its entries in insertion order.
use vstd::prelude::*;
use crate::text::str_eq;

verus! {

/// The map that a list of distinct-keyed entries stands for.
pub open spec fn entries_map(e: Seq<(String, String)>) -> Map<Seq<char>, Seq<char>>
    decreases e.len(),
{
    if e.len() == 0 {
        Map::empty()
    } else {
        entries_map(e.drop_last()).insert(e.last().0@, e.last().1@)
    }
}

/// No key occurs twice.
pub open spec fn distinct_keys(e: Seq<(String, String)>) -> bool {
    forall|i: int, j: int| 0 <= i < j < e.len() ==> e[i].0@ != e[j].0@
}

pub proof fn lemma_entries_map(e: Seq<(String, String)>)
    requires
        distinct_keys(e),
    ensures
        forall|k: Seq<char>| #[trigger] entries_map(e).contains_key(k) <==> exists|i: int|
            0 <= i < e.len() && e[i].0@ == k,
        forall|i: int| 0 <= i < e.len() ==> #[trigger] entries_map(e)[e[i].0@] == e[i].1@,
    decreases e.len(),
{
    if e.len() > 0 {
        let d = e.drop_last();
        lemma_entries_map(d);
        assert forall|k: Seq<char>| #[trigger] entries_map(e).contains_key(k) <==> exists|i: int|
            0 <= i < e.len() && e[i].0@ == k by {
            if entries_map(e).contains_key(k) {
                if k == e.last().0@ {
                    assert(e[e.len() - 1].0@ == k);
                } else {
                    assert(entries_map(d).contains_key(k));
                    let i = choose|i: int| 0 <= i < d.len() && d[i].0@ == k;
                    assert(d[i] == e[i]);
                    assert(e[i].0@ == k);
                }
            }
            if exists|i: int| 0 <= i < e.len() && e[i].0@ == k {
                let i = choose|i: int| 0 <= i < e.len() && e[i].0@ == k;
                if i < d.len() {
                    assert(d[i] == e[i]);
                    assert(d[i].0@ == k);
                    assert(entries_map(d).contains_key(k));
                }
            }
        }
        assert forall|i: int| 0 <= i < e.len() implies #[trigger] entries_map(e)[e[i].0@]
            == e[i].1@ by {
            if i < d.len() {
                assert(d[i] == e[i]);
                assert(e[i].0@ != e.last().0@);
                assert(entries_map(d)[d[i].0@] == d[i].1@);
            } else {
                assert(e[i] == e.last());
            }
        }
    }
}

/// A map from names to values whose entries stay in the order they were first inserted.
#[derive(Debug)]
pub struct VarMap {
    entries: Vec<(String, String)>,
}

impl VarMap {
    #[verifier::type_invariant]
    spec fn inv(self) -> bool {
        distinct_keys(self.entries@)
    }

    /// The entries, in insertion order.
    pub closed spec fn pairs(self) -> Seq<(String, String)> {
        self.entries@
    }

    pub closed spec fn view(self) -> Map<Seq<char>, Seq<char>> {
        entries_map(self.entries@)
    }

    /// The empty map.
    pub fn new() -> (m: VarMap)
        ensures
            m.view() == Map::<Seq<char>, Seq<char>>::empty(),
            m.pairs().len() == 0,
    {
        VarMap { entries: Vec::new() }
    }

    fn position(&self, key: &str) -> (r: Option<usize>)
        ensures
            r matches Some(i) ==> i < self.entries@.len() && self.entries@[i as int].0@ == key@,
            r is None ==> forall|i: int| 0 <= i < self.entries@.len() ==> self.entries@[i].0@ != key@,
    {
        let mut i: usize = 0;
        while i < self.entries.len()
            invariant
                i <= self.entries@.len(),
                forall|j: int| 0 <= j < i ==> self.entries@[j].0@ != key@,
            decreases self.entries@.len() - i,
        {
            if str_eq(self.entries[i].0.as_str(), key) {
                return Some(i);
            }
            i += 1;
        }
        None
    }

    /// The value bound to `key`, if any.
    pub fn get(&self, key: &str) -> (r: Option<&String>)
        ensures
            r matches Some(v) ==> self.view().contains_key(key@) && self.view()[key@] == v@,
            r is None ==> !self.view().contains_key(key@),
    {
        proof {
            use_type_invariant(self);
            lemma_entries_map(self.entries@);
        }
        match self.position(key) {
            Some(i) => Some(&self.entries[i].1),
            None => None,
        }
    }

    /// Whether `key` is bound.
    pub fn contains(&self, key: &str) -> (r: bool)
        ensures
            r == self.view().contains_key(key@),
    {
        self.get(key).is_some()
    }

    /// Binds `key` to `value`; an existing binding keeps its place, a new one goes last.
    pub fn insert(&mut self, key: String, value: String)
        ensures
            final(self).view() == old(self).view().insert(key@, value@),
            old(self).view().contains_key(key@) ==> exists|i: int|
                #![trigger old(self).pairs()[i]]
                0 <= i < old(self).pairs().len() && old(self).pairs()[i].0@ == key@ && final(self).pairs() == old(
                    self,
                ).pairs().update(i, (key, value)),
            !old(self).view().contains_key(key@) ==> final(self).pairs() == old(self).pairs().push((key, value)),
    {
        proof {
            use_type_invariant(&*self);
            lemma_entries_map(self.entries@);
        }
        let ghost before = self.entries@;
        let ghost kv = (key, value);
        match self.position(key.as_str()) {
            Some(i) => {
                let ghost k = key@;
                let mut entries: Vec<(String, String)> = Vec::new();
                std::mem::swap(&mut entries, &mut self.entries);
                entries.set(i, (key, value));
                proof {
                    assert(distinct_keys(entries@)) by {
                        assert forall|a: int, b: int| 0 <= a < b < entries@.len() implies entries@[a].0@
                            != entries@[b].0@ by {
                            if a == i {
                                assert(before[b].0@ != before[i as int].0@);
                            } else if b == i {
                                assert(before[a].0@ != before[i as int].0@);
                            } else {
                                assert(before[a].0@ != before[b].0@);
                            }
                        }
                    }
                    lemma_entries_map(entries@);
                    assert(entries_map(entries@) =~= entries_map(before).insert(k, value@)) by {
                        assert forall|x: Seq<char>| #[trigger] entries_map(entries@).contains_key(x)
                            <==> entries_map(before).insert(k, value@).contains_key(x) by {
                            if entries_map(entries@).contains_key(x) {
                                let j = choose|j: int| 0 <= j < entries@.len() && entries@[j].0@ == x;
                                if j != i {
                                    assert(before[j] == entries@[j]);
                                }
                            }
                            if entries_map(before).contains_key(x) {
                                let j = choose|j: int| 0 <= j < before.len() && before[j].0@ == x;
                                if j != i {
                                    assert(before[j] == entries@[j]);
                                } else {
                                    assert(entries@[j].0@ == x);
                                }
                            }
                        }
                        assert forall|x: Seq<char>| #[trigger] entries_map(entries@).contains_key(x)
                            implies entries_map(entries@)[x] == entries_map(before).insert(
                            k,
                            value@,
                        )[x] by {
                            let j = choose|j: int| 0 <= j < entries@.len() && entries@[j].0@ == x;
                            if j != i {
                                assert(before[j] == entries@[j]);
                                assert(entries_map(before)[before[j].0@] == before[j].1@);
                            }
                        }
                    }
                    assert(entries@ == before.update(i as int, kv));
                }
                self.entries = entries;
                proof {
                    assert(old(self).pairs()[i as int].0@ == k);
                    assert(self.pairs() == before.update(i as int, kv));
                }
            },
            None => {
                let mut entries: Vec<(String, String)> = Vec::new();
                std::mem::swap(&mut entries, &mut self.entries);
                entries.push((key, value));
                proof {
                    assert(entries@.drop_last() == before);
                    assert(entries@ == before.push(kv));
                }
                self.entries = entries;
            },
        }
    }

    /// Removes the binding of `key`, if any; the other entries keep their order.
    pub fn remove(&mut self, key: &str)
        ensures
            final(self).view() == old(self).view().remove(key@),
            old(self).view().contains_key(key@) ==> exists|i: int|
                #![trigger old(self).pairs()[i]]
                0 <= i < old(self).pairs().len() && old(self).pairs()[i].0@ == key@ && final(self).pairs() == old(
                    self,
                ).pairs().remove(i),
            !old(self).view().contains_key(key@) ==> final(self).pairs() == old(self).pairs(),
    {
        proof {
            use_type_invariant(&*self);
            lemma_entries_map(self.entries@);
        }
        let ghost before = self.entries@;
        match self.position(key) {
            Some(i) => {
                let mut entries: Vec<(String, String)> = Vec::new();
                std::mem::swap(&mut entries, &mut self.entries);
                entries.remove(i);
                proof {
                    assert forall|a: int| 0 <= a < entries@.len() implies #[trigger] entries@[a] == (
                    if a < i {
                        before[a]
                    } else {
                        before[a + 1]
                    }) by {}
                    assert(distinct_keys(entries@)) by {
                        assert forall|a: int, b: int| 0 <= a < b < entries@.len() implies entries@[a].0@
                            != entries@[b].0@ by {
                            let a2 = if a < i { a } else { a + 1 };
                            let b2 = if b < i { b } else { b + 1 };
                            assert(entries@[a] == before[a2]);
                            assert(entries@[b] == before[b2]);
                        }
                    }
                    lemma_entries_map(entries@);
                    let m = entries_map(before).remove(key@);
                    assert forall|x: Seq<char>| #[trigger] entries_map(entries@).contains_key(x)
                        <==> m.contains_key(x) by {
                        if entries_map(entries@).contains_key(x) {
                            let j = choose|j: int| 0 <= j < entries@.len() && entries@[j].0@ == x;
                            let j2 = if j < i { j } else { j + 1 };
                            assert(entries@[j] == before[j2]);
                        }
                        if m.contains_key(x) {
                            let j = choose|j: int| 0 <= j < before.len() && before[j].0@ == x;
                            assert(j != i);
                            let j2 = if j < i { j } else { j - 1 };
                            assert(entries@[j2] == before[j]);
                        }
                    }
                    assert forall|x: Seq<char>| #[trigger] entries_map(entries@).contains_key(x)
                        implies entries_map(entries@)[x] == m[x] by {
                        let j = choose|j: int| 0 <= j < entries@.len() && entries@[j].0@ == x;
                        let j2 = if j < i { j } else { j + 1 };
                        assert(entries@[j] == before[j2]);
                        assert(entries_map(before)[before[j2].0@] == before[j2].1@);
                    }
                    assert(entries_map(entries@) =~= m);
                    assert(entries@ == before.remove(i as int));
                }
                self.entries = entries;
                proof {
                    assert(old(self).pairs()[i as int].0@ == key@);
                    assert(self.pairs() == before.remove(i as int));
                }
            },
            None => {
                proof {
                    assert(entries_map(before).remove(key@) =~= entries_map(before));
                }
            },
        }
    }

    /// Whether the map is empty.
    pub fn is_empty(&self) -> (r: bool)
        ensures
            r == (self.pairs().len() == 0),
            r == (self.view() =~= Map::<Seq<char>, Seq<char>>::empty()),
    {
        proof {
            use_type_invariant(self);
            lemma_entries_map(self.entries@);
            if self.entries@.len() > 0 {
                assert(entries_map(self.entries@).contains_key(self.entries@[0].0@));
            }
        }
        self.entries.len() == 0
    }

    /// The number of bindings.
    pub fn len(&self) -> (r: usize)
        ensures
            r == self.pairs().len(),
    {
        self.entries.len()
    }

    /// The `i`-th entry in insertion order.
    pub fn entry(&self, i: usize) -> (r: (&String, &String))
        requires
            i < self.pairs().len(),
        ensures
            *r.0 == self.pairs()[i as int].0,
            *r.1 == self.pairs()[i as int].1,
            self.view().contains_key(r.0@),
            self.view()[r.0@] == r.1@,
            forall|j: int| 0 <= j < self.pairs().len() && j != i ==> self.pairs()[j].0@ != r.0@,
    {
        proof {
            use_type_invariant(self);
            lemma_entries_map(self.entries@);
        }
        (&self.entries[i].0, &self.entries[i].1)
    }
}

} // verus!

verus! {

impl Clone for VarMap {
    /// An entry-by-entry copy.
    fn clone(&self) -> (r: Self)
        ensures
            r.pairs() == self.pairs(),
            r.view() == self.view(),
    {
        proof {
            use_type_invariant(self);
        }
        let mut entries: Vec<(String, String)> = Vec::new();
        let mut i: usize = 0;
        while i < self.entries.len()
            invariant
                i <= self.entries@.len(),
                entries@ == self.entries@.take(i as int),
            decreases self.entries@.len() - i,
        {
            let k = self.entries[i].0.clone();
            let v = self.entries[i].1.clone();
            entries.push((k, v));
            assert(self.entries@.take(i + 1) == self.entries@.take(i as int).push(self.entries@[i as int]));
            i += 1;
        }
        assert(self.entries@.take(self.entries@.len() as int) == self.entries@);
        VarMap { entries }
    }
}

} // verus!

verus! {

/// What a read gives back of a write: after `insert(k, v)` the map gives `v`
/// for `k` and keeps every other binding; after `remove(k)` it gives nothing
/// for `k` and keeps every other binding.
pub proof fn lemma_read_after_write(before: VarMap, inserted: VarMap, removed: VarMap, k: Seq<char>, v: Seq<char>, other: Seq<char>)
    requires
        inserted.view() == before.view().insert(k, v),
        removed.view() == before.view().remove(k),
        other != k,
    ensures
        inserted.view().contains_key(k) && inserted.view()[k] == v,
        !removed.view().contains_key(k),
        inserted.view().contains_key(other) == before.view().contains_key(other),
        removed.view().contains_key(other) == before.view().contains_key(other),
        before.view().contains_key(other) ==> inserted.view()[other] == before.view()[other] && removed.view()[other]
            == before.view()[other],
{
}

} // verus!
