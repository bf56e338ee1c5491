//! A map with text keys that remembers the order in which its keys first came in.

use vstd::prelude::*;

verus! {

/// A map from texts to values. Its entries stand in the order in which their keys were
/// first inserted, and no key stands there twice.
pub struct StrMap<V> {
    entries: Vec<(String, V)>,
}

impl<V> View for StrMap<V> {
    type V = Map<Seq<char>, V>;

    closed spec fn view(&self) -> Map<Seq<char>, V> {
        Map::new(
            |k: Seq<char>| self.keys().contains(k),
            |k: Seq<char>| self.values()[self.keys().index_of(k)],
        )
    }
}

impl<V> StrMap<V> {
    /// The keys, in the order of their first insertion.
    pub closed spec fn keys(&self) -> Seq<Seq<char>> {
        self.entries@.map_values(|e: (String, V)| e.0@)
    }

    /// The values, each at the place of its key.
    pub closed spec fn values(&self) -> Seq<V> {
        self.entries@.map_values(|e: (String, V)| e.1)
    }

    /// No key occurs twice.
    pub closed spec fn wf(&self) -> bool {
        self.keys().no_duplicates()
    }

    /// What the map holds, told by the order of its entries.
    pub proof fn lemma_entries(&self)
        requires
            self.wf(),
        ensures
            self.keys().len() == self.values().len(),
            self.keys().no_duplicates(),
            forall|i: int|
                0 <= i < self.keys().len() ==> #[trigger] self@.contains_key(self.keys()[i])
                    && self@[self.keys()[i]] == self.values()[i],
            forall|k: Seq<char>| #[trigger]
                self@.contains_key(k) ==> exists|i: int|
                    0 <= i < self.keys().len() && #[trigger] self.keys()[i] == k,
    {
        let keys = self.keys();
        assert forall|i: int| 0 <= i < keys.len() implies #[trigger] self@.contains_key(keys[i])
            && self@[keys[i]] == self.values()[i] by {
            assert(keys.contains(keys[i]));
            let j = keys.index_of(keys[i]);
            assert(keys[j] == keys[i]);
            assert(j == i);
        }
    }

    /// A map without entries.
    pub fn new() -> (r: Self)
        ensures
            r.wf(),
            r@ == Map::<Seq<char>, V>::empty(),
            r.keys() == Seq::<Seq<char>>::empty(),
            r.values() == Seq::<V>::empty(),
    {
        let r = StrMap { entries: Vec::new() };
        assert(r.keys() =~= Seq::<Seq<char>>::empty());
        assert(r.values() =~= Seq::<V>::empty());
        assert(r@ =~= Map::<Seq<char>, V>::empty());
        r
    }

    /// How many entries the map has.
    pub fn len(&self) -> (n: usize)
        ensures
            n == self.keys().len(),
            n == self.values().len(),
    {
        self.entries.len()
    }

    /// The key of the entry at place `i`.
    pub fn key_at(&self, i: usize) -> (k: &String)
        requires
            i < self.keys().len(),
        ensures
            k@ == self.keys()[i as int],
    {
        &self.entries[i].0
    }

    /// The value of the entry at place `i`.
    pub fn value_at(&self, i: usize) -> (v: &V)
        requires
            i < self.values().len(),
        ensures
            *v == self.values()[i as int],
    {
        &self.entries[i].1
    }

    /// The place of a key.
    pub fn position(&self, k: &str) -> (r: Option<usize>)
        requires
            self.wf(),
        ensures
            match r {
                Some(i) => i < self.keys().len() && self.keys()[i as int] == k@
                    && self@.contains_key(k@) && self@[k@] == self.values()[i as int],
                None => !self@.contains_key(k@) && !self.keys().contains(k@),
            },
    {
        let mut i: usize = 0;
        proof {
            self.lemma_entries();
        }
        while i < self.entries.len()
            invariant
                i <= self.entries@.len(),
                self.keys().len() == self.entries@.len(),
                self.values().len() == self.entries@.len(),
                forall|j: int| 0 <= j < i ==> self.keys()[j] != k@,
                forall|j: int|
                    0 <= j < self.keys().len() ==> #[trigger] self@.contains_key(self.keys()[j])
                        && self@[self.keys()[j]] == self.values()[j],
            decreases self.entries@.len() - i,
        {
            if *self.entries[i].0.as_str() == *k {
                assert(self.keys()[i as int] == k@);
                assert(self@.contains_key(self.keys()[i as int]));
                return Some(i);
            }
            assert(self.keys()[i as int] != k@);
            i += 1;
        }
        None
    }

    /// Whether a key is in the map.
    pub fn contains_key(&self, k: &str) -> (r: bool)
        requires
            self.wf(),
        ensures
            r == self@.contains_key(k@),
    {
        match self.position(k) {
            Some(_) => true,
            None => false,
        }
    }

    /// The value of a key.
    pub fn get(&self, k: &str) -> (r: Option<&V>)
        requires
            self.wf(),
        ensures
            match r {
                Some(v) => self@.contains_key(k@) && self@[k@] == *v,
                None => !self@.contains_key(k@),
            },
    {
        match self.position(k) {
            Some(i) => Some(self.value_at(i)),
            None => None,
        }
    }

    /// The value of a key, to be changed in place.
    pub fn get_mut(&mut self, k: &str) -> (r: Option<&mut V>)
        requires
            old(self).wf(),
        ensures
            final(self).wf(),
            final(self).keys() == old(self).keys(),
            match r {
                Some(v) => old(self)@.contains_key(k@) && *v == old(self)@[k@] && final(self)@
                    == old(self)@.insert(k@, *final(v)),
                None => !old(self)@.contains_key(k@) && final(self)@ == old(self)@,
            },
    {
        match self.position(k) {
            Some(i) => {
                proof {
                    self.lemma_entries();
                }
                let e = &mut self.entries[i];
                assert(e.1 == old(self)@[k@]);
                let v = &mut e.1;
                proof {
                    lemma_update(old(self), &after_borrow(*self), i as int, *final(v));
                }
                Some(v)
            },
            None => None,
        }
    }

    /// Gives a key a value, in its place where the key was there and at the end where not.
    pub fn insert(&mut self, k: String, v: V)
        requires
            old(self).wf(),
        ensures
            final(self).wf(),
            final(self)@ == old(self)@.insert(k@, v),
            final(self).keys() == (if old(self)@.contains_key(k@) {
                old(self).keys()
            } else {
                old(self).keys().push(k@)
            }),
    {
        match self.position(k.as_str()) {
            Some(i) => {
                self.entries[i].1 = v;
                proof {
                    lemma_update(old(self), self, i as int, v);
                }
            },
            None => {
                self.entries.push((k, v));
                proof {
                    assert(self.keys() =~= old(self).keys().push(k@));
                    assert(self.values() =~= old(self).values().push(v));
                    assert(self.keys().no_duplicates());
                    self.lemma_entries();
                    old(self).lemma_entries();
                    let n = old(self).keys().len() as int;
                    assert(self.keys()[n] == k@);
                    assert forall|q: Seq<char>| self@.contains_key(q) == (old(
                        self,
                    )@.contains_key(q) || q == k@) by {
                        if old(self)@.contains_key(q) {
                            let i = choose|i: int|
                                0 <= i < old(self).keys().len() && old(self).keys()[i] == q;
                            assert(self.keys()[i] == q);
                        }
                    }
                    assert forall|q: Seq<char>| #[trigger] self@.contains_key(q) implies self@[q]
                        == old(self)@.insert(k@, v)[q] by {
                        let i = choose|i: int|
                            0 <= i < self.keys().len() && self.keys()[i] == q;
                        assert(self@.contains_key(self.keys()[i]));
                        if i < n {
                            assert(old(self)@.contains_key(old(self).keys()[i]));
                        }
                    }
                    assert(self@ =~= old(self)@.insert(k@, v));
                }
            },
        }
    }

    /// Takes a key out, with its value. The other entries keep their order.
    pub fn remove(&mut self, k: &str) -> (r: Option<V>)
        requires
            old(self).wf(),
        ensures
            final(self).wf(),
            final(self)@ == old(self)@.remove(k@),
            match r {
                Some(v) => old(self)@.contains_key(k@) && old(self)@[k@] == v,
                None => !old(self)@.contains_key(k@),
            },
    {
        match self.position(k) {
            Some(i) => {
                proof {
                    self.lemma_entries();
                }
                let e = self.entries.remove(i);
                proof {
                    assert(self.keys() =~= old(self).keys().remove(i as int));
                    assert(self.values() =~= old(self).values().remove(i as int));
                    old(self).lemma_entries();
                    assert forall|a: int, b: int|
                        0 <= a < b < self.keys().len() implies self.keys()[a]
                        != self.keys()[b] by {
                        let x = if a < i {
                            a
                        } else {
                            a + 1
                        };
                        let y = if b < i {
                            b
                        } else {
                            b + 1
                        };
                        assert(old(self).keys()[x] != old(self).keys()[y]);
                    }
                    assert(self.keys().no_duplicates());
                    self.lemma_entries();
                    assert forall|q: Seq<char>| self@.contains_key(q) == (old(
                        self,
                    )@.contains_key(q) && q != k@) by {
                        if old(self)@.contains_key(q) && q != k@ {
                            let j = choose|j: int|
                                0 <= j < old(self).keys().len() && old(self).keys()[j] == q;
                            if j < i {
                                assert(self.keys()[j] == q);
                            } else {
                                assert(self.keys()[j - 1] == q);
                            }
                        }
                        if self@.contains_key(q) {
                            let j = choose|j: int|
                                0 <= j < self.keys().len() && self.keys()[j] == q;
                            let x = if j < i {
                                j
                            } else {
                                j + 1
                            };
                            assert(old(self).keys()[x] == q);
                            assert(old(self)@.contains_key(old(self).keys()[x]));
                            assert(old(self).keys()[x] != old(self).keys()[i as int]);
                        }
                    }
                    assert forall|q: Seq<char>| #[trigger] self@.contains_key(q) implies self@[q]
                        == old(self)@[q] by {
                        let j = choose|j: int|
                            0 <= j < self.keys().len() && self.keys()[j] == q;
                        let x = if j < i {
                            j
                        } else {
                            j + 1
                        };
                        assert(self@.contains_key(self.keys()[j]));
                        assert(old(self)@.contains_key(old(self).keys()[x]));
                    }
                    assert(self@ =~= old(self)@.remove(k@));
                }
                Some(e.1)
            },
            None => {
                assert(self@ =~= old(self)@.remove(k@));
                None
            },
        }
    }
}

proof fn lemma_update<V>(a: &StrMap<V>, b: &StrMap<V>, i: int, v: V)
    requires
        a.wf(),
        0 <= i < a.entries@.len(),
        b.entries@.len() == a.entries@.len(),
        b.entries@[i].0 == a.entries@[i].0,
        b.entries@[i].1 == v,
        forall|j: int| 0 <= j < a.entries@.len() && j != i ==> b.entries@[j] == a.entries@[j],
    ensures
        b.wf(),
        b.keys() == a.keys(),
        b.values() == a.values().update(i, v),
        b@ == a@.insert(a.keys()[i], v),
{
    assert(b.keys() =~= a.keys());
    assert(b.values() =~= a.values().update(i, v));
    a.lemma_entries();
    b.lemma_entries();
    assert(a@.contains_key(a.keys()[i]));
    assert forall|q: Seq<char>| #[trigger] b@.contains_key(q) implies b@[q] == a@.insert(
        a.keys()[i],
        v,
    )[q] by {
        let j = choose|j: int| 0 <= j < b.keys().len() && b.keys()[j] == q;
        assert(b@.contains_key(b.keys()[j]));
        assert(a@.contains_key(a.keys()[j]));
    }
    assert(b@ =~= a@.insert(a.keys()[i], v));
}

/// The lists that a map holds, as texts.
pub open spec fn text_lists(m: Map<Seq<char>, Vec<String>>) -> Map<Seq<char>, Seq<Seq<char>>> {
    m.map_values(|v: Vec<String>| crate::text::texts(v@))
}

impl StrMap<Vec<String>> {
    /// Adds a text to the list of a key: to none where the key is not there.
    pub fn push_known(&mut self, k: &str, line: String)
        requires
            old(self).wf(),
        ensures
            final(self).wf(),
            text_lists(final(self)@) == (if old(self)@.contains_key(k@) {
                text_lists(old(self)@).insert(k@, text_lists(old(self)@)[k@].push(line@))
            } else {
                text_lists(old(self)@)
            }),
            final(self).keys() == old(self).keys(),
    {
        match self.get_mut(k) {
            Some(lines) => {
                let ghost had = lines@;
                lines.push(line);
                assert(crate::text::texts(lines@) =~= crate::text::texts(had).push(line@));
            },
            None => {},
        }
        proof {
            if old(self)@.contains_key(k@) {
                assert(text_lists(self@) =~= text_lists(old(self)@).insert(
                    k@,
                    text_lists(old(self)@)[k@].push(line@),
                ));
            }
        }
    }
}

} // verus!
