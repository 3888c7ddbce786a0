//! A table keyed by text.

use crate::text::str_eq;
use vstd::prelude::*;

verus! {

/// A table keyed by text. Its entries keep the order in which they came in.
pub struct Table<V> {
    entries: Vec<(String, V)>,
}

spec fn holds<V>(e: Seq<(String, V)>, key: Seq<char>, i: int) -> bool {
    0 <= i < e.len() && e[i].0@ == key
}

spec fn holds_some<V>(e: Seq<(String, V)>, key: Seq<char>) -> bool {
    exists|i: int| holds(e, key, i)
}

spec fn place<V>(e: Seq<(String, V)>, key: Seq<char>) -> int {
    choose|i: int| holds(e, key, i)
}

spec fn distinct<V>(e: Seq<(String, V)>) -> bool {
    forall|i: int, j: int|
        0 <= i < j < e.len() ==> (#[trigger] e[i]).0@ != (#[trigger] e[j]).0@
}

impl<V: View> View for Table<V> {
    type V = Map<Seq<char>, V::V>;

    closed spec fn view(&self) -> Map<Seq<char>, V::V> {
        Map::new(
            |k: Seq<char>| holds_some(self.entries@, k),
            |k: Seq<char>| self.entries@[place(self.entries@, k)].1@,
        )
    }
}

impl<V: View> Table<V> {
    /// No two entries have the same key.
    pub closed spec fn wf(&self) -> bool {
        distinct(self.entries@)
    }

    /// The keys, in the order in which they came in.
    pub closed spec fn keys(&self) -> Seq<Seq<char>> {
        self.entries@.map_values(|e: (String, V)| e.0@)
    }

    pub fn new() -> (r: Self)
        ensures
            r.wf(),
            r@ == Map::<Seq<char>, V::V>::empty(),
    {
        let r = Table { entries: Vec::new() };
        proof {
            assert(r@ =~= Map::empty());
        }
        r
    }

    proof fn lemma_at(&self, key: Seq<char>, i: int)
        requires
            self.wf(),
            holds(self.entries@, key, i),
        ensures
            self@.contains_key(key),
            self@[key] == self.entries@[i].1@,
    {
        let j = place(self.entries@, key);
        assert(holds(self.entries@, key, j));
        if i != j {
            assert(self.entries@[i].0@ == self.entries@[j].0@);
        }
    }

    fn find(&self, key: &str) -> (r: Option<usize>)
        ensures
            match r {
                Some(i) => holds(self.entries@, key@, i as int),
                None => !holds_some(self.entries@, key@),
            },
    {
        let mut i: usize = 0;
        while i < self.entries.len()
            invariant
                i <= self.entries@.len(),
                forall|k: int| 0 <= k < i ==> (#[trigger] self.entries@[k]).0@ != key@,
            decreases self.entries@.len() - i,
        {
            if str_eq(self.entries[i].0.as_str(), key) {
                return Some(i);
            }
            i = i + 1;
        }
        proof {
            if holds_some(self.entries@, key@) {
                let k = place(self.entries@, key@);
                assert(holds(self.entries@, key@, k));
                assert(self.entries@[k].0@ != key@);
            }
        }
        None
    }

    pub fn get(&self, key: &str) -> (r: Option<&V>)
        requires
            self.wf(),
        ensures
            match r {
                Some(v) => self@.contains_key(key@) && self@[key@] == v@,
                None => !self@.contains_key(key@),
            },
    {
        match self.find(key) {
            Some(i) => {
                proof {
                    self.lemma_at(key@, i as int);
                }
                Some(&self.entries[i].1)
            },
            None => None,
        }
    }

    /// Puts an entry in, in place of the one with that key.
    pub fn insert(&mut self, key: String, value: V)
        requires
            old(self).wf(),
        ensures
            final(self).wf(),
            final(self)@ == old(self)@.insert(key@, value@),
    {
        let ghost before = self.entries@;
        let ghost k = key@;
        match self.find(key.as_str()) {
            Some(i) => {
                self.entries.set(i, (key, value));
                proof {
                    let e = self.entries@;
                    assert(distinct(e)) by {
                        assert forall|a: int, b: int| 0 <= a < b < e.len() implies (#[trigger]
                        e[a]).0@ != (#[trigger] e[b]).0@ by {
                            assert(before[a].0@ != before[b].0@);
                        }
                    }
                    assert forall|x: Seq<char>|
                        holds_some(e, x) == (x == k || holds_some(before, x)) by {
                        if holds_some(before, x) {
                            assert(holds(e, x, place(before, x)));
                        }
                        if x == k {
                            assert(holds(e, x, i as int));
                        }
                        if holds_some(e, x) {
                            assert(holds(before, x, place(e, x)));
                        }
                    }
                    assert forall|x: Seq<char>| holds_some(e, x) implies self@[x] == old(self)@.insert(
                        k,
                        value@,
                    )[x] by {
                        if x == k {
                            self.lemma_at(x, i as int);
                        } else {
                            let p = place(before, x);
                            assert(holds(before, x, p));
                            old(self).lemma_at(x, p);
                            assert(holds(e, x, p));
                            self.lemma_at(x, p);
                        }
                    }
                    assert(self@ =~= old(self)@.insert(k, value@));
                }
            },
            None => {
                self.entries.push((key, value));
                proof {
                    let e = self.entries@;
                    assert(distinct(e)) by {
                        assert forall|a: int, b: int| 0 <= a < b < e.len() implies (#[trigger]
                        e[a]).0@ != (#[trigger] e[b]).0@ by {
                            if b < before.len() {
                                assert(before[a].0@ != before[b].0@);
                            } else if e[a].0@ == e[b].0@ {
                                assert(holds(before, k, a));
                            }
                        }
                    }
                    assert forall|x: Seq<char>|
                        holds_some(e, x) == (x == k || holds_some(before, x)) by {
                        if holds_some(before, x) {
                            assert(holds(e, x, place(before, x)));
                        }
                        if x == k {
                            assert(holds(e, x, before.len() as int));
                        }
                        if holds_some(e, x) {
                            let p = place(e, x);
                            assert(holds(e, x, p));
                            if p < before.len() {
                                assert(holds(before, x, p));
                            }
                        }
                    }
                    assert forall|x: Seq<char>| holds_some(e, x) implies self@[x] == old(self)@.insert(
                        k,
                        value@,
                    )[x] by {
                        if x == k {
                            assert(holds(e, x, before.len() as int));
                            self.lemma_at(x, before.len() as int);
                        } else {
                            let p = place(before, x);
                            assert(holds(before, x, p));
                            old(self).lemma_at(x, p);
                            assert(holds(e, x, p));
                            self.lemma_at(x, p);
                        }
                    }
                    assert(self@ =~= old(self)@.insert(k, value@));
                }
            },
        }
    }

    /// Takes out the entry with that key.
    pub fn remove(&mut self, key: &str) -> (r: Option<V>)
        requires
            old(self).wf(),
        ensures
            final(self).wf(),
            final(self)@ == old(self)@.remove(key@),
            match r {
                Some(v) => old(self)@.contains_key(key@) && old(self)@[key@] == v@,
                None => !old(self)@.contains_key(key@),
            },
    {
        let ghost before = self.entries@;
        match self.find(key) {
            Some(i) => {
                proof {
                    self.lemma_at(key@, i as int);
                }
                let (_, v) = self.entries.remove(i);
                proof {
                    let e = self.entries@;
                    assert forall|a: int| 0 <= a < e.len() implies #[trigger] e[a] == before[if a
                        < i {
                        a
                    } else {
                        a + 1
                    }] by {}
                    assert(distinct(e)) by {
                        assert forall|a: int, b: int| 0 <= a < b < e.len() implies (#[trigger]
                        e[a]).0@ != (#[trigger] e[b]).0@ by {
                            let a0 = if a < i {
                                a
                            } else {
                                a + 1
                            };
                            let b0 = if b < i {
                                b
                            } else {
                                b + 1
                            };
                            assert(before[a0].0@ != before[b0].0@);
                        }
                    }
                    assert forall|x: Seq<char>|
                        holds_some(e, x) == (x != key@ && holds_some(before, x)) by {
                        if holds_some(e, x) {
                            let p = place(e, x);
                            assert(holds(e, x, p));
                            let p0 = if p < i {
                                p
                            } else {
                                p + 1
                            };
                            assert(holds(before, x, p0));
                            if x == key@ {
                                assert(before[p0].0@ == before[i as int].0@);
                            }
                        }
                        if x != key@ && holds_some(before, x) {
                            let p = place(before, x);
                            assert(holds(before, x, p));
                            assert(holds(e, x, if p < i {
                                p
                            } else {
                                p - 1
                            }));
                        }
                    }
                    assert forall|x: Seq<char>| holds_some(e, x) implies self@[x] == old(self)@[x] by {
                        let p = place(before, x);
                        assert(holds(before, x, p));
                        old(self).lemma_at(x, p);
                        let p1 = if p < i {
                            p
                        } else {
                            p - 1
                        };
                        assert(holds(e, x, p1));
                        self.lemma_at(x, p1);
                    }
                    assert(self@ =~= old(self)@.remove(key@));
                }
                Some(v)
            },
            None => {
                proof {
                    assert(self@ =~= self@.remove(key@));
                }
                None
            },
        }
    }

    pub fn len(&self) -> (r: usize)
        ensures
            r == self.keys().len(),
    {
        self.entries.len()
    }

    /// The entry that came in as the `i`-th.
    pub fn entry(&self, i: usize) -> (r: (&String, &V))
        requires
            self.wf(),
            i < self.keys().len(),
        ensures
            r.0@ == self.keys()[i as int],
            self@.contains_key(r.0@),
            self@[r.0@] == r.1@,
    {
        let e = &self.entries[i];
        proof {
            assert(holds(self.entries@, e.0@, i as int));
            self.lemma_at(e.0@, i as int);
        }
        (&e.0, &e.1)
    }

    /// The keys are those of the table, each of them once.
    pub proof fn lemma_keys(&self)
        requires
            self.wf(),
        ensures
            self.keys().no_duplicates(),
            self.keys().to_set() == self@.dom(),
    {
        let ks = self.keys();
        assert forall|i: int, j: int| 0 <= i < ks.len() && 0 <= j < ks.len() && i != j implies ks[i]
            != ks[j] by {
            if i < j {
                assert(self.entries@[i].0@ != self.entries@[j].0@);
            } else {
                assert(self.entries@[j].0@ != self.entries@[i].0@);
            }
        }
        assert forall|k: Seq<char>| ks.to_set().contains(k) == self@.dom().contains(k) by {
            if ks.to_set().contains(k) {
                let i = ks.index_of(k);
                assert(ks[i] == k);
                assert(holds(self.entries@, k, i));
            }
            if holds_some(self.entries@, k) {
                let i = place(self.entries@, k);
                assert(holds(self.entries@, k, i));
                assert(ks[i] == k);
            }
        }
        assert(ks.to_set() =~= self@.dom());
    }
}

} // verus!
