//! A small map from rule ids to instants, kept as a vector of pairs with
//! unique keys.

use vstd::prelude::*;

verus! {

#[derive(Debug, Clone)]
pub struct Ledger {
    entries: Vec<(String, u64)>,
}

impl Ledger {
    /// Keys are unique.
    pub closed spec fn wf(&self) -> bool {
        forall|i: int, j: int|
            0 <= i < j < self.entries@.len() ==> #[trigger] self.entries@[i].0@
                != #[trigger] self.entries@[j].0@
    }

    pub closed spec fn has(&self, k: Seq<char>, i: int) -> bool {
        0 <= i < self.entries@.len() && self.entries@[i].0@ == k
    }

    /// The map from rule id to recorded instant.
    pub closed spec fn view(&self) -> Map<Seq<char>, u64> {
        Map::new(
            |k: Seq<char>| exists|i: int| self.has(k, i),
            |k: Seq<char>| self.entries@[choose|i: int| self.has(k, i)].1,
        )
    }

    pub fn new() -> (r: Self)
        ensures
            r.wf(),
            r@ == Map::<Seq<char>, u64>::empty(),
    {
        let r = Ledger { entries: Vec::new() };
        proof {
            assert(r@ =~= Map::<Seq<char>, u64>::empty());
        }
        r
    }

    fn find(&self, key: &String) -> (r: Option<usize>)
        requires
            self.wf(),
        ensures
            r matches Some(i) ==> self.has(key@, i as int),
            r is None ==> forall|i: int| !self.has(key@, i),
    {
        let mut i: usize = 0;
        while i < self.entries.len()
            invariant
                i <= self.entries@.len(),
                forall|j: int| 0 <= j < i ==> !self.has(key@, j),
            decreases self.entries@.len() - i,
        {
            if self.entries[i].0 == *key {
                return Some(i);
            }
            i = i + 1;
        }
        None
    }

    proof fn lemma_index(&self, k: Seq<char>, i: int)
        requires
            self.wf(),
            self.has(k, i),
        ensures
            self@.contains_key(k),
            self@[k] == self.entries@[i].1,
    {
        let j = choose|j: int| self.has(k, j);
        if j != i {
            if i < j {
                assert(self.entries@[i].0@ != self.entries@[j].0@);
            } else {
                assert(self.entries@[j].0@ != self.entries@[i].0@);
            }
        }
    }

    pub fn get(&self, key: &str) -> (r: Option<u64>)
        requires
            self.wf(),
        ensures
            r == (if self@.contains_key(key@) {
                Some(self@[key@])
            } else {
                None::<u64>
            }),
    {
        let k = key.to_string();
        match self.find(&k) {
            Some(i) => {
                proof {
                    self.lemma_index(key@, i as int);
                }
                Some(self.entries[i].1)
            },
            None => None,
        }
    }

    pub fn set(&mut self, key: &str, value: u64)
        requires
            old(self).wf(),
        ensures
            final(self).wf(),
            final(self)@ == old(self)@.insert(key@, value),
    {
        let k = key.to_string();
        match self.find(&k) {
            Some(i) => {
                self.entries.set(i, (k, value));
                proof {
                    let o = *old(self);
                    assert forall|a: int, b: int|
                        0 <= a < b < self.entries@.len() implies #[trigger] self.entries@[a].0@
                        != #[trigger] self.entries@[b].0@ by {
                        assert(o.entries@[a].0@ != o.entries@[b].0@);
                    }
                    assert forall|kk: Seq<char>| #[trigger] self@.contains_key(kk) == o@.insert(key@, value).contains_key(kk) by {
                        if exists|j: int| o.has(kk, j) {
                            let j = choose|j: int| o.has(kk, j);
                            assert(self.has(kk, j));
                        }
                        if exists|j: int| self.has(kk, j) {
                            let j = choose|j: int| self.has(kk, j);
                            if j != i {
                                assert(o.has(kk, j));
                            }
                        }
                    }
                    assert forall|kk: Seq<char>| #[trigger] self@.contains_key(kk) implies self@[kk] == o@.insert(key@, value)[kk] by {
                        let j = choose|j: int| self.has(kk, j);
                        self.lemma_index(kk, j);
                        if j != i {
                            assert(o.has(kk, j));
                            o.lemma_index(kk, j);
                        }
                    }
                    assert(self@ =~= o@.insert(key@, value));
                }
            },
            None => {
                self.entries.push((k, value));
                proof {
                    let o = *old(self);
                    let n = o.entries@.len() as int;
                    assert forall|a: int, b: int|
                        0 <= a < b < self.entries@.len() implies #[trigger] self.entries@[a].0@
                        != #[trigger] self.entries@[b].0@ by {
                        if b == n {
                            assert(!o.has(key@, a));
                        } else {
                            assert(o.entries@[a].0@ != o.entries@[b].0@);
                        }
                    }
                    assert forall|kk: Seq<char>| #[trigger] self@.contains_key(kk) == o@.insert(key@, value).contains_key(kk) by {
                        if exists|j: int| o.has(kk, j) {
                            let j = choose|j: int| o.has(kk, j);
                            assert(self.has(kk, j));
                        }
                        if kk == key@ {
                            assert(self.has(kk, n));
                        }
                        if exists|j: int| self.has(kk, j) {
                            let j = choose|j: int| self.has(kk, j);
                            if j != n {
                                assert(o.has(kk, j));
                            }
                        }
                    }
                    assert forall|kk: Seq<char>| #[trigger] self@.contains_key(kk) implies self@[kk] == o@.insert(key@, value)[kk] by {
                        let j = choose|j: int| self.has(kk, j);
                        self.lemma_index(kk, j);
                        if j != n {
                            assert(o.has(kk, j));
                            o.lemma_index(kk, j);
                        }
                    }
                    assert(self@ =~= o@.insert(key@, value));
                }
            },
        }
    }

    pub fn remove(&mut self, key: &str)
        requires
            old(self).wf(),
        ensures
            final(self).wf(),
            final(self)@ == old(self)@.remove(key@),
    {
        let k = key.to_string();
        match self.find(&k) {
            Some(i) => {
                self.entries.remove(i);
                proof {
                    let o = *old(self);
                    assert forall|a: int, b: int|
                        0 <= a < b < self.entries@.len() implies #[trigger] self.entries@[a].0@
                        != #[trigger] self.entries@[b].0@ by {
                        let oa = if a < i { a } else { a + 1 };
                        let ob = if b < i { b } else { b + 1 };
                        assert(o.entries@[oa].0@ != o.entries@[ob].0@);
                    }
                    assert forall|kk: Seq<char>| #[trigger] self@.contains_key(kk) == o@.remove(key@).contains_key(kk) by {
                        if exists|j: int| o.has(kk, j) && kk != key@ {
                            let j = choose|j: int| o.has(kk, j) && kk != key@;
                            if j < i {
                                assert(self.has(kk, j));
                            } else {
                                assert(j != i);
                                assert(self.has(kk, j - 1));
                            }
                        }
                        if exists|j: int| self.has(kk, j) {
                            let j = choose|j: int| self.has(kk, j);
                            let oj = if j < i { j } else { j + 1 };
                            assert(o.has(kk, oj));
                            if kk == key@ {
                                assert(o.has(key@, i as int));
                                if oj < i {
                                    assert(o.entries@[oj].0@ != o.entries@[i as int].0@);
                                } else {
                                    assert(o.entries@[i as int].0@ != o.entries@[oj].0@);
                                }
                            }
                        }
                    }
                    assert forall|kk: Seq<char>| #[trigger] self@.contains_key(kk) implies self@[kk] == o@.remove(key@)[kk] by {
                        let j = choose|j: int| self.has(kk, j);
                        self.lemma_index(kk, j);
                        let oj = if j < i { j } else { j + 1 };
                        assert(o.has(kk, oj));
                        o.lemma_index(kk, oj);
                    }
                    assert(self@ =~= o@.remove(key@));
                }
            },
            None => {
                proof {
                    assert(self@ =~= old(self)@.remove(key@));
                }
            },
        }
    }
}

} // verus!
