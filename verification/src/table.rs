//! A table keyed by rendezvous code.
use crate::text::same_text;
use vstd::prelude::*;

verus! {

/// Values filed under text keys, at most one per key.
pub struct CodeTable<V> {
    entries: Vec<(String, V)>,
}

/// Whether some entry is filed under `code`.
spec fn files<V>(entries: Seq<(String, V)>, code: Seq<char>) -> bool {
    exists|i: int| 0 <= i < entries.len() && #[trigger] entries[i].0@ == code
}

/// The position of an entry filed under `code`.
spec fn place<V>(entries: Seq<(String, V)>, code: Seq<char>) -> int {
    choose|i: int| 0 <= i < entries.len() && #[trigger] entries[i].0@ == code
}

impl<V> View for CodeTable<V> {
    type V = Map<Seq<char>, V>;

    closed spec fn view(&self) -> Map<Seq<char>, V> {
        Map::new(
            |code: Seq<char>| files(self.entries@, code),
            |code: Seq<char>| self.entries@[place(self.entries@, code)].1,
        )
    }
}

impl<V> CodeTable<V> {
    /// No key is filed twice.
    pub closed spec fn wf(&self) -> bool {
        forall|i: int, j: int|
            0 <= i < self.entries@.len() && 0 <= j < self.entries@.len() && i != j
                ==> #[trigger] self.entries@[i].0@ != #[trigger] self.entries@[j].0@
    }

    /// The keys, in the order in which the table holds them.
    pub closed spec fn keys(&self) -> Seq<Seq<char>> {
        self.entries@.map_values(|e: (String, V)| e.0@)
    }

    /// Each key of the table is listed exactly once.
    pub proof fn lemma_keys(&self)
        requires
            self.wf(),
        ensures
            self.keys().no_duplicates(),
            forall|code: Seq<char>| #[trigger] self.keys().contains(code) <==> self@.contains_key(code),
    {
        assert forall|code: Seq<char>| #[trigger]
            self.keys().contains(code) <==> self@.contains_key(code) by {
            if self.keys().contains(code) {
                let i = choose|i: int| 0 <= i < self.keys().len() && self.keys()[i] == code;
                assert(self.entries@[i].0@ == code);
            }
            if self@.contains_key(code) {
                let i = place(self.entries@, code);
                assert(self.keys()[i] == code);
            }
        }
    }

    /// What is filed at position `i`.
    proof fn lemma_entry(&self, i: int)
        requires
            self.wf(),
            0 <= i < self.entries@.len(),
        ensures
            self@.contains_key(self.entries@[i].0@),
            self@[self.entries@[i].0@] == self.entries@[i].1,
    {
        let code = self.entries@[i].0@;
        assert(files(self.entries@, code));
        let j = place(self.entries@, code);
        assert(0 <= j < self.entries@.len() && self.entries@[j].0@ == code);
    }

    /// An empty table.
    pub fn new() -> (t: Self)
        ensures
            t.wf(),
            t@ == Map::<Seq<char>, V>::empty(),
    {
        let t = CodeTable { entries: Vec::new() };
        proof {
            assert(t@ == Map::<Seq<char>, V>::empty());
        }
        t
    }

    /// The number of keys.
    pub fn len(&self) -> (n: usize)
        ensures
            n == self.keys().len(),
    {
        self.entries.len()
    }

    /// The value filed under the key at position `i`.
    pub fn value_at(&self, i: usize) -> (v: &V)
        requires
            self.wf(),
            i < self.keys().len(),
        ensures
            self@.contains_key(self.keys()[i as int]),
            *v == self@[self.keys()[i as int]],
    {
        proof {
            self.lemma_entry(i as int);
        }
        &self.entries[i].1
    }

    /// The position of `code`, if it is filed.
    fn find(&self, code: &str) -> (r: Option<usize>)
        requires
            self.wf(),
        ensures
            match r {
                Some(i) => i < self.entries@.len() && self.entries@[i as int].0@ == code@
                    && self@.contains_key(code@) && self@[code@] == self.entries@[i as int].1,
                None => !self@.contains_key(code@),
            },
    {
        let mut i: usize = 0;
        while i < self.entries.len()
            invariant
                self.wf(),
                i <= self.entries@.len(),
                forall|j: int| 0 <= j < i ==> #[trigger] self.entries@[j].0@ != code@,
            decreases self.entries@.len() - i,
        {
            if same_text(self.entries[i].0.as_str(), code) {
                proof {
                    self.lemma_entry(i as int);
                }
                return Some(i);
            }
            i = i + 1;
        }
        None
    }

    /// Whether `code` is filed.
    pub fn contains(&self, code: &str) -> (r: bool)
        requires
            self.wf(),
        ensures
            r == self@.contains_key(code@),
    {
        match self.find(code) {
            Some(_) => true,
            None => false,
        }
    }

    /// Takes `code` out of the table and returns what was filed under it.
    pub fn remove(&mut self, code: &str) -> (r: Option<V>)
        requires
            old(self).wf(),
        ensures
            final(self).wf(),
            final(self)@ == old(self)@.remove(code@),
            r == (if old(self)@.contains_key(code@) {
                Some(old(self)@[code@])
            } else {
                None
            }),
    {
        let ghost before = *self;
        match self.find(code) {
            Some(i) => {
                let (_, value) = self.entries.swap_remove(i);
                proof {
                    let a = before.entries@;
                    let b = self.entries@;
                    let n = b.len() as int;
                    assert forall|k: int| 0 <= k < n implies #[trigger] b[k] == (if k == i {
                        a[n]
                    } else {
                        a[k]
                    }) by {}
                    assert(self.wf());
                    assert forall|c: Seq<char>| #[trigger]
                        self@.contains_key(c) == before@.remove(code@).contains_key(c) by {
                        if self@.contains_key(c) {
                            let k = place(b, c);
                            if k == i {
                                before.lemma_entry(n);
                            } else {
                                before.lemma_entry(k);
                            }
                        }
                        if before@.contains_key(c) && c != code@ {
                            let k = place(a, c);
                            if k == n {
                                assert(b[i as int].0@ == c);
                            } else {
                                assert(b[k].0@ == c);
                            }
                        }
                    }
                    assert forall|c: Seq<char>| self@.contains_key(c) implies #[trigger] self@[c]
                        == before@.remove(code@)[c] by {
                        let k = place(b, c);
                        self.lemma_entry(k);
                        if k == i {
                            before.lemma_entry(n);
                        } else {
                            before.lemma_entry(k);
                        }
                    }
                    assert(self@ == before@.remove(code@));
                }
                Some(value)
            },
            None => {
                proof {
                    assert(self@ == before@.remove(code@));
                }
                None
            },
        }
    }

    /// Files `value` under `code` and returns what it displaces.
    pub fn insert(&mut self, code: String, value: V) -> (r: Option<V>)
        requires
            old(self).wf(),
        ensures
            final(self).wf(),
            final(self)@ == old(self)@.insert(code@, value),
            r == (if old(self)@.contains_key(code@) {
                Some(old(self)@[code@])
            } else {
                None
            }),
    {
        let displaced = self.remove(code.as_str());
        let ghost before = *self;
        self.entries.push((code, value));
        proof {
            let a = before.entries@;
            let b = self.entries@;
            let n = a.len() as int;
            assert(!before@.contains_key(code@));
            assert forall|k: int| 0 <= k < n implies #[trigger] a[k].0@ != code@ by {
                before.lemma_entry(k);
            }
            assert(self.wf());
            assert forall|c: Seq<char>| #[trigger]
                self@.contains_key(c) == before@.insert(code@, value).contains_key(c) by {
                if self@.contains_key(c) {
                    let k = place(b, c);
                    if k < n {
                        before.lemma_entry(k);
                    }
                }
                if before@.contains_key(c) {
                    let k = place(a, c);
                    assert(b[k].0@ == c);
                }
                if c == code@ {
                    assert(b[n].0@ == c);
                }
            }
            assert forall|c: Seq<char>| self@.contains_key(c) implies #[trigger] self@[c]
                == before@.insert(code@, value)[c] by {
                let k = place(b, c);
                self.lemma_entry(k);
                if k < n {
                    before.lemma_entry(k);
                }
            }
            assert(self@ == before@.insert(code@, value));
            assert(self@ == old(self)@.insert(code@, value));
        }
        displaced
    }
}

} // verus!
