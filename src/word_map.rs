//! A map from byte strings to small copyable values, kept as a vector
//! sorted by key so that lookups are binary searches.

use vstd::prelude::*;
use crate::bytes::{compare_bytes, lex_lt, lemma_lex_lt_irreflexive, lemma_lex_lt_transitive};

verus! {

pub struct WordMap<V> {
    keys: Vec<Vec<u8>>,
    vals: Vec<V>,
}

/// The keys strictly increase, so no key appears twice.
pub open spec fn strictly_sorted(ks: Seq<Seq<u8>>) -> bool {
    forall|i: int, j: int| 0 <= i < j < ks.len() ==> lex_lt(#[trigger] ks[i], #[trigger] ks[j])
}

proof fn lemma_sorted_distinct(ks: Seq<Seq<u8>>, i: int, j: int)
    requires
        strictly_sorted(ks),
        0 <= i < ks.len(),
        0 <= j < ks.len(),
        i != j,
    ensures
        ks[i] != ks[j],
{
    if i < j {
        assert(lex_lt(ks[i], ks[j]));
    } else {
        assert(lex_lt(ks[j], ks[i]));
    }
    lemma_lex_lt_irreflexive(ks[i]);
}

impl<V: Copy> WordMap<V> {
    pub closed spec fn key_seq(&self) -> Seq<Seq<u8>> {
        self.keys@.map_values(|k: Vec<u8>| k@)
    }

    pub closed spec fn wf(&self) -> bool {
        &&& self.keys@.len() == self.vals@.len()
        &&& strictly_sorted(self.key_seq())
    }

    spec fn index_of_key(&self, k: Seq<u8>) -> int {
        choose|i: int| 0 <= i < self.keys@.len() && self.key_seq()[i] == k
    }

    /// The keys with the value each is bound to.
    pub closed spec fn view(&self) -> Map<Seq<u8>, V> {
        Map::new(
            |k: Seq<u8>| exists|i: int| 0 <= i < self.keys@.len() && self.key_seq()[i] == k,
            |k: Seq<u8>| self.vals@[self.index_of_key(k)],
        )
    }

    proof fn lemma_view_at(&self, i: int)
        requires
            self.wf(),
            0 <= i < self.keys@.len(),
        ensures
            self@.contains_key(self.key_seq()[i]),
            self@[self.key_seq()[i]] == self.vals@[i],
    {
        let k = self.key_seq()[i];
        assert(0 <= i < self.keys@.len() && self.key_seq()[i] == k);
        let j = self.index_of_key(k);
        if j != i {
            lemma_sorted_distinct(self.key_seq(), i, j);
        }
    }

    pub fn new() -> (m: Self)
        ensures
            m.wf(),
            m@ == Map::<Seq<u8>, V>::empty(),
    {
        let m = WordMap { keys: Vec::new(), vals: Vec::new() };
        assert(m@ =~= Map::<Seq<u8>, V>::empty());
        m
    }

    pub fn len(&self) -> (n: usize)
        requires
            self.wf(),
        ensures
            n == self@.dom().len(),
    {
        proof {
            self.lemma_dom_len();
        }
        self.keys.len()
    }

    proof fn lemma_dom_len(&self)
        requires
            self.wf(),
        ensures
            self@.dom() == self.key_seq().to_set(),
            self@.dom().finite(),
            self@.dom().len() == self.keys@.len(),
    {
        assert(self@.dom() =~= self.key_seq().to_set());
        assert(self.key_seq().no_duplicates()) by {
            assert forall|i: int, j: int|
                0 <= i < self.key_seq().len() && 0 <= j < self.key_seq().len() && i != j implies
                self.key_seq()[i] != self.key_seq()[j] by {
                lemma_sorted_distinct(self.key_seq(), i, j);
            }
        }
        self.key_seq().unique_seq_to_set();
    }

    /// Binary search: `Ok(i)` where the key stands at `i`, else `Err(i)`
    /// where it would be inserted.
    fn search(&self, key: &[u8]) -> (r: Result<usize, usize>)
        requires
            self.wf(),
        ensures
            match r {
                Ok(i) => i < self.keys@.len() && self.key_seq()[i as int] == key@,
                Err(i) => {
                    &&& i <= self.keys@.len()
                    &&& forall|j: int| 0 <= j < i ==> lex_lt(#[trigger] self.key_seq()[j], key@)
                    &&& forall|j: int|
                        i <= j < self.keys@.len() ==> lex_lt(key@, #[trigger] self.key_seq()[j])
                },
            },
    {
        let mut lo: usize = 0;
        let mut hi: usize = self.keys.len();
        while lo < hi
            invariant
                self.wf(),
                lo <= hi <= self.keys@.len(),
                forall|j: int| 0 <= j < lo ==> lex_lt(#[trigger] self.key_seq()[j], key@),
                forall|j: int| hi <= j < self.keys@.len() ==> lex_lt(key@, #[trigger] self.key_seq()[j]),
            decreases hi - lo,
        {
            let mid = lo + (hi - lo) / 2;
            let c = compare_bytes(self.keys[mid].as_slice(), key);
            assert(self.key_seq()[mid as int] == self.keys@[mid as int]@);
            if c == 0 {
                return Ok(mid);
            } else if c < 0 {
                assert forall|j: int| 0 <= j <= mid implies lex_lt(#[trigger] self.key_seq()[j], key@) by {
                    if j < mid {
                        lemma_lex_lt_transitive(self.key_seq()[j], self.key_seq()[mid as int], key@);
                    }
                }
                lo = mid + 1;
            } else {
                assert forall|j: int| mid <= j < self.keys@.len() implies lex_lt(key@, #[trigger] self.key_seq()[j]) by {
                    if j > mid {
                        lemma_lex_lt_transitive(key@, self.key_seq()[mid as int], self.key_seq()[j]);
                    }
                }
                hi = mid;
            }
        }
        Err(lo)
    }

    pub fn get(&self, key: &[u8]) -> (r: Option<V>)
        requires
            self.wf(),
        ensures
            r == (if self@.contains_key(key@) { Some(self@[key@]) } else { None::<V> }),
    {
        match self.search(key) {
            Ok(i) => {
                proof {
                    self.lemma_view_at(i as int);
                }
                Some(self.vals[i])
            },
            Err(i) => {
                proof {
                    if self@.contains_key(key@) {
                        let j = choose|j: int| 0 <= j < self.keys@.len() && self.key_seq()[j] == key@;
                        lemma_lex_lt_irreflexive(key@);
                        if j < i {
                            assert(lex_lt(self.key_seq()[j], key@));
                        } else {
                            assert(lex_lt(key@, self.key_seq()[j]));
                        }
                    }
                }
                None
            },
        }
    }

    pub fn contains_key(&self, key: &[u8]) -> (r: bool)
        requires
            self.wf(),
        ensures
            r == self@.contains_key(key@),
    {
        self.get(key).is_some()
    }

    /// Binds `key` to `value`, replacing an earlier binding.
    pub fn insert(&mut self, key: Vec<u8>, value: V)
        requires
            old(self).wf(),
        ensures
            final(self).wf(),
            final(self)@ == old(self)@.insert(key@, value),
    {
        let ghost k = key@;
        match self.search(key.as_slice()) {
            Ok(i) => {
                let ghost old_self = *self;
                self.vals.set(i, value);
                proof {
                    assert(self.key_seq() =~= old_self.key_seq());
                    assert forall|kk: Seq<u8>| #[trigger] self@.contains_key(kk) == old_self@.insert(k, value).contains_key(kk) by {
                        if kk == k {
                            assert(0 <= i < self.keys@.len() && self.key_seq()[i as int] == kk);
                        }
                    }
                    assert forall|kk: Seq<u8>| self@.contains_key(kk) implies #[trigger] self@[kk] == old_self@.insert(k, value)[kk] by {
                        let j = choose|j: int| 0 <= j < self.keys@.len() && self.key_seq()[j] == kk;
                        self.lemma_view_at(j);
                        old_self.lemma_view_at(j);
                        if j != i {
                            lemma_sorted_distinct(self.key_seq(), i as int, j);
                        }
                    }
                    assert(self@ =~= old_self@.insert(k, value));
                }
            },
            Err(i) => {
                let ghost old_self = *self;
                self.keys.insert(i, key);
                self.vals.insert(i, value);
                proof {
                    let oks = old_self.key_seq();
                    let ks = self.key_seq();
                    assert(ks =~= oks.insert(i as int, k));
                    assert forall|a: int, b: int| 0 <= a < b < ks.len() implies lex_lt(#[trigger] ks[a], #[trigger] ks[b]) by {
                        if b < i {
                        } else if a < i && b == i {
                        } else if a < i && b > i {
                            lemma_lex_lt_transitive(oks[a], k, oks[b - 1]);
                        } else if a == i {
                        } else {
                        }
                    }
                    assert forall|kk: Seq<u8>| #[trigger] self@.contains_key(kk) == old_self@.insert(k, value).contains_key(kk) by {
                        if kk == k {
                            assert(0 <= i < self.keys@.len() && ks[i as int] == kk);
                        } else if old_self@.contains_key(kk) {
                            let j = choose|j: int| 0 <= j < old_self.keys@.len() && oks[j] == kk;
                            if j < i {
                                assert(ks[j] == kk);
                            } else {
                                assert(ks[j + 1] == kk);
                            }
                        } else if self@.contains_key(kk) {
                            let j = choose|j: int| 0 <= j < self.keys@.len() && ks[j] == kk;
                            if j < i {
                                assert(oks[j] == kk);
                            } else if j > i {
                                assert(oks[j - 1] == kk);
                            }
                        }
                    }
                    assert forall|kk: Seq<u8>| self@.contains_key(kk) implies #[trigger] self@[kk] == old_self@.insert(k, value)[kk] by {
                        let j = choose|j: int| 0 <= j < self.keys@.len() && ks[j] == kk;
                        self.lemma_view_at(j);
                        if j < i {
                            old_self.lemma_view_at(j);
                            if kk == k {
                                lemma_lex_lt_irreflexive(k);
                            }
                        } else if j > i {
                            old_self.lemma_view_at(j - 1);
                            if kk == k {
                                lemma_lex_lt_irreflexive(k);
                            }
                        }
                    }
                    assert(self@ =~= old_self@.insert(k, value));
                }
            },
        }
    }

    /// The bindings in increasing order of key.
    pub fn entries(&self) -> (r: Vec<(Vec<u8>, V)>)
        requires
            self.wf(),
        ensures
            r@.len() == self@.dom().len(),
            forall|i: int| 0 <= i < r@.len() ==> {
                &&& self@.contains_key(#[trigger] r@[i].0@)
                &&& self@[r@[i].0@] == r@[i].1
            },
            forall|k: Seq<u8>| #[trigger] self@.contains_key(k) ==> exists|i: int| 0 <= i < r@.len() && r@[i].0@ == k,
            forall|i: int, j: int| 0 <= i < j < r@.len() ==> lex_lt(#[trigger] r@[i].0@, #[trigger] r@[j].0@),
    {
        proof {
            self.lemma_dom_len();
        }
        let mut r: Vec<(Vec<u8>, V)> = Vec::new();
        let mut i: usize = 0;
        while i < self.keys.len()
            invariant
                self.wf(),
                i <= self.keys@.len(),
                r@.len() == i,
                forall|j: int| 0 <= j < i ==> (#[trigger] r@[j]).0@ == self.key_seq()[j] && r@[j].1 == self.vals@[j],
            decreases self.keys@.len() - i,
        {
            r.push((self.keys[i].clone(), self.vals[i]));
            i = i + 1;
        }
        proof {
            assert forall|j: int| 0 <= j < r@.len() implies {
                &&& self@.contains_key(#[trigger] r@[j].0@)
                &&& self@[r@[j].0@] == r@[j].1
            } by {
                self.lemma_view_at(j);
            }
            assert forall|k: Seq<u8>| #[trigger] self@.contains_key(k) implies exists|j: int| 0 <= j < r@.len() && r@[j].0@ == k by {
                let j = choose|j: int| 0 <= j < self.keys@.len() && self.key_seq()[j] == k;
                assert(r@[j].0@ == k);
            }
            assert forall|a: int, b: int| 0 <= a < b < r@.len() implies lex_lt(#[trigger] r@[a].0@, #[trigger] r@[b].0@) by {
                assert(r@[a].0@ == self.key_seq()[a]);
                assert(r@[b].0@ == self.key_seq()[b]);
            }
        }
        r
    }
}

} // verus!
