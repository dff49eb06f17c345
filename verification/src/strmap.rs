//! A map from text keys to values that keeps its keys in ascending order.
use vstd::prelude::*;
use crate::order::{text_lt, rank_texts, Rank, lemma_lt_transitive, lemma_lt_total, lemma_lt_irreflexive};

verus! {

/// Keys in strictly ascending order.
pub open spec fn strictly_sorted(ks: Seq<Seq<char>>) -> bool {
    forall|i: int, j: int| 0 <= i < j < ks.len() ==> text_lt(#[trigger] ks[i], #[trigger] ks[j])
}

/// The map that pairs each key of `ks` with the value at the same position of `vs`.
pub open spec fn pairing<T>(ks: Seq<Seq<char>>, vs: Seq<T>) -> Map<Seq<char>, T> {
    Map::new(|k: Seq<char>| ks.contains(k), |k: Seq<char>| vs[ks.index_of(k)])
}

/// Two strictly ascending key sequences with the same keys are the same sequence.
pub proof fn lemma_sorted_unique(a: Seq<Seq<char>>, b: Seq<Seq<char>>)
    requires
        strictly_sorted(a),
        strictly_sorted(b),
        a.to_set() == b.to_set(),
    ensures
        a == b,
    decreases a.len(),
{
    if a.len() == 0 {
        if b.len() > 0 {
            assert(b.to_set().contains(b[0]));
        }
        assert(a =~= b);
    } else {
        assert(a.to_set().contains(a[0]));
        assert(b.len() > 0);
        assert(b.to_set().contains(b[0]));
        let j = choose|j: int| 0 <= j < b.len() && b[j] == a[0];
        let i = choose|i: int| 0 <= i < a.len() && a[i] == b[0];
        lemma_lt_irreflexive(a[0]);
        if j > 0 {
            if i > 0 {
                assert(text_lt(a[0], a[i]));
                assert(text_lt(b[0], b[j]));
                lemma_lt_total(a[0], b[0]);
            } else {
                assert(text_lt(b[0], b[j]));
            }
        }
        assert(j == 0);
        let a1 = a.drop_first();
        let b1 = b.drop_first();
        assert forall|x: Seq<char>| a1.to_set().contains(x) implies b1.to_set().contains(x) by {
            let k = choose|k: int| 0 <= k < a1.len() && a1[k] == x;
            assert(text_lt(a[0], a[k + 1]));
            assert(a.to_set().contains(x));
            let m = choose|m: int| 0 <= m < b.len() && b[m] == x;
            if m == 0 {
                lemma_lt_irreflexive(x);
            }
            assert(b1[m - 1] == x);
        }
        assert forall|x: Seq<char>| b1.to_set().contains(x) implies a1.to_set().contains(x) by {
            let k = choose|k: int| 0 <= k < b1.len() && b1[k] == x;
            assert(text_lt(b[0], b[k + 1]));
            assert(b.to_set().contains(x));
            let m = choose|m: int| 0 <= m < a.len() && a[m] == x;
            if m == 0 {
                lemma_lt_irreflexive(x);
            }
            assert(a1[m - 1] == x);
        }
        assert(a1.to_set() =~= b1.to_set());
        lemma_sorted_unique(a1, b1);
        assert(a =~= seq![a[0]] + a1);
        assert(b =~= seq![b[0]] + b1);
    }
}

/// The keys of a finite map in ascending order.
pub open spec fn sorted_keys<T>(m: Map<Seq<char>, T>) -> Seq<Seq<char>> {
    choose|ks: Seq<Seq<char>>| strictly_sorted(ks) && ks.to_set() == m.dom()
}

/// A finite map keyed by text, ordered by `text_lt`.
pub struct StrMap<T> {
    entries: Vec<(String, T)>,
}

impl<T> View for StrMap<T> {
    type V = Map<Seq<char>, T>;

    closed spec fn view(&self) -> Map<Seq<char>, T> {
        pairing(self.key_seq(), self.value_seq())
    }
}

proof fn lemma_sorted_index(ks: Seq<Seq<char>>, i: int)
    requires
        strictly_sorted(ks),
        0 <= i < ks.len(),
    ensures
        ks.contains(ks[i]),
        ks.index_of(ks[i]) == i,
{
    assert(ks.contains(ks[i]));
    let j = ks.index_of(ks[i]);
    if j < i {
        lemma_lt_irreflexive(ks[i]);
        assert(text_lt(ks[j], ks[i]));
    } else if j > i {
        lemma_lt_irreflexive(ks[i]);
        assert(text_lt(ks[i], ks[j]));
    }
}

impl<T> StrMap<T> {
    /// The keys, in ascending order.
    pub closed spec fn key_seq(&self) -> Seq<Seq<char>> {
        self.entries@.map_values(|e: (String, T)| e.0@)
    }

    /// The values, in the order of their keys.
    pub closed spec fn value_seq(&self) -> Seq<T> {
        self.entries@.map_values(|e: (String, T)| e.1)
    }

    /// The keys are held in strictly ascending order.
    pub closed spec fn wf(&self) -> bool {
        strictly_sorted(self.key_seq())
    }

    /// What a well-formed map shows of its layout.
    pub open spec fn laid_out(&self) -> bool {
        &&& strictly_sorted(self.key_seq())
        &&& self.key_seq().len() == self.value_seq().len()
        &&& self@ == pairing(self.key_seq(), self.value_seq())
        &&& self@.dom().finite()
        &&& self@.dom().len() == self.key_seq().len()
        &&& forall|i: int| 0 <= i < self.key_seq().len() ==> #[trigger] self@.contains_key(self.key_seq()[i])
            && self@[self.key_seq()[i]] == self.value_seq()[i]
        &&& forall|k: Seq<char>| #[trigger] self@.contains_key(k) <==> self.key_seq().contains(k)
    }

    pub proof fn lemma_laid_out(&self)
        requires
            self.wf(),
        ensures
            self.laid_out(),
    {
        let ks = self.key_seq();
        assert forall|i: int| 0 <= i < ks.len() implies #[trigger] self@.contains_key(ks[i])
            && self@[ks[i]] == self.value_seq()[i] by {
            lemma_sorted_index(ks, i);
        }
        assert(ks.no_duplicates()) by {
            assert forall|i: int, j: int| 0 <= i < ks.len() && 0 <= j < ks.len() && i != j implies ks[i] != ks[j] by {
                lemma_lt_irreflexive(ks[i]);
                if i < j {
                    assert(text_lt(ks[i], ks[j]));
                } else {
                    assert(text_lt(ks[j], ks[i]));
                }
            }
        }
        ks.unique_seq_to_set();
        assert(self@.dom() =~= ks.to_set());
    }

    /// The keys are listed in ascending order: they are the map's `sorted_keys`.
    pub proof fn lemma_key_seq(&self)
        requires
            self.wf(),
        ensures
            self.key_seq() == sorted_keys(self@),
            self.laid_out(),
    {
        self.lemma_laid_out();
        let ks = self.key_seq();
        assert(ks.to_set() =~= self@.dom());
        let c = sorted_keys(self@);
        lemma_sorted_unique(c, ks);
    }

    /// An empty map.
    pub fn new() -> (m: Self)
        ensures
            m.wf(),
            m@ == Map::<Seq<char>, T>::empty(),
            m.key_seq() == Seq::<Seq<char>>::empty(),
    {
        let m = StrMap { entries: Vec::new() };
        assert(m.key_seq() =~= Seq::<Seq<char>>::empty());
        assert(m@ =~= Map::<Seq<char>, T>::empty());
        m
    }

    /// The number of keys.
    pub fn len(&self) -> (n: usize)
        ensures
            n == self.key_seq().len(),
            n == self.value_seq().len(),
    {
        self.entries.len()
    }

    /// The key at position `i` in ascending order.
    pub fn key_at(&self, i: usize) -> (k: &String)
        requires
            i < self.key_seq().len(),
        ensures
            k@ == self.key_seq()[i as int],
    {
        &self.entries[i].0
    }

    /// The value of the key at position `i`.
    pub fn value_at(&self, i: usize) -> (v: &T)
        requires
            i < self.key_seq().len(),
        ensures
            *v == self.value_seq()[i as int],
    {
        &self.entries[i].1
    }

    /// Where `key` stands: its position, or the position it would take.
    fn find(&self, key: &str) -> (r: Result<usize, usize>)
        requires
            self.wf(),
        ensures
            r matches Ok(i) ==> i < self.key_seq().len() && self.key_seq()[i as int] == key@,
            r matches Err(p) ==> p <= self.key_seq().len()
                && (forall|i: int| 0 <= i < p ==> text_lt(#[trigger] self.key_seq()[i], key@))
                && (forall|i: int| p <= i < self.key_seq().len() ==> text_lt(key@, #[trigger] self.key_seq()[i])),
    {
        let ghost ks = self.key_seq();
        let mut i: usize = 0;
        while i < self.entries.len()
            invariant
                self.wf(),
                ks == self.key_seq(),
                i <= ks.len(),
                ks.len() == self.entries@.len(),
                forall|j: int| 0 <= j < i ==> text_lt(#[trigger] ks[j], key@),
            decreases self.entries.len() - i,
        {
            let r = rank_texts(self.entries[i].0.as_str(), key);
            assert(ks[i as int] == self.entries@[i as int].0@);
            match r {
                Rank::Before => {},
                Rank::Same => {
                    return Ok(i);
                },
                Rank::After => {
                    assert forall|j: int| i <= j < ks.len() implies text_lt(key@, #[trigger] ks[j]) by {
                        if j > i {
                            lemma_lt_transitive(key@, ks[i as int], ks[j]);
                        }
                    }
                    return Err(i);
                },
            }
            i = i + 1;
        }
        Err(i)
    }

    /// The value of `key`, if it has one.
    pub fn get(&self, key: &str) -> (r: Option<&T>)
        requires
            self.wf(),
        ensures
            r is Some <==> self@.contains_key(key@),
            r matches Some(v) ==> *v == self@[key@],
    {
        proof {
            self.lemma_laid_out();
        }
        match self.find(key) {
            Ok(i) => {
                assert(self@.contains_key(self.key_seq()[i as int]));
                Some(&self.entries[i].1)
            },
            Err(p) => {
                assert(!self.key_seq().contains(key@)) by {
                    if self.key_seq().contains(key@) {
                        let j = self.key_seq().index_of(key@);
                        lemma_lt_irreflexive(key@);
                        if j < p {
                            assert(text_lt(self.key_seq()[j], key@));
                        } else {
                            assert(text_lt(key@, self.key_seq()[j]));
                        }
                    }
                }
                None
            },
        }
    }

    /// Binds `key` to `value`, replacing any earlier value.
    pub fn insert(&mut self, key: String, value: T)
        requires
            old(self).wf(),
        ensures
            final(self).wf(),
            final(self)@ == old(self)@.insert(key@, value),
    {
        proof {
            self.lemma_laid_out();
        }
        let ghost old_ks = self.key_seq();
        let ghost old_vs = self.value_seq();
        let ghost old_map = self@;
        match self.find(key.as_str()) {
            Ok(i) => {
                let ghost k = key@;
                self.entries.set(i, (key, value));
                proof {
                    assert(self.key_seq() =~= old_ks);
                    assert(self.value_seq() =~= old_vs.update(i as int, value));
                    self.lemma_laid_out();
                    assert forall|k2: Seq<char>| #[trigger] self@.contains_key(k2) implies self@[k2]
                        == old_map.insert(k, value)[k2] by {
                        let j = old_ks.index_of(k2);
                        lemma_sorted_index(old_ks, j);
                    }
                    assert(self@ =~= old_map.insert(k, value));
                }
            },
            Err(p) => {
                let ghost k = key@;
                self.entries.insert(p, (key, value));
                proof {
                    let ks = self.key_seq();
                    assert(ks =~= old_ks.insert(p as int, k));
                    assert(self.value_seq() =~= old_vs.insert(p as int, value));
                    assert(strictly_sorted(ks)) by {
                        assert forall|a: int, b: int| 0 <= a < b < ks.len() implies text_lt(#[trigger] ks[a], #[trigger] ks[b]) by {
                            if b < p {
                            } else if a < p && b == p {
                            } else if a < p && b > p {
                                lemma_lt_transitive(ks[a], k, ks[b]);
                            } else if a == p {
                            } else {
                            }
                        }
                    }
                    self.lemma_laid_out();
                    assert forall|k2: Seq<char>| #[trigger] old_map.insert(k, value).contains_key(k2) implies self@.contains_key(k2) by {
                        if k2 == k {
                            assert(ks[p as int] == k);
                        } else {
                            let j = old_ks.index_of(k2);
                            if j < p {
                                assert(ks[j] == k2);
                            } else {
                                assert(ks[j + 1] == k2);
                            }
                        }
                    }
                    assert forall|k2: Seq<char>| #[trigger] self@.contains_key(k2) implies old_map.insert(k, value).contains_key(k2)
                        && self@[k2] == old_map.insert(k, value)[k2] by {
                        let j = ks.index_of(k2);
                        lemma_sorted_index(ks, j);
                        assert(ks[j] == k2);
                        assert(self@[k2] == self.value_seq()[j]);
                        if j < p {
                            assert(old_ks[j] == k2);
                            lemma_sorted_index(old_ks, j);
                            assert(old_map.contains_key(k2));
                            assert(k2 != k) by { lemma_lt_irreflexive(k); }
                            assert(old_map[k2] == old_vs[j]);
                        } else if j > p {
                            assert(old_ks[j - 1] == k2);
                            lemma_sorted_index(old_ks, j - 1);
                            assert(old_map.contains_key(k2));
                            assert(k2 != k) by { lemma_lt_irreflexive(k); }
                            assert(old_map[k2] == old_vs[j - 1]);
                        } else {
                            assert(k2 == k);
                        }
                    }
                    assert(self@ =~= old_map.insert(k, value));
                }
            },
        }
    }

    /// Removes `key` and hands back its value, if it had one.
    pub fn take(&mut self, key: &str) -> (r: Option<T>)
        requires
            old(self).wf(),
        ensures
            final(self).wf(),
            final(self)@ == old(self)@.remove(key@),
            r is Some <==> old(self)@.contains_key(key@),
            r matches Some(v) ==> v == old(self)@[key@],
    {
        proof {
            self.lemma_laid_out();
        }
        let ghost old_ks = self.key_seq();
        let ghost old_vs = self.value_seq();
        let ghost old_map = self@;
        match self.find(key) {
            Ok(i) => {
                let (_, v) = self.entries.remove(i);
                proof {
                    let ks = self.key_seq();
                    assert(ks =~= old_ks.remove(i as int));
                    assert(self.value_seq() =~= old_vs.remove(i as int));
                    assert(strictly_sorted(ks)) by {
                        assert forall|a: int, b: int| 0 <= a < b < ks.len() implies text_lt(#[trigger] ks[a], #[trigger] ks[b]) by {
                            if b < i {
                            } else if a < i {
                                assert(text_lt(old_ks[a], old_ks[b + 1]));
                            } else {
                                assert(text_lt(old_ks[a + 1], old_ks[b + 1]));
                            }
                        }
                    }
                    self.lemma_laid_out();
                    lemma_sorted_index(old_ks, i as int);
                    assert forall|k2: Seq<char>| #[trigger] old_map.remove(key@).contains_key(k2) implies self@.contains_key(k2) by {
                        let j = old_ks.index_of(k2);
                        if j < i {
                            assert(ks[j] == k2);
                        } else {
                            assert(ks[j - 1] == k2);
                        }
                    }
                    assert forall|k2: Seq<char>| #[trigger] self@.contains_key(k2) implies old_map.remove(key@).contains_key(k2)
                        && self@[k2] == old_map.remove(key@)[k2] by {
                        let j = ks.index_of(k2);
                        lemma_sorted_index(ks, j);
                        if j < i {
                            lemma_sorted_index(old_ks, j);
                        } else {
                            lemma_sorted_index(old_ks, j + 1);
                        }
                    }
                    assert(self@ =~= old_map.remove(key@));
                }
                Some(v)
            },
            Err(p) => {
                assert(!old_ks.contains(key@)) by {
                    if old_ks.contains(key@) {
                        let j = old_ks.index_of(key@);
                        lemma_lt_irreflexive(key@);
                        if j < p {
                            assert(text_lt(old_ks[j], key@));
                        } else {
                            assert(text_lt(key@, old_ks[j]));
                        }
                    }
                }
                assert(self@ =~= old_map.remove(key@));
                None
            },
        }
    }
}

} // verus!
