//! A small map keyed by text, kept in insertion order, for the child
//! environment and the command aliases of a session.
use vstd::prelude::*;
use crate::text::text_is;

verus! {

/// A map from texts to values. Each key occurs once; the entries keep the
/// order in which their keys were first inserted.
pub struct StrMap<V: DeepView> {
    entries: Vec<(String, V)>,
}

impl<V: DeepView> StrMap<V> {
    /// The keys of the entries, in order.
    pub closed spec fn keys(self) -> Seq<Seq<char>> {
        self.entries@.map_values(|e: (String, V)| e.0@)
    }

    /// The entries, in order.
    pub closed spec fn pairs(self) -> Seq<(Seq<char>, V::V)> {
        self.entries@.map_values(|e: (String, V)| (e.0@, e.1.deep_view()))
    }

    #[verifier::type_invariant]
    closed spec fn keys_distinct(self) -> bool {
        self.keys().no_duplicates()
    }

    /// An empty map.
    pub fn new() -> (m: Self)
        ensures
            m@ == Map::<Seq<char>, V::V>::empty(),
            m.pairs().len() == 0,
    {
        let m = StrMap { entries: Vec::new() };
        assert(m@ =~= Map::<Seq<char>, V::V>::empty());
        m
    }

    /// The position of `k` among the entries.
    fn find(&self, k: &str) -> (res: Option<usize>)
        ensures
            match res {
                Some(i) => i < self.entries.len() && self.keys()[i as int] == k@,
                None => !self.keys().contains(k@),
            },
    {
        let mut i: usize = 0;
        while i < self.entries.len()
            invariant
                i <= self.entries.len(),
                forall|j: int| 0 <= j < i ==> self.keys()[j] != k@,
            decreases self.entries.len() - i,
        {
            if text_is(&self.entries[i].0, k) {
                return Some(i);
            }
            i += 1;
        }
        None
    }

    /// The value stored for `k`, if any.
    pub fn get(&self, k: &str) -> (res: Option<&V>)
        ensures
            match res {
                Some(v) => self@.contains_key(k@) && v.deep_view() == self@[k@],
                None => !self@.contains_key(k@),
            },
    {
        proof {
            use_type_invariant(self);
        }
        match self.find(k) {
            Some(i) => {
                proof {
                    let j = self.keys().index_of(k@);
                    assert(self.keys().contains(k@));
                    assert(self.keys()[j] == k@);
                }
                Some(&self.entries[i].1)
            },
            None => None,
        }
    }

    /// Whether the map has an entry for `k`.
    pub fn contains(&self, k: &str) -> (res: bool)
        ensures
            res == self@.contains_key(k@),
    {
        self.find(k).is_some()
    }

    /// Stores `v` for `k`, in place of any value stored for it before.
    pub fn insert(&mut self, k: String, v: V)
        ensures
            final(self)@ == old(self)@.insert(k@, v.deep_view()),
    {
        proof {
            use_type_invariant(&*self);
        }
        let ghost old_keys = self.keys();
        let ghost old_map = self@;
        let ghost key = k@;
        let ghost dv = v.deep_view();
        match self.find(k.as_str()) {
            Some(i) => {
                let mut entries: Vec<(String, V)> = Vec::new();
                std::mem::swap(&mut entries, &mut self.entries);
                entries.set(i, (k, v));
                proof {
                    let nm = StrMap { entries };
                    assert(nm.keys() =~= old_keys);
                }
                self.entries = entries;
                proof {
                    assert(self.keys() =~= old_keys);
                    assert forall|kk: Seq<char>| #[trigger] self@.contains_key(kk) == old_map.insert(
                        key,
                        dv,
                    ).contains_key(kk) by {}
                    assert forall|kk: Seq<char>| self@.contains_key(kk) implies #[trigger] self@[kk]
                        == old_map.insert(key, dv)[kk] by {
                        let j = self.keys().index_of(kk);
                        let j0 = old_keys.index_of(kk);
                        assert(self.keys()[j] == kk);
                        assert(old_keys[j0] == kk);
                        assert(j == j0);
                        if kk == key {
                            assert(j == i);
                        }
                    }
                    assert(self@ =~= old_map.insert(key, dv));
                }
            },
            None => {
                let mut entries: Vec<(String, V)> = Vec::new();
                std::mem::swap(&mut entries, &mut self.entries);
                entries.push((k, v));
                proof {
                    let nm = StrMap { entries };
                    assert(nm.keys() =~= old_keys.push(key));
                    assert(nm.keys().no_duplicates()) by {
                        assert forall|a: int, b: int|
                            0 <= a < nm.keys().len() && 0 <= b < nm.keys().len() && a != b implies nm.keys()[a]
                            != nm.keys()[b] by {
                            if a == old_keys.len() {
                                assert(!old_keys.contains(key));
                                assert(old_keys[b] == nm.keys()[b]);
                            } else if b == old_keys.len() {
                                assert(old_keys[a] == nm.keys()[a]);
                            }
                        }
                    }
                }
                self.entries = entries;
                proof {
                    assert(self.keys() =~= old_keys.push(key));
                    assert forall|kk: Seq<char>| #[trigger] self@.contains_key(kk) == old_map.insert(
                        key,
                        dv,
                    ).contains_key(kk) by {
                        if old_keys.contains(kk) {
                            let j = old_keys.index_of(kk);
                            assert(self.keys()[j] == kk);
                        }
                        if kk == key {
                            assert(self.keys()[old_keys.len() as int] == kk);
                        }
                        if self.keys().contains(kk) && kk != key {
                            let j = self.keys().index_of(kk);
                            assert(j < old_keys.len());
                            assert(old_keys[j] == kk);
                        }
                    }
                    assert forall|kk: Seq<char>| self@.contains_key(kk) implies #[trigger] self@[kk]
                        == old_map.insert(key, dv)[kk] by {
                        let j = self.keys().index_of(kk);
                        assert(self.keys()[j] == kk);
                        if kk == key {
                            assert(self.keys()[old_keys.len() as int] == kk);
                            assert(j == old_keys.len());
                        } else {
                            assert(j < old_keys.len());
                            assert(old_keys[j] == kk);
                            let j0 = old_keys.index_of(kk);
                            assert(old_keys[j0] == kk);
                            assert(j == j0);
                        }
                    }
                    assert(self@ =~= old_map.insert(key, dv));
                }
            },
        }
    }

    /// Removes the entry for `k`, if there is one.
    pub fn remove(&mut self, k: &str)
        ensures
            final(self)@ == old(self)@.remove(k@),
    {
        proof {
            use_type_invariant(&*self);
        }
        let ghost old_keys = self.keys();
        let ghost old_map = self@;
        match self.find(k) {
            Some(i) => {
                let mut entries: Vec<(String, V)> = Vec::new();
                std::mem::swap(&mut entries, &mut self.entries);
                let _ = entries.remove(i);
                proof {
                    let nm = StrMap { entries };
                    assert(nm.keys() =~= old_keys.remove(i as int));
                    assert(nm.keys().no_duplicates()) by {
                        assert forall|a: int, b: int|
                            0 <= a < nm.keys().len() && 0 <= b < nm.keys().len() && a != b implies nm.keys()[a]
                            != nm.keys()[b] by {
                            let oa = if a < i { a } else { a + 1 };
                            let ob = if b < i { b } else { b + 1 };
                            assert(nm.keys()[a] == old_keys[oa]);
                            assert(nm.keys()[b] == old_keys[ob]);
                        }
                    }
                }
                self.entries = entries;
                proof {
                    assert(self.keys() =~= old_keys.remove(i as int));
                    assert forall|kk: Seq<char>| #[trigger] self@.contains_key(kk) == old_map.remove(
                        k@,
                    ).contains_key(kk) by {
                        if self.keys().contains(kk) {
                            let j = self.keys().index_of(kk);
                            let oj = if j < i { j } else { j + 1 };
                            assert(old_keys[oj] == kk);
                            assert(oj != i);
                        }
                        if old_keys.contains(kk) && kk != k@ {
                            let oj = old_keys.index_of(kk);
                            assert(oj != i);
                            let j = if oj < i { oj } else { oj - 1 };
                            assert(self.keys()[j] == kk);
                        }
                    }
                    assert forall|kk: Seq<char>| self@.contains_key(kk) implies #[trigger] self@[kk]
                        == old_map.remove(k@)[kk] by {
                        let j = self.keys().index_of(kk);
                        let oj = if j < i { j } else { j + 1 };
                        assert(self.keys()[j] == kk);
                        assert(old_keys[oj] == kk);
                        let j0 = old_keys.index_of(kk);
                        assert(old_keys[j0] == kk);
                        assert(oj == j0);
                    }
                    assert(self@ =~= old_map.remove(k@));
                }
            },
            None => {
                proof {
                    assert(self@ =~= old_map.remove(k@));
                }
            },
        }
    }

    /// The number of entries. The entries have distinct keys, and the map
    /// holds exactly them.
    pub fn len(&self) -> (n: usize)
        ensures
            n == self.pairs().len(),
            forall|i: int, j: int|
                0 <= i < self.pairs().len() && 0 <= j < self.pairs().len() && i != j ==> (#[trigger] self.pairs()[i]).0
                    != (#[trigger] self.pairs()[j]).0,
            forall|i: int|
                0 <= i < self.pairs().len() ==> self@.contains_key((#[trigger] self.pairs()[i]).0)
                    && self@[self.pairs()[i].0] == self.pairs()[i].1,
            forall|k: Seq<char>|
                #[trigger] self@.contains_key(k) ==> exists|i: int|
                    0 <= i < self.pairs().len() && (#[trigger] self.pairs()[i]).0 == k,
    {
        proof {
            use_type_invariant(self);
            self.lemma_pairs();
        }
        self.entries.len()
    }

    /// The key of the `i`-th entry.
    pub fn key_at(&self, i: usize) -> (k: &String)
        requires
            i < self.pairs().len(),
        ensures
            k@ == self.pairs()[i as int].0,
    {
        &self.entries[i].0
    }

    /// The value of the `i`-th entry.
    pub fn value_at(&self, i: usize) -> (v: &V)
        requires
            i < self.pairs().len(),
        ensures
            v.deep_view() == self.pairs()[i as int].1,
    {
        &self.entries[i].1
    }
}

impl<V: DeepView> StrMap<V> {
    /// The entries, in order, have distinct keys, and the map holds exactly
    /// them.
    proof fn lemma_pairs(self)
        requires
            self.keys().no_duplicates(),
        ensures
            forall|i: int, j: int|
                0 <= i < self.pairs().len() && 0 <= j < self.pairs().len() && i != j ==> (#[trigger] self.pairs()[i]).0
                    != (#[trigger] self.pairs()[j]).0,
            forall|i: int|
                0 <= i < self.pairs().len() ==> self@.contains_key((#[trigger] self.pairs()[i]).0)
                    && self@[self.pairs()[i].0] == self.pairs()[i].1,
            forall|k: Seq<char>|
                #[trigger] self@.contains_key(k) ==> exists|i: int|
                    0 <= i < self.pairs().len() && (#[trigger] self.pairs()[i]).0 == k,
    {
        assert forall|i: int, j: int|
            0 <= i < self.pairs().len() && 0 <= j < self.pairs().len() && i != j implies (#[trigger] self.pairs()[i]).0
                != (#[trigger] self.pairs()[j]).0 by {
            assert(self.keys()[i] == self.pairs()[i].0);
            assert(self.keys()[j] == self.pairs()[j].0);
        }
        assert forall|i: int| 0 <= i < self.pairs().len() implies self@.contains_key(
            (#[trigger] self.pairs()[i]).0,
        ) && self@[self.pairs()[i].0] == self.pairs()[i].1 by {
            let k = self.keys()[i];
            assert(self.keys().contains(k));
            let j = self.keys().index_of(k);
            assert(self.keys()[j] == k);
        }
        assert forall|k: Seq<char>| #[trigger] self@.contains_key(k) implies exists|i: int|
            0 <= i < self.pairs().len() && (#[trigger] self.pairs()[i]).0 == k by {
            let i = self.keys().index_of(k);
            assert(self.pairs()[i].0 == k);
        }
    }

}

impl<V: DeepView> View for StrMap<V> {
    type V = Map<Seq<char>, V::V>;

    closed spec fn view(&self) -> Map<Seq<char>, V::V> {
        Map::new(
            |k: Seq<char>| self.keys().contains(k),
            |k: Seq<char>| self.entries@[self.keys().index_of(k)].1.deep_view(),
        )
    }
}

} // verus!
