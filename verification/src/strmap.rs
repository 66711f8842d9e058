//! A map from strings to values that remembers the order in which keys were
//! first inserted. The games keep their players, guesses and word assignments
//! in it.

use vstd::prelude::*;

verus! {

/// A string-keyed map; each key occurs once, in insertion order.
pub struct StrMap<V> {
    keys: Vec<String>,
    vals: Vec<V>,
}

impl<V> StrMap<V> {
    /// The keys, in the order in which they were first inserted.
    pub closed spec fn keys_view(&self) -> Seq<Seq<char>> {
        self.keys@.map_values(|k: String| k@)
    }

    /// The values, in the order of their keys.
    pub closed spec fn vals_view(&self) -> Seq<V> {
        self.vals@
    }

    /// Keys and values pair up and no key occurs twice.
    pub open spec fn wf(&self) -> bool {
        &&& self.keys_view().len() == self.vals_view().len()
        &&& self.keys_view().no_duplicates()
    }

    /// The map that the keys and values make.
    pub open spec fn view(&self) -> Map<Seq<char>, V> {
        map_of(self.keys_view(), self.vals_view())
    }

    /// The entry at position `i` is in the map.
    pub proof fn lemma_view_at(&self, i: int)
        requires
            self.wf(),
            0 <= i < self.keys_view().len(),
        ensures
            self@.contains_key(self.keys_view()[i]),
            self@[self.keys_view()[i]] == self.vals_view()[i],
            self.keys_view().index_of(self.keys_view()[i]) == i,
    {
        let k = self.keys_view()[i];
        assert(self.keys_view().contains(k));
        let j = self.keys_view().index_of(k);
        assert(self.keys_view()[j] == k);
    }

    /// Every key of the map sits at some position.
    pub proof fn lemma_key_at(&self, k: Seq<char>) -> (i: int)
        requires
            self.wf(),
            self@.contains_key(k),
        ensures
            0 <= i < self.keys_view().len(),
            self.keys_view()[i] == k,
            self@[k] == self.vals_view()[i],
    {
        let i = self.keys_view().index_of(k);
        self.lemma_view_at(i);
        i
    }

    /// An empty map.
    pub fn new() -> (m: Self)
        ensures
            m.wf(),
            m.keys_view() == Seq::<Seq<char>>::empty(),
            m@ == Map::<Seq<char>, V>::empty(),
    {
        let m = StrMap { keys: Vec::new(), vals: Vec::new() };
        assert(m@ =~= Map::<Seq<char>, V>::empty());
        m
    }

    /// The number of entries.
    pub fn len(&self) -> (n: usize)
        requires
            self.wf(),
        ensures
            n == self.keys_view().len(),
            n == self.vals_view().len(),
    {
        self.keys.len()
    }

    /// The key at position `i`.
    pub fn key_at(&self, i: usize) -> (k: &String)
        requires
            self.wf(),
            i < self.keys_view().len(),
        ensures
            k@ == self.keys_view()[i as int],
    {
        &self.keys[i]
    }

    /// The value at position `i`.
    pub fn val_at(&self, i: usize) -> (v: &V)
        requires
            self.wf(),
            i < self.keys_view().len(),
        ensures
            *v == self.vals_view()[i as int],
    {
        &self.vals[i]
    }

    /// The position of `k`, if it is a key.
    pub fn find(&self, k: &String) -> (r: Option<usize>)
        requires
            self.wf(),
        ensures
            r is None <==> !self@.contains_key(k@),
            r matches Some(i) ==> i < self.keys_view().len() && self.keys_view()[i as int] == k@,
    {
        let n = self.keys.len();
        let mut i: usize = 0;
        while i < n
            invariant
                n == self.keys@.len(),
                i <= n,
                forall|j: int| 0 <= j < i ==> self.keys_view()[j] != k@,
            decreases n - i,
        {
            if self.keys[i] == *k {
                proof {
                    assert(self.keys_view()[i as int] == k@);
                    assert(self.keys_view().contains(k@));
                }
                return Some(i);
            }
            i = i + 1;
        }
        proof {
            if self.keys_view().contains(k@) {
                let j = self.keys_view().index_of(k@);
                assert(self.keys_view()[j] == k@);
            }
        }
        None
    }

    /// The value of `k`, if it is a key.
    pub fn get(&self, k: &String) -> (r: Option<&V>)
        requires
            self.wf(),
        ensures
            r is None <==> !self@.contains_key(k@),
            r matches Some(v) ==> *v == self@[k@],
    {
        match self.find(k) {
            Some(i) => {
                proof {
                    self.lemma_view_at(i as int);
                }
                Some(&self.vals[i])
            },
            None => None,
        }
    }

    /// Whether `k` is a key.
    pub fn contains_key(&self, k: &String) -> (b: bool)
        requires
            self.wf(),
        ensures
            b == self@.contains_key(k@),
    {
        self.find(k).is_some()
    }

    /// Adds `k` with value `v` at the end; `k` must not be a key yet.
    pub fn push_new(&mut self, k: String, v: V)
        requires
            old(self).wf(),
            !old(self)@.contains_key(k@),
        ensures
            final(self).wf(),
            final(self).keys_view() == old(self).keys_view().push(k@),
            final(self).vals_view() == old(self).vals_view().push(v),
            final(self)@ == old(self)@.insert(k@, v),
    {
        let ghost kv = k@;
        self.keys.push(k);
        self.vals.push(v);
        proof {
            assert(self.keys_view() =~= old(self).keys_view().push(kv));
            let ks = self.keys_view();
            assert forall|a: int, b: int| 0 <= a < b < ks.len() implies ks[a] != ks[b] by {
                if b == ks.len() - 1 {
                    assert(old(self).keys_view().contains(ks[a]) ==> old(self)@.contains_key(ks[a]));
                    assert(old(self).keys_view()[a] == ks[a]);
                }
            }
            assert forall|key: Seq<char>| #[trigger] self@.contains_key(key) implies old(self)@.insert(kv, v).contains_key(key) && self@[key] == old(self)@.insert(kv, v)[key] by {
                let i = self.lemma_key_at(key);
                if i < old(self).keys_view().len() {
                    old(self).lemma_view_at(i);
                }
            }
            assert forall|key: Seq<char>| #[trigger] old(self)@.insert(kv, v).contains_key(key) implies self@.contains_key(key) by {
                if key != kv {
                    let i = old(self).lemma_key_at(key);
                    assert(self.keys_view()[i] == key);
                } else {
                    assert(self.keys_view()[ks.len() - 1] == key);
                }
            }
            assert(self@ =~= old(self)@.insert(kv, v));
        }
    }

    /// A mutable reference to the value at position `i`.
    pub fn val_at_mut(&mut self, i: usize) -> (v: &mut V)
        requires
            old(self).wf(),
            i < old(self).keys_view().len(),
        ensures
            *v == old(self).vals_view()[i as int],
            final(self).wf(),
            final(self).keys_view() == old(self).keys_view(),
            final(self).vals_view() == old(self).vals_view().update(i as int, *final(v)),
            final(self)@ == old(self)@.insert(old(self).keys_view()[i as int], *final(v)),
    {
        proof {
            lemma_map_of_update(self.keys_view(), self.vals_view(), i as int);
        }
        &mut self.vals[i]
    }

    /// Sets the value at position `i`.
    pub fn set_at(&mut self, i: usize, v: V)
        requires
            old(self).wf(),
            i < old(self).keys_view().len(),
        ensures
            final(self).wf(),
            final(self).keys_view() == old(self).keys_view(),
            final(self).vals_view() == old(self).vals_view().update(i as int, v),
            final(self)@ == old(self)@.insert(old(self).keys_view()[i as int], v),
    {
        let ghost key = self.keys_view()[i as int];
        self.vals.set(i, v);
        proof {
            old(self).lemma_view_at(i as int);
            assert forall|k: Seq<char>| #[trigger] self@.contains_key(k) implies self@[k] == old(self)@.insert(key, v)[k] by {
                let j = self.lemma_key_at(k);
                if j != i {
                    old(self).lemma_view_at(j);
                }
            }
            assert(self@ =~= old(self)@.insert(key, v));
        }
    }

    /// Removes `k` and its value, if `k` is a key; the other keys keep their
    /// order.
    pub fn remove(&mut self, k: &String)
        requires
            old(self).wf(),
        ensures
            final(self).wf(),
            final(self)@ == old(self)@.remove(k@),
            final(self).keys_view() == old(self).keys_view().remove_value(k@),
    {
        match self.find(k) {
            Some(i) => {
                let ghost ok = old(self).keys_view();
                let ghost ov = old(self).vals_view();
                self.keys.remove(i);
                self.vals.remove(i);
                proof {
                    assert(self.keys_view() =~= ok.remove(i as int));
                    assert(ok.index_of(k@) == i) by {
                        old(self).lemma_view_at(i as int);
                    }
                    assert(ok.remove_value(k@) == ok.remove(i as int)) by {
                        ok.index_of_first_ensures(k@);
                        let f = ok.index_of_first(k@).unwrap();
                        if f != i {
                            old(self).lemma_view_at(f);
                        }
                    }
                    let ks = self.keys_view();
                    assert forall|a: int, b: int| 0 <= a < b < ks.len() implies ks[a] != ks[b] by {
                        let a0 = if a < i { a } else { a + 1 };
                        let b0 = if b < i { b } else { b + 1 };
                        assert(ks[a] == ok[a0] && ks[b] == ok[b0]);
                    }
                    assert forall|key: Seq<char>| #[trigger] self@.contains_key(key) implies old(self)@.remove(k@).contains_key(key) && self@[key] == old(self)@.remove(k@)[key] by {
                        let j = self.lemma_key_at(key);
                        let j0 = if j < i { j } else { j + 1 };
                        assert(ks[j] == ok[j0]);
                        old(self).lemma_view_at(j0);
                        assert(j0 != i);
                    }
                    assert forall|key: Seq<char>| #[trigger] old(self)@.remove(k@).contains_key(key) implies self@.contains_key(key) by {
                        let j0 = old(self).lemma_key_at(key);
                        assert(j0 != i);
                        let j = if j0 < i { j0 } else { j0 - 1 };
                        assert(ks[j] == key);
                    }
                    assert(self@ =~= old(self)@.remove(k@));
                }
            },
            None => {
                proof {
                    assert(old(self)@.remove(k@) =~= old(self)@);
                    old(self).keys_view().index_of_first_ensures(k@);
                }
            },
        }
    }

    /// Sets `k` to `v`, adding `k` at the end when it is new.
    pub fn insert(&mut self, k: String, v: V)
        requires
            old(self).wf(),
        ensures
            final(self).wf(),
            final(self)@ == old(self)@.insert(k@, v),
            old(self)@.contains_key(k@) ==> final(self).keys_view() == old(self).keys_view(),
            !old(self)@.contains_key(k@) ==> final(self).keys_view() == old(self).keys_view().push(k@),
    {
        match self.find(&k) {
            Some(i) => self.set_at(i, v),
            None => self.push_new(k, v),
        }
    }
}

/// The map that pairs each key with the value at the same position.
pub open spec fn map_of<V>(keys: Seq<Seq<char>>, vals: Seq<V>) -> Map<Seq<char>, V> {
    Map::new(|k: Seq<char>| keys.contains(k), |k: Seq<char>| vals[keys.index_of(k)])
}

/// Changing the value at one position changes the map at that position's key.
pub proof fn lemma_map_of_update<V>(keys: Seq<Seq<char>>, vals: Seq<V>, i: int)
    requires
        keys.len() == vals.len(),
        keys.no_duplicates(),
        0 <= i < keys.len(),
    ensures
        forall|v: V| #[trigger] map_of(keys, vals.update(i, v)) == map_of(keys, vals).insert(keys[i], v),
{
    assert forall|v: V| #[trigger] map_of(keys, vals.update(i, v)) == map_of(keys, vals).insert(keys[i], v) by {
        let m1 = map_of(keys, vals.update(i, v));
        let m2 = map_of(keys, vals).insert(keys[i], v);
        assert(keys.contains(keys[i]));
        assert forall|k: Seq<char>| #[trigger] m1.contains_key(k) implies m1[k] == m2[k] by {
            let j = keys.index_of(k);
            assert(keys[j] == k);
            if k == keys[i] {
                assert(j == i);
            }
        }
        assert(m1 =~= m2);
    }
}

/// Mapping the values after an insertion is inserting the mapped value.
pub proof fn lemma_map_values_insert<V, W>(m: Map<Seq<char>, V>, k: Seq<char>, f: spec_fn(V) -> W)
    ensures
        forall|v: V| #[trigger] m.insert(k, v).map_values(f) == m.map_values(f).insert(k, f(v)),
{
    assert forall|v: V| #[trigger] m.insert(k, v).map_values(f) == m.map_values(f).insert(k, f(v)) by {
        assert(m.insert(k, v).map_values(f) =~= m.map_values(f).insert(k, f(v)));
    }
}

} // verus!
