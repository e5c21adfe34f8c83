//! `KeyMap`: a map from string keys to values, kept as two parallel vectors in
//! which no key occurs twice. It stands where the server keeps a
//! `HashMap<String, _>`; lookups compare keys by their characters.
use crate::text::str_eq;
use vstd::prelude::*;

verus! {

/// A map from string keys to values. Keys are kept in the order in which they
/// were first inserted; no key occurs twice.
#[verifier::reject_recursive_types(V)]
pub struct KeyMap<V> {
    keys: Vec<String>,
    vals: Vec<V>,
}

/// The views of a sequence of strings.
pub open spec fn str_views(s: Seq<String>) -> Seq<Seq<char>> {
    Seq::new(s.len(), |i: int| s[i]@)
}

/// `s[i]` is the only place where `s[i]` occurs, so `index_of` finds it.
pub proof fn lemma_index_of_unique<A>(s: Seq<A>, i: int)
    requires
        s.no_duplicates(),
        0 <= i < s.len(),
    ensures
        s.index_of(s[i]) == i,
{
    let j = s.index_of(s[i]);
    assert(s.contains(s[i]));
}

impl<V> KeyMap<V> {
    /// The keys, in their order in the map.
    pub closed spec fn key_order(&self) -> Seq<Seq<char>> {
        str_views(self.keys@)
    }

    #[verifier::type_invariant]
    closed spec fn inv(&self) -> bool {
        &&& self.keys@.len() == self.vals@.len()
        &&& self.key_order().no_duplicates()
    }

}

impl<V: View> View for KeyMap<V> {
    type V = Map<Seq<char>, V::V>;

    /// Each key of `key_order` mapped to the view of its value.
    closed spec fn view(&self) -> Map<Seq<char>, V::V> {
        Map::new(
            |k: Seq<char>| self.key_order().contains(k),
            |k: Seq<char>| self.vals@[self.key_order().index_of(k)]@,
        )
    }
}

impl<V: View> KeyMap<V> {

    /// The value stored under `k` itself (its view is `self@[k]`).
    pub closed spec fn value_of(&self, k: Seq<char>) -> V {
        self.vals@[self.key_order().index_of(k)]
    }

    proof fn lemma_view_at(&self, i: int)
        requires
            self.inv(),
            0 <= i < self.keys@.len(),
        ensures
            self@.contains_key(self.key_order()[i]),
            self@[self.key_order()[i]] == self.vals@[i]@,
    {
        lemma_index_of_unique(self.key_order(), i);
    }

    /// An empty map.
    pub fn new() -> (m: Self)
        ensures
            m@ == Map::<Seq<char>, V::V>::empty(),
            m.key_order() == Seq::<Seq<char>>::empty(),
    {
        let m = KeyMap { keys: Vec::new(), vals: Vec::new() };
        assert(m@ =~= Map::<Seq<char>, V::V>::empty());
        assert(m.key_order() =~= Seq::<Seq<char>>::empty());
        m
    }

    /// The number of keys.
    pub fn len(&self) -> (n: usize)
        ensures
            n == self.key_order().len(),
            n == self@.len(),
            self.key_order().no_duplicates(),
            self.key_order().to_set() == self@.dom(),
    {
        proof {
            use_type_invariant(self);
            self.lemma_dom();
        }
        self.keys.len()
    }

    proof fn lemma_dom(&self)
        requires
            self.inv(),
        ensures
            self.key_order().to_set() == self@.dom(),
            self@.len() == self.key_order().len(),
            self@.dom().finite(),
    {
        assert(self.key_order().to_set() =~= self@.dom());
        self.key_order().unique_seq_to_set();
    }

    /// The position of `k` in `key_order`, if it is a key.
    pub fn find(&self, k: &str) -> (r: Option<usize>)
        ensures
            match r {
                Some(i) => i < self.key_order().len() && self.key_order()[i as int] == k@
                    && self@.contains_key(k@),
                None => !self@.contains_key(k@),
            },
    {
        proof {
            use_type_invariant(self);
        }
        let mut i: usize = 0;
        while i < self.keys.len()
            invariant
                self.inv(),
                i <= self.keys@.len(),
                forall|j: int| 0 <= j < i ==> self.key_order()[j] != k@,
            decreases self.keys.len() - i,
        {
            if str_eq(self.keys[i].as_str(), k) {
                proof {
                    self.lemma_view_at(i as int);
                }
                return Some(i);
            }
            i = i + 1;
        }
        None
    }

    /// Whether `k` is a key.
    pub fn contains_key(&self, k: &str) -> (r: bool)
        ensures
            r == self@.contains_key(k@),
    {
        self.find(k).is_some()
    }

    /// The value stored under `k`.
    pub fn get(&self, k: &str) -> (r: Option<&V>)
        ensures
            match r {
                Some(v) => self@.contains_key(k@) && v@ == self@[k@] && *v == self.value_of(k@),
                None => !self@.contains_key(k@),
            },
    {
        proof {
            use_type_invariant(self);
        }
        match self.find(k) {
            Some(i) => {
                proof {
                    self.lemma_view_at(i as int);
                }
                Some(&self.vals[i])
            },
            None => None,
        }
    }

    /// The key at position `i` of `key_order`.
    pub fn key_at(&self, i: usize) -> (r: &String)
        requires
            i < self.key_order().len(),
        ensures
            r@ == self.key_order()[i as int],
    {
        proof {
            use_type_invariant(self);
        }
        &self.keys[i]
    }

    /// The value at position `i` of `key_order`.
    pub fn value_at(&self, i: usize) -> (r: &V)
        requires
            i < self.key_order().len(),
        ensures
            r@ == self@[self.key_order()[i as int]],
            *r == self.value_of(self.key_order()[i as int]),
    {
        proof {
            use_type_invariant(self);
            self.lemma_view_at(i as int);
        }
        &self.vals[i]
    }
}


impl<V: View> KeyMap<V> {
    /// Stores `v` under `k`, replacing any value already stored there. A new key
    /// goes to the end of `key_order`.
    pub fn insert(&mut self, k: String, v: V)
        ensures
            final(self)@ == old(self)@.insert(k@, v@),
            old(self)@.contains_key(k@) ==> final(self).key_order() == old(self).key_order(),
            !old(self)@.contains_key(k@) ==> final(self).key_order() == old(self).key_order().push(k@),
    {
        proof {
            use_type_invariant(&*self);
        }
        let ghost kv = k@;
        let ghost vv = v@;
        let found = self.find(k.as_str());
        let mut taken = KeyMap::new();
        std::mem::swap(self, &mut taken);
        let KeyMap { keys: mut keys, vals: mut vals } = taken;
        match found {
            Some(i) => {
                let mut v = v;
                vals.set_and_swap(i, &mut v);
                *self = KeyMap { keys, vals };
                proof {
                    let ko = self.key_order();
                    assert(ko == old(self).key_order());
                    lemma_index_of_unique(ko, i as int);
                    assert forall|q: Seq<char>| ko.contains(q) && q != kv implies ko.index_of(q) != i
                        && self.vals@[ko.index_of(q)] == old(self).vals@[ko.index_of(q)] by {}
                    assert(self@ =~= old(self)@.insert(kv, vv));
                }
            },
            None => {
                let ghost ko = old(self).key_order();
                keys.push(k);
                vals.push(v);
                proof {
                    let ko2 = str_views(keys@);
                    assert(ko2 =~= ko.push(kv));
                    assert(!ko.contains(kv));
                    assert(ko2.no_duplicates()) by {
                        assert forall|a: int, b: int| 0 <= a < ko2.len() && 0 <= b < ko2.len() && a != b
                            implies ko2[a] != ko2[b] by {
                            if a < ko.len() && b < ko.len() {
                            } else if a == ko.len() {
                                assert(ko[b] == ko2[b]);
                            } else {
                                assert(ko[a] == ko2[a]);
                            }
                        }
                    }
                }
                *self = KeyMap { keys, vals };
                proof {
                    let ko2 = self.key_order();
                    let ov = old(self).vals@;
                    assert(self.vals@ == ov.push(self.vals@[ov.len() as int]));
                    assert(ko2 =~= ko.push(kv));
                    lemma_index_of_unique(ko2, ko.len() as int);
                    assert(ko2.index_of(kv) == ko.len());
                    assert forall|q: Seq<char>| ko.contains(q) implies ko2.index_of(q) == ko.index_of(q)
                        && ko2.index_of(q) < ko.len() && self.vals@[ko2.index_of(q)] == ov[ko.index_of(q)] by {
                        let j = ko.index_of(q);
                        assert(ko2[j] == q);
                        lemma_index_of_unique(ko2, j);
                    }
                    assert forall|q: Seq<char>| #[trigger] self@.contains_key(q) <==> old(self)@.insert(kv, vv).contains_key(q) by {
                        if q == kv {
                            assert(ko2[ko.len() as int] == q);
                        } else if ko2.contains(q) {
                            let j = ko2.index_of(q);
                            assert(ko[j] == q);
                        } else if ko.contains(q) {
                            let j = ko.index_of(q);
                            assert(ko2[j] == q);
                        }
                    }
                    assert(self@ =~= old(self)@.insert(kv, vv));
                }
            },
        }
    }
}


impl<V: View> KeyMap<V> {
    /// Removes `k` and returns its value; the other keys keep their order.
    pub fn remove(&mut self, k: &str) -> (r: Option<V>)
        ensures
            final(self)@ == old(self)@.remove(k@),
            match r {
                Some(v) => old(self)@.contains_key(k@) && v@ == old(self)@[k@],
                None => !old(self)@.contains_key(k@),
            },
            old(self)@.contains_key(k@) ==> final(self).key_order() == old(self).key_order().remove(
                old(self).key_order().index_of(k@),
            ),
            !old(self)@.contains_key(k@) ==> final(self).key_order() == old(self).key_order(),
            forall|q: Seq<char>| q != k@ && old(self)@.contains_key(q) ==> final(self).value_of(q) == old(self).value_of(q),
    {
        proof {
            use_type_invariant(&*self);
        }
        let found = self.find(k);
        match found {
            None => {
                proof {
                    assert(old(self)@.remove(k@) =~= old(self)@);
                }
                None
            },
            Some(i) => {
                proof {
                    old(self).lemma_view_at(i as int);
                    lemma_index_of_unique(old(self).key_order(), i as int);
                }
                let mut taken = KeyMap::new();
                std::mem::swap(self, &mut taken);
                let KeyMap { keys: mut keys, vals: mut vals } = taken;
                let ghost ko = old(self).key_order();
                let ghost ov = old(self).vals@;
                let _ = keys.remove(i);
                let v = vals.remove(i);
                proof {
                    let ko2 = str_views(keys@);
                    assert(ko2 =~= ko.remove(i as int));
                    assert(ko2.no_duplicates()) by {
                        assert forall|a: int, b: int| 0 <= a < ko2.len() && 0 <= b < ko2.len() && a != b
                            implies ko2[a] != ko2[b] by {
                            let a1 = if a < i { a } else { a + 1 };
                            let b1 = if b < i { b } else { b + 1 };
                            assert(ko2[a] == ko[a1]);
                            assert(ko2[b] == ko[b1]);
                        }
                    }
                }
                *self = KeyMap { keys, vals };
                proof {
                    let ko2 = self.key_order();
                    let kv = k@;
                    assert(ko2 =~= ko.remove(i as int));
                    assert forall|q: Seq<char>| ko.contains(q) && q != kv implies ko2.contains(q)
                        && self.vals@[ko2.index_of(q)] == ov[ko.index_of(q)]
                        && self.value_of(q) == old(self).value_of(q) by {
                        let j = ko.index_of(q);
                        assert(j != i);
                        let j2 = if j < i { j } else { j - 1 };
                        assert(ko2[j2] == q);
                        lemma_index_of_unique(ko2, j2);
                    }
                    assert forall|q: Seq<char>| #[trigger] self@.contains_key(q) <==> old(self)@.remove(kv).contains_key(q) by {
                        if ko2.contains(q) {
                            let j2 = ko2.index_of(q);
                            let j = if j2 < i { j2 } else { j2 + 1 };
                            assert(ko[j] == q);
                            assert(j != i);
                        }
                    }
                    assert(self@ =~= old(self)@.remove(kv));
                }
                Some(v)
            },
        }
    }

    /// Replaces the value at position `i` of `key_order` by `v` and returns the
    /// value that was there.
    pub fn update_at(&mut self, i: usize, v: V) -> (r: V)
        requires
            i < old(self).key_order().len(),
        ensures
            final(self)@ == old(self)@.insert(old(self).key_order()[i as int], v@),
            final(self).key_order() == old(self).key_order(),
            old(self)@.contains_key(old(self).key_order()[i as int]),
            r@ == old(self)@[old(self).key_order()[i as int]],
    {
        proof {
            use_type_invariant(&*self);
            old(self).lemma_view_at(i as int);
        }
        let ghost vv = v@;
        let mut taken = KeyMap::new();
        std::mem::swap(self, &mut taken);
        let KeyMap { keys, vals: mut vals } = taken;
        let mut v = v;
        vals.set_and_swap(i, &mut v);
        *self = KeyMap { keys, vals };
        proof {
            let ko = self.key_order();
            let kv = ko[i as int];
            assert(ko == old(self).key_order());
            lemma_index_of_unique(ko, i as int);
            assert forall|q: Seq<char>| ko.contains(q) && q != kv implies ko.index_of(q) != i
                && self.vals@[ko.index_of(q)] == old(self).vals@[ko.index_of(q)] by {}
            assert(self@ =~= old(self)@.insert(kv, vv));
        }
        v
    }

    /// Removes every key.
    pub fn clear(&mut self)
        ensures
            final(self)@ == Map::<Seq<char>, V::V>::empty(),
            final(self).key_order() == Seq::<Seq<char>>::empty(),
    {
        *self = KeyMap::new();
    }
}

impl<V: View> KeyMap<V> {
    /// Copies of the keys, in `key_order`.
    pub fn keys(&self) -> (r: Vec<String>)
        ensures
            str_views(r@) == self.key_order(),
            self.key_order().no_duplicates(),
            self.key_order().to_set() == self@.dom(),
    {
        proof {
            use_type_invariant(self);
            self.lemma_dom();
        }
        let mut r: Vec<String> = Vec::new();
        let mut i: usize = 0;
        while i < self.keys.len()
            invariant
                self.inv(),
                i <= self.keys@.len(),
                str_views(r@) == self.key_order().take(i as int),
            decreases self.keys.len() - i,
        {
            let ghost prev = r@;
            let c = self.keys[i].clone();
            assert(c@ == self.key_order()[i as int]);
            r.push(c);
            assert(r@ == prev.push(c));
            assert(str_views(prev) == self.key_order().take(i as int));
            assert(self.key_order().len() == self.keys@.len());
            assert(self.key_order().take(i as int).len() == i);
            assert(str_views(prev).len() == prev.len());
            assert(prev.len() == i);
            assert forall|j: int| 0 <= j < i + 1 implies #[trigger] r@[j]@ == self.key_order()[j] by {
                if j < i {
                    assert(prev[j]@ == str_views(prev)[j]);
                }
            }
            assert(str_views(r@) =~= self.key_order().take(i + 1));
            i = i + 1;
        }
        assert(self.key_order().take(i as int) =~= self.key_order());
        r
    }
}

} // verus!
