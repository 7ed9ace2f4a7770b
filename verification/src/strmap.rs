//! A small map from text to values that remembers the order in which its keys
//! came, and holds each key once.

use crate::text::same_text;
use vstd::prelude::*;

verus! {

/// The map that pairs `keys[i]` with `values[i]`.
pub open spec fn map_of<T>(keys: Seq<Seq<char>>, values: Seq<T>) -> Map<Seq<char>, T> {
    Map::new(|k: Seq<char>| keys.contains(k), |k: Seq<char>| values[keys.index_of(k)])
}

/// Where the keys are distinct, `map_of` sends each key to the value at its place.
pub proof fn lemma_map_of_index<T>(keys: Seq<Seq<char>>, values: Seq<T>, i: int)
    requires
        keys.no_duplicates(),
        keys.len() == values.len(),
        0 <= i < keys.len(),
    ensures
        map_of(keys, values).contains_key(keys[i]),
        map_of(keys, values)[keys[i]] == values[i],
        keys.index_of(keys[i]) == i,
{
    assert(keys.contains(keys[i]));
    let j = keys.index_of(keys[i]);
    assert(0 <= j < keys.len() && keys[j] == keys[i]);
}

/// A new key at the end is an insertion.
pub proof fn lemma_map_of_push<T>(keys: Seq<Seq<char>>, values: Seq<T>, k: Seq<char>, v: T)
    requires
        keys.no_duplicates(),
        keys.len() == values.len(),
        !keys.contains(k),
    ensures
        keys.push(k).no_duplicates(),
        map_of(keys.push(k), values.push(v)) == map_of(keys, values).insert(k, v),
{
    let keys2 = keys.push(k);
    let values2 = values.push(v);
    assert forall|i: int, j: int|
        0 <= i < keys2.len() && 0 <= j < keys2.len() && i != j implies keys2[i] != keys2[j] by {
        if i < keys.len() {
            assert(keys.contains(keys[i]));
        }
        if j < keys.len() {
            assert(keys.contains(keys[j]));
        }
    }
    assert forall|x: Seq<char>| keys2.contains(x) <==> (x == k || keys.contains(x)) by {
        if keys2.contains(x) {
            let i = keys2.index_of(x);
            if i < keys.len() {
                assert(keys[i] == x);
            }
        }
        if keys.contains(x) {
            let i = keys.index_of(x);
            assert(keys2[i] == x);
        }
        if x == k {
            assert(keys2[keys.len() as int] == x);
        }
    }
    assert forall|x: Seq<char>| keys2.contains(x) implies #[trigger] map_of(keys2, values2)[x]
        == map_of(keys, values).insert(k, v)[x] by {
        let i = keys2.index_of(x);
        lemma_map_of_index(keys2, values2, i);
        if i < keys.len() {
            lemma_map_of_index(keys, values, i);
        }
    }
    assert(map_of(keys2, values2) =~= map_of(keys, values).insert(k, v));
}

/// A new value at the place of a key is an insertion under that key.
pub proof fn lemma_map_of_update<T>(keys: Seq<Seq<char>>, values: Seq<T>, i: int, v: T)
    requires
        keys.no_duplicates(),
        keys.len() == values.len(),
        0 <= i < keys.len(),
    ensures
        map_of(keys, values.update(i, v)) == map_of(keys, values).insert(keys[i], v),
{
    let values2 = values.update(i, v);
    assert(keys.contains(keys[i]));
    assert forall|x: Seq<char>| keys.contains(x) implies #[trigger] map_of(keys, values2)[x]
        == map_of(keys, values).insert(keys[i], v)[x] by {
        let j = keys.index_of(x);
        lemma_map_of_index(keys, values2, j);
        lemma_map_of_index(keys, values, j);
    }
    assert(map_of(keys, values2) =~= map_of(keys, values).insert(keys[i], v));
}

/// Taking out the pair at a place removes its key.
pub proof fn lemma_map_of_remove<T>(keys: Seq<Seq<char>>, values: Seq<T>, i: int)
    requires
        keys.no_duplicates(),
        keys.len() == values.len(),
        0 <= i < keys.len(),
    ensures
        keys.remove(i).no_duplicates(),
        map_of(keys.remove(i), values.remove(i)) == map_of(keys, values).remove(keys[i]),
{
    let keys2 = keys.remove(i);
    let values2 = values.remove(i);
    assert forall|a: int| 0 <= a < keys2.len() implies #[trigger] keys2[a] == keys[if a < i {
        a
    } else {
        a + 1
    }] by {}
    assert forall|x: Seq<char>| keys2.contains(x) <==> (x != keys[i] && keys.contains(x)) by {
        if keys2.contains(x) {
            let a = keys2.index_of(x);
            let b = if a < i {
                a
            } else {
                a + 1
            };
            assert(keys[b] == x);
        }
        if x != keys[i] && keys.contains(x) {
            let b = keys.index_of(x);
            let a = if b < i {
                b
            } else {
                b - 1
            };
            assert(keys2[a] == x);
        }
    }
    assert forall|x: Seq<char>| keys2.contains(x) implies #[trigger] map_of(keys2, values2)[x]
        == map_of(keys, values).remove(keys[i])[x] by {
        let a = keys2.index_of(x);
        let b = if a < i {
            a
        } else {
            a + 1
        };
        lemma_map_of_index(keys2, values2, a);
        lemma_map_of_index(keys, values, b);
    }
    assert(map_of(keys2, values2) =~= map_of(keys, values).remove(keys[i]));
}

/// One pair of a `StrMap`.
#[derive(Debug)]
struct Entry<T> {
    key: String,
    value: T,
}

/// A map from text to `T`. Its view is a `Map` over the keys' characters;
/// `keys()` and `values()` give its pairs in the order in which the keys were
/// first inserted.
#[derive(Debug)]
pub struct StrMap<T> {
    items: Vec<Entry<T>>,
}

impl<T> View for StrMap<T> {
    type V = Map<Seq<char>, T>;

    open spec fn view(&self) -> Map<Seq<char>, T> {
        map_of(self.keys(), self.values())
    }
}

impl<T: Clone> Clone for StrMap<T> {
    /// A map with the same keys in the same order, each value a clone.
    fn clone(&self) -> (r: Self)
        ensures
            r.keys() == self.keys(),
            r.values().len() == self.values().len(),
            forall|i: int|
                0 <= i < self.values().len() ==> cloned::<T>(
                    self.values()[i],
                    #[trigger] r.values()[i],
                ),
    {
        proof {
            use_type_invariant(self);
        }
        let mut items: Vec<Entry<T>> = Vec::new();
        let mut i: usize = 0;
        while i < self.items.len()
            invariant
                i <= self.items.len(),
                items@.len() == i,
                forall|j: int| 0 <= j < i ==> items@[j].key@ == self.items@[j].key@,
                forall|j: int|
                    0 <= j < i ==> cloned::<T>(self.items@[j].value, #[trigger] items@[j].value),
            decreases self.items.len() - i,
        {
            let key = self.items[i].key.clone();
            let value = self.items[i].value.clone();
            items.push(Entry { key, value });
            i = i + 1;
        }
        assert(Seq::new(items@.len(), |j: int| items@[j].key@) == self.keys());
        StrMap { items }
    }
}

impl<T> StrMap<T> {
    /// The keys, oldest first.
    pub closed spec fn keys(&self) -> Seq<Seq<char>> {
        Seq::new(self.items@.len(), |i: int| self.items@[i].key@)
    }

    /// The values, in the order of their keys.
    pub closed spec fn values(&self) -> Seq<T> {
        Seq::new(self.items@.len(), |i: int| self.items@[i].value)
    }

    /// No key stands twice.
    pub open spec fn distinct(&self) -> bool {
        &&& self.keys().no_duplicates()
        &&& self.keys().len() == self.values().len()
    }

    #[verifier::type_invariant]
    spec fn inv(&self) -> bool {
        self.keys().no_duplicates()
    }

    /// The empty map.
    pub fn new() -> (m: StrMap<T>)
        ensures
            m@ == Map::<Seq<char>, T>::empty(),
            m.keys() == Seq::<Seq<char>>::empty(),
            m.values() == Seq::<T>::empty(),
    {
        let m = StrMap { items: Vec::new() };
        assert(m.keys() == Seq::<Seq<char>>::empty());
        assert(m.values() == Seq::<T>::empty());
        assert(m@ =~= Map::<Seq<char>, T>::empty());
        m
    }

    /// The number of keys.
    pub fn len(&self) -> (n: usize)
        ensures
            n == self.keys().len(),
            n == self@.dom().len(),
            self@.dom().finite(),
            self.distinct(),
    {
        proof {
            use_type_invariant(self);
            self.keys().unique_seq_to_set();
            assert(self.keys().to_set() =~= self@.dom());
        }
        self.items.len()
    }

    /// Where `key` stands among the keys.
    fn position(&self, key: &str) -> (r: Option<usize>)
        ensures
            self.distinct(),
            match r {
                Some(i) => i < self.keys().len() && self.keys()[i as int] == key@,
                None => !self.keys().contains(key@),
            },
    {
        proof {
            use_type_invariant(self);
        }
        let mut i: usize = 0;
        while i < self.items.len()
            invariant
                i <= self.items.len(),
                self.distinct(),
                self.keys().len() == self.items.len(),
                forall|j: int| 0 <= j < i ==> self.keys()[j] != key@,
            decreases self.items.len() - i,
        {
            if same_text(self.items[i].key.as_str(), key) {
                return Some(i);
            }
            i = i + 1;
        }
        None
    }

    /// Whether `key` is in the map.
    pub fn contains_key(&self, key: &str) -> (r: bool)
        ensures
            r == self@.contains_key(key@),
    {
        self.position(key).is_some()
    }

    /// The value under `key`.
    pub fn get(&self, key: &str) -> (r: Option<&T>)
        ensures
            match r {
                Some(v) => self@.contains_key(key@) && *v == self@[key@],
                None => !self@.contains_key(key@),
            },
    {
        match self.position(key) {
            Some(i) => {
                proof {
                    lemma_map_of_index(self.keys(), self.values(), i as int);
                }
                Some(&self.items[i].value)
            },
            None => None,
        }
    }

    /// The key at place `i`.
    pub fn key_at(&self, i: usize) -> (r: &str)
        requires
            i < self.keys().len(),
        ensures
            r@ == self.keys()[i as int],
            self@.contains_key(r@),
            self@[r@] == self.values()[i as int],
            self.distinct(),
    {
        proof {
            use_type_invariant(self);
            lemma_map_of_index(self.keys(), self.values(), i as int);
        }
        self.items[i].key.as_str()
    }

    /// The value at place `i`.
    pub fn value_at(&self, i: usize) -> (r: &T)
        requires
            i < self.keys().len(),
        ensures
            *r == self.values()[i as int],
            self@[self.keys()[i as int]] == *r,
            self.distinct(),
    {
        proof {
            use_type_invariant(self);
            lemma_map_of_index(self.keys(), self.values(), i as int);
        }
        &self.items[i].value
    }

    /// Puts `value` under `key` and hands back what stood there. A key that is
    /// already in the map keeps its place; a new one goes to the end.
    pub fn insert(&mut self, key: String, value: T) -> (r: Option<T>)
        ensures
            final(self)@ == old(self)@.insert(key@, value),
            r == if old(self)@.contains_key(key@) {
                Some(old(self)@[key@])
            } else {
                None
            },
            final(self).keys() == if old(self)@.contains_key(key@) {
                old(self).keys()
            } else {
                old(self).keys().push(key@)
            },
    {
        let found = self.position(key.as_str());
        let ghost keys = self.keys();
        let ghost values = self.values();
        let mut items: Vec<Entry<T>> = Vec::new();
        core::mem::swap(&mut self.items, &mut items);
        let r = match found {
            Some(i) => {
                proof {
                    lemma_map_of_index(keys, values, i as int);
                    lemma_map_of_update(keys, values, i as int, value);
                }
                let before = items.remove(i);
                items.insert(i, Entry { key, value });
                Some(before.value)
            },
            None => {
                proof {
                    lemma_map_of_push(keys, values, key@, value);
                }
                items.push(Entry { key, value });
                None
            },
        };
        assert(Seq::new(items@.len(), |i: int| items@[i].key@) == if found is Some {
            keys
        } else {
            keys.push(key@)
        });
        assert(Seq::new(items@.len(), |i: int| items@[i].value) == if found is Some {
            values.update(found->0 as int, value)
        } else {
            values.push(value)
        });
        core::mem::swap(&mut self.items, &mut items);
        r
    }

    /// Takes `key` out of the map and hands back what stood under it. The
    /// keys that stay keep their order.
    pub fn remove(&mut self, key: &str) -> (r: Option<T>)
        ensures
            final(self)@ == old(self)@.remove(key@),
            r == if old(self)@.contains_key(key@) {
                Some(old(self)@[key@])
            } else {
                None
            },
            final(self).keys() == if old(self)@.contains_key(key@) {
                old(self).keys().remove(old(self).keys().index_of(key@))
            } else {
                old(self).keys()
            },
    {
        let found = self.position(key);
        let ghost keys = self.keys();
        let ghost values = self.values();
        match found {
            Some(i) => {
                proof {
                    lemma_map_of_index(keys, values, i as int);
                    lemma_map_of_remove(keys, values, i as int);
                }
                let mut items: Vec<Entry<T>> = Vec::new();
                core::mem::swap(&mut self.items, &mut items);
                let before = items.remove(i);
                assert(Seq::new(items@.len(), |i: int| items@[i].key@) == keys.remove(i as int));
                assert(Seq::new(items@.len(), |i: int| items@[i].value) == values.remove(
                    i as int,
                ));
                core::mem::swap(&mut self.items, &mut items);
                Some(before.value)
            },
            None => {
                assert(self@.remove(key@) =~= self@);
                None
            },
        }
    }
}

} // verus!
