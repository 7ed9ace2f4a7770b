//! A map from text to values that finds its keys by their SeaHash.
//!
//! The keys are spread over a fixed number of buckets; the bucket of a key is
//! its hash modulo that number. Within a bucket the keys are searched one by
//! one.

use crate::strmap::StrMap;
use vstd::prelude::*;
use vstd::utf8::encode_utf8;

verus! {

/// The SeaHash of a byte string: the number that the function
/// `reference::hash` of the crate `seahash` gives for it. It depends on the
/// bytes alone.
pub uninterp spec fn sea_hash(bytes: Seq<u8>) -> u64;

/// `seahash::reference::hash`: the SeaHash of `bytes`. Of the crate's two
/// implementations this is the one in safe code, which reads the bytes one
/// by one and so takes a slice at any address.
#[verifier::external_body]
fn hash_of(bytes: &[u8]) -> (h: u64)
    ensures
        h == sea_hash(bytes@),
{
    seahash::reference::hash(bytes)
}

/// The SeaHash of the bytes of `key`.
pub fn text_hash(key: &str) -> (h: u64)
    ensures
        h == sea_hash(encode_utf8(key@)),
{
    hash_of(key.as_bytes())
}

/// The bucket of `key` among `n` buckets.
pub open spec fn bucket_of(key: Seq<char>, n: nat) -> int {
    sea_hash(encode_utf8(key)) as int % n as int
}

/// The map that the buckets hold together: each key with what its own
/// bucket holds for it.
pub open spec fn map_of_buckets<T>(buckets: Seq<StrMap<T>>) -> Map<Seq<char>, T> {
    Map::new(
        |key: Seq<char>|
            buckets.len() > 0 && buckets[bucket_of(key, buckets.len())]@.contains_key(key),
        |key: Seq<char>| buckets[bucket_of(key, buckets.len())]@[key],
    )
}

/// The number of buckets of a map made by `SeaMap::new`.
pub const BUCKETS: usize = 256;

/// A map from text to `T`, hashed with SeaHash.
pub struct SeaMap<T> {
    buckets: Vec<StrMap<T>>,
}

impl<T> View for SeaMap<T> {
    type V = Map<Seq<char>, T>;

    closed spec fn view(&self) -> Map<Seq<char>, T> {
        map_of_buckets(self.buckets@)
    }
}

impl<T> SeaMap<T> {
    /// The buckets.
    pub closed spec fn buckets(&self) -> Seq<StrMap<T>> {
        self.buckets@
    }

    /// The empty map, with `BUCKETS` buckets.
    pub fn new() -> (m: SeaMap<T>)
        ensures
            m@ == Map::<Seq<char>, T>::empty(),
    {
        SeaMap::with_buckets(BUCKETS)
    }

    /// The empty map with `n` buckets, or with one where `n` is zero.
    pub fn with_buckets(n: usize) -> (m: SeaMap<T>)
        ensures
            m@ == Map::<Seq<char>, T>::empty(),
            m.buckets().len() == if n == 0 {
                1
            } else {
                n as int
            },
    {
        let mut buckets: Vec<StrMap<T>> = Vec::new();
        buckets.push(StrMap::new());
        let mut i: usize = 1;
        while i < n
            invariant
                buckets@.len() == i,
                i >= 1,
                i <= n || i == 1,
                forall|j: int| 0 <= j < i ==> (#[trigger] buckets@[j])@ == Map::<
                    Seq<char>,
                    T,
                >::empty(),
            decreases n - i,
        {
            buckets.push(StrMap::new());
            i = i + 1;
        }
        let m = SeaMap { buckets };
        assert(m@ =~= Map::<Seq<char>, T>::empty());
        m
    }

    /// The place of the bucket of `key`.
    fn slot(&self, key: &str) -> (b: usize)
        requires
            self.buckets@.len() > 0,
        ensures
            b == bucket_of(key@, self.buckets@.len()),
            b < self.buckets@.len(),
    {
        let h = text_hash(key);
        let n = self.buckets.len() as u64;
        (h % n) as usize
    }

    /// The number of buckets.
    pub fn bucket_count(&self) -> (n: usize)
        ensures
            n == self.buckets().len(),
    {
        self.buckets.len()
    }

    /// The number of keys in the bucket at place `b`.
    pub fn bucket_len(&self, b: usize) -> (n: usize)
        requires
            b < self.buckets().len(),
        ensures
            n == self.buckets()[b as int].keys().len(),
    {
        self.buckets[b].len()
    }

    /// Whether `key` is in the map.
    pub fn contains_key(&self, key: &str) -> (r: bool)
        ensures
            r == self@.contains_key(key@),
    {
        self.get(key).is_some()
    }

    /// The value under `key`.
    pub fn get(&self, key: &str) -> (r: Option<&T>)
        ensures
            match r {
                Some(v) => self@.contains_key(key@) && *v == self@[key@],
                None => !self@.contains_key(key@),
            },
    {
        if self.buckets.len() == 0 {
            return None;
        }
        let b = self.slot(key);
        self.buckets[b].get(key)
    }

    /// Puts `value` under `key` and hands back what stood there.
    pub fn insert(&mut self, key: String, value: T) -> (r: Option<T>)
        ensures
            final(self)@ == old(self)@.insert(key@, value),
            old(self).buckets().len() > 0 ==> {
                &&& final(self).buckets().len() == old(self).buckets().len()
                &&& forall|b: int|
                    0 <= b < old(self).buckets().len() && b != bucket_of(
                        key@,
                        old(self).buckets().len(),
                    ) ==> final(self).buckets()[b] == old(self).buckets()[b]
                &&& final(self).buckets()[bucket_of(key@, old(self).buckets().len())]@ == old(
                    self,
                ).buckets()[bucket_of(key@, old(self).buckets().len())]@.insert(key@, value)
            },
            r == if old(self)@.contains_key(key@) {
                Some(old(self)@[key@])
            } else {
                None
            },
    {
        if self.buckets.len() == 0 {
            self.buckets.push(StrMap::new());
        }
        let ghost before = self.buckets@;
        assert(map_of_buckets(before) =~= old(self)@);
        let b = self.slot(key.as_str());
        let mut bucket: StrMap<T> = StrMap::new();
        self.buckets.set_and_swap(b, &mut bucket);
        let r = bucket.insert(key, value);
        self.buckets.set_and_swap(b, &mut bucket);
        assert(self.buckets@ == before.update(b as int, self.buckets@[b as int]));
        assert(self@ =~= old(self)@.insert(key@, value));
        r
    }

    /// Takes `key` out of the map and hands back what stood under it.
    pub fn remove(&mut self, key: &str) -> (r: Option<T>)
        ensures
            final(self)@ == old(self)@.remove(key@),
            r == if old(self)@.contains_key(key@) {
                Some(old(self)@[key@])
            } else {
                None
            },
    {
        if self.buckets.len() == 0 {
            assert(self@.remove(key@) =~= self@);
            return None;
        }
        let ghost before = self.buckets@;
        let b = self.slot(key);
        let mut bucket: StrMap<T> = StrMap::new();
        self.buckets.set_and_swap(b, &mut bucket);
        let r = bucket.remove(key);
        self.buckets.set_and_swap(b, &mut bucket);
        assert(self.buckets@ == before.update(b as int, self.buckets@[b as int]));
        assert(self@ =~= old(self)@.remove(key@));
        r
    }
}

} // verus!
