//! Maps kept as parallel vectors of keys and values: one keyed by strings,
//! one keyed by any type that compares by a model.

use vstd::prelude::*;
use crate::text::str_eq;

verus! {

/// The map formed by key and value lists; later entries win.
pub open spec fn to_map<K, V>(keys: Seq<K>, vals: Seq<V>) -> Map<K, V>
    decreases keys.len(),
{
    if keys.len() == 0 || vals.len() < keys.len() {
        Map::empty()
    } else {
        to_map(keys.drop_last(), vals.subrange(0, keys.len() - 1)).insert(keys.last(), vals[keys.len() - 1])
    }
}

/// The domain of the map is the set of keys.
pub proof fn lemma_to_map_dom<K, V>(keys: Seq<K>, vals: Seq<V>)
    requires
        keys.len() == vals.len(),
    ensures
        to_map(keys, vals).dom() =~= keys.to_set(),
    decreases keys.len(),
{
    if keys.len() > 0 {
        let k1 = keys.drop_last();
        let v1 = vals.subrange(0, keys.len() - 1);
        lemma_to_map_dom(k1, v1);
        assert(keys.to_set() =~= k1.to_set().insert(keys.last())) by {
            assert(keys =~= k1.push(keys.last()));
            k1.lemma_push_to_set_commute(keys.last());
        }
    } else {
        assert(keys.to_set() =~= Set::<K>::empty());
    }
}

/// With distinct keys, each key maps to its own value.
pub proof fn lemma_to_map_index<K, V>(keys: Seq<K>, vals: Seq<V>, i: int)
    requires
        keys.len() == vals.len(),
        keys.no_duplicates(),
        0 <= i < keys.len(),
    ensures
        to_map(keys, vals).contains_key(keys[i]),
        to_map(keys, vals)[keys[i]] == vals[i],
    decreases keys.len(),
{
    lemma_to_map_dom(keys, vals);
    if i < keys.len() - 1 {
        let k1 = keys.drop_last();
        let v1 = vals.subrange(0, keys.len() - 1);
        assert(k1[i] == keys[i]);
        assert(v1[i] == vals[i]);
        lemma_to_map_index(k1, v1, i);
        assert(keys[i] != keys.last());
    }
}

/// Replacing the value at a position updates that key.
pub proof fn lemma_to_map_update<K, V>(keys: Seq<K>, vals: Seq<V>, i: int, v: V)
    requires
        keys.len() == vals.len(),
        keys.no_duplicates(),
        0 <= i < keys.len(),
    ensures
        to_map(keys, vals.update(i, v)) =~= to_map(keys, vals).insert(keys[i], v),
{
    let vals2 = vals.update(i, v);
    lemma_to_map_dom(keys, vals);
    lemma_to_map_dom(keys, vals2);
    assert forall|k: K| #[trigger] to_map(keys, vals2).contains_key(k) implies
        to_map(keys, vals2)[k] == to_map(keys, vals).insert(keys[i], v)[k] by {
        let j = choose|j: int| 0 <= j < keys.len() && keys[j] == k;
        lemma_to_map_index(keys, vals2, j);
        lemma_to_map_index(keys, vals, j);
    }
}

/// Removing a position removes that key.
pub proof fn lemma_to_map_remove<K, V>(keys: Seq<K>, vals: Seq<V>, i: int)
    requires
        keys.len() == vals.len(),
        keys.no_duplicates(),
        0 <= i < keys.len(),
    ensures
        keys.remove(i).no_duplicates(),
        to_map(keys.remove(i), vals.remove(i)) =~= to_map(keys, vals).remove(keys[i]),
{
    let k2 = keys.remove(i);
    let v2 = vals.remove(i);
    assert forall|a: int, b: int| 0 <= a < b < k2.len() implies k2[a] != k2[b] by {
        let a1 = if a < i { a } else { a + 1 };
        let b1 = if b < i { b } else { b + 1 };
        assert(k2[a] == keys[a1]);
        assert(k2[b] == keys[b1]);
    }
    lemma_to_map_dom(keys, vals);
    lemma_to_map_dom(k2, v2);
    assert forall|k: K| k2.to_set().contains(k) <==> keys.to_set().remove(keys[i]).contains(k) by {
        if k2.to_set().contains(k) {
            let j = choose|j: int| 0 <= j < k2.len() && k2[j] == k;
            let j1 = if j < i { j } else { j + 1 };
            assert(keys[j1] == k);
        }
        if keys.to_set().remove(keys[i]).contains(k) {
            let j = choose|j: int| 0 <= j < keys.len() && keys[j] == k;
            assert(j != i);
            let j2 = if j < i { j } else { j - 1 };
            assert(k2[j2] == k);
        }
    }
    assert forall|k: K| #[trigger] to_map(k2, v2).contains_key(k) implies
        to_map(k2, v2)[k] == to_map(keys, vals)[k] by {
        let j = choose|j: int| 0 <= j < k2.len() && k2[j] == k;
        let j1 = if j < i { j } else { j + 1 };
        lemma_to_map_index(k2, v2, j);
        lemma_to_map_index(keys, vals, j1);
    }
}

/// Appending a fresh key inserts it.
pub proof fn lemma_to_map_push<K, V>(keys: Seq<K>, vals: Seq<V>, k: K, v: V)
    requires
        keys.len() == vals.len(),
        keys.no_duplicates(),
        !keys.contains(k),
    ensures
        keys.push(k).no_duplicates(),
        to_map(keys.push(k), vals.push(v)) =~= to_map(keys, vals).insert(k, v),
{
    assert(keys.push(k).drop_last() =~= keys);
    assert(vals.push(v).subrange(0, keys.len() as int) =~= vals);
    assert forall|a: int, b: int| 0 <= a < b < keys.push(k).len() implies keys.push(k)[a] != keys.push(k)[b] by {
        if b == keys.len() {
            assert(keys.contains(keys[a]));
        }
    }
}

/// A map from strings to values, stored as parallel key and value vectors.
#[derive(Debug, Clone)]
pub struct StrMap<V> {
    keys: Vec<String>,
    vals: Vec<V>,
}

impl<V> StrMap<V> {
    /// The keys in storage order.
    pub closed spec fn key_seq(&self) -> Seq<Seq<char>> {
        self.keys@.map_values(|s: String| s@)
    }

    /// The values in storage order.
    pub closed spec fn val_seq(&self) -> Seq<V> {
        self.vals@
    }

    /// The map held.
    pub closed spec fn view(&self) -> Map<Seq<char>, V> {
        to_map(self.key_seq(), self.vals@)
    }

    /// Well-formedness: as many keys as values, no key twice.
    pub closed spec fn wf(&self) -> bool {
        &&& self.keys@.len() == self.vals@.len()
        &&& self.key_seq().no_duplicates()
    }

    /// Facts about a well-formed map: its domain is the set of its keys and
    /// each stored key maps to the value stored beside it.
    pub proof fn lemma_entries(&self)
        requires
            self.wf(),
        ensures
            self.key_seq().len() == self.val_seq().len(),
            self.key_seq().no_duplicates(),
            self.view().dom() =~= self.key_seq().to_set(),
            self.view().dom().finite(),
            self.view().dom().len() == self.key_seq().len(),
            forall|i: int| 0 <= i < self.key_seq().len() ==> #[trigger] self.view().contains_key(self.key_seq()[i])
                && self.view()[self.key_seq()[i]] == self.val_seq()[i],
            forall|k: Seq<char>| #[trigger] self.view().contains_key(k) ==>
                exists|i: int| 0 <= i < self.key_seq().len() && self.key_seq()[i] == k,
    {
        lemma_to_map_dom(self.key_seq(), self.vals@);
        self.key_seq().unique_seq_to_set();
        assert forall|i: int| 0 <= i < self.key_seq().len() implies #[trigger] self.view().contains_key(self.key_seq()[i])
            && self.view()[self.key_seq()[i]] == self.val_seq()[i] by {
            lemma_to_map_index(self.key_seq(), self.vals@, i);
        }
    }

    /// An empty map.
    pub fn new() -> (m: StrMap<V>)
        ensures
            m.wf(),
            m.view() == Map::<Seq<char>, V>::empty(),
            m.key_seq() == Seq::<Seq<char>>::empty(),
            m.val_seq() == Seq::<V>::empty(),
    {
        let m = StrMap { keys: Vec::new(), vals: Vec::new() };
        assert(m.key_seq() =~= Seq::<Seq<char>>::empty());
        m
    }

    /// Number of entries.
    pub fn len(&self) -> (n: usize)
        requires
            self.wf(),
        ensures
            n == self.view().dom().len(),
            n == self.key_seq().len(),
    {
        proof {
            self.lemma_entries();
        }
        self.keys.len()
    }

    /// Key at storage position `i`.
    pub fn key_at(&self, i: usize) -> (k: &String)
        requires
            self.wf(),
            i < self.key_seq().len(),
        ensures
            k@ == self.key_seq()[i as int],
    {
        &self.keys[i]
    }

    /// Value at storage position `i`.
    pub fn value_at(&self, i: usize) -> (v: &V)
        requires
            self.wf(),
            i < self.key_seq().len(),
        ensures
            *v == self.val_seq()[i as int],
    {
        &self.vals[i]
    }

    /// Storage position of key `k`, if present.
    pub fn position(&self, k: &str) -> (r: Option<usize>)
        requires
            self.wf(),
        ensures
            match r {
                Some(i) => i < self.key_seq().len() && self.key_seq()[i as int] == k@,
                None => !self.view().contains_key(k@),
            },
    {
        proof {
            self.lemma_entries();
        }
        let n = self.keys.len();
        let mut i: usize = 0;
        while i < n
            invariant
                self.wf(),
                n == self.key_seq().len(),
                i <= n,
                forall|j: int| 0 <= j < i ==> self.key_seq()[j] != k@,
            decreases n - i,
        {
            if str_eq(self.keys[i].as_str(), k) {
                return Some(i);
            }
            i = i + 1;
        }
        proof {
            if self.view().contains_key(k@) {
                self.lemma_entries();
            }
        }
        None
    }

    /// Value stored under `k`.
    pub fn get(&self, k: &str) -> (r: Option<&V>)
        requires
            self.wf(),
        ensures
            match r {
                Some(v) => self.view().contains_key(k@) && self.view()[k@] == *v,
                None => !self.view().contains_key(k@),
            },
    {
        proof {
            self.lemma_entries();
        }
        match self.position(k) {
            Some(i) => {
                assert(self.view().contains_key(self.key_seq()[i as int]));
                Some(&self.vals[i])
            },
            None => None,
        }
    }

    /// True when `k` has an entry.
    pub fn contains_key(&self, k: &str) -> (b: bool)
        requires
            self.wf(),
        ensures
            b == self.view().contains_key(k@),
    {
        proof {
            self.lemma_entries();
        }
        self.position(k).is_some()
    }

    /// Replaces the value at storage position `i`.
    pub fn set_value_at(&mut self, i: usize, v: V)
        requires
            old(self).wf(),
            i < old(self).key_seq().len(),
        ensures
            final(self).wf(),
            final(self).key_seq() == old(self).key_seq(),
            final(self).val_seq() == old(self).val_seq().update(i as int, v),
            final(self).view() == old(self).view().insert(old(self).key_seq()[i as int], v),
    {
        proof {
            lemma_to_map_update(self.key_seq(), self.vals@, i as int, v);
        }
        self.vals.set(i, v);
    }

    /// Sets `k` to `v`: in place when `k` has an entry, else as a new last
    /// entry.
    pub fn insert(&mut self, k: String, v: V)
        requires
            old(self).wf(),
        ensures
            final(self).wf(),
            final(self).view() == old(self).view().insert(k@, v),
            old(self).view().contains_key(k@) ==> final(self).key_seq() == old(self).key_seq()
                && exists|i: int| 0 <= i < old(self).key_seq().len() && old(self).key_seq()[i] == k@
                    && final(self).val_seq() == old(self).val_seq().update(i, v),
            !old(self).view().contains_key(k@) ==> final(self).key_seq() == old(self).key_seq().push(k@)
                && final(self).val_seq() == old(self).val_seq().push(v),
    {
        match self.position(k.as_str()) {
            Some(i) => {
                proof {
                    self.lemma_entries();
                    assert(self.view().contains_key(self.key_seq()[i as int]));
                }
                self.set_value_at(i, v);
            },
            None => {
                let ghost ks = self.key_seq();
                let ghost kv = k@;
                proof {
                    self.lemma_entries();
                    if ks.contains(kv) {
                        let j = choose|j: int| 0 <= j < ks.len() && ks[j] == kv;
                        assert(self.view().contains_key(ks[j]));
                    }
                    lemma_to_map_push(ks, self.vals@, kv, v);
                }
                self.keys.push(k);
                self.vals.push(v);
                proof {
                    assert(self.key_seq() =~= ks.push(kv));
                }
            },
        }
    }

    /// Removes the entry at storage position `i`, returning its value.
    pub fn remove_at(&mut self, i: usize) -> (v: V)
        requires
            old(self).wf(),
            i < old(self).key_seq().len(),
        ensures
            final(self).wf(),
            v == old(self).val_seq()[i as int],
            final(self).view() == old(self).view().remove(old(self).key_seq()[i as int]),
            final(self).key_seq() == old(self).key_seq().remove(i as int),
            final(self).val_seq() == old(self).val_seq().remove(i as int),
    {
        let ghost ks = self.key_seq();
        proof {
            lemma_to_map_remove(ks, self.vals@, i as int);
        }
        let _k = self.keys.remove(i);
        let v = self.vals.remove(i);
        proof {
            assert(self.key_seq() =~= ks.remove(i as int));
        }
        v
    }

    /// Removes the entry for `k`, if any.
    pub fn remove(&mut self, k: &str)
        requires
            old(self).wf(),
        ensures
            final(self).wf(),
            final(self).view() == old(self).view().remove(k@),
    {
        match self.position(k) {
            Some(i) => {
                let _ = self.remove_at(i);
            },
            None => {
                assert(self.view() =~= self.view().remove(k@));
            },
        }
    }

    /// Removes every entry.
    pub fn clear(&mut self)
        ensures
            final(self).wf(),
            final(self).view() == Map::<Seq<char>, V>::empty(),
    {
        self.keys.clear();
        self.vals.clear();
        assert(self.key_seq() =~= Seq::<Seq<char>>::empty());
    }
}

/// `Vec::capacity`: how many items the vector holds room for. The allocator
/// decides it, so nothing is stated of the result.
#[verifier::external_body]
fn vec_capacity<T>(v: &Vec<T>) -> usize {
    v.capacity()
}

/// A key of a signature map: a model and an equality on it.
pub trait SignatureKey: Sized {
    /// The model that identifies the key.
    type KeyView;

    spec fn key_view(&self) -> Self::KeyView;

    /// Equality of keys by their models.
    fn same_key(&self, other: &Self) -> (r: bool)
        ensures
            r == (self.key_view() == other.key_view());
}

/// A map from keys compared by their models to values, kept as parallel
/// vectors in insertion order.
#[derive(Debug)]
pub struct SignatureMap<K, V> {
    keys: Vec<K>,
    ids: Vec<V>,
}

impl<K: SignatureKey, V> SignatureMap<K, V> {
    /// The size of the map is the number of keys.
    pub proof fn lemma_len(&self)
        requires
            self.wf(),
        ensures
            self.view().dom().len() == self.key_seq().len(),
            self.view().dom().finite(),
    {
        self.lemma_entries();
    }

    /// Room reserved for entries; the allocator decides it.
    pub fn capacity(&self) -> usize {
        vec_capacity(&self.keys)
    }

    /// The models of the keys, in storage order.
    pub closed spec fn key_seq(&self) -> Seq<K::KeyView> {
        self.keys@.map_values(|k: K| k.key_view())
    }

    /// The map held.
    pub closed spec fn view(&self) -> Map<K::KeyView, V> {
        to_map(self.key_seq(), self.ids@)
    }

    /// No key twice.
    pub closed spec fn wf(&self) -> bool {
        &&& self.keys@.len() == self.ids@.len()
        &&& self.key_seq().no_duplicates()
    }

    proof fn lemma_entries(&self)
        requires
            self.wf(),
        ensures
            forall|i: int| 0 <= i < self.key_seq().len() ==> #[trigger] self.view().contains_key(self.key_seq()[i])
                && self.view()[self.key_seq()[i]] == self.ids@[i],
            forall|k: K::KeyView| #[trigger] self.view().contains_key(k) ==>
                exists|i: int| 0 <= i < self.key_seq().len() && self.key_seq()[i] == k,
            self.view().dom().finite(),
            self.view().dom().len() == self.key_seq().len(),
    {
        lemma_to_map_dom(self.key_seq(), self.ids@);
        self.key_seq().unique_seq_to_set();
        assert forall|i: int| 0 <= i < self.key_seq().len() implies #[trigger] self.view().contains_key(self.key_seq()[i])
            && self.view()[self.key_seq()[i]] == self.ids@[i] by {
            lemma_to_map_index(self.key_seq(), self.ids@, i);
        }
    }

    /// An empty map.
    pub fn new() -> (m: Self)
        ensures
            m.wf(),
            m.view() == Map::<K::KeyView, V>::empty(),
    {
        let m = SignatureMap { keys: Vec::new(), ids: Vec::new() };
        assert(m.key_seq() =~= Seq::<K::KeyView>::empty());
        m
    }

    /// An empty map with room for `capacity` entries.
    pub fn with_capacity(capacity: usize) -> (m: Self)
        ensures
            m.wf(),
            m.view() == Map::<K::KeyView, V>::empty(),
    {
        let m = SignatureMap { keys: Vec::with_capacity(capacity), ids: Vec::with_capacity(capacity) };
        assert(m.key_seq() =~= Seq::<K::KeyView>::empty());
        m
    }

    /// Number of entries.
    pub fn len(&self) -> (n: usize)
        requires
            self.wf(),
        ensures
            n == self.view().dom().len(),
    {
        proof {
            self.lemma_entries();
        }
        self.keys.len()
    }

    fn position(&self, k: &K) -> (r: Option<usize>)
        requires
            self.wf(),
        ensures
            match r {
                Some(i) => i < self.key_seq().len() && self.key_seq()[i as int] == k.key_view(),
                None => !self.view().contains_key(k.key_view()),
            },
    {
        proof {
            self.lemma_entries();
        }
        let n = self.keys.len();
        let mut i: usize = 0;
        while i < n
            invariant
                self.wf(),
                n == self.key_seq().len(),
                i <= n,
                forall|j: int| 0 <= j < i ==> self.key_seq()[j] != k.key_view(),
            decreases n - i,
        {
            if self.keys[i].same_key(k) {
                return Some(i);
            }
            i = i + 1;
        }
        None
    }

    /// The value stored under key `k`.
    pub fn get(&self, k: &K) -> (r: Option<&V>)
        requires
            self.wf(),
        ensures
            match r {
                Some(id) => self.view().contains_key(k.key_view()) && self.view()[k.key_view()] == *id,
                None => !self.view().contains_key(k.key_view()),
            },
    {
        proof {
            self.lemma_entries();
        }
        match self.position(k) {
            Some(i) => {
                assert(self.view().contains_key(self.key_seq()[i as int]));
                Some(&self.ids[i])
            },
            None => None,
        }
    }

    /// Removes the `count` oldest entries.
    pub fn drop_oldest(&mut self, count: usize)
        requires
            old(self).wf(),
            count <= old(self).key_seq().len(),
        ensures
            final(self).wf(),
            final(self).key_seq() == old(self).key_seq().skip(count as int),
            final(self).view().dom().len() == old(self).view().dom().len() - count,
            forall|k: K::KeyView| #[trigger] final(self).view().contains_key(k) ==>
                old(self).view().contains_key(k) && final(self).view()[k] == old(self).view()[k],
    {
        let ghost oks = self.key_seq();
        let ghost oids = self.ids@;
        let ghost ov = self.view();
        proof {
            self.lemma_entries();
        }
        let rest_keys = self.keys.split_off(count);
        let rest_ids = self.ids.split_off(count);
        self.keys = rest_keys;
        self.ids = rest_ids;
        proof {
            assert(self.key_seq() =~= oks.skip(count as int));
            assert forall|x: int, y: int| 0 <= x < y < self.key_seq().len() implies self.key_seq()[x] != self.key_seq()[y] by {
                assert(self.key_seq()[x] == oks[x + count]);
                assert(self.key_seq()[y] == oks[y + count]);
            }
            self.lemma_entries();
            assert forall|k: K::KeyView| #[trigger] self.view().contains_key(k) implies
                ov.contains_key(k) && self.view()[k] == ov[k] by {
                let i = choose|i: int| 0 <= i < self.key_seq().len() && self.key_seq()[i] == k;
                assert(self.key_seq()[i] == oks[i + count]);
                assert(self.ids@[i] == oids[i + count]);
                assert(ov.contains_key(oks[i + count]));
            }
        }
    }

    /// Maps key `k` to `id`.
    pub fn insert(&mut self, k: K, id: V)
        requires
            old(self).wf(),
        ensures
            final(self).wf(),
            final(self).view() == old(self).view().insert(k.key_view(), id),
    {
        let ghost ks = self.key_seq();
        let ghost kv = k.key_view();
        proof {
            self.lemma_entries();
        }
        match self.position(&k) {
            Some(i) => {
                proof {
                    lemma_to_map_update(ks, self.ids@, i as int, id);
                }
                self.ids.set(i, id);
            },
            None => {
                proof {
                    if ks.contains(kv) {
                        let j = choose|j: int| 0 <= j < ks.len() && ks[j] == kv;
                        assert(self.view().contains_key(ks[j]));
                    }
                    lemma_to_map_push(ks, self.ids@, kv, id);
                }
                self.keys.push(k);
                self.ids.push(id);
                proof {
                    assert(self.key_seq() =~= ks.push(kv));
                }
            },
        }
    }

    /// Removes every entry.
    pub fn clear(&mut self)
        ensures
            final(self).wf(),
            final(self).view() == Map::<K::KeyView, V>::empty(),
    {
        self.keys.clear();
        self.ids.clear();
        assert(self.key_seq() =~= Seq::<K::KeyView>::empty());
    }
}

impl<K: SignatureKey> SignatureMap<K, u64> {
    /// Removes every entry that maps to `id`.
    pub fn retain_not(&mut self, id: u64)
        requires
            old(self).wf(),
        ensures
            final(self).wf(),
            final(self).view() == Map::new(
                |k: K::KeyView| old(self).view().contains_key(k) && old(self).view()[k] != id,
                |k: K::KeyView| old(self).view()[k],
            ),
    {
        let ghost orig = self.view();
        let ghost oks = self.key_seq();
        let ghost oids = self.ids@;
        proof {
            self.lemma_entries();
        }
        let mut i: usize = self.keys.len();
        proof {
            assert(oks.take(i as int) =~= oks);
            assert(self.ids@.take(i as int) =~= oids);
            lemma_to_map_dom(oks, oids);
            assert(self.view() =~= Map::new(
                |k: K::KeyView| orig.contains_key(k) && (orig[k] != id || oks.take(i as int).contains(k)),
                |k: K::KeyView| orig[k],
            ));
        }
        while i > 0
            invariant
                self.wf(),
                i <= self.key_seq().len(),
                i <= oks.len(),
                oks.len() == oids.len(),
                oks.no_duplicates(),
                orig == to_map(oks, oids),
                self.key_seq().take(i as int) == oks.take(i as int),
                self.ids@.take(i as int) == oids.take(i as int),
                self.view() == Map::new(
                    |k: K::KeyView| orig.contains_key(k) && (orig[k] != id || oks.take(i as int).contains(k)),
                    |k: K::KeyView| orig[k],
                ),
            decreases i,
        {
            let j = i - 1;
            let ghost before = self.view();
            let ghost kj = oks[j as int];
            proof {
                assert(self.key_seq()[j as int] == self.key_seq().take(i as int)[j as int]);
                assert(oks.take(i as int)[j as int] == kj);
                assert(self.ids@[j as int] == self.ids@.take(i as int)[j as int]);
                assert(oids.take(i as int)[j as int] == oids[j as int]);
                lemma_to_map_index(oks, oids, j as int);
                assert forall|k: K::KeyView| oks.take(i as int).contains(k) <==> (oks.take(j as int).contains(k) || k == kj) by {
                    assert(oks.take(i as int) =~= oks.take(j as int).push(kj));
                    vstd::seq_lib::lemma_seq_contains_after_push(oks.take(j as int), kj, k);
                }
                assert(!oks.take(j as int).contains(kj)) by {
                    if oks.take(j as int).contains(kj) {
                        let t = choose|t: int| 0 <= t < j && oks.take(j as int)[t] == kj;
                        assert(oks[t] == oks[j as int]);
                    }
                }
            }
            if self.ids[j] == id {
                let ghost ks = self.key_seq();
                proof {
                    crate::assoc::lemma_to_map_remove(ks, self.ids@, j as int);
                }
                let _ = self.keys.remove(j);
                let _ = self.ids.remove(j);
                proof {
                    assert(self.key_seq() =~= ks.remove(j as int));
                    assert(self.key_seq().take(j as int) =~= oks.take(j as int));
                    assert(self.ids@.take(j as int) =~= oids.take(j as int));
                    assert(self.view() =~= Map::new(
                        |k: K::KeyView| orig.contains_key(k) && (orig[k] != id || oks.take(j as int).contains(k)),
                        |k: K::KeyView| orig[k],
                    ));
                }
            } else {
                proof {
                    assert(self.key_seq().take(j as int) =~= oks.take(j as int));
                    assert(self.ids@.take(j as int) =~= oids.take(j as int));
                    assert(self.view() =~= Map::new(
                        |k: K::KeyView| orig.contains_key(k) && (orig[k] != id || oks.take(j as int).contains(k)),
                        |k: K::KeyView| orig[k],
                    ));
                }
            }
            i = j;
        }
        proof {
            assert(self.view() =~= Map::new(
                |k: K::KeyView| orig.contains_key(k) && orig[k] != id,
                |k: K::KeyView| orig[k],
            ));
        }
    }
}

} // verus!
