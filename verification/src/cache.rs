//! A least-recently-used cache keyed by integer ids.

use vstd::prelude::*;

verus! {

/// Counters of a cache.
#[derive(Debug, Clone, Copy, PartialEq, Eq, Structural)]
pub struct CacheStats {
    pub hits: usize,
    pub misses: usize,
    pub evictions: usize,
    pub size: usize,
    pub capacity: usize,
}

/// Where key `k` sits among the entries, or -1.
pub open spec fn entry_index<V>(entries: Seq<(u64, V)>, k: u64) -> int {
    if exists|i: int| 0 <= i < entries.len() && entries[i].0 == k {
        choose|i: int| 0 <= i < entries.len() && entries[i].0 == k
    } else {
        -1
    }
}

/// No key occurs twice.
pub open spec fn distinct_keys<V>(entries: Seq<(u64, V)>) -> bool {
    forall|i: int, j: int| 0 <= i < j < entries.len() ==> #[trigger] entries[i].0 != #[trigger] entries[j].0
}

/// The entries after `k` is used: it moves to the most recent end.
pub open spec fn touched<V>(entries: Seq<(u64, V)>, k: u64) -> Seq<(u64, V)> {
    let i = entry_index(entries, k);
    if i < 0 {
        entries
    } else {
        entries.remove(i).push(entries[i])
    }
}

/// The entries after `put(k, v)`: an existing entry is replaced and becomes
/// the most recent; a new one is added as the most recent, first evicting
/// the least recent entry when the cache is full; a cache of capacity zero
/// keeps nothing.
pub open spec fn after_put<V>(entries: Seq<(u64, V)>, capacity: nat, k: u64, v: V) -> Seq<(u64, V)> {
    let i = entry_index(entries, k);
    if i >= 0 {
        entries.remove(i).push((k, v))
    } else if capacity == 0 {
        entries
    } else if entries.len() >= capacity {
        entries.drop_first().push((k, v))
    } else {
        entries.push((k, v))
    }
}

/// A value just put under a key is what the key gives back, as the most
/// recently used entry (in a cache that keeps anything at all).
pub proof fn law_lru_put_then_get<V>(e: Seq<(u64, V)>, capacity: nat, k: u64, v: V)
    requires
        distinct_keys(e),
        capacity > 0,
    ensures
        ({
            let a = after_put(e, capacity, k, v);
            &&& entry_index(a, k) == a.len() - 1
            &&& a[a.len() - 1] == (k, v)
        }),
{
    let a = after_put(e, capacity, k, v);
    let i = entry_index(e, k);
    let last = a.len() - 1;
    assert(a[last] == (k, v));
    assert forall|t: int| 0 <= t < last implies a[t].0 != k by {
        if i >= 0 {
            let ti = if t < i { t } else { t + 1 };
            assert(a[t] == e[ti]);
            if ti < i {
                assert(e[ti].0 != e[i].0);
            } else {
                assert(e[i].0 != e[ti].0);
            }
        } else if e.len() >= capacity {
            assert(a[t] == e[t + 1]);
        } else {
            assert(a[t] == e[t]);
        }
    }
    assert(exists|t: int| 0 <= t < a.len() && a[t].0 == k) by {
        assert(a[last].0 == k);
    }
}

/// Putting a new key into a full cache evicts the least recently used
/// entry, and only it.
pub proof fn law_lru_evicts_least_recent<V>(e: Seq<(u64, V)>, capacity: nat, k: u64, v: V)
    requires
        distinct_keys(e),
        capacity > 0,
        e.len() >= capacity,
        entry_index(e, k) < 0,
    ensures
        entry_index(after_put(e, capacity, k, v), e[0].0) < 0,
        after_put(e, capacity, k, v).len() == e.len(),
        forall|t: int| 1 <= t < e.len() ==> after_put(e, capacity, k, v).contains(#[trigger] e[t]),
{
    let a = after_put(e, capacity, k, v);
    assert(e[0].0 != k);
    assert forall|t: int| 0 <= t < a.len() implies a[t].0 != e[0].0 by {
        if t < a.len() - 1 {
            assert(a[t] == e[t + 1]);
            assert(e[0].0 != e[t + 1].0);
        }
    }
    assert forall|t: int| 1 <= t < e.len() implies a.contains(#[trigger] e[t]) by {
        assert(a[t - 1] == e[t]);
    }
}

/// Using a cached key makes it the most recently used entry and keeps the
/// same entries.
pub proof fn law_lru_get_refreshes<V>(e: Seq<(u64, V)>, k: u64)
    requires
        entry_index(e, k) >= 0,
    ensures
        touched(e, k).len() == e.len(),
        touched(e, k)[e.len() - 1] == e[entry_index(e, k)],
        touched(e, k)[e.len() - 1].0 == k,
        touched(e, k).to_multiset() == e.to_multiset(),
{
    let i = entry_index(e, k);
    assert(exists|t: int| 0 <= t < e.len() && e[t].0 == k);
    vstd::seq_lib::to_multiset_remove(e, i);
    vstd::seq_lib::to_multiset_build(e.remove(i), e[i]);
    vstd::seq_lib::to_multiset_contains(e, e[i]);
    assert(e.to_multiset().count(e[i]) > 0);
    assert(e.to_multiset().remove(e[i]).insert(e[i]) =~= e.to_multiset()) by {
        broadcast use vstd::multiset::group_multiset_axioms;
    }
}

/// A least-recently-used cache: entries from least to most recently used.
#[derive(Debug)]
pub struct LruCache<V> {
    entries: Vec<(u64, V)>,
    capacity: usize,
    hits: usize,
    misses: usize,
    evictions: usize,
}

impl<V> LruCache<V> {
    /// The entries, least recently used first.
    pub closed spec fn entries(&self) -> Seq<(u64, V)> {
        self.entries@
    }

    /// The most entries it keeps.
    pub closed spec fn capacity_spec(&self) -> nat {
        self.capacity as nat
    }

    /// The counters.
    pub closed spec fn stats_view(&self) -> CacheStats {
        CacheStats {
            hits: self.hits,
            misses: self.misses,
            evictions: self.evictions,
            size: self.entries@.len() as usize,
            capacity: self.capacity,
        }
    }

    /// Keys are distinct and the cache holds no more than its capacity.
    pub closed spec fn wf(&self) -> bool {
        &&& distinct_keys(self.entries@)
        &&& self.entries@.len() <= self.capacity
    }

    /// A well-formed cache has distinct keys and respects its capacity.
    pub proof fn lemma_wf(&self)
        requires
            self.wf(),
        ensures
            distinct_keys(self.entries()),
            self.entries().len() <= self.capacity_spec(),
    {
    }

    /// An empty cache that keeps up to `capacity` entries.
    pub fn new(capacity: usize) -> (c: LruCache<V>)
        ensures
            c.wf(),
            c.entries() == Seq::<(u64, V)>::empty(),
            c.capacity_spec() == capacity,
            c.stats_view() == (CacheStats { hits: 0, misses: 0, evictions: 0, size: 0, capacity }),
    {
        LruCache { entries: Vec::new(), capacity, hits: 0, misses: 0, evictions: 0 }
    }

    fn find(&self, k: u64) -> (r: Option<usize>)
        requires
            self.wf(),
        ensures
            match r {
                Some(i) => i == entry_index(self.entries@, k) && i < self.entries@.len(),
                None => entry_index(self.entries@, k) == -1,
            },
    {
        let n = self.entries.len();
        let mut i: usize = 0;
        while i < n
            invariant
                self.wf(),
                n == self.entries@.len(),
                i <= n,
                forall|j: int| 0 <= j < i ==> self.entries@[j].0 != k,
            decreases n - i,
        {
            if self.entries[i].0 == k {
                proof {
                    let e = self.entries@;
                    let c = choose|t: int| 0 <= t < e.len() && e[t].0 == k;
                    if c != i {
                        if c < i {
                            assert(e[c].0 != e[i as int].0);
                        } else {
                            assert(e[i as int].0 != e[c].0);
                        }
                    }
                }
                return Some(i);
            }
            i = i + 1;
        }
        None
    }

    /// Whether key `k` is cached; does not count as a use.
    pub fn contains_key(&self, k: &u64) -> (b: bool)
        requires
            self.wf(),
        ensures
            b == (entry_index(self.entries(), *k) >= 0),
    {
        self.find(*k).is_some()
    }

    /// The value cached under `k`, which becomes the most recently used;
    /// counts a hit or a miss (saturating).
    pub fn get(&mut self, k: &u64) -> (r: Option<&V>)
        requires
            old(self).wf(),
        ensures
            final(self).wf(),
            final(self).capacity_spec() == old(self).capacity_spec(),
            final(self).entries() == touched(old(self).entries(), *k),
            final(self).stats_view().evictions == old(self).stats_view().evictions,
            ({
                let i = entry_index(old(self).entries(), *k);
                if i >= 0 {
                    &&& r matches Some(v) && *v == old(self).entries()[i].1
                    &&& final(self).stats_view().hits == (if old(self).stats_view().hits < usize::MAX {
                        old(self).stats_view().hits + 1
                    } else {
                        old(self).stats_view().hits as int
                    })
                    &&& final(self).stats_view().misses == old(self).stats_view().misses
                } else {
                    &&& r is None
                    &&& final(self).stats_view().misses == (if old(self).stats_view().misses < usize::MAX {
                        old(self).stats_view().misses + 1
                    } else {
                        old(self).stats_view().misses as int
                    })
                    &&& final(self).stats_view().hits == old(self).stats_view().hits
                }
            }),
    {
        match self.find(*k) {
            Some(i) => {
                let ghost e = self.entries@;
                let entry = self.entries.remove(i);
                self.entries.push(entry);
                self.hits = self.hits.saturating_add(1);
                proof {
                    assert(self.entries@ =~= e.remove(i as int).push(e[i as int]));
                    assert forall|a: int, b: int| 0 <= a < b < self.entries@.len() implies
                        #[trigger] self.entries@[a].0 != #[trigger] self.entries@[b].0 by {
                        let ai = if a < i { a } else { a + 1 };
                        let bi = if b == self.entries@.len() - 1 { i as int } else if b < i { b } else { b + 1 };
                        assert(self.entries@[a] == e[ai]);
                        assert(self.entries@[b] == e[bi]);
                        assert(ai != bi);
                    }
                }
                let last = self.entries.len() - 1;
                Some(&self.entries[last].1)
            },
            None => {
                self.misses = self.misses.saturating_add(1);
                None
            },
        }
    }

    /// Caches `v` under `k` as the most recently used entry, evicting the
    /// least recently used one when full.
    pub fn put(&mut self, k: u64, v: V)
        requires
            old(self).wf(),
        ensures
            final(self).wf(),
            final(self).capacity_spec() == old(self).capacity_spec(),
            final(self).entries() == after_put(old(self).entries(), old(self).capacity_spec(), k, v),
            final(self).stats_view().hits == old(self).stats_view().hits,
            final(self).stats_view().misses == old(self).stats_view().misses,
    {
        let ghost e = self.entries@;
        match self.find(k) {
            Some(i) => {
                let _ = self.entries.remove(i);
                self.entries.push((k, v));
                proof {
                    assert(self.entries@ =~= e.remove(i as int).push((k, v)));
                    assert forall|a: int, b: int| 0 <= a < b < self.entries@.len() implies
                        #[trigger] self.entries@[a].0 != #[trigger] self.entries@[b].0 by {
                        let ai = if a < i { a } else { a + 1 };
                        assert(self.entries@[a] == e[ai]);
                        if b < self.entries@.len() - 1 {
                            let bi = if b < i { b } else { b + 1 };
                            assert(self.entries@[b] == e[bi]);
                        } else {
                            assert(e[i as int].0 == k);
                            assert(ai != i);
                        }
                    }
                }
            },
            None => {
                if self.capacity == 0 {
                    return;
                }
                if self.entries.len() >= self.capacity {
                    let _ = self.entries.remove(0);
                    self.evictions = self.evictions.saturating_add(1);
                    proof {
                        assert(self.entries@ =~= e.drop_first());
                    }
                }
                let ghost mid = self.entries@;
                self.entries.push((k, v));
                proof {
                    assert forall|t: int| 0 <= t < mid.len() implies mid[t].0 != k by {
                        if e.len() >= self.capacity {
                            assert(mid[t] == e[t + 1]);
                        } else {
                            assert(mid[t] == e[t]);
                        }
                    }
                    assert forall|a: int, b: int| 0 <= a < b < self.entries@.len() implies
                        #[trigger] self.entries@[a].0 != #[trigger] self.entries@[b].0 by {
                        assert(self.entries@[a] == mid[a]);
                        if b < mid.len() {
                            assert(self.entries@[b] == mid[b]);
                            if e.len() >= self.capacity {
                                assert(mid[a] == e[a + 1] && mid[b] == e[b + 1]);
                            }
                        }
                    }
                }
            },
        }
    }

    /// Removes the entry under `k`, giving its value back.
    pub fn remove(&mut self, k: &u64) -> (r: Option<V>)
        requires
            old(self).wf(),
        ensures
            final(self).wf(),
            final(self).capacity_spec() == old(self).capacity_spec(),
            ({
                let i = entry_index(old(self).entries(), *k);
                if i >= 0 {
                    &&& r == Some(old(self).entries()[i].1)
                    &&& final(self).entries() == old(self).entries().remove(i)
                } else {
                    &&& r is None
                    &&& final(self).entries() == old(self).entries()
                }
            }),
            final(self).stats_view().hits == old(self).stats_view().hits,
            final(self).stats_view().misses == old(self).stats_view().misses,
    {
        let ghost e = self.entries@;
        match self.find(*k) {
            Some(i) => {
                let (_, v) = self.entries.remove(i);
                proof {
                    assert forall|a: int, b: int| 0 <= a < b < self.entries@.len() implies
                        #[trigger] self.entries@[a].0 != #[trigger] self.entries@[b].0 by {
                        let ai = if a < i { a } else { a + 1 };
                        let bi = if b < i { b } else { b + 1 };
                        assert(self.entries@[a] == e[ai]);
                        assert(self.entries@[b] == e[bi]);
                    }
                }
                Some(v)
            },
            None => None,
        }
    }

    /// Drops every entry and resets the counters.
    pub fn clear(&mut self)
        ensures
            final(self).wf(),
            final(self).capacity_spec() == old(self).capacity_spec(),
            final(self).entries() == Seq::<(u64, V)>::empty(),
            final(self).stats_view() == (CacheStats {
                hits: 0,
                misses: 0,
                evictions: 0,
                size: 0,
                capacity: old(self).capacity_spec() as usize,
            }),
    {
        self.entries.clear();
        self.hits = 0;
        self.misses = 0;
        self.evictions = 0;
    }

    /// Number of cached entries.
    pub fn len(&self) -> (n: usize)
        ensures
            n == self.entries().len(),
    {
        self.entries.len()
    }

    /// The counters, with the current size and the capacity.
    pub fn stats(&self) -> (s: CacheStats)
        ensures
            s == self.stats_view(),
    {
        CacheStats {
            hits: self.hits,
            misses: self.misses,
            evictions: self.evictions,
            size: self.entries.len(),
            capacity: self.capacity,
        }
    }
}

} // verus!
