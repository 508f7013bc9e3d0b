//! Fact lookup by id through a hash map, with a small LRU cache of recently
//! read facts in front of it.

use vstd::prelude::*;
use std::collections::HashMap;
use crate::cache::{CacheStats, LruCache, entry_index, touched, after_put, distinct_keys};
use crate::fact_store::fact_views;
use crate::types::{Fact, FactId, FactView, Ratio};
use vstd::std_specs::iter::IteratorSpec;

verus! {

broadcast use vstd::std_specs::hash::group_hash_axioms;

/// The facts a batch read returns: those of `ids` that are stored, in the
/// order of `ids`.
pub open spec fn present_facts(m: Map<FactId, FactView>, ids: Seq<FactId>) -> Seq<FactView>
    decreases ids.len(),
{
    if ids.len() == 0 {
        Seq::empty()
    } else {
        present_facts(m, ids.drop_last()) + (if m.contains_key(ids.last()) { seq![m[ids.last()]] } else { Seq::empty() })
    }
}

/// The map after storing each fact in turn under its id; later ones win.
pub open spec fn store_all(m: Map<FactId, FactView>, facts: Seq<FactView>) -> Map<FactId, FactView>
    decreases facts.len(),
{
    if facts.len() == 0 {
        m
    } else {
        store_all(m, facts.drop_last()).insert(facts.last().id, facts.last())
    }
}

/// The models of cache entries: each id with the model of its fact.
pub open spec fn entries_view(e: Seq<(u64, Fact)>) -> Seq<(u64, FactView)> {
    e.map_values(|x: (u64, Fact)| (x.0, x.1@))
}

/// Models keep the position of each id.
proof fn lemma_entries_view_index(e: Seq<(u64, Fact)>, k: u64)
    requires
        distinct_keys(e),
    ensures
        entry_index(entries_view(e), k) == entry_index(e, k),
        distinct_keys(entries_view(e)),
{
    let v = entries_view(e);
    assert forall|i: int, j: int| 0 <= i < j < v.len() implies #[trigger] v[i].0 != #[trigger] v[j].0 by {
        assert(v[i].0 == e[i].0 && v[j].0 == e[j].0);
    }
    if exists|i: int| 0 <= i < e.len() && e[i].0 == k {
        let i1 = entry_index(e, k);
        assert(v[i1].0 == k);
        let i2 = entry_index(v, k);
        assert(e[i2].0 == v[i2].0);
        if i1 < i2 {
            assert(e[i1].0 != e[i2].0);
        } else if i2 < i1 {
            assert(e[i2].0 != e[i1].0);
        }
    } else {
        if exists|i: int| 0 <= i < v.len() && v[i].0 == k {
            let i2 = choose|i: int| 0 <= i < v.len() && v[i].0 == k;
            assert(e[i2].0 == k);
        }
    }
}

/// Using an entry commutes with taking models.
proof fn lemma_entries_view_touched(e: Seq<(u64, Fact)>, k: u64)
    requires
        distinct_keys(e),
    ensures
        entries_view(touched(e, k)) == touched(entries_view(e), k),
{
    lemma_entries_view_index(e, k);
    let i = entry_index(e, k);
    if i >= 0 {
        assert(entries_view(touched(e, k)) =~= touched(entries_view(e), k));
    }
}

/// Caching a fact commutes with taking models.
proof fn lemma_entries_view_put(e: Seq<(u64, Fact)>, cap: nat, k: u64, f: Fact)
    requires
        distinct_keys(e),
    ensures
        entries_view(after_put(e, cap, k, f)) == after_put(entries_view(e), cap, k, f@),
{
    lemma_entries_view_index(e, k);
    assert(entries_view(after_put(e, cap, k, f)) =~= after_put(entries_view(e), cap, k, f@));
}

/// Dropping an entry commutes with taking models.
proof fn lemma_entries_view_remove(e: Seq<(u64, Fact)>, i: int)
    requires
        0 <= i < e.len(),
    ensures
        entries_view(e.remove(i)) == entries_view(e).remove(i),
{
    assert(entries_view(e.remove(i)) =~= entries_view(e).remove(i));
}

/// Facts by id, with an LRU cache of recently read ones and counters of
/// cache hits, misses and lookups.
#[derive(Debug)]
pub struct FastFactLookup {
    fact_map: HashMap<FactId, Fact>,
    access_cache: LruCache<Fact>,
    pub cache_hits: usize,
    pub cache_misses: usize,
    pub lookup_count: usize,
}

/// Statistics of a [`FastFactLookup`].
#[derive(Debug, Clone, Copy, PartialEq, Eq, Structural)]
pub struct FastLookupStats {
    pub cache_stats: CacheStats,
    pub hit_rate: Ratio,
    pub total_lookups: usize,
    pub cache_hits: usize,
    pub cache_misses: usize,
    pub facts_stored: usize,
}

impl FastLookupStats {
    /// Cache hits over lookups.
    pub fn efficiency(&self) -> (r: Ratio)
        ensures
            r == (Ratio { part: self.cache_hits, whole: self.total_lookups }),
    {
        Ratio { part: self.cache_hits, whole: self.total_lookups }
    }

    /// Lookups over stored facts.
    pub fn lookups_per_fact(&self) -> (r: Ratio)
        ensures
            r == (Ratio { part: self.total_lookups, whole: self.facts_stored }),
    {
        Ratio { part: self.total_lookups, whole: self.facts_stored }
    }
}

impl FastFactLookup {
    /// The stored facts by id.
    pub closed spec fn facts(&self) -> Map<FactId, FactView> {
        Map::new(|k: FactId| self.fact_map@.contains_key(k), |k: FactId| self.fact_map@[k]@)
    }

    /// The cache's entries, least recently used first.
    pub closed spec fn cached(&self) -> Seq<(u64, Fact)> {
        self.access_cache.entries()
    }

    /// The cache's entries as ids and fact models, least recently used
    /// first.
    pub closed spec fn cache_view(&self) -> Seq<(u64, FactView)> {
        entries_view(self.access_cache.entries())
    }

    /// The most facts the cache keeps.
    pub closed spec fn cache_capacity(&self) -> nat {
        self.access_cache.capacity_spec()
    }

    /// What well-formedness promises: the stored facts are finitely many,
    /// each cached fact is the fact stored under its id, the cache holds
    /// each id once and no more entries than its capacity.
    pub proof fn lemma_cache_holds_stored(&self)
        requires
            self.wf(),
        ensures
            self.facts().dom().finite(),
            distinct_keys(self.cache_view()),
            self.cache_view().len() <= self.cache_capacity(),
            forall|i: int| 0 <= i < self.cache_view().len() ==> {
                let x = #[trigger] self.cache_view()[i];
                self.facts().contains_key(x.0) && self.facts()[x.0] == x.1
            },
    {
        self.access_cache.lemma_wf();
        lemma_entries_view_index(self.access_cache.entries(), 0);
        assert(self.facts().dom() =~= self.fact_map@.dom());
        assert forall|i: int| 0 <= i < self.cache_view().len() implies {
            let x = #[trigger] self.cache_view()[i];
            self.facts().contains_key(x.0) && self.facts()[x.0] == x.1
        } by {
            let e = self.access_cache.entries()[i];
            assert(self.cache_view()[i] == (e.0, e.1@));
        }
    }

    /// The cache's counters.
    pub closed spec fn cache_stats_view(&self) -> CacheStats {
        self.access_cache.stats_view()
    }

    /// Cache hits counted.
    pub closed spec fn hits(&self) -> usize {
        self.cache_hits
    }

    /// Cache misses counted.
    pub closed spec fn misses(&self) -> usize {
        self.cache_misses
    }

    /// Lookups counted.
    pub closed spec fn lookups(&self) -> usize {
        self.lookup_count
    }

    /// Each fact is stored under its own id, the cache is consistent and
    /// every cached fact is the stored one.
    pub closed spec fn wf(&self) -> bool {
        &&& self.access_cache.wf()
        &&& forall|k: FactId| #[trigger] self.fact_map@.contains_key(k) ==> self.fact_map@[k].id == k
        &&& forall|i: int| 0 <= i < self.access_cache.entries().len() ==> {
            let e = #[trigger] self.access_cache.entries()[i];
            &&& self.fact_map@.contains_key(e.0)
            &&& self.fact_map@[e.0]@ == e.1@
        }
    }

    /// An empty lookup whose cache keeps up to `cache_capacity` facts.
    pub fn new(cache_capacity: usize) -> (l: FastFactLookup)
        ensures
            l.wf(),
            l.facts() == Map::<FactId, FactView>::empty(),
            l.cached() == Seq::<(u64, Fact)>::empty(),
            l.cache_view() == Seq::<(u64, FactView)>::empty(),
            l.cache_capacity() == cache_capacity,
            l.hits() == 0,
            l.misses() == 0,
            l.lookups() == 0,
    {
        let l = FastFactLookup {
            fact_map: HashMap::new(),
            access_cache: LruCache::new(cache_capacity),
            cache_hits: 0,
            cache_misses: 0,
            lookup_count: 0,
        };
        assert(l.facts() =~= Map::<FactId, FactView>::empty());
        assert(l.cache_view() =~= Seq::<(u64, FactView)>::empty());
        l
    }

    /// An empty lookup with room for `initial_capacity` facts.
    pub fn with_capacity(initial_capacity: usize, cache_capacity: usize) -> (l: FastFactLookup)
        ensures
            l.wf(),
            l.facts() == Map::<FactId, FactView>::empty(),
            l.cached() == Seq::<(u64, Fact)>::empty(),
            l.cache_view() == Seq::<(u64, FactView)>::empty(),
            l.cache_capacity() == cache_capacity,
            l.hits() == 0,
            l.misses() == 0,
            l.lookups() == 0,
    {
        let l = FastFactLookup {
            fact_map: HashMap::with_capacity(initial_capacity),
            access_cache: LruCache::new(cache_capacity),
            cache_hits: 0,
            cache_misses: 0,
            lookup_count: 0,
        };
        assert(l.facts() =~= Map::<FactId, FactView>::empty());
        assert(l.cache_view() =~= Seq::<(u64, FactView)>::empty());
        l
    }

    /// Stores a fact under its id, replacing any fact stored there; a cached
    /// copy is refreshed.
    pub fn insert(&mut self, fact: Fact)
        requires
            old(self).wf(),
        ensures
            final(self).wf(),
            final(self).facts() == old(self).facts().insert(fact.id, fact@),
            final(self).facts().dom().len() == old(self).facts().dom().len() + (if old(self).facts().contains_key(fact.id) { 0int } else { 1int }),
            final(self).cache_capacity() == old(self).cache_capacity(),
            final(self).cache_view() == (if entry_index(old(self).cache_view(), fact.id) >= 0 {
                after_put(old(self).cache_view(), old(self).cache_capacity(), fact.id, fact@)
            } else {
                old(self).cache_view()
            }),
            final(self).hits() == old(self).hits(),
            final(self).misses() == old(self).misses(),
            final(self).lookups() == old(self).lookups(),
    {
        proof {
            self.lemma_cache_holds_stored();
            self.access_cache.lemma_wf();
            lemma_entries_view_index(self.access_cache.entries(), fact.id);
            lemma_entries_view_put(self.access_cache.entries(), self.access_cache.capacity_spec(), fact.id, fact);
        }
        let fact_id = fact.id;
        let ghost fv = fact@;
        let ghost e = self.access_cache.entries();
        proof {
            self.access_cache.lemma_wf();
        }
        if self.access_cache.contains_key(&fact_id) {
            self.access_cache.put(fact_id, fact.duplicate());
        }
        self.fact_map.insert(fact_id, fact);
        proof {
            assert(self.facts() =~= old(self).facts().insert(fact_id, fv));
            assert(self.facts().dom() =~= old(self).facts().dom().insert(fact_id));
            let e2 = self.access_cache.entries();
            assert forall|i: int| 0 <= i < e2.len() implies {
                let x = #[trigger] e2[i];
                &&& self.fact_map@.contains_key(x.0)
                &&& self.fact_map@[x.0]@ == x.1@
            } by {
                let idx = entry_index(e, fact_id);
                if idx >= 0 {
                    if i < e2.len() - 1 {
                        let j = if i < idx { i } else { i + 1 };
                        assert(e2[i] == e[j]);
                        assert(e[j].0 != fact_id) by {
                            assert(e[idx].0 == fact_id);
                            if j < idx {
                                assert(e[j].0 != e[idx].0);
                            } else {
                                assert(e[idx].0 != e[j].0);
                            }
                        }
                    }
                } else {
                    assert(e2[i] == e[i]);
                    if e[i].0 == fact_id {
                        assert(exists|t: int| 0 <= t < e.len() && e[t].0 == fact_id);
                    }
                }
            }
        }
    }

    /// The fact stored under `fact_id`, read through the cache: a cached
    /// fact counts a hit, any other lookup a miss and caches a found fact.
    pub fn get(&mut self, fact_id: FactId) -> (r: Option<Fact>)
        requires
            old(self).wf(),
            old(self).lookups() < usize::MAX,
            old(self).hits() < usize::MAX,
            old(self).misses() < usize::MAX,
        ensures
            final(self).wf(),
            final(self).facts() == old(self).facts(),
            match r {
                Some(f) => old(self).facts().contains_key(fact_id) && f@ == old(self).facts()[fact_id],
                None => !old(self).facts().contains_key(fact_id),
            },
            final(self).lookups() == old(self).lookups() + 1,
            entry_index(old(self).cached(), fact_id) >= 0 ==> final(self).hits() == old(self).hits() + 1
                && final(self).misses() == old(self).misses(),
            entry_index(old(self).cached(), fact_id) < 0 ==> final(self).misses() == old(self).misses() + 1
                && final(self).hits() == old(self).hits(),
            !old(self).facts().contains_key(fact_id) ==> final(self).misses() == old(self).misses() + 1
                && final(self).hits() == old(self).hits(),
            final(self).cache_capacity() == old(self).cache_capacity(),
            entry_index(old(self).cache_view(), fact_id) >= 0 ==> final(self).cache_view() == touched(old(self).cache_view(), fact_id),
            entry_index(old(self).cache_view(), fact_id) < 0 && old(self).facts().contains_key(fact_id)
                ==> final(self).cache_view() == after_put(old(self).cache_view(), old(self).cache_capacity(), fact_id, old(self).facts()[fact_id]),
            !old(self).facts().contains_key(fact_id) ==> final(self).cache_view() == old(self).cache_view(),
    {
        proof {
            self.lemma_cache_holds_stored();
            self.access_cache.lemma_wf();
            lemma_entries_view_index(self.access_cache.entries(), fact_id);
            lemma_entries_view_touched(self.access_cache.entries(), fact_id);
            if entry_index(self.access_cache.entries(), fact_id) >= 0 {
                let x = self.cache_view()[entry_index(self.access_cache.entries(), fact_id)];
                assert(x.0 == fact_id);
            }
        }
        self.lookup_count = self.lookup_count + 1;
        let ghost e = self.access_cache.entries();
        let cached = match self.access_cache.get(&fact_id) {
            Some(f) => Some(f.duplicate()),
            None => None,
        };
        proof {
            let e2 = self.access_cache.entries();
            let idx = entry_index(e, fact_id);
            if idx >= 0 {
                assert(e[idx].0 == fact_id);
            }
            assert forall|i: int| 0 <= i < e2.len() implies {
                let x = #[trigger] e2[i];
                &&& self.fact_map@.contains_key(x.0)
                &&& self.fact_map@[x.0]@ == x.1@
            } by {
                if idx >= 0 {
                    if i < e2.len() - 1 {
                        let j = if i < idx { i } else { i + 1 };
                        assert(e2[i] == e[j]);
                    } else {
                        assert(e2[i] == e[idx]);
                    }
                } else {
                    assert(e2[i] == e[i]);
                }
            }
        }
        match cached {
            Some(f) => {
                self.cache_hits = self.cache_hits + 1;
                return Some(f);
            },
            None => {},
        }
        self.cache_misses = self.cache_misses + 1;
        match self.fact_map.get(&fact_id) {
            Some(f) => {
                let found = f.duplicate();
                let copy = f.duplicate();
                let ghost e3 = self.access_cache.entries();
                proof {
                    lemma_entries_view_put(e3, self.access_cache.capacity_spec(), fact_id, copy);
                }
                self.access_cache.put(fact_id, copy);
                proof {
                    let e4 = self.access_cache.entries();
                    assert forall|i: int| 0 <= i < e4.len() implies {
                        let x = #[trigger] e4[i];
                        &&& self.fact_map@.contains_key(x.0)
                        &&& self.fact_map@[x.0]@ == x.1@
                    } by {
                        if i < e4.len() - 1 && self.access_cache.capacity_spec() > 0 {
                            if e3.len() >= self.access_cache.capacity_spec() {
                                assert(e4[i] == e3[i + 1]);
                            } else {
                                assert(e4[i] == e3[i]);
                            }
                        }
                    }
                }
                Some(found)
            },
            None => None,
        }
    }

    /// The stored facts among `fact_ids`, in order, each read as by `get`.
    pub fn get_many(&mut self, fact_ids: &[FactId]) -> (r: Vec<Fact>)
        requires
            old(self).wf(),
            old(self).lookups() + fact_ids@.len() <= usize::MAX,
            old(self).hits() + fact_ids@.len() <= usize::MAX,
            old(self).misses() + fact_ids@.len() <= usize::MAX,
        ensures
            final(self).wf(),
            final(self).facts() == old(self).facts(),
            fact_views(r@) == present_facts(old(self).facts(), fact_ids@),
            final(self).lookups() == old(self).lookups() + fact_ids@.len(),
            final(self).hits() + final(self).misses() == old(self).hits() + old(self).misses() + fact_ids@.len(),
    {
        let mut results: Vec<Fact> = Vec::with_capacity(fact_ids.len());
        let n = fact_ids.len();
        let mut i: usize = 0;
        proof {
            assert(fact_ids@.take(0) =~= Seq::<FactId>::empty());
            assert(fact_views(results@) =~= Seq::<FactView>::empty());
        }
        while i < n
            invariant
                n == fact_ids@.len(),
                i <= n,
                self.wf(),
                self.facts() == old(self).facts(),
                fact_views(results@) == present_facts(old(self).facts(), fact_ids@.take(i as int)),
                self.lookups() == old(self).lookups() + i,
                self.hits() >= old(self).hits(),
                self.misses() >= old(self).misses(),
                self.hits() + self.misses() == old(self).hits() + old(self).misses() + i,
                old(self).lookups() + n <= usize::MAX,
                old(self).hits() + n <= usize::MAX,
                old(self).misses() + n <= usize::MAX,
            decreases n - i,
        {
            let got = self.get(fact_ids[i]);
            let ghost before = fact_views(results@);
            match got {
                Some(f) => {
                    let ghost v = f@;
                    results.push(f);
                    proof {
                        assert(fact_views(results@) =~= before.push(v));
                    }
                },
                None => {},
            }
            proof {
                let t = fact_ids@.take(i + 1);
                assert(t.drop_last() =~= fact_ids@.take(i as int));
                assert(t.last() == fact_ids@[i as int]);
                assert(fact_views(results@) =~= present_facts(old(self).facts(), t));
            }
            i = i + 1;
        }
        proof {
            assert(fact_ids@.take(n as int) =~= fact_ids@);
        }
        results
    }

    /// Removes the fact stored under `fact_id`, from the cache too, giving
    /// it back.
    pub fn remove(&mut self, fact_id: FactId) -> (r: Option<Fact>)
        requires
            old(self).wf(),
        ensures
            final(self).wf(),
            final(self).facts() == old(self).facts().remove(fact_id),
            match r {
                Some(f) => old(self).facts().contains_key(fact_id) && f@ == old(self).facts()[fact_id],
                None => !old(self).facts().contains_key(fact_id),
            },
            final(self).facts().dom().len() == old(self).facts().dom().len() - (if old(self).facts().contains_key(fact_id) { 1int } else { 0int }),
            final(self).cache_capacity() == old(self).cache_capacity(),
            final(self).cache_view() == (if entry_index(old(self).cache_view(), fact_id) >= 0 {
                old(self).cache_view().remove(entry_index(old(self).cache_view(), fact_id))
            } else {
                old(self).cache_view()
            }),
            entry_index(final(self).cache_view(), fact_id) < 0,
            final(self).hits() == old(self).hits(),
            final(self).misses() == old(self).misses(),
            final(self).lookups() == old(self).lookups(),
    {
        let ghost e = self.access_cache.entries();
        proof {
            self.access_cache.lemma_wf();
            self.lemma_cache_holds_stored();
            lemma_entries_view_index(e, fact_id);
            if entry_index(e, fact_id) >= 0 {
                lemma_entries_view_remove(e, entry_index(e, fact_id));
            }
        }
        let _ = self.access_cache.remove(&fact_id);
        let r = self.fact_map.remove(&fact_id);
        proof {
            assert(self.facts() =~= old(self).facts().remove(fact_id));
            assert(self.facts().dom() =~= old(self).facts().dom().remove(fact_id));
            self.lemma_cache_holds_stored();
            if entry_index(self.cache_view(), fact_id) >= 0 {
                let j = entry_index(self.cache_view(), fact_id);
                let idx = entry_index(e, fact_id);
                if idx >= 0 {
                    let jj = if j < idx { j } else { j + 1 };
                    assert(entries_view(e)[jj].0 == fact_id);
                    assert(entries_view(e)[idx].0 == fact_id);
                    assert(e[jj].0 == e[idx].0);
                } else {
                    assert(e[j].0 == self.cache_view()[j].0);
                }
            }
            let e2 = self.access_cache.entries();
            let idx = entry_index(e, fact_id);
            assert forall|i: int| 0 <= i < e2.len() implies {
                let x = #[trigger] e2[i];
                &&& self.fact_map@.contains_key(x.0)
                &&& self.fact_map@[x.0]@ == x.1@
            } by {
                if idx >= 0 {
                    let j = if i < idx { i } else { i + 1 };
                    assert(e2[i] == e[j]);
                    assert(e[idx].0 == fact_id);
                    if j < idx {
                        assert(e[j].0 != e[idx].0);
                    } else {
                        assert(e[idx].0 != e[j].0);
                    }
                } else {
                    assert(e2[i] == e[i]);
                    if e[i].0 == fact_id {
                        assert(exists|t: int| 0 <= t < e.len() && e[t].0 == fact_id);
                    }
                }
            }
        }
        r
    }

    /// Removes every fact and resets the counters.
    pub fn clear(&mut self)
        requires
            old(self).wf(),
        ensures
            final(self).wf(),
            final(self).facts() == Map::<FactId, FactView>::empty(),
            final(self).cached() == Seq::<(u64, Fact)>::empty(),
            final(self).cache_view() == Seq::<(u64, FactView)>::empty(),
            final(self).hits() == 0,
            final(self).misses() == 0,
            final(self).lookups() == 0,
    {
        self.fact_map.clear();
        self.access_cache.clear();
        self.cache_hits = 0;
        self.cache_misses = 0;
        self.lookup_count = 0;
        assert(self.facts() =~= Map::<FactId, FactView>::empty());
        assert(self.cache_view() =~= Seq::<(u64, FactView)>::empty());
    }

    /// Number of stored facts.
    pub fn len(&self) -> (n: usize)
        requires
            self.wf(),
        ensures
            n == self.facts().dom().len(),
    {
        assert(self.facts().dom() =~= self.fact_map@.dom());
        self.fact_map.len()
    }

    /// Whether no fact is stored.
    pub fn is_empty(&self) -> (b: bool)
        requires
            self.wf(),
        ensures
            b == (self.facts().dom().len() == 0),
    {
        self.len() == 0
    }

    /// Cache hits over hits and misses.
    pub fn hit_rate(&self) -> (r: Ratio)
        requires
            self.hits() + self.misses() <= usize::MAX,
        ensures
            r == (Ratio { part: self.hits(), whole: (self.hits() + self.misses()) as usize }),
    {
        Ratio { part: self.cache_hits, whole: self.cache_hits + self.cache_misses }
    }

    /// The counters, the cache's counters and the number of stored facts.
    pub fn stats(&self) -> (s: FastLookupStats)
        requires
            self.wf(),
            self.hits() + self.misses() <= usize::MAX,
        ensures
            s.cache_stats == self.cache_stats_view(),
            s.hit_rate == (Ratio { part: self.hits(), whole: (self.hits() + self.misses()) as usize }),
            s.total_lookups == self.lookups(),
            s.cache_hits == self.hits(),
            s.cache_misses == self.misses(),
            s.facts_stored == self.facts().dom().len(),
    {
        FastLookupStats {
            cache_stats: self.access_cache.stats(),
            hit_rate: self.hit_rate(),
            total_lookups: self.lookup_count,
            cache_hits: self.cache_hits,
            cache_misses: self.cache_misses,
            facts_stored: self.len(),
        }
    }

    /// Stores each fact in turn, as `insert` does.
    pub fn extend_from_vec(&mut self, facts: Vec<Fact>)
        requires
            old(self).wf(),
        ensures
            final(self).wf(),
            final(self).facts() == store_all(old(self).facts(), fact_views(facts@)),
            final(self).hits() == old(self).hits(),
            final(self).misses() == old(self).misses(),
            final(self).lookups() == old(self).lookups(),
    {
        let n = facts.len();
        let mut i: usize = 0;
        let ghost fv = fact_views(facts@);
        proof {
            assert(fv.take(0) =~= Seq::<FactView>::empty());
        }
        while i < n
            invariant
                n == facts@.len(),
                fv == fact_views(facts@),
                i <= n,
                self.wf(),
                self.facts() == store_all(old(self).facts(), fv.take(i as int)),
                self.hits() == old(self).hits(),
                self.misses() == old(self).misses(),
                self.lookups() == old(self).lookups(),
            decreases n - i,
        {
            self.insert(facts[i].duplicate());
            proof {
                let t = fv.take(i + 1);
                assert(t.drop_last() =~= fv.take(i as int));
                assert(t.last() == facts@[i as int]@);
            }
            i = i + 1;
        }
        proof {
            assert(fv.take(n as int) =~= fv);
        }
    }

    /// The ids of the stored facts, each once, in the map's own order.
    pub fn fact_ids(&self) -> (ids: Vec<FactId>)
        requires
            self.wf(),
        ensures
            ids@.to_set() == self.facts().dom(),
            ids@.no_duplicates(),
            ids@.len() == self.facts().dom().len(),
    {
        let mut ids: Vec<FactId> = Vec::new();
        for k in it: self.fact_map.keys()
            invariant
                ids@ == it.seq().take(it.index() as int).map_values(|r: &FactId| *r),
        {
            ids.push(*k);
            proof {
                assert(ids@ =~= it.seq().take(it.index() + 1).map_values(|r: &FactId| *r));
            }
        }
        proof {
            let s = vstd::std_specs::hash::spec_keys_iter(&self.fact_map).remaining();
            assert(ids@ =~= s.unref());
            assert(self.facts().dom() =~= self.fact_map@.dom());
        }
        ids
    }

    /// Whether a fact is stored under `fact_id`; counts nothing.
    pub fn contains(&self, fact_id: FactId) -> (b: bool)
        requires
            self.wf(),
        ensures
            b == self.facts().contains_key(fact_id),
    {
        self.fact_map.contains_key(&fact_id)
    }
}

} // verus!
