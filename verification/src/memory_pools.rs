//! Object pools for frequently allocated vectors and field maps, with hit
//! and miss accounting.

use vstd::prelude::*;
use crate::types::{FactData, FactId, Ratio, RuleExecutionResult, RuleId, ValueView};

verus! {

/// Mathematical model of a pool.
pub struct PoolView {
    /// Number of pooled objects.
    pub pooled: nat,
    pub hits: usize,
    pub misses: usize,
    pub max_pool_size: usize,
}

/// Counter increment that wraps at the top of `usize`.
pub open spec fn wrap_inc(c: usize) -> usize {
    if c == usize::MAX { 0 } else { (c + 1) as usize }
}

/// The pool after a request: a pooled object is handed out (a hit) or a new
/// one is made (a miss).
pub open spec fn after_get(p: PoolView) -> PoolView {
    if p.pooled > 0 {
        PoolView { pooled: (p.pooled - 1) as nat, hits: wrap_inc(p.hits), ..p }
    } else {
        PoolView { misses: wrap_inc(p.misses), ..p }
    }
}

/// The pool after an object is given back: kept while the pool is below its
/// limit, dropped otherwise.
pub open spec fn after_return(p: PoolView) -> PoolView {
    if p.pooled < p.max_pool_size {
        PoolView { pooled: p.pooled + 1, ..p }
    } else {
        p
    }
}

/// An object given back to a pool below its limit is handed out again by
/// the next request: a hit, with no new object made.
pub proof fn law_return_then_get_hits(p: PoolView)
    requires
        p.pooled < p.max_pool_size,
    ensures
        after_get(after_return(p)).pooled == p.pooled,
        after_get(after_return(p)).hits == wrap_inc(p.hits),
        after_get(after_return(p)).misses == p.misses,
{
}

/// A pool within its limit stays within it, whatever is requested or
/// given back.
pub proof fn law_pool_bounded(p: PoolView)
    requires
        p.pooled <= p.max_pool_size,
    ensures
        after_get(p).pooled <= after_get(p).max_pool_size,
        after_return(p).pooled <= after_return(p).max_pool_size,
{
}

/// A pool of vectors, handed out empty.
#[derive(Debug)]
pub struct VecPool<T> {
    pool: Vec<Vec<T>>,
    hits: usize,
    misses: usize,
    max_pool_size: usize,
}

impl<T> VecPool<T> {
    /// The pool's model.
    pub closed spec fn view(&self) -> PoolView {
        PoolView { pooled: self.pool@.len(), hits: self.hits, misses: self.misses, max_pool_size: self.max_pool_size }
    }

    /// The pool never holds more than its limit.
    pub closed spec fn wf(&self) -> bool {
        self.pool@.len() <= self.max_pool_size
    }

    /// A well-formed pool holds no more vectors than its limit.
    pub proof fn lemma_bounded(&self)
        requires
            self.wf(),
        ensures
            self.view().pooled <= self.view().max_pool_size,
    {
    }

    /// An empty pool that keeps at most `max_size` vectors.
    pub fn with_capacity(max_size: usize) -> (p: VecPool<T>)
        ensures
            p.wf(),
            p.view() == (PoolView { pooled: 0, hits: 0, misses: 0, max_pool_size: max_size }),
    {
        VecPool { pool: Vec::with_capacity(max_size / 4), hits: 0, misses: 0, max_pool_size: max_size }
    }

    /// An empty vector: a pooled one, cleared, or a new one.
    pub fn get(&mut self) -> (v: Vec<T>)
        requires
            old(self).wf(),
        ensures
            final(self).wf(),
            v@.len() == 0,
            final(self).view() == after_get(old(self).view()),
    {
        match self.pool.pop() {
            Some(mut v) => {
                v.clear();
                self.hits = if self.hits == usize::MAX { 0 } else { self.hits + 1 };
                v
            },
            None => {
                self.misses = if self.misses == usize::MAX { 0 } else { self.misses + 1 };
                Vec::new()
            },
        }
    }

    /// Gives a vector back; it is kept while the pool is below its limit.
    pub fn return_vec(&mut self, v: Vec<T>)
        requires
            old(self).wf(),
        ensures
            final(self).wf(),
            final(self).view() == after_return(old(self).view()),
    {
        if self.pool.len() < self.max_pool_size {
            self.pool.push(v);
        }
    }

    /// `(hits, misses, pooled)`.
    pub fn stats(&self) -> (r: (usize, usize, usize))
        requires
            self.wf(),
        ensures
            r.0 == self.view().hits,
            r.1 == self.view().misses,
            r.2 == self.view().pooled,
    {
        (self.hits, self.misses, self.pool.len())
    }

    /// Hits over requests (hits and misses).
    pub fn hit_rate(&self) -> (r: Ratio)
        requires
            self.view().hits + self.view().misses <= usize::MAX,
        ensures
            r == (Ratio { part: self.view().hits, whole: (self.view().hits + self.view().misses) as usize }),
    {
        Ratio { part: self.hits, whole: self.hits + self.misses }
    }
}

/// Pool of `Vec<RuleExecutionResult>` for rule processing.
#[derive(Debug)]
pub struct RuleExecutionResultPool {
    inner: VecPool<RuleExecutionResult>,
}

impl RuleExecutionResultPool {
    /// The pool's model.
    pub closed spec fn view(&self) -> PoolView {
        self.inner.view()
    }

    /// The pool never holds more than its limit.
    pub closed spec fn wf(&self) -> bool {
        self.inner.wf()
    }

    /// A well-formed pool holds no more vectors than its limit.
    pub proof fn lemma_bounded(&self)
        requires
            self.wf(),
        ensures
            self.view().pooled <= self.view().max_pool_size,
    {
        self.inner.lemma_bounded();
    }

    /// An empty pool with the default limit of 100 vectors.
    pub fn new() -> (p: Self)
        ensures
            p.wf(),
            p.view() == (PoolView { pooled: 0, hits: 0, misses: 0, max_pool_size: 100 }),
    {
        Self::with_capacity(100)
    }

    /// An empty pool that keeps at most `max_size` vectors.
    pub fn with_capacity(max_size: usize) -> (p: Self)
        ensures
            p.wf(),
            p.view() == (PoolView { pooled: 0, hits: 0, misses: 0, max_pool_size: max_size }),
    {
        RuleExecutionResultPool { inner: VecPool::with_capacity(max_size) }
    }

    /// An empty vector: a pooled one (a hit) or a new one (a miss).
    pub fn get(&mut self) -> (v: Vec<RuleExecutionResult>)
        requires
            old(self).wf(),
        ensures
            final(self).wf(),
            v@.len() == 0,
            final(self).view() == after_get(old(self).view()),
    {
        self.inner.get()
    }

    /// Gives a vector back; it is kept while the pool is below its limit.
    pub fn return_vec(&mut self, vec: Vec<RuleExecutionResult>)
        requires
            old(self).wf(),
        ensures
            final(self).wf(),
            final(self).view() == after_return(old(self).view()),
    {
        self.inner.return_vec(vec)
    }

    /// `(hits, misses, pooled)`.
    pub fn stats(&self) -> (r: (usize, usize, usize))
        requires
            self.wf(),
        ensures
            r.0 == self.view().hits,
            r.1 == self.view().misses,
            r.2 == self.view().pooled,
    {
        self.inner.stats()
    }

    /// Hits over requests (hits and misses).
    pub fn hit_rate(&self) -> (r: Ratio)
        requires
            self.view().hits + self.view().misses <= usize::MAX,
        ensures
            r == (Ratio { part: self.view().hits, whole: (self.view().hits + self.view().misses) as usize }),
    {
        self.inner.hit_rate()
    }
}

impl Default for RuleExecutionResultPool {
    fn default() -> (p: Self)
        ensures
            p.wf(),
            p.view() == (PoolView { pooled: 0, hits: 0, misses: 0, max_pool_size: 100 }),
    {
        Self::new()
    }
}

/// Pool of `Vec<RuleId>` for rule matching.
#[derive(Debug)]
pub struct RuleIdVecPool {
    inner: VecPool<RuleId>,
}

impl RuleIdVecPool {
    /// The pool's model.
    pub closed spec fn view(&self) -> PoolView {
        self.inner.view()
    }

    /// The pool never holds more than its limit.
    pub closed spec fn wf(&self) -> bool {
        self.inner.wf()
    }

    /// A well-formed pool holds no more vectors than its limit.
    pub proof fn lemma_bounded(&self)
        requires
            self.wf(),
        ensures
            self.view().pooled <= self.view().max_pool_size,
    {
        self.inner.lemma_bounded();
    }

    /// An empty pool with the default limit of 200 vectors.
    pub fn new() -> (p: Self)
        ensures
            p.wf(),
            p.view() == (PoolView { pooled: 0, hits: 0, misses: 0, max_pool_size: 200 }),
    {
        Self::with_capacity(200)
    }

    /// An empty pool that keeps at most `max_size` vectors.
    pub fn with_capacity(max_size: usize) -> (p: Self)
        ensures
            p.wf(),
            p.view() == (PoolView { pooled: 0, hits: 0, misses: 0, max_pool_size: max_size }),
    {
        RuleIdVecPool { inner: VecPool::with_capacity(max_size) }
    }

    /// An empty vector: a pooled one (a hit) or a new one (a miss).
    pub fn get(&mut self) -> (v: Vec<RuleId>)
        requires
            old(self).wf(),
        ensures
            final(self).wf(),
            v@.len() == 0,
            final(self).view() == after_get(old(self).view()),
    {
        self.inner.get()
    }

    /// Gives a vector back; it is kept while the pool is below its limit.
    pub fn return_vec(&mut self, vec: Vec<RuleId>)
        requires
            old(self).wf(),
        ensures
            final(self).wf(),
            final(self).view() == after_return(old(self).view()),
    {
        self.inner.return_vec(vec)
    }

    /// `(hits, misses, pooled)`.
    pub fn stats(&self) -> (r: (usize, usize, usize))
        requires
            self.wf(),
        ensures
            r.0 == self.view().hits,
            r.1 == self.view().misses,
            r.2 == self.view().pooled,
    {
        self.inner.stats()
    }

    /// Hits over requests (hits and misses).
    pub fn hit_rate(&self) -> (r: Ratio)
        requires
            self.view().hits + self.view().misses <= usize::MAX,
        ensures
            r == (Ratio { part: self.view().hits, whole: (self.view().hits + self.view().misses) as usize }),
    {
        self.inner.hit_rate()
    }
}

impl Default for RuleIdVecPool {
    fn default() -> (p: Self)
        ensures
            p.wf(),
            p.view() == (PoolView { pooled: 0, hits: 0, misses: 0, max_pool_size: 200 }),
    {
        Self::new()
    }
}

/// Pool of `Vec<FactId>` for fact processing.
#[derive(Debug)]
pub struct FactIdVecPool {
    inner: VecPool<FactId>,
}

impl FactIdVecPool {
    /// The pool's model.
    pub closed spec fn view(&self) -> PoolView {
        self.inner.view()
    }

    /// The pool never holds more than its limit.
    pub closed spec fn wf(&self) -> bool {
        self.inner.wf()
    }

    /// A well-formed pool holds no more vectors than its limit.
    pub proof fn lemma_bounded(&self)
        requires
            self.wf(),
        ensures
            self.view().pooled <= self.view().max_pool_size,
    {
        self.inner.lemma_bounded();
    }

    /// An empty pool with the default limit of 300 vectors.
    pub fn new() -> (p: Self)
        ensures
            p.wf(),
            p.view() == (PoolView { pooled: 0, hits: 0, misses: 0, max_pool_size: 300 }),
    {
        Self::with_capacity(300)
    }

    /// An empty pool that keeps at most `max_size` vectors.
    pub fn with_capacity(max_size: usize) -> (p: Self)
        ensures
            p.wf(),
            p.view() == (PoolView { pooled: 0, hits: 0, misses: 0, max_pool_size: max_size }),
    {
        FactIdVecPool { inner: VecPool::with_capacity(max_size) }
    }

    /// An empty vector: a pooled one (a hit) or a new one (a miss).
    pub fn get(&mut self) -> (v: Vec<FactId>)
        requires
            old(self).wf(),
        ensures
            final(self).wf(),
            v@.len() == 0,
            final(self).view() == after_get(old(self).view()),
    {
        self.inner.get()
    }

    /// Gives a vector back; it is kept while the pool is below its limit.
    pub fn return_vec(&mut self, vec: Vec<FactId>)
        requires
            old(self).wf(),
        ensures
            final(self).wf(),
            final(self).view() == after_return(old(self).view()),
    {
        self.inner.return_vec(vec)
    }

    /// `(hits, misses, pooled)`.
    pub fn stats(&self) -> (r: (usize, usize, usize))
        requires
            self.wf(),
        ensures
            r.0 == self.view().hits,
            r.1 == self.view().misses,
            r.2 == self.view().pooled,
    {
        self.inner.stats()
    }

    /// Hits over requests (hits and misses).
    pub fn hit_rate(&self) -> (r: Ratio)
        requires
            self.view().hits + self.view().misses <= usize::MAX,
        ensures
            r == (Ratio { part: self.view().hits, whole: (self.view().hits + self.view().misses) as usize }),
    {
        self.inner.hit_rate()
    }
}

impl Default for FactIdVecPool {
    fn default() -> (p: Self)
        ensures
            p.wf(),
            p.view() == (PoolView { pooled: 0, hits: 0, misses: 0, max_pool_size: 300 }),
    {
        Self::new()
    }
}

/// Pool of `Vec<RuleExecutionResult>` for parallel processing.
#[derive(Debug)]
pub struct ConcurrentRuleExecutionResultPool {
    inner: VecPool<RuleExecutionResult>,
}

impl ConcurrentRuleExecutionResultPool {
    /// The pool's model.
    pub closed spec fn view(&self) -> PoolView {
        self.inner.view()
    }

    /// The pool never holds more than its limit.
    pub closed spec fn wf(&self) -> bool {
        self.inner.wf()
    }

    /// A well-formed pool holds no more vectors than its limit.
    pub proof fn lemma_bounded(&self)
        requires
            self.wf(),
        ensures
            self.view().pooled <= self.view().max_pool_size,
    {
        self.inner.lemma_bounded();
    }

    /// An empty pool with the default limit of 100 vectors.
    pub fn new() -> (p: Self)
        ensures
            p.wf(),
            p.view() == (PoolView { pooled: 0, hits: 0, misses: 0, max_pool_size: 100 }),
    {
        Self::with_capacity(100)
    }

    /// An empty pool that keeps at most `max_size` vectors.
    pub fn with_capacity(max_size: usize) -> (p: Self)
        ensures
            p.wf(),
            p.view() == (PoolView { pooled: 0, hits: 0, misses: 0, max_pool_size: max_size }),
    {
        ConcurrentRuleExecutionResultPool { inner: VecPool::with_capacity(max_size) }
    }

    /// An empty vector: a pooled one (a hit) or a new one (a miss).
    pub fn get(&mut self) -> (v: Vec<RuleExecutionResult>)
        requires
            old(self).wf(),
        ensures
            final(self).wf(),
            v@.len() == 0,
            final(self).view() == after_get(old(self).view()),
    {
        self.inner.get()
    }

    /// Gives a vector back; it is kept while the pool is below its limit.
    pub fn return_vec(&mut self, vec: Vec<RuleExecutionResult>)
        requires
            old(self).wf(),
        ensures
            final(self).wf(),
            final(self).view() == after_return(old(self).view()),
    {
        self.inner.return_vec(vec)
    }

    /// `(hits, misses, pooled)`.
    pub fn stats(&self) -> (r: (usize, usize, usize))
        requires
            self.wf(),
        ensures
            r.0 == self.view().hits,
            r.1 == self.view().misses,
            r.2 == self.view().pooled,
    {
        self.inner.stats()
    }

    /// Hits over requests (hits and misses).
    pub fn hit_rate(&self) -> (r: Ratio)
        requires
            self.view().hits + self.view().misses <= usize::MAX,
        ensures
            r == (Ratio { part: self.view().hits, whole: (self.view().hits + self.view().misses) as usize }),
    {
        self.inner.hit_rate()
    }
}

impl Default for ConcurrentRuleExecutionResultPool {
    fn default() -> (p: Self)
        ensures
            p.wf(),
            p.view() == (PoolView { pooled: 0, hits: 0, misses: 0, max_pool_size: 100 }),
    {
        Self::new()
    }
}

/// Pool of `Vec<RuleId>` for parallel processing.
#[derive(Debug)]
pub struct ConcurrentRuleIdVecPool {
    inner: VecPool<RuleId>,
}

impl ConcurrentRuleIdVecPool {
    /// The pool's model.
    pub closed spec fn view(&self) -> PoolView {
        self.inner.view()
    }

    /// The pool never holds more than its limit.
    pub closed spec fn wf(&self) -> bool {
        self.inner.wf()
    }

    /// A well-formed pool holds no more vectors than its limit.
    pub proof fn lemma_bounded(&self)
        requires
            self.wf(),
        ensures
            self.view().pooled <= self.view().max_pool_size,
    {
        self.inner.lemma_bounded();
    }

    /// An empty pool with the default limit of 200 vectors.
    pub fn new() -> (p: Self)
        ensures
            p.wf(),
            p.view() == (PoolView { pooled: 0, hits: 0, misses: 0, max_pool_size: 200 }),
    {
        Self::with_capacity(200)
    }

    /// An empty pool that keeps at most `max_size` vectors.
    pub fn with_capacity(max_size: usize) -> (p: Self)
        ensures
            p.wf(),
            p.view() == (PoolView { pooled: 0, hits: 0, misses: 0, max_pool_size: max_size }),
    {
        ConcurrentRuleIdVecPool { inner: VecPool::with_capacity(max_size) }
    }

    /// An empty vector: a pooled one (a hit) or a new one (a miss).
    pub fn get(&mut self) -> (v: Vec<RuleId>)
        requires
            old(self).wf(),
        ensures
            final(self).wf(),
            v@.len() == 0,
            final(self).view() == after_get(old(self).view()),
    {
        self.inner.get()
    }

    /// Gives a vector back; it is kept while the pool is below its limit.
    pub fn return_vec(&mut self, vec: Vec<RuleId>)
        requires
            old(self).wf(),
        ensures
            final(self).wf(),
            final(self).view() == after_return(old(self).view()),
    {
        self.inner.return_vec(vec)
    }

    /// `(hits, misses, pooled)`.
    pub fn stats(&self) -> (r: (usize, usize, usize))
        requires
            self.wf(),
        ensures
            r.0 == self.view().hits,
            r.1 == self.view().misses,
            r.2 == self.view().pooled,
    {
        self.inner.stats()
    }

    /// Hits over requests (hits and misses).
    pub fn hit_rate(&self) -> (r: Ratio)
        requires
            self.view().hits + self.view().misses <= usize::MAX,
        ensures
            r == (Ratio { part: self.view().hits, whole: (self.view().hits + self.view().misses) as usize }),
    {
        self.inner.hit_rate()
    }
}

impl Default for ConcurrentRuleIdVecPool {
    fn default() -> (p: Self)
        ensures
            p.wf(),
            p.view() == (PoolView { pooled: 0, hits: 0, misses: 0, max_pool_size: 200 }),
    {
        Self::new()
    }
}

/// Pool of field maps for fact processing and aggregations, handed out empty.
#[derive(Debug)]
pub struct FactFieldMapPool {
    pool: Vec<FactData>,
    hits: usize,
    misses: usize,
    max_pool_size: usize,
}

impl FactFieldMapPool {
    /// The pool's model.
    pub closed spec fn view(&self) -> PoolView {
        PoolView { pooled: self.pool@.len(), hits: self.hits, misses: self.misses, max_pool_size: self.max_pool_size }
    }

    /// The pool never holds more than its limit.
    pub closed spec fn wf(&self) -> bool {
        self.pool@.len() <= self.max_pool_size
    }

    /// A well-formed pool holds no more vectors than its limit.
    pub proof fn lemma_bounded(&self)
        requires
            self.wf(),
        ensures
            self.view().pooled <= self.view().max_pool_size,
    {
    }

    /// An empty pool with the default limit of 150 maps.
    pub fn new() -> (p: Self)
        ensures
            p.wf(),
            p.view() == (PoolView { pooled: 0, hits: 0, misses: 0, max_pool_size: 150 }),
    {
        Self::with_capacity(150)
    }

    /// An empty pool that keeps at most `max_size` maps.
    pub fn with_capacity(max_size: usize) -> (p: Self)
        ensures
            p.wf(),
            p.view() == (PoolView { pooled: 0, hits: 0, misses: 0, max_pool_size: max_size }),
    {
        FactFieldMapPool { pool: Vec::with_capacity(max_size / 4), hits: 0, misses: 0, max_pool_size: max_size }
    }

    /// An empty map: a pooled one, cleared (a hit), or a new one (a miss).
    pub fn get(&mut self) -> (m: FactData)
        requires
            old(self).wf(),
        ensures
            final(self).wf(),
            m@ == Seq::<(Seq<char>, ValueView)>::empty(),
            final(self).view() == after_get(old(self).view()),
    {
        match self.pool.pop() {
            Some(mut m) => {
                m.clear();
                self.hits = if self.hits == usize::MAX { 0 } else { self.hits + 1 };
                m
            },
            None => {
                self.misses = if self.misses == usize::MAX { 0 } else { self.misses + 1 };
                FactData::new()
            },
        }
    }

    /// Gives a map back; it is kept while the pool is below its limit.
    pub fn return_map(&mut self, map: FactData)
        requires
            old(self).wf(),
        ensures
            final(self).wf(),
            final(self).view() == after_return(old(self).view()),
    {
        if self.pool.len() < self.max_pool_size {
            self.pool.push(map);
        }
    }

    /// `(hits, misses, pooled)`.
    pub fn stats(&self) -> (r: (usize, usize, usize))
        requires
            self.wf(),
        ensures
            r.0 == self.view().hits,
            r.1 == self.view().misses,
            r.2 == self.view().pooled,
    {
        (self.hits, self.misses, self.pool.len())
    }

    /// Hits over requests (hits and misses).
    pub fn hit_rate(&self) -> (r: Ratio)
        requires
            self.view().hits + self.view().misses <= usize::MAX,
        ensures
            r == (Ratio { part: self.view().hits, whole: (self.view().hits + self.view().misses) as usize }),
    {
        Ratio { part: self.hits, whole: self.hits + self.misses }
    }
}

impl Default for FactFieldMapPool {
    fn default() -> (p: Self)
        ensures
            p.wf(),
            p.view() == (PoolView { pooled: 0, hits: 0, misses: 0, max_pool_size: 150 }),
    {
        Self::new()
    }
}

/// Pool of numeric vectors for aggregations. The pool never looks at the
/// numbers, so their type is the caller's.
#[derive(Debug)]
pub struct NumericVecPool<N> {
    inner: VecPool<N>,
}

impl<N> NumericVecPool<N> {
    /// The pool's model.
    pub closed spec fn view(&self) -> PoolView {
        self.inner.view()
    }

    /// The pool never holds more than its limit.
    pub closed spec fn wf(&self) -> bool {
        self.inner.wf()
    }

    /// A well-formed pool holds no more vectors than its limit.
    pub proof fn lemma_bounded(&self)
        requires
            self.wf(),
        ensures
            self.view().pooled <= self.view().max_pool_size,
    {
        self.inner.lemma_bounded();
    }

    /// An empty pool with the default limit of 100 vectors.
    pub fn new() -> (p: Self)
        ensures
            p.wf(),
            p.view() == (PoolView { pooled: 0, hits: 0, misses: 0, max_pool_size: 100 }),
    {
        Self::with_capacity(100)
    }

    /// An empty pool that keeps at most `max_size` vectors.
    pub fn with_capacity(max_size: usize) -> (p: Self)
        ensures
            p.wf(),
            p.view() == (PoolView { pooled: 0, hits: 0, misses: 0, max_pool_size: max_size }),
    {
        NumericVecPool { inner: VecPool::with_capacity(max_size) }
    }

    /// An empty vector: a pooled one (a hit) or a new one (a miss).
    pub fn get(&mut self) -> (v: Vec<N>)
        requires
            old(self).wf(),
        ensures
            final(self).wf(),
            v@.len() == 0,
            final(self).view() == after_get(old(self).view()),
    {
        self.inner.get()
    }

    /// Gives a vector back; it is kept while the pool is below its limit.
    pub fn return_vec(&mut self, vec: Vec<N>)
        requires
            old(self).wf(),
        ensures
            final(self).wf(),
            final(self).view() == after_return(old(self).view()),
    {
        self.inner.return_vec(vec)
    }

    /// `(hits, misses, pooled)`.
    pub fn stats(&self) -> (r: (usize, usize, usize))
        requires
            self.wf(),
        ensures
            r.0 == self.view().hits,
            r.1 == self.view().misses,
            r.2 == self.view().pooled,
    {
        self.inner.stats()
    }

    /// Hits over requests (hits and misses).
    pub fn hit_rate(&self) -> (r: Ratio)
        requires
            self.view().hits + self.view().misses <= usize::MAX,
        ensures
            r == (Ratio { part: self.view().hits, whole: (self.view().hits + self.view().misses) as usize }),
    {
        self.inner.hit_rate()
    }
}

impl<N> Default for NumericVecPool<N> {
    fn default() -> (p: Self)
        ensures
            p.wf(),
            p.view() == (PoolView { pooled: 0, hits: 0, misses: 0, max_pool_size: 100 }),
    {
        Self::new()
    }
}

/// Pool of token vectors for the beta network. The pool never looks at the
/// tokens, so their type is the caller's.
#[derive(Debug)]
pub struct TokenVecPool<K> {
    inner: VecPool<K>,
}

impl<K> TokenVecPool<K> {
    /// The pool's model.
    pub closed spec fn view(&self) -> PoolView {
        self.inner.view()
    }

    /// The pool never holds more than its limit.
    pub closed spec fn wf(&self) -> bool {
        self.inner.wf()
    }

    /// A well-formed pool holds no more vectors than its limit.
    pub proof fn lemma_bounded(&self)
        requires
            self.wf(),
        ensures
            self.view().pooled <= self.view().max_pool_size,
    {
        self.inner.lemma_bounded();
    }

    /// An empty pool with the default limit of 200 vectors.
    pub fn new() -> (p: Self)
        ensures
            p.wf(),
            p.view() == (PoolView { pooled: 0, hits: 0, misses: 0, max_pool_size: 200 }),
    {
        Self::with_capacity(200)
    }

    /// An empty pool that keeps at most `max_size` vectors.
    pub fn with_capacity(max_size: usize) -> (p: Self)
        ensures
            p.wf(),
            p.view() == (PoolView { pooled: 0, hits: 0, misses: 0, max_pool_size: max_size }),
    {
        TokenVecPool { inner: VecPool::with_capacity(max_size) }
    }

    /// An empty vector: a pooled one (a hit) or a new one (a miss).
    pub fn get(&mut self) -> (v: Vec<K>)
        requires
            old(self).wf(),
        ensures
            final(self).wf(),
            v@.len() == 0,
            final(self).view() == after_get(old(self).view()),
    {
        self.inner.get()
    }

    /// Gives a vector back; it is kept while the pool is below its limit.
    pub fn return_vec(&mut self, vec: Vec<K>)
        requires
            old(self).wf(),
        ensures
            final(self).wf(),
            final(self).view() == after_return(old(self).view()),
    {
        self.inner.return_vec(vec)
    }

    /// `(hits, misses, pooled)`.
    pub fn stats(&self) -> (r: (usize, usize, usize))
        requires
            self.wf(),
        ensures
            r.0 == self.view().hits,
            r.1 == self.view().misses,
            r.2 == self.view().pooled,
    {
        self.inner.stats()
    }

    /// Hits over requests (hits and misses).
    pub fn hit_rate(&self) -> (r: Ratio)
        requires
            self.view().hits + self.view().misses <= usize::MAX,
        ensures
            r == (Ratio { part: self.view().hits, whole: (self.view().hits + self.view().misses) as usize }),
    {
        self.inner.hit_rate()
    }
}

impl<K> Default for TokenVecPool<K> {
    fn default() -> (p: Self)
        ensures
            p.wf(),
            p.view() == (PoolView { pooled: 0, hits: 0, misses: 0, max_pool_size: 200 }),
    {
        Self::new()
    }
}

/// The counts of one pool.
#[derive(Debug, Clone, Copy, PartialEq, Eq, Structural)]
pub struct PoolStats {
    pub hits: usize,
    pub misses: usize,
    pub pool_size: usize,
    /// Hits over requests.
    pub hit_rate: Ratio,
}

/// The counts of a pool with this model.
pub open spec fn pool_stats_of(p: PoolView) -> PoolStats {
    PoolStats {
        hits: p.hits,
        misses: p.misses,
        pool_size: p.pooled as usize,
        hit_rate: Ratio { part: p.hits, whole: (p.hits + p.misses) as usize },
    }
}

/// Whether a pool's hits and misses together fit in `usize`.
pub open spec fn requests_fit(p: PoolView) -> bool {
    p.hits + p.misses <= usize::MAX
}

/// The counts of all pools of a manager.
#[derive(Debug, Clone, Copy, PartialEq, Eq, Structural)]
pub struct MemoryPoolStats {
    pub rule_execution_result_pool: PoolStats,
    pub rule_id_vec_pool: PoolStats,
    pub fact_id_vec_pool: PoolStats,
    pub fact_field_map_pool: PoolStats,
    pub numeric_vec_pool: PoolStats,
    pub token_vec_pool: PoolStats,
}

/// The memory that the hits saved, by the typical size of each kind of
/// pooled object.
pub open spec fn memory_saved(s: MemoryPoolStats) -> int {
    s.rule_execution_result_pool.hits * 128 + s.rule_id_vec_pool.hits * 64 + s.fact_id_vec_pool.hits * 64
        + s.fact_field_map_pool.hits * 256 + s.numeric_vec_pool.hits * 96 + s.token_vec_pool.hits * 80
}

/// The pooled objects of all pools together.
pub open spec fn pooled_total(s: MemoryPoolStats) -> int {
    s.rule_execution_result_pool.pool_size + s.rule_id_vec_pool.pool_size + s.fact_id_vec_pool.pool_size
        + s.fact_field_map_pool.pool_size + s.numeric_vec_pool.pool_size + s.token_vec_pool.pool_size
}

impl MemoryPoolStats {
    /// A rough estimate of the memory that pooling saved, in bytes.
    pub fn estimated_memory_saved_bytes(&self) -> (r: usize)
        requires
            memory_saved(*self) <= usize::MAX,
        ensures
            r == memory_saved(*self),
    {
        let a = self.rule_execution_result_pool.hits as u128 * 128;
        let b = self.rule_id_vec_pool.hits as u128 * 64;
        let c = self.fact_id_vec_pool.hits as u128 * 64;
        let d = self.fact_field_map_pool.hits as u128 * 256;
        let e = self.numeric_vec_pool.hits as u128 * 96;
        let f = self.token_vec_pool.hits as u128 * 80;
        (a + b + c + d + e + f) as usize
    }

    /// The pooled objects over the pools' default capacities (1050 in all).
    pub fn total_pool_utilization(&self) -> (r: Ratio)
        requires
            pooled_total(*self) <= usize::MAX,
        ensures
            r == (Ratio { part: pooled_total(*self) as usize, whole: 1050 }),
    {
        let total_used = self.rule_execution_result_pool.pool_size as u128 + self.rule_id_vec_pool.pool_size as u128
            + self.fact_id_vec_pool.pool_size as u128 + self.fact_field_map_pool.pool_size as u128
            + self.numeric_vec_pool.pool_size as u128 + self.token_vec_pool.pool_size as u128;
        Ratio { part: total_used as usize, whole: 1050 }
    }
}

/// All pools together. The element types of the numeric and token pools
/// are the caller's.
#[derive(Debug)]
pub struct MemoryPoolManager<N, K> {
    pub rule_execution_results: RuleExecutionResultPool,
    pub rule_id_vecs: RuleIdVecPool,
    pub fact_id_vecs: FactIdVecPool,
    pub fact_field_maps: FactFieldMapPool,
    pub numeric_vecs: NumericVecPool<N>,
    pub token_vecs: TokenVecPool<K>,
}

impl<N, K> MemoryPoolManager<N, K> {
    /// Every pool is within its limit.
    pub open spec fn wf(&self) -> bool {
        &&& self.rule_execution_results.wf()
        &&& self.rule_id_vecs.wf()
        &&& self.fact_id_vecs.wf()
        &&& self.fact_field_maps.wf()
        &&& self.numeric_vecs.wf()
        &&& self.token_vecs.wf()
    }

    /// The limits of the six pools, in field order.
    pub open spec fn limits(&self) -> Seq<usize> {
        seq![
            self.rule_execution_results.view().max_pool_size,
            self.rule_id_vecs.view().max_pool_size,
            self.fact_id_vecs.view().max_pool_size,
            self.fact_field_maps.view().max_pool_size,
            self.numeric_vecs.view().max_pool_size,
            self.token_vecs.view().max_pool_size,
        ]
    }

    /// Whether every pool is empty and has served no request.
    pub open spec fn unused(&self) -> bool {
        &&& self.rule_execution_results.view().pooled == 0 && self.rule_execution_results.view().hits == 0
            && self.rule_execution_results.view().misses == 0
        &&& self.rule_id_vecs.view().pooled == 0 && self.rule_id_vecs.view().hits == 0 && self.rule_id_vecs.view().misses == 0
        &&& self.fact_id_vecs.view().pooled == 0 && self.fact_id_vecs.view().hits == 0 && self.fact_id_vecs.view().misses == 0
        &&& self.fact_field_maps.view().pooled == 0 && self.fact_field_maps.view().hits == 0
            && self.fact_field_maps.view().misses == 0
        &&& self.numeric_vecs.view().pooled == 0 && self.numeric_vecs.view().hits == 0 && self.numeric_vecs.view().misses == 0
        &&& self.token_vecs.view().pooled == 0 && self.token_vecs.view().hits == 0 && self.token_vecs.view().misses == 0
    }

    /// Unused pools with the default limits: 100, 200, 300, 150, 100, 200.
    pub fn new() -> (m: Self)
        ensures
            m.wf(),
            m.unused(),
            m.limits() == seq![100usize, 200, 300, 150, 100, 200],
    {
        let m = MemoryPoolManager {
            rule_execution_results: RuleExecutionResultPool::new(),
            rule_id_vecs: RuleIdVecPool::new(),
            fact_id_vecs: FactIdVecPool::new(),
            fact_field_maps: FactFieldMapPool::new(),
            numeric_vecs: NumericVecPool::new(),
            token_vecs: TokenVecPool::new(),
        };
        assert(m.limits() =~= seq![100usize, 200, 300, 150, 100, 200]);
        m
    }

    /// Unused pools with the high-throughput limits: 500, 1000, 1500, 800,
    /// 400, 600.
    pub fn with_high_throughput_config() -> (m: Self)
        ensures
            m.wf(),
            m.unused(),
            m.limits() == seq![500usize, 1000, 1500, 800, 400, 600],
    {
        let m = MemoryPoolManager {
            rule_execution_results: RuleExecutionResultPool::with_capacity(500),
            rule_id_vecs: RuleIdVecPool::with_capacity(1000),
            fact_id_vecs: FactIdVecPool::with_capacity(1500),
            fact_field_maps: FactFieldMapPool::with_capacity(800),
            numeric_vecs: NumericVecPool::with_capacity(400),
            token_vecs: TokenVecPool::with_capacity(600),
        };
        assert(m.limits() =~= seq![500usize, 1000, 1500, 800, 400, 600]);
        m
    }

    /// Whether every pool's hits and misses together fit in `usize`.
    pub open spec fn counts_fit(&self) -> bool {
        &&& requests_fit(self.rule_execution_results.view())
        &&& requests_fit(self.rule_id_vecs.view())
        &&& requests_fit(self.fact_id_vecs.view())
        &&& requests_fit(self.fact_field_maps.view())
        &&& requests_fit(self.numeric_vecs.view())
        &&& requests_fit(self.token_vecs.view())
    }

    /// The counts of every pool.
    pub fn get_comprehensive_stats(&self) -> (s: MemoryPoolStats)
        requires
            self.wf(),
            self.counts_fit(),
        ensures
            s.rule_execution_result_pool == pool_stats_of(self.rule_execution_results.view()),
            s.rule_id_vec_pool == pool_stats_of(self.rule_id_vecs.view()),
            s.fact_id_vec_pool == pool_stats_of(self.fact_id_vecs.view()),
            s.fact_field_map_pool == pool_stats_of(self.fact_field_maps.view()),
            s.numeric_vec_pool == pool_stats_of(self.numeric_vecs.view()),
            s.token_vec_pool == pool_stats_of(self.token_vecs.view()),
    {
        let (rer_hits, rer_misses, rer_size) = self.rule_execution_results.stats();
        let (rid_hits, rid_misses, rid_size) = self.rule_id_vecs.stats();
        let (fid_hits, fid_misses, fid_size) = self.fact_id_vecs.stats();
        let (ffm_hits, ffm_misses, ffm_size) = self.fact_field_maps.stats();
        let (nv_hits, nv_misses, nv_size) = self.numeric_vecs.stats();
        let (tv_hits, tv_misses, tv_size) = self.token_vecs.stats();
        MemoryPoolStats {
            rule_execution_result_pool: PoolStats {
                hits: rer_hits,
                misses: rer_misses,
                pool_size: rer_size,
                hit_rate: self.rule_execution_results.hit_rate(),
            },
            rule_id_vec_pool: PoolStats {
                hits: rid_hits,
                misses: rid_misses,
                pool_size: rid_size,
                hit_rate: self.rule_id_vecs.hit_rate(),
            },
            fact_id_vec_pool: PoolStats {
                hits: fid_hits,
                misses: fid_misses,
                pool_size: fid_size,
                hit_rate: self.fact_id_vecs.hit_rate(),
            },
            fact_field_map_pool: PoolStats {
                hits: ffm_hits,
                misses: ffm_misses,
                pool_size: ffm_size,
                hit_rate: self.fact_field_maps.hit_rate(),
            },
            numeric_vec_pool: PoolStats {
                hits: nv_hits,
                misses: nv_misses,
                pool_size: nv_size,
                hit_rate: self.numeric_vecs.hit_rate(),
            },
            token_vec_pool: PoolStats {
                hits: tv_hits,
                misses: tv_misses,
                pool_size: tv_size,
                hit_rate: self.token_vecs.hit_rate(),
            },
        }
    }

    /// All hits over all requests, across the pools.
    pub fn overall_efficiency(&self) -> (r: Ratio)
        requires
            self.wf(),
            self.counts_fit(),
            self.rule_execution_results.view().hits + self.rule_id_vecs.view().hits + self.fact_id_vecs.view().hits
                + self.fact_field_maps.view().hits + self.numeric_vecs.view().hits + self.token_vecs.view().hits
                + self.rule_execution_results.view().misses + self.rule_id_vecs.view().misses
                + self.fact_id_vecs.view().misses + self.fact_field_maps.view().misses
                + self.numeric_vecs.view().misses + self.token_vecs.view().misses <= usize::MAX,
        ensures
            r.part == self.rule_execution_results.view().hits + self.rule_id_vecs.view().hits
                + self.fact_id_vecs.view().hits + self.fact_field_maps.view().hits + self.numeric_vecs.view().hits
                + self.token_vecs.view().hits,
            r.whole == r.part + self.rule_execution_results.view().misses + self.rule_id_vecs.view().misses
                + self.fact_id_vecs.view().misses + self.fact_field_maps.view().misses
                + self.numeric_vecs.view().misses + self.token_vecs.view().misses,
    {
        let stats = self.get_comprehensive_stats();
        let total_hits = stats.rule_execution_result_pool.hits + stats.rule_id_vec_pool.hits + stats.fact_id_vec_pool.hits
            + stats.fact_field_map_pool.hits + stats.numeric_vec_pool.hits + stats.token_vec_pool.hits;
        let total_requests = total_hits + stats.rule_execution_result_pool.misses + stats.rule_id_vec_pool.misses
            + stats.fact_id_vec_pool.misses + stats.fact_field_map_pool.misses + stats.numeric_vec_pool.misses
            + stats.token_vec_pool.misses;
        Ratio { part: total_hits, whole: total_requests }
    }
}

impl<N, K> Default for MemoryPoolManager<N, K> {
    fn default() -> (m: Self)
        ensures
            m.wf(),
            m.unused(),
            m.limits() == seq![100usize, 200, 300, 150, 100, 200],
    {
        Self::new()
    }
}

/// The concurrent pools together, with a switch that enables pooling.
#[derive(Debug)]
pub struct ConcurrentMemoryPoolManager {
    pub rule_execution_results: ConcurrentRuleExecutionResultPool,
    pub rule_id_vecs: ConcurrentRuleIdVecPool,
    pub enabled: bool,
}

impl ConcurrentMemoryPoolManager {
    /// Pools with the default limits (100 and 200), enabled.
    pub fn new() -> (m: Self)
        ensures
            m.rule_execution_results.wf(),
            m.rule_id_vecs.wf(),
            m.rule_execution_results.view() == (PoolView { pooled: 0, hits: 0, misses: 0, max_pool_size: 100 }),
            m.rule_id_vecs.view() == (PoolView { pooled: 0, hits: 0, misses: 0, max_pool_size: 200 }),
            m.enabled,
    {
        ConcurrentMemoryPoolManager {
            rule_execution_results: ConcurrentRuleExecutionResultPool::new(),
            rule_id_vecs: ConcurrentRuleIdVecPool::new(),
            enabled: true,
        }
    }

    /// Pools with the high-throughput limits (1000 and 2000), enabled.
    pub fn with_high_throughput_config() -> (m: Self)
        ensures
            m.rule_execution_results.wf(),
            m.rule_id_vecs.wf(),
            m.rule_execution_results.view() == (PoolView { pooled: 0, hits: 0, misses: 0, max_pool_size: 1000 }),
            m.rule_id_vecs.view() == (PoolView { pooled: 0, hits: 0, misses: 0, max_pool_size: 2000 }),
            m.enabled,
    {
        ConcurrentMemoryPoolManager {
            rule_execution_results: ConcurrentRuleExecutionResultPool::with_capacity(1000),
            rule_id_vecs: ConcurrentRuleIdVecPool::with_capacity(2000),
            enabled: true,
        }
    }

    /// Switches pooling on or off.
    pub fn set_enabled(&mut self, enabled: bool)
        ensures
            final(self).enabled == enabled,
            final(self).rule_execution_results == old(self).rule_execution_results,
            final(self).rule_id_vecs == old(self).rule_id_vecs,
    {
        self.enabled = enabled;
    }

    /// Whether pooling is on.
    pub fn is_enabled(&self) -> (b: bool)
        ensures
            b == self.enabled,
    {
        self.enabled
    }
}

impl Default for ConcurrentMemoryPoolManager {
    fn default() -> (m: Self)
        ensures
            m.enabled,
    {
        Self::new()
    }
}

/// The counts of one concurrent pool.
#[derive(Debug, Clone, Copy, PartialEq, Eq, Structural)]
pub struct ConcurrentPoolStats {
    pub hits: usize,
    pub misses: usize,
    pub pool_size: usize,
    /// Hits over requests.
    pub hit_rate: Ratio,
}

/// The counts of a concurrent pool with this model.
pub open spec fn concurrent_stats_of(p: PoolView) -> ConcurrentPoolStats {
    ConcurrentPoolStats {
        hits: p.hits,
        misses: p.misses,
        pool_size: p.pooled as usize,
        hit_rate: Ratio { part: p.hits, whole: (p.hits + p.misses) as usize },
    }
}

/// The counts of the concurrent pools, and whether pooling is on.
#[derive(Debug, Clone, Copy, PartialEq, Eq, Structural)]
pub struct ConcurrentMemoryPoolStats {
    pub rule_execution_result_pool: ConcurrentPoolStats,
    pub rule_id_vec_pool: ConcurrentPoolStats,
    pub enabled: bool,
}

impl ConcurrentMemoryPoolStats {
    /// A rough estimate of the memory that pooling saved, in bytes.
    pub fn estimated_memory_saved_bytes(&self) -> (r: usize)
        requires
            self.rule_execution_result_pool.hits * 128 + self.rule_id_vec_pool.hits * 64 <= usize::MAX,
        ensures
            r == self.rule_execution_result_pool.hits * 128 + self.rule_id_vec_pool.hits * 64,
    {
        let a = self.rule_execution_result_pool.hits as u128 * 128;
        let b = self.rule_id_vec_pool.hits as u128 * 64;
        (a + b) as usize
    }

    /// The pooled vectors over the pools' default capacities (300 in all).
    pub fn total_pool_utilization(&self) -> (r: Ratio)
        requires
            self.rule_execution_result_pool.pool_size + self.rule_id_vec_pool.pool_size <= usize::MAX,
        ensures
            r == (Ratio {
                part: (self.rule_execution_result_pool.pool_size + self.rule_id_vec_pool.pool_size) as usize,
                whole: 300,
            }),
    {
        Ratio { part: self.rule_execution_result_pool.pool_size + self.rule_id_vec_pool.pool_size, whole: 300 }
    }
}

impl ConcurrentMemoryPoolManager {
    /// The counts of both pools, and whether pooling is on.
    pub fn get_concurrent_stats(&self) -> (s: ConcurrentMemoryPoolStats)
        requires
            self.rule_execution_results.wf(),
            self.rule_id_vecs.wf(),
            requests_fit(self.rule_execution_results.view()),
            requests_fit(self.rule_id_vecs.view()),
        ensures
            s.rule_execution_result_pool == concurrent_stats_of(self.rule_execution_results.view()),
            s.rule_id_vec_pool == concurrent_stats_of(self.rule_id_vecs.view()),
            s.enabled == self.enabled,
    {
        let (rer_hits, rer_misses, rer_size) = self.rule_execution_results.stats();
        let (rid_hits, rid_misses, rid_size) = self.rule_id_vecs.stats();
        ConcurrentMemoryPoolStats {
            rule_execution_result_pool: ConcurrentPoolStats {
                hits: rer_hits,
                misses: rer_misses,
                pool_size: rer_size,
                hit_rate: self.rule_execution_results.hit_rate(),
            },
            rule_id_vec_pool: ConcurrentPoolStats {
                hits: rid_hits,
                misses: rid_misses,
                pool_size: rid_size,
                hit_rate: self.rule_id_vecs.hit_rate(),
            },
            enabled: self.is_enabled(),
        }
    }

    /// All hits over all requests, across both pools.
    pub fn total_efficiency(&self) -> (r: Ratio)
        requires
            self.rule_execution_results.wf(),
            self.rule_id_vecs.wf(),
            self.rule_execution_results.view().hits + self.rule_id_vecs.view().hits
                + self.rule_execution_results.view().misses + self.rule_id_vecs.view().misses <= usize::MAX,
        ensures
            r.part == self.rule_execution_results.view().hits + self.rule_id_vecs.view().hits,
            r.whole == r.part + self.rule_execution_results.view().misses + self.rule_id_vecs.view().misses,
    {
        let stats = self.get_concurrent_stats();
        let total_hits = stats.rule_execution_result_pool.hits + stats.rule_id_vec_pool.hits;
        let total_requests = total_hits + stats.rule_execution_result_pool.misses + stats.rule_id_vec_pool.misses;
        Ratio { part: total_hits, whole: total_requests }
    }
}

} // verus!
