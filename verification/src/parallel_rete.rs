//! Configuration of parallel RETE processing and the bounded work queue
//! that hands work to workers.

use vstd::prelude::*;
use std::collections::VecDeque;
use crate::parallel::available_cpus;

verus! {

/// How RETE processing runs in parallel.
#[derive(Debug, Clone)]
pub struct ParallelReteConfig {
    /// Fewer facts than this are processed sequentially.
    pub parallel_threshold: usize,
    pub worker_count: usize,
    pub fact_chunk_size: usize,
    pub token_chunk_size: usize,
    pub enable_parallel_alpha: bool,
    pub enable_parallel_beta: bool,
    pub enable_parallel_execution: bool,
    pub enable_work_stealing: bool,
    pub work_queue_capacity: usize,
}

/// The default configuration on a machine with `cpus` CPUs: threshold 50,
/// one worker per CPU, chunks of 20 facts and 10 tokens, a queue of 1000;
/// alpha processing and execution in parallel from two CPUs, beta
/// processing and work stealing from four.
pub open spec fn rete_config_for(cpus: usize) -> ParallelReteConfig {
    ParallelReteConfig {
        parallel_threshold: 50,
        worker_count: cpus,
        fact_chunk_size: 20,
        token_chunk_size: 10,
        enable_parallel_alpha: cpus >= 2,
        enable_parallel_beta: cpus >= 4,
        enable_parallel_execution: cpus >= 2,
        enable_work_stealing: cpus >= 4,
        work_queue_capacity: 1000,
    }
}

impl ParallelReteConfig {
    /// The default configuration for `cpus` CPUs.
    pub fn for_cpu_count(cpus: usize) -> (c: ParallelReteConfig)
        ensures
            c == rete_config_for(cpus),
    {
        ParallelReteConfig {
            parallel_threshold: 50,
            worker_count: cpus,
            fact_chunk_size: 20,
            token_chunk_size: 10,
            enable_parallel_alpha: cpus >= 2,
            enable_parallel_beta: cpus >= 4,
            enable_parallel_execution: cpus >= 2,
            enable_work_stealing: cpus >= 4,
            work_queue_capacity: 1000,
        }
    }
}

impl Default for ParallelReteConfig {
    /// The configuration for the CPUs of this machine.
    fn default() -> (c: ParallelReteConfig)
        ensures
            c == rete_config_for(c.worker_count),
            c.worker_count >= 1,
    {
        ParallelReteConfig::for_cpu_count(available_cpus())
    }
}

/// The owner takes work in the order it was queued, and a thief takes the
/// most recent item: after pushing `x`, stealing gives `x` back and leaves
/// the queue as it was, while popping gives the oldest item.
pub proof fn law_queue_order<T>(items: Seq<T>, x: T)
    ensures
        items.push(x).last() == x,
        items.push(x).drop_last() == items,
        items.push(x)[0] == (if items.len() == 0 { x } else { items[0] }),
        items.len() > 0 ==> items.push(x).drop_first() == items.drop_first().push(x),
{
    assert(items.push(x).drop_last() =~= items);
    if items.len() > 0 {
        assert(items.push(x).drop_first() =~= items.drop_first().push(x));
    }
}

/// A bounded work queue: work is taken from the front by its owner and
/// stolen from the back by others.
#[derive(Debug)]
pub struct WorkQueue<T> {
    queue: VecDeque<T>,
    capacity: usize,
}

impl<T> WorkQueue<T> {
    /// The queued items, front first.
    pub closed spec fn items(&self) -> Seq<T> {
        self.queue@
    }

    /// The most items it holds.
    pub closed spec fn capacity_spec(&self) -> nat {
        self.capacity as nat
    }

    /// Well-formedness: the queue holds no more items than its capacity.
    pub open spec fn wf(&self) -> bool {
        self.items().len() <= self.capacity_spec()
    }

    /// An empty queue that holds up to `capacity` items.
    pub fn new(capacity: usize) -> (q: WorkQueue<T>)
        ensures
            q.items() == Seq::<T>::empty(),
            q.capacity_spec() == capacity,
            q.wf(),
    {
        WorkQueue { queue: VecDeque::with_capacity(capacity), capacity }
    }

    /// Adds an item at the back unless the queue is full; says whether it
    /// was added.
    pub fn push(&mut self, item: T) -> (added: bool)
        requires
            old(self).wf(),
        ensures
            added == (old(self).items().len() < old(self).capacity_spec()),
            final(self).items() == if added { old(self).items().push(item) } else { old(self).items() },
            final(self).capacity_spec() == old(self).capacity_spec(),
            final(self).wf(),
    {
        if self.queue.len() < self.capacity {
            self.queue.push_back(item);
            true
        } else {
            false
        }
    }

    /// Takes the item at the front.
    pub fn pop(&mut self) -> (r: Option<T>)
        requires
            old(self).wf(),
        ensures
            old(self).items().len() == 0 ==> r is None && final(self).items() == old(self).items(),
            old(self).items().len() > 0 ==> r == Some(old(self).items()[0])
                && final(self).items() == old(self).items().drop_first(),
            final(self).capacity_spec() == old(self).capacity_spec(),
            final(self).wf(),
    {
        self.queue.pop_front()
    }

    /// Takes the item at the back.
    pub fn steal(&mut self) -> (r: Option<T>)
        requires
            old(self).wf(),
        ensures
            old(self).items().len() == 0 ==> r is None && final(self).items() == old(self).items(),
            old(self).items().len() > 0 ==> r == Some(old(self).items().last())
                && final(self).items() == old(self).items().drop_last(),
            final(self).capacity_spec() == old(self).capacity_spec(),
            final(self).wf(),
    {
        self.queue.pop_back()
    }

    /// Number of queued items.
    pub fn len(&self) -> (n: usize)
        requires
            self.wf(),
        ensures
            n == self.items().len(),
            n <= self.capacity_spec(),
    {
        self.queue.len()
    }

    /// Whether nothing is queued.
    pub fn is_empty(&self) -> (b: bool)
        requires
            self.wf(),
        ensures
            b == (self.items().len() == 0),
    {
        self.len() == 0
    }
}

} // verus!
