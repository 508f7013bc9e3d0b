//! The topology of a RETE network for incremental construction: nodes,
//! directed edges between them, node depths, and path finding.

use vstd::prelude::*;
use std::collections::{HashMap, HashSet, VecDeque};
use std::time::{Duration, Instant};
use crate::clock::{duration_between, duration_nanos, now};
use crate::types::{FactId, NodeId, Ratio};
use vstd::std_specs::iter::IteratorSpec;

verus! {

broadcast use vstd::std_specs::hash::group_hash_axioms;

/// The activation state of a node.
#[derive(Debug, Clone, Copy, PartialEq, Eq, Structural)]
pub enum NodeActivationState {
    /// Not processing any facts.
    Inactive,
    /// Processing facts.
    Active,
    /// Was active, but has seen no recent activity.
    Dormant,
    /// To be activated when facts arrive.
    Pending,
}

/// An edge from `a` to `b`.
pub open spec fn edge(adj: Map<NodeId, Set<NodeId>>, a: NodeId, b: NodeId) -> bool {
    adj.contains_key(a) && adj[a].contains(b)
}

/// A non-empty sequence of nodes, each an edge away from the one before.
pub open spec fn is_path(adj: Map<NodeId, Set<NodeId>>, p: Seq<NodeId>) -> bool {
    &&& p.len() > 0
    &&& forall|i: int| 0 <= i < p.len() - 1 ==> edge(adj, #[trigger] p[i], p[i + 1])
}

/// Whether some path leads from `a` to `b`.
pub open spec fn reachable(adj: Map<NodeId, Set<NodeId>>, a: NodeId, b: NodeId) -> bool {
    exists|p: Seq<NodeId>| is_path(adj, p) && p[0] == a && #[trigger] p.last() == b
}

/// The state of a breadth-first search from `from` for `to`: `visited`
/// holds the nodes already expanded (`done`) and those queued; expanded
/// nodes have all their successors visited; each visited node other than
/// `from` has a parent, visited earlier, with an edge to it.
pub open spec fn bfs_inv(
    adj: Map<NodeId, Set<NodeId>>,
    from: NodeId,
    to: NodeId,
    visited: Set<NodeId>,
    queue: Seq<NodeId>,
    done: Set<NodeId>,
    parent: Map<NodeId, NodeId>,
    order: Map<NodeId, nat>,
    next: nat,
) -> bool {
    &&& visited.contains(from)
    &&& forall|v: NodeId| #[trigger] visited.contains(v) <==> (done.contains(v) || queue.contains(v))
    &&& !done.contains(to)
    &&& forall|v: NodeId, w: NodeId| #[trigger] done.contains(v) && #[trigger] edge(adj, v, w) ==> visited.contains(w)
    &&& parents_ok(adj, from, visited, parent, order, next)
}

/// Each visited node other than `from` has a parent, visited earlier, with
/// an edge to it.
pub open spec fn parents_ok(
    adj: Map<NodeId, Set<NodeId>>,
    from: NodeId,
    visited: Set<NodeId>,
    parent: Map<NodeId, NodeId>,
    order: Map<NodeId, nat>,
    next: nat,
) -> bool {
    &&& visited.contains(from)
    &&& forall|v: NodeId| #[trigger] parent.contains_key(v) <==> (visited.contains(v) && v != from)
    &&& forall|v: NodeId| #[trigger] parent.contains_key(v) ==> {
        &&& visited.contains(parent[v])
        &&& edge(adj, parent[v], v)
        &&& order[parent[v]] < order[v]
    }
    &&& forall|v: NodeId| #[trigger] visited.contains(v) ==> order.contains_key(v) && order[v] < next
}

/// Every node some edge leads to.
pub open spec fn targets(adj: Map<NodeId, Set<NodeId>>) -> Set<NodeId> {
    Set::new(|v: NodeId| exists|k: NodeId| #[trigger] adj.contains_key(k) && adj[k].contains(v))
}

/// A finite map of finite sets has finitely many targets.
proof fn lemma_targets_finite(adj: Map<NodeId, Set<NodeId>>)
    requires
        adj.dom().finite(),
        forall|k: NodeId| adj.contains_key(k) ==> #[trigger] adj[k].finite(),
    ensures
        targets(adj).finite(),
    decreases adj.dom().len(),
{
    if adj.dom().len() == 0 {
        vstd::set_lib::lemma_set_empty_equivalency_len(adj.dom());
        assert(targets(adj) =~= Set::<NodeId>::empty());
    } else {
        let k = adj.dom().choose();
        vstd::set_lib::lemma_set_empty_equivalency_len(adj.dom());
        assert(adj.dom().contains(k));
        let rest = adj.remove(k);
        assert(rest.dom() =~= adj.dom().remove(k));
        lemma_targets_finite(rest);
        assert(targets(adj) =~= targets(rest).union(adj[k])) by {
            assert forall|v: NodeId| targets(adj).contains(v) implies targets(rest).union(adj[k]).contains(v) by {
                let j = choose|j: NodeId| #[trigger] adj.contains_key(j) && adj[j].contains(v);
                if j != k {
                    assert(rest.contains_key(j) && rest[j].contains(v));
                }
            }
            assert forall|v: NodeId| targets(rest).union(adj[k]).contains(v) implies targets(adj).contains(v) by {
                if targets(rest).contains(v) {
                    let j = choose|j: NodeId| #[trigger] rest.contains_key(j) && rest[j].contains(v);
                    assert(adj.contains_key(j) && adj[j].contains(v));
                } else {
                    assert(adj.contains_key(k) && adj[k].contains(v));
                }
            }
        }
    }
}

/// Every path that starts inside a set closed under edges stays inside it.
proof fn lemma_closed_set(adj: Map<NodeId, Set<NodeId>>, s: Set<NodeId>, p: Seq<NodeId>)
    requires
        is_path(adj, p),
        s.contains(p[0]),
        forall|v: NodeId, w: NodeId| #[trigger] s.contains(v) && #[trigger] edge(adj, v, w) ==> s.contains(w),
    ensures
        s.contains(p.last()),
    decreases p.len(),
{
    if p.len() > 1 {
        let q = p.drop_last();
        assert forall|i: int| 0 <= i < q.len() - 1 implies edge(adj, #[trigger] q[i], q[i + 1]) by {
            assert(q[i] == p[i] && q[i + 1] == p[i + 1]);
        }
        lemma_closed_set(adj, s, q);
        assert(edge(adj, p[p.len() - 2], p[p.len() - 1]));
        assert(q.last() == p[p.len() - 2]);
    }
}

/// The breadth-first levels of a search: `from` is at level 0; a node's
/// parent is one level up; the queue's levels never fall and span at most
/// one level; expanded nodes are no deeper than the queue's front; an edge
/// from an expanded node leads at most one level down.
pub open spec fn levels_ok(
    adj: Map<NodeId, Set<NodeId>>,
    from: NodeId,
    visited: Set<NodeId>,
    queue: Seq<NodeId>,
    done: Set<NodeId>,
    parent: Map<NodeId, NodeId>,
    level: Map<NodeId, nat>,
) -> bool {
    &&& parent_levels(from, visited, parent, level)
    &&& forall|i: int, j: int| 0 <= i <= j < queue.len() ==> level[#[trigger] queue[i]] <= level[#[trigger] queue[j]] && level[queue[j]] <= level[queue[i]] + 1
    &&& forall|d: NodeId| #[trigger] done.contains(d) && queue.len() > 0 ==> level[d] <= level[queue[0]]
    &&& forall|d: NodeId, w: NodeId| #[trigger] done.contains(d) && #[trigger] edge(adj, d, w) ==> level[w] <= level[d] + 1
}

/// Every visited node has a level, `from` is at level 0, and a node's
/// parent is one level up.
pub open spec fn parent_levels(from: NodeId, visited: Set<NodeId>, parent: Map<NodeId, NodeId>, level: Map<NodeId, nat>) -> bool {
    &&& level.contains_key(from) && level[from] == 0
    &&& forall|v: NodeId| #[trigger] visited.contains(v) ==> level.contains_key(v)
    &&& forall|v: NodeId| #[trigger] parent.contains_key(v) ==> level[v] == level[parent[v]] + 1
}

/// Along a path from `from` whose first `k` nodes are expanded, node `k`
/// is visited and at most `k` levels down.
proof fn lemma_path_levels(
    adj: Map<NodeId, Set<NodeId>>,
    from: NodeId,
    visited: Set<NodeId>,
    done: Set<NodeId>,
    level: Map<NodeId, nat>,
    p: Seq<NodeId>,
    k: int,
)
    requires
        is_path(adj, p),
        p[0] == from,
        visited.contains(from),
        level.contains_key(from) && level[from] == 0,
        forall|v: NodeId, w: NodeId| #[trigger] done.contains(v) && #[trigger] edge(adj, v, w) ==> visited.contains(w),
        forall|d: NodeId, w: NodeId| #[trigger] done.contains(d) && #[trigger] edge(adj, d, w) ==> level[w] <= level[d] + 1,
        0 <= k < p.len(),
        forall|j: int| 0 <= j < k ==> done.contains(#[trigger] p[j]),
    ensures
        visited.contains(p[k]),
        level[p[k]] <= k,
    decreases k,
{
    if k > 0 {
        lemma_path_levels(adj, from, visited, done, level, p, k - 1);
        assert(done.contains(p[k - 1]));
        assert(edge(adj, p[k - 1], p[k]));
    }
}

/// A path from `from` to a node not yet expanded, checked from position
/// `k` on, passes a queued node no shallower than the queue's front, so the
/// front is at most as deep as the path is long.
proof fn lemma_front_level(
    adj: Map<NodeId, Set<NodeId>>,
    from: NodeId,
    visited: Set<NodeId>,
    queue: Seq<NodeId>,
    done: Set<NodeId>,
    level: Map<NodeId, nat>,
    p: Seq<NodeId>,
    k: int,
)
    requires
        is_path(adj, p),
        p[0] == from,
        visited.contains(from),
        level.contains_key(from) && level[from] == 0,
        forall|v: NodeId| #[trigger] visited.contains(v) <==> (done.contains(v) || queue.contains(v)),
        forall|v: NodeId, w: NodeId| #[trigger] done.contains(v) && #[trigger] edge(adj, v, w) ==> visited.contains(w),
        forall|d: NodeId, w: NodeId| #[trigger] done.contains(d) && #[trigger] edge(adj, d, w) ==> level[w] <= level[d] + 1,
        forall|i: int, j: int| 0 <= i <= j < queue.len() ==> level[#[trigger] queue[i]] <= level[#[trigger] queue[j]] && level[queue[j]] <= level[queue[i]] + 1,
        !done.contains(p.last()),
        0 <= k < p.len(),
        forall|j: int| 0 <= j < k ==> done.contains(#[trigger] p[j]),
    ensures
        queue.len() > 0,
        level[queue[0]] <= p.len() - 1,
    decreases p.len() - k,
{
    if done.contains(p[k]) {
        lemma_front_level(adj, from, visited, queue, done, level, p, k + 1);
    } else {
        lemma_path_levels(adj, from, visited, done, level, p, k);
        assert(queue.contains(p[k]));
        let t = choose|t: int| 0 <= t < queue.len() && queue[t] == p[k];
        assert(level[queue[0]] <= level[queue[t]]);
    }
}

/// Nodes, edges, depths and critical paths of a network.
#[derive(Debug)]
pub struct NetworkTopology {
    adjacency: HashMap<NodeId, HashSet<NodeId>>,
    reverse_adjacency: HashMap<NodeId, HashSet<NodeId>>,
    node_depths: HashMap<NodeId, usize>,
    critical_paths: Vec<Vec<NodeId>>,
}

impl NetworkTopology {
    /// The successors of each node.
    pub closed spec fn successors(&self) -> Map<NodeId, Set<NodeId>> {
        Map::new(|k: NodeId| self.adjacency@.contains_key(k), |k: NodeId| self.adjacency@[k]@)
    }

    /// The predecessors of each node.
    pub closed spec fn predecessors(&self) -> Map<NodeId, Set<NodeId>> {
        Map::new(|k: NodeId| self.reverse_adjacency@.contains_key(k), |k: NodeId| self.reverse_adjacency@[k]@)
    }

    /// The recorded depth of each node.
    pub closed spec fn depths(&self) -> Map<NodeId, usize> {
        self.node_depths@
    }

    /// The paths recorded as critical.
    pub closed spec fn critical(&self) -> Seq<Seq<NodeId>> {
        self.critical_paths@.map_values(|p: Vec<NodeId>| p@)
    }

    /// An empty topology.
    pub fn new() -> (t: NetworkTopology)
        ensures
            t.successors() == Map::<NodeId, Set<NodeId>>::empty(),
            t.predecessors() == Map::<NodeId, Set<NodeId>>::empty(),
            t.depths() == Map::<NodeId, usize>::empty(),
    {
        let t = NetworkTopology {
            adjacency: HashMap::new(),
            reverse_adjacency: HashMap::new(),
            node_depths: HashMap::new(),
            critical_paths: Vec::new(),
        };
        assert(t.successors() =~= Map::<NodeId, Set<NodeId>>::empty());
        assert(t.predecessors() =~= Map::<NodeId, Set<NodeId>>::empty());
        t
    }

    /// Adds a node with no edges of its own yet (edges it has are kept) at
    /// depth zero.
    pub fn add_node(&mut self, node_id: NodeId)
        ensures
            final(self).successors() == if old(self).successors().contains_key(node_id) {
                old(self).successors()
            } else {
                old(self).successors().insert(node_id, Set::empty())
            },
            final(self).predecessors() == if old(self).predecessors().contains_key(node_id) {
                old(self).predecessors()
            } else {
                old(self).predecessors().insert(node_id, Set::empty())
            },
            final(self).depths() == old(self).depths().insert(node_id, 0),
    {
        if !self.adjacency.contains_key(&node_id) {
            self.adjacency.insert(node_id, HashSet::new());
        }
        if !self.reverse_adjacency.contains_key(&node_id) {
            self.reverse_adjacency.insert(node_id, HashSet::new());
        }
        self.node_depths.insert(node_id, 0);
        proof {
            assert(final(self).successors() =~= if old(self).successors().contains_key(node_id) {
                old(self).successors()
            } else {
                old(self).successors().insert(node_id, Set::empty())
            });
            assert(final(self).predecessors() =~= if old(self).predecessors().contains_key(node_id) {
                old(self).predecessors()
            } else {
                old(self).predecessors().insert(node_id, Set::empty())
            });
        }
    }

    fn link(map: &mut HashMap<NodeId, HashSet<NodeId>>, a: NodeId, b: NodeId)
        ensures
            final(map)@.dom() == old(map)@.dom().insert(a),
            forall|k: NodeId| k != a && #[trigger] old(map)@.contains_key(k) ==> final(map)@[k]@ == old(map)@[k]@,
            final(map)@[a]@ == if old(map)@.contains_key(a) { old(map)@[a]@.insert(b) } else { set![b] },
    {
        let mut set = match map.remove(&a) {
            Some(s) => s,
            None => HashSet::new(),
        };
        set.insert(b);
        map.insert(a, set);
        proof {
            assert(final(map)@.dom() =~= old(map)@.dom().insert(a));
            if !old(map)@.contains_key(a) {
                assert(final(map)@[a]@ =~= set![b]);
            }
        }
    }

    /// Adds an edge from `from` to `to`, then recomputes depths.
    pub fn add_edge(&mut self, from: NodeId, to: NodeId)
        ensures
            final(self).successors() == old(self).successors().insert(
                from,
                if old(self).successors().contains_key(from) { old(self).successors()[from].insert(to) } else { set![to] },
            ),
            final(self).predecessors() == old(self).predecessors().insert(
                to,
                if old(self).predecessors().contains_key(to) { old(self).predecessors()[to].insert(from) } else { set![from] },
            ),
            final(self).depths().dom() == old(self).depths().dom() + final(self).successors().dom(),
    {
        NetworkTopology::link(&mut self.adjacency, from, to);
        NetworkTopology::link(&mut self.reverse_adjacency, to, from);
        proof {
            assert(self.successors() =~= old(self).successors().insert(
                from,
                if old(self).successors().contains_key(from) { old(self).successors()[from].insert(to) } else { set![to] },
            ));
            assert(self.predecessors() =~= old(self).predecessors().insert(
                to,
                if old(self).predecessors().contains_key(to) { old(self).predecessors()[to].insert(from) } else { set![from] },
            ));
        }
        self.update_node_depths();
    }

    /// Marks a path for pruning; the topology keeps no such marks, so
    /// nothing changes.
    pub fn mark_path_for_pruning(&mut self, from: NodeId, to: NodeId)
        ensures
            final(self).critical() == old(self).critical(),
            final(self).successors() == old(self).successors(),
            final(self).predecessors() == old(self).predecessors(),
            final(self).depths() == old(self).depths(),
    {
    }

    fn update_node_depths(&mut self)
        ensures
            final(self).successors() == old(self).successors(),
            final(self).predecessors() == old(self).predecessors(),
            final(self).depths().dom() == old(self).depths().dom() + old(self).successors().dom(),
    {
        let mut keys: Vec<NodeId> = Vec::new();
        for k in it: self.adjacency.keys()
            invariant
                keys@ == it.seq().take(it.index() as int).map_values(|r: &NodeId| *r),
        {
            keys.push(*k);
            proof {
                assert(keys@ =~= it.seq().take(it.index() + 1).map_values(|r: &NodeId| *r));
            }
        }
        proof {
            let s = vstd::std_specs::hash::spec_keys_iter(&self.adjacency).remaining();
            assert(keys@ =~= s.unref());
            assert(keys@.to_set() == self.adjacency@.dom());
        }
        let ghost start = self.node_depths@.dom();
        let n = keys.len();
        let mut i: usize = 0;
        while i < n
            invariant
                n == keys@.len(),
                i <= n,
                self.adjacency == old(self).adjacency,
                self.reverse_adjacency == old(self).reverse_adjacency,
                start == old(self).node_depths@.dom(),
                self.node_depths@.dom() == start + keys@.take(i as int).to_set(),
            decreases n - i,
        {
            let depth = self.calculate_depth(keys[i]);
            self.node_depths.insert(keys[i], depth);
            proof {
                assert(keys@.take(i + 1) =~= keys@.take(i as int).push(keys@[i as int]));
                keys@.take(i as int).lemma_push_to_set_commute(keys@[i as int]);
                assert(self.node_depths@.dom() =~= start + keys@.take(i + 1).to_set());
            }
            i = i + 1;
        }
        proof {
            assert(keys@.take(n as int) =~= keys@);
            assert(self.successors().dom() =~= self.adjacency@.dom());
            assert(old(self).successors().dom() =~= old(self).adjacency@.dom());
        }
    }

    /// One more than the depth recorded for `p` (zero when none is), kept
    /// at `usize::MAX` rather than passing it.
    spec fn depth_after(&self, p: NodeId) -> int {
        let d: int = if self.node_depths@.contains_key(p) { self.node_depths@[p] as int } else { 0 };
        if d == usize::MAX { d } else { d + 1 }
    }

    /// One more than the deepest recorded predecessor, or zero for a node
    /// without predecessors (saturating).
    fn calculate_depth(&self, node_id: NodeId) -> (r: usize)
        ensures
            !self.predecessors().contains_key(node_id) ==> r == 0,
            self.predecessors().contains_key(node_id) ==> {
                let preds = self.predecessors()[node_id];
                &&& forall|p: NodeId| preds.contains(p) ==> #[trigger] self.depth_after(p) <= r
                &&& preds.is_empty() ==> r == 0
                &&& !preds.is_empty() ==> exists|p: NodeId| preds.contains(p) && #[trigger] self.depth_after(p) == r
            },
    {
        match self.reverse_adjacency.get(&node_id) {
            Some(preds) => {
                let ghost s = vstd::std_specs::hash::spec_hash_keys_iter(preds).remaining();
                proof {
                    assert(s.unref().to_set() == preds@);
                }
                let mut deepest: usize = 0;
                for p in it: preds.iter()
                    invariant
                        it.seq() == s,
                        forall|j: int| 0 <= j < it.index() ==> #[trigger] self.depth_after(*s[j]) <= deepest,
                        it.index() == 0 ==> deepest == 0,
                        it.index() > 0 ==> exists|j: int| 0 <= j < it.index() && #[trigger] self.depth_after(*s[j]) == deepest,
                {
                    let d: usize = match self.node_depths.get(p) {
                        Some(d) => *d,
                        None => 0,
                    };
                    let candidate = d.saturating_add(1);
                    assert(candidate == self.depth_after(*p));
                    if candidate > deepest {
                        deepest = candidate;
                    }
                }
                proof {
                    let preds_set = self.predecessors()[node_id];
                    assert(preds_set == preds@);
                    assert forall|p: NodeId| preds_set.contains(p) implies #[trigger] self.depth_after(p) <= deepest by {
                        assert(s.unref().to_set().contains(p));
                        let j = choose|j: int| 0 <= j < s.unref().len() && s.unref()[j] == p;
                        assert(*s[j] == p);
                    }
                    if !preds_set.is_empty() {
                        let q = preds_set.choose();
                        assert(s.unref().to_set().contains(q));
                        let j0 = choose|j: int| 0 <= j < s.unref().len() && s.unref()[j] == q;
                        assert(s.len() > 0);
                        let j = choose|j: int| 0 <= j < s.len() && #[trigger] self.depth_after(*s[j]) == deepest;
                        assert(s.unref()[j] == *s[j]);
                        assert(s.unref().to_set().contains(*s[j]));
                        assert(preds_set.contains(*s[j]));
                    } else {
                        assert(s.unref().len() == 0) by {
                            if s.unref().len() > 0 {
                                assert(s.unref().to_set().contains(s.unref()[0]));
                            }
                        }
                    }
                }
                deepest
            },
            None => 0,
        }
    }

    /// The nodes a search can meet: the start and every edge target.
    spec fn search_universe(&self, from: NodeId) -> Set<NodeId> {
        Set::new(|v: NodeId| v == from || exists|k: NodeId| #[trigger] self.successors().contains_key(k) && self.successors()[k].contains(v))
    }

    proof fn lemma_universe_finite(&self, from: NodeId)
        ensures
            self.search_universe(from).finite(),
    {
        let adj = self.successors();
        assert(adj.dom() =~= self.adjacency@.dom());
        assert forall|k: NodeId| adj.contains_key(k) implies #[trigger] adj[k].finite() by {
            let hs = self.adjacency@[k];
            let s = vstd::std_specs::hash::spec_hash_keys_iter(&hs).remaining();
            assert(s.unref().to_set() == hs@);
            vstd::seq_lib::seq_to_set_is_finite(s.unref());
        }
        lemma_targets_finite(adj);
        assert(self.search_universe(from) =~= targets(adj).insert(from));
    }

    /// A path from `from` to `to` along edges, found breadth first, or
    /// `None` when `to` cannot be reached.
    pub fn find_path(&self, from: NodeId, to: NodeId) -> (r: Option<Vec<NodeId>>)
        ensures
            match r {
                Some(p) => is_path(self.successors(), p@) && p@[0] == from && p@.last() == to,
                None => !reachable(self.successors(), from, to),
            },
            from == to ==> (r matches Some(p) && p@ == seq![from]),
            r matches Some(p) ==> forall|q: Seq<NodeId>|
                #[trigger] is_path(self.successors(), q) && q[0] == from && q.last() == to ==> p@.len() <= q.len(),
    {
        let ghost adj = self.successors();
        let ghost universe = self.search_universe(from);
        proof {
            self.lemma_universe_finite(from);
        }
        let mut queue: VecDeque<NodeId> = VecDeque::new();
        let mut visited: HashSet<NodeId> = HashSet::new();
        let mut parent: HashMap<NodeId, NodeId> = HashMap::new();
        queue.push_back(from);
        visited.insert(from);
        let ghost mut done: Set<NodeId> = Set::empty();
        let ghost mut order: Map<NodeId, nat> = map![from => 0nat];
        let ghost mut next: nat = 1;
        let ghost mut level: Map<NodeId, nat> = map![from => 0nat];
        proof {
            assert(queue@ =~= seq![from]);
            assert forall|v: NodeId| #[trigger] visited@.contains(v) <==> (done.contains(v) || queue@.contains(v)) by {
                if v == from {
                    assert(queue@[0] == from);
                }
            }
            assert(visited@ =~= set![from]);
        }
        let mut found: bool = false;
        loop
            invariant_except_break
                bfs_inv(adj, from, to, visited@, queue@, done, parent@, order, next),
                levels_ok(adj, from, visited@, queue@, done, parent@, level),
                !found,
            invariant
                parent_levels(from, visited@, parent@, level),
                adj == self.successors(),
                universe == self.search_universe(from),
                universe.finite(),
                visited@.subset_of(universe),
                done.subset_of(visited@),
                queue@.no_duplicates(),
                forall|v: NodeId| #[trigger] done.contains(v) ==> !queue@.contains(v),
            ensures
                parents_ok(adj, from, visited@, parent@, order, next),
                parent_levels(from, visited@, parent@, level),
                found ==> forall|q: Seq<NodeId>| #[trigger] is_path(adj, q) && q[0] == from && q.last() == to ==> level[to] <= q.len() - 1,
                found ==> visited@.contains(to),
                !found ==> queue@.len() == 0 && bfs_inv(adj, from, to, visited@, queue@, done, parent@, order, next),
            decreases universe.len() - done.len(),
        {
            let ghost before = queue@;
            match queue.pop_front() {
                None => {
                    break;
                },
                Some(current) => {
                    proof {
                        assert(before =~= seq![current] + queue@);
                        assert(before.contains(current));
                    }
                    if current == to {
                        found = true;
                        proof {
                            assert(visited@.contains(current));
                            assert(before[0] == current);
                            assert forall|q: Seq<NodeId>| #[trigger] is_path(adj, q) && q[0] == from && q.last() == to
                                implies level[to] <= q.len() - 1 by {
                                lemma_front_level(adj, from, visited@, before, done, level, q, 0);
                            }
                        }
                        break;
                    }
                    proof {
                        assert(!done.contains(current));
                        assert forall|v: NodeId| done.contains(v) implies !queue@.contains(v) by {
                            if queue@.contains(v) {
                                let j = choose|j: int| 0 <= j < queue@.len() && queue@[j] == v;
                                assert(before[j + 1] == v);
                            }
                        }
                        assert(!queue@.contains(current)) by {
                            if queue@.contains(current) {
                                let j = choose|j: int| 0 <= j < queue@.len() && queue@[j] == current;
                                assert(before[j + 1] == current && before[0] == current);
                            }
                        }
                    }
                    match self.adjacency.get(&current) {
                        Some(neighbors) => {
                            let ghost nset = neighbors@;
                            let ghost s = vstd::std_specs::hash::spec_hash_keys_iter(neighbors).remaining();
                            proof {
                                assert(adj.contains_key(current) && adj[current] == nset);
                                assert(s.unref().to_set() == nset);
                            }
                            let ghost mut seen: Seq<NodeId> = Seq::empty();
                            for nb in it: neighbors.iter()
                                invariant
                                    adj == self.successors(),
                                    universe == self.search_universe(from),
                                    adj.contains_key(current),
                                    adj[current] == nset,
                                    s.unref().to_set() == nset,
                                    it.seq() == s,
                                    visited@.subset_of(universe),
                                    done.subset_of(visited@),
                                    !done.contains(current),
                                    current != to,
                                    (seq![current] + queue@).no_duplicates(),
                                    forall|v: NodeId| #[trigger] done.contains(v) ==> !(seq![current] + queue@).contains(v),
                                    bfs_inv(adj, from, to, visited@, seq![current] + queue@, done, parent@, order, next),
                                    levels_ok(adj, from, visited@, seq![current] + queue@, done, parent@, level),
                                    seen == it.seq().take(it.index() as int).map_values(|r: &NodeId| *r),
                                    forall|j: int| 0 <= j < seen.len() ==> visited@.contains(#[trigger] seen[j]),
                                    forall|j: int| 0 <= j < seen.len() ==> level[#[trigger] seen[j]] <= level[current] + 1,
                            {
                                let w: NodeId = *nb;
                                proof {
                                    assert(s[it.index() as int] == nb);
                                    assert(s.unref()[it.index() as int] == w);
                                    assert(s.unref().contains(w));
                                    assert(nset.contains(w));
                                    assert(edge(adj, current, w));
                                    assert(universe.contains(w)) by {
                                        assert(self.successors().contains_key(current) && self.successors()[current].contains(w));
                                    }
                                }
                                if !visited.contains(&w) {
                                    let ghost q0 = seq![current] + queue@;
                                    let ghost v0 = visited@;
                                    let ghost p0 = parent@;
                                    let ghost o0 = order;
                                    let ghost n0 = next;
                                    visited.insert(w);
                                    parent.insert(w, current);
                                    queue.push_back(w);
                                    let ghost l0 = level;
                                    proof {
                                        order = order.insert(w, next);
                                        next = next + 1;
                                        level = level.insert(w, (l0[current] + 1) as nat);
                                        let q = seq![current] + queue@;
                                        assert(q =~= q0.push(w));
                                        assert(!q0.contains(w));
                                        assert forall|v: NodeId| #[trigger] visited@.contains(v) <==> (done.contains(v) || q.contains(v)) by {
                                            if v == w {
                                                assert(q[q.len() - 1] == w);
                                            } else if q0.contains(v) {
                                                let j = choose|j: int| 0 <= j < q0.len() && q0[j] == v;
                                                assert(q[j] == v);
                                            } else if q.contains(v) {
                                                let j = choose|j: int| 0 <= j < q.len() && q[j] == v;
                                                if j < q0.len() {
                                                    assert(q0[j] == v);
                                                }
                                            }
                                        }
                                        assert forall|v: NodeId| #[trigger] done.contains(v) implies !q.contains(v) by {
                                            if q.contains(v) {
                                                let j = choose|j: int| 0 <= j < q.len() && q[j] == v;
                                                if j < q0.len() {
                                                    assert(q0[j] == v);
                                                    assert(q0.contains(v));
                                                }
                                            }
                                        }
                                        assert forall|v: NodeId, u: NodeId| #[trigger] done.contains(v) && #[trigger] edge(adj, v, u)
                                            implies visited@.contains(u) by {
                                            assert(v0.contains(u));
                                        }
                                        assert forall|v: NodeId| #[trigger] parent@.contains_key(v) implies {
                                            &&& visited@.contains(parent@[v])
                                            &&& edge(adj, parent@[v], v)
                                            &&& order[parent@[v]] < order[v]
                                        } by {
                                            if v != w {
                                                assert(p0.contains_key(v));
                                                assert(v0.contains(p0[v]));
                                            } else {
                                                assert(q0[0] == current);
                                    assert(v0.contains(current));
                                            }
                                        }
                                        assert forall|v: NodeId| #[trigger] parent@.contains_key(v) <==> (visited@.contains(v) && v != from) by {
                                            if v == w {
                                                assert(v0.contains(from));
                                            }
                                        }
                                        assert(bfs_inv(adj, from, to, visited@, q, done, parent@, order, next));
                                        assert(q0[0] == current);
                                        assert(v0.contains(current));
                                        assert(current != w);
                                        assert forall|v: NodeId| #[trigger] parent@.contains_key(v) implies level[v] == level[parent@[v]] + 1 by {
                                            if v != w {
                                                assert(p0.contains_key(v));
                                                assert(v0.contains(p0[v]));
                                                assert(p0[v] != w);
                                            }
                                        }
                                        assert forall|i: int, j: int| 0 <= i <= j < q.len() implies level[#[trigger] q[i]] <= level[#[trigger] q[j]]
                                            && level[q[j]] <= level[q[i]] + 1 by {
                                            if j < q0.len() {
                                                assert(q[i] == q0[i] && q[j] == q0[j]);
                                                assert(q0.contains(q0[i]) && q0.contains(q0[j]));
                                            } else {
                                                assert(q[j] == w);
                                                if i < q0.len() {
                                                    assert(q[i] == q0[i]);
                                                    assert(q0.contains(q0[i]));
                                                    assert(l0[q0[0]] <= l0[q0[i]] && l0[q0[i]] <= l0[q0[0]] + 1);
                                                }
                                            }
                                        }
                                        assert forall|d: NodeId| #[trigger] done.contains(d) && q.len() > 0 implies level[d] <= level[q[0]] by {
                                            assert(q[0] == q0[0]);
                                        }
                                        assert forall|d: NodeId, u: NodeId| #[trigger] done.contains(d) && #[trigger] edge(adj, d, u)
                                            implies level[u] <= level[d] + 1 by {
                                            assert(v0.contains(u));
                                        }
                                        assert(levels_ok(adj, from, visited@, q, done, parent@, level));
                                    }
                                }
                                proof {
                                    let before_seen = seen;
                                    seen = seen.push(w);
                                    assert(seen =~= it.seq().take(it.index() + 1).map_values(|r: &NodeId| *r));
                                    assert forall|j: int| 0 <= j < seen.len() implies visited@.contains(#[trigger] seen[j]) by {
                                        if j < before_seen.len() {
                                            assert(seen[j] == before_seen[j]);
                                        }
                                    }
                                    let q = seq![current] + queue@;
                                    assert(q[0] == current);
                                    assert(level[w] <= level[current] + 1) by {
                                        if done.contains(w) {
                                            assert(level[w] <= level[q[0]]);
                                        } else {
                                            assert(visited@.contains(w));
                                            assert(q.contains(w));
                                            let t = choose|t: int| 0 <= t < q.len() && q[t] == w;
                                            assert(level[q[t]] <= level[q[0]] + 1);
                                        }
                                    }
                                    assert forall|j: int| 0 <= j < seen.len() implies level[#[trigger] seen[j]] <= level[current] + 1 by {
                                        if j < before_seen.len() {
                                            assert(seen[j] == before_seen[j]);
                                        }
                                    }
                                }
                            }
                            proof {
                                assert forall|u: NodeId| #[trigger] edge(adj, current, u) implies visited@.contains(u)
                                    && level[u] <= level[current] + 1 by {
                                    assert(nset.contains(u));
                                    assert(s.unref().to_set().contains(u));
                                    assert(seen =~= s.unref());
                                    let j = choose|j: int| 0 <= j < s.unref().len() && s.unref()[j] == u;
                                    assert(seen[j] == u);
                                }
                            }
                        },
                        None => {
                            proof {
                                assert(!adj.contains_key(current));
                            }
                        },
                    }
                    proof {
                        let ghost d0 = done;
                        done = done.insert(current);
                        let q = seq![current] + queue@;
                        assert forall|v: NodeId| #[trigger] visited@.contains(v) <==> (done.contains(v) || queue@.contains(v)) by {
                            if q.contains(v) && v != current {
                                let j = choose|j: int| 0 <= j < q.len() && q[j] == v;
                                assert(queue@[j - 1] == v);
                            }
                            if queue@.contains(v) {
                                let j = choose|j: int| 0 <= j < queue@.len() && queue@[j] == v;
                                assert(q[j + 1] == v);
                            }
                            if v == current {
                                assert(q[0] == current);
                            }
                        }
                        assert(queue@.no_duplicates()) by {
                            assert forall|x: int, y: int| 0 <= x < y < queue@.len() implies queue@[x] != queue@[y] by {
                                assert(q[x + 1] == queue@[x] && q[y + 1] == queue@[y]);
                            }
                        }
                        assert forall|v: NodeId| #[trigger] done.contains(v) implies !queue@.contains(v) by {
                            if queue@.contains(v) {
                                let j = choose|j: int| 0 <= j < queue@.len() && queue@[j] == v;
                                assert(q[j + 1] == v);
                                if v == current {
                                    assert(q[0] == q[j + 1]);
                                }
                            }
                        }
                        assert forall|v: NodeId, u: NodeId| #[trigger] done.contains(v) && #[trigger] edge(adj, v, u)
                            implies visited@.contains(u) by {
                            if v != current {
                                assert(d0.contains(v));
                            }
                        }
                        assert(visited@.contains(current)) by {
                            assert(q[0] == current);
                        }
                        vstd::set_lib::lemma_len_subset(done, universe);
                        assert(d0.len() + 1 == done.len());
                        assert(levels_ok(adj, from, visited@, q, d0, parent@, level));
                        assert forall|i: int, j: int| 0 <= i <= j < queue@.len() implies level[#[trigger] queue@[i]] <= level[#[trigger] queue@[j]]
                            && level[queue@[j]] <= level[queue@[i]] + 1 by {
                            assert(queue@[i] == q[i + 1] && queue@[j] == q[j + 1]);
                        }
                        assert forall|d: NodeId| #[trigger] done.contains(d) && queue@.len() > 0 implies level[d] <= level[queue@[0]] by {
                            assert(queue@[0] == q[1]);
                            assert(level[q[0]] <= level[q[1]]);
                            if d != current {
                                assert(d0.contains(d));
                            }
                        }
                        assert forall|d: NodeId, u: NodeId| #[trigger] done.contains(d) && #[trigger] edge(adj, d, u)
                            implies level[u] <= level[d] + 1 by {
                            if d != current {
                                assert(d0.contains(d));
                            }
                        }
                    }
                },
            }
        }
        if !found {
            proof {
                assert forall|v: NodeId, w: NodeId| #[trigger] visited@.contains(v) && #[trigger] edge(adj, v, w)
                    implies visited@.contains(w) by {
                    assert(done.contains(v));
                }
                assert(!visited@.contains(to));
                if reachable(adj, from, to) {
                    let p = choose|p: Seq<NodeId>| is_path(adj, p) && p[0] == from && #[trigger] p.last() == to;
                    lemma_closed_set(adj, visited@, p);
                }
            }
            return None;
        }
        let mut path: Vec<NodeId> = Vec::new();
        let mut node = to;
        loop
            invariant
                adj == self.successors(),
                parents_ok(adj, from, visited@, parent@, order, next),
                visited@.contains(node),
                is_path(adj, seq![node] + path@.reverse()),
                (seq![node] + path@.reverse()).last() == to,
                to == from ==> node == from && path@.len() == 0,
                parent_levels(from, visited@, parent@, level),
                level[node] + path@.len() == level[to],
            ensures
                to == from ==> path@.len() == 0,
                path@.len() == level[to],
                node == from,
                is_path(adj, seq![node] + path@.reverse()),
                (seq![node] + path@.reverse()).last() == to,
            decreases order[node],
        {
            match parent.get(&node) {
                Some(p) => {
                    assert(node != from);
                    let prev = *p;
                    let ghost old_seq = seq![node] + path@.reverse();
                    path.push(node);
                    proof {
                        assert(path@.reverse() =~= seq![node] + path@.drop_last().reverse());
                        let s = seq![prev] + path@.reverse();
                        assert(s =~= seq![prev] + old_seq);
                        assert forall|i: int| 0 <= i < s.len() - 1 implies edge(adj, #[trigger] s[i], s[i + 1]) by {
                            if i > 0 {
                                assert(s[i] == old_seq[i - 1] && s[i + 1] == old_seq[i]);
                            } else {
                                assert(s[1] == old_seq[0]);
                            }
                        }
                        assert(s.last() == old_seq.last());
                    }
                    node = prev;
                },
                None => {
                    break;
                },
            }
        }
        let ghost walked = path@;
        path.push(from);
        let mut result: Vec<NodeId> = Vec::new();
        let m = path.len();
        let mut k: usize = m;
        while k > 0
            invariant
                k <= m,
                m == path@.len(),
                result@ == path@.subrange(k as int, m as int).reverse(),
            decreases k,
        {
            k = k - 1;
            result.push(path[k]);
            proof {
                assert(result@ =~= path@.subrange(k as int, m as int).reverse());
            }
        }
        proof {
            assert(path@.subrange(0, m as int) =~= path@);
            assert(path@.drop_last() =~= walked);
            assert(result@ =~= seq![from] + walked.reverse());
            if from == to {
                assert(walked.reverse() =~= Seq::<NodeId>::empty());
                assert(result@ =~= seq![from]);
            }
            assert(result@.len() == level[to] + 1);
        }
        Some(result)
    }
}


/// Statistics of the joins from one node to another.
#[derive(Debug, Clone, Copy)]
pub struct JoinPathStats {
    pub successful_joins: usize,
    pub failed_joins: usize,
    /// Tokens produced per successful join: the tokens of all successful
    /// joins over their number.
    pub avg_tokens_produced: Ratio,
    /// When the path was last used.
    pub last_used: Option<Instant>,
}

/// Counters of incremental construction.
#[derive(Debug, Clone, Copy, PartialEq, Eq, Structural)]
pub struct IncrementalConstructionStats {
    /// Nodes activated lazily.
    pub lazy_activations: usize,
    /// Nodes deactivated for inactivity.
    pub deactivations: usize,
    /// Network paths optimized.
    pub path_optimizations: usize,
    /// Join paths pruned.
    pub paths_pruned: usize,
    /// Estimated time saved, in milliseconds.
    pub time_saved_ms: u64,
    /// Estimated memory saved by lazy activation, in bytes.
    pub memory_saved_bytes: usize,
}

/// All counters zero.
pub open spec fn zero_construction_stats() -> IncrementalConstructionStats {
    IncrementalConstructionStats {
        lazy_activations: 0,
        deactivations: 0,
        path_optimizations: 0,
        paths_pruned: 0,
        time_saved_ms: 0,
        memory_saved_bytes: 0,
    }
}

impl Default for IncrementalConstructionStats {
    fn default() -> (s: IncrementalConstructionStats)
        ensures
            s == zero_construction_stats(),
    {
        IncrementalConstructionStats {
            lazy_activations: 0,
            deactivations: 0,
            path_optimizations: 0,
            paths_pruned: 0,
            time_saved_ms: 0,
            memory_saved_bytes: 0,
        }
    }
}

/// The join statistics recorded for a pair of nodes: keys and statistics,
/// in the order the pairs were first seen.
pub type JoinEntries = Seq<((NodeId, NodeId), JoinPathStats)>;

/// Where the pair `key` sits among the entries, or -1.
pub open spec fn join_index(joins: JoinEntries, key: (NodeId, NodeId)) -> int {
    if exists|i: int| 0 <= i < joins.len() && joins[i].0 == key {
        choose|i: int| 0 <= i < joins.len() && joins[i].0 == key
    } else {
        -1
    }
}

/// The statistics of the pair `key`, if recorded.
pub open spec fn join_stats(joins: JoinEntries, key: (NodeId, NodeId)) -> Option<JoinPathStats> {
    let i = join_index(joins, key);
    if i >= 0 { Some(joins[i].1) } else { None }
}

/// No pair is recorded twice.
pub open spec fn distinct_pairs(joins: JoinEntries) -> bool {
    forall|i: int, j: int| 0 <= i < j < joins.len() ==> #[trigger] joins[i].0 != #[trigger] joins[j].0
}

/// The attempts counted for a path.
pub open spec fn attempts(s: JoinPathStats) -> int {
    s.successful_joins + s.failed_joins
}

/// A path with enough attempts (more than ten) and a success rate under
/// 30 percent.
pub open spec fn inefficient(s: JoinPathStats) -> bool {
    attempts(s) > 10 && 10 * s.successful_joins < 3 * attempts(s)
}

/// A path with more than a hundred successful joins that produce more than
/// one token each on average.
pub open spec fn heavy(s: JoinPathStats) -> bool {
    s.successful_joins > 100 && s.avg_tokens_produced.part > s.successful_joins
}

/// The number of inefficient paths.
pub open spec fn count_inefficient(joins: JoinEntries) -> nat
    decreases joins.len(),
{
    if joins.len() == 0 {
        0
    } else {
        count_inefficient(joins.drop_last()) + if inefficient(joins.last().1) { 1nat } else { 0nat }
    }
}

/// The number of heavy paths whose end can be reached from their start.
pub open spec fn count_critical(adj: Map<NodeId, Set<NodeId>>, joins: JoinEntries) -> nat
    decreases joins.len(),
{
    if joins.len() == 0 {
        0
    } else {
        let (k, st) = joins.last();
        count_critical(adj, joins.drop_last()) + if heavy(st) && reachable(adj, k.0, k.1) { 1nat } else { 0nat }
    }
}

/// Inactive and dormant nodes hold no working memory.
pub open spec fn idle(s: NodeActivationState) -> bool {
    s is Inactive || s is Dormant
}

/// Whether a node is registered and inactive or dormant.
pub open spec fn idle_in(states: Map<NodeId, NodeActivationState>, k: NodeId) -> bool {
    states.contains_key(k) && idle(states[k])
}

/// The nodes that are inactive or dormant.
pub open spec fn idle_nodes(states: Map<NodeId, NodeActivationState>) -> Set<NodeId> {
    states.dom().filter(|k: NodeId| idle_in(states, k))
}

/// The statistics of a path before its first join: none recorded.
pub open spec fn fresh_join_stats() -> (usize, usize, usize) {
    (0, 0, 0)
}

/// Successful joins, failed joins and tokens of the pair, zero when none
/// are recorded.
pub open spec fn join_counts(joins: JoinEntries, key: (NodeId, NodeId)) -> (usize, usize, usize) {
    match join_stats(joins, key) {
        Some(s) => (s.successful_joins, s.failed_joins, s.avg_tokens_produced.part),
        None => fresh_join_stats(),
    }
}

/// The number of elements of a duplicate-free list that satisfy `p` is the
/// size of the part of its set that does.
proof fn lemma_filter_count<A>(s: Seq<A>, p: spec_fn(A) -> bool)
    requires
        s.no_duplicates(),
    ensures
        s.filter(p).len() == s.to_set().filter(p).len(),
        s.to_set().filter(p).finite(),
    decreases s.len(),
{
    reveal(Seq::filter);
    vstd::seq_lib::seq_to_set_is_finite(s);
    if s.len() == 0 {
        assert(s.to_set() =~= Set::<A>::empty());
        assert(s.to_set().filter(p) =~= Set::<A>::empty());
    } else {
        let t = s.drop_last();
        let x = s.last();
        assert(t.no_duplicates());
        lemma_filter_count(t, p);
        assert(s =~= t.push(x));
        t.lemma_push_to_set_commute(x);
        assert(!t.to_set().contains(x)) by {
            if t.to_set().contains(x) {
                let j = choose|j: int| 0 <= j < t.len() && t[j] == x;
                assert(s[j] == s[s.len() - 1]);
            }
        }
        if p(x) {
            assert(s.to_set().filter(p) =~= t.to_set().filter(p).insert(x));
        } else {
            assert(s.to_set().filter(p) =~= t.to_set().filter(p));
        }
    }
}

/// Incremental construction: node activation states, which facts and
/// rules touched which nodes, join statistics, and the network topology.
#[derive(Debug)]
pub struct IncrementalConstructionManager {
    node_activation_states: HashMap<NodeId, NodeActivationState>,
    fact_to_nodes: HashMap<FactId, HashSet<NodeId>>,
    rule_to_nodes: HashMap<u64, HashSet<NodeId>>,
    join_path_stats: Vec<((NodeId, NodeId), JoinPathStats)>,
    network_topology: NetworkTopology,
    pub stats: IncrementalConstructionStats,
}

impl IncrementalConstructionManager {
    /// The activation state of each registered node.
    pub closed spec fn states(&self) -> Map<NodeId, NodeActivationState> {
        self.node_activation_states@
    }

    /// The nodes each fact activated.
    pub closed spec fn fact_nodes(&self) -> Map<FactId, Set<NodeId>> {
        Map::new(|k: FactId| self.fact_to_nodes@.contains_key(k), |k: FactId| self.fact_to_nodes@[k]@)
    }

    /// The nodes each rule contributed to.
    pub closed spec fn rule_nodes(&self) -> Map<u64, Set<NodeId>> {
        Map::new(|k: u64| self.rule_to_nodes@.contains_key(k), |k: u64| self.rule_to_nodes@[k]@)
    }

    /// The recorded join statistics.
    pub closed spec fn joins(&self) -> JoinEntries {
        self.join_path_stats@
    }

    /// The network topology.
    pub closed spec fn topology(&self) -> NetworkTopology {
        self.network_topology
    }

    /// The counters.
    pub closed spec fn stats_view(&self) -> IncrementalConstructionStats {
        self.stats
    }

    /// Pairs are distinct, the average of each path counts its successful
    /// joins, and its attempts fit in `usize`.
    pub closed spec fn wf(&self) -> bool {
        &&& distinct_pairs(self.join_path_stats@)
        &&& forall|i: int| 0 <= i < self.join_path_stats@.len() ==> {
            &&& (#[trigger] self.join_path_stats@[i]).1.avg_tokens_produced.whole == self.join_path_stats@[i].1.successful_joins
            &&& attempts(self.join_path_stats@[i].1) <= usize::MAX
        }
    }

    /// An empty manager.
    pub fn new() -> (m: IncrementalConstructionManager)
        ensures
            m.wf(),
            m.states() == Map::<NodeId, NodeActivationState>::empty(),
            m.fact_nodes() == Map::<FactId, Set<NodeId>>::empty(),
            m.rule_nodes() == Map::<u64, Set<NodeId>>::empty(),
            m.joins() == JoinEntries::empty(),
            m.topology().successors() == Map::<NodeId, Set<NodeId>>::empty(),
            m.stats_view() == zero_construction_stats(),
    {
        let m = IncrementalConstructionManager {
            node_activation_states: HashMap::new(),
            fact_to_nodes: HashMap::new(),
            rule_to_nodes: HashMap::new(),
            join_path_stats: Vec::new(),
            network_topology: NetworkTopology::new(),
            stats: IncrementalConstructionStats::default(),
        };
        assert(m.fact_nodes() =~= Map::<FactId, Set<NodeId>>::empty());
        assert(m.rule_nodes() =~= Map::<u64, Set<NodeId>>::empty());
        m
    }

    /// Registers a node in the given state and adds it to the topology.
    pub fn register_node(&mut self, node_id: NodeId, initial_state: NodeActivationState)
        requires
            old(self).wf(),
        ensures
            final(self).wf(),
            final(self).states() == old(self).states().insert(node_id, initial_state),
            final(self).topology().successors() == if old(self).topology().successors().contains_key(node_id) {
                old(self).topology().successors()
            } else {
                old(self).topology().successors().insert(node_id, Set::empty())
            },
            final(self).fact_nodes() == old(self).fact_nodes(),
            final(self).rule_nodes() == old(self).rule_nodes(),
            final(self).joins() == old(self).joins(),
            final(self).stats_view() == old(self).stats_view(),
    {
        self.node_activation_states.insert(node_id, initial_state);
        self.network_topology.add_node(node_id);
    }

    /// Records that `fact_id` activated `node_id`.
    fn note_fact(&mut self, fact_id: FactId, node_id: NodeId)
        requires
            old(self).wf(),
        ensures
            final(self).wf(),
            final(self).fact_nodes() == old(self).fact_nodes().insert(
                fact_id,
                if old(self).fact_nodes().contains_key(fact_id) {
                    old(self).fact_nodes()[fact_id].insert(node_id)
                } else {
                    set![node_id]
                },
            ),
            final(self).states() == old(self).states(),
            final(self).rule_nodes() == old(self).rule_nodes(),
            final(self).joins() == old(self).joins(),
            final(self).topology() == old(self).topology(),
            final(self).stats_view() == old(self).stats_view(),
    {
        let ghost before = self.fact_nodes();
        let mut nodes = match self.fact_to_nodes.remove(&fact_id) {
            Some(s) => s,
            None => HashSet::new(),
        };
        nodes.insert(node_id);
        self.fact_to_nodes.insert(fact_id, nodes);
        proof {
            assert(self.fact_nodes() =~= before.insert(
                fact_id,
                if before.contains_key(fact_id) { before[fact_id].insert(node_id) } else { set![node_id] },
            ));
        }
    }

    /// Activates a node that is not active (an unregistered one counts as
    /// inactive) and counts a lazy activation; says whether it did. The
    /// triggering fact, if any, is recorded against the node either way.
    pub fn activate_node(&mut self, node_id: NodeId, triggered_by_fact: Option<FactId>) -> (activated: bool)
        requires
            old(self).wf(),
            !(old(self).states().contains_key(node_id) && old(self).states()[node_id] is Active)
                ==> old(self).stats_view().lazy_activations < usize::MAX,
        ensures
            final(self).wf(),
            activated == !(old(self).states().contains_key(node_id) && old(self).states()[node_id] is Active),
            final(self).states() == if activated {
                old(self).states().insert(node_id, NodeActivationState::Active)
            } else {
                old(self).states()
            },
            final(self).stats_view() == if activated {
                IncrementalConstructionStats { lazy_activations: (old(self).stats_view().lazy_activations + 1) as usize, ..old(self).stats_view() }
            } else {
                old(self).stats_view()
            },
            final(self).fact_nodes() == match triggered_by_fact {
                Some(f) => old(self).fact_nodes().insert(
                    f,
                    if old(self).fact_nodes().contains_key(f) { old(self).fact_nodes()[f].insert(node_id) } else { set![node_id] },
                ),
                None => old(self).fact_nodes(),
            },
            final(self).rule_nodes() == old(self).rule_nodes(),
            final(self).joins() == old(self).joins(),
            final(self).topology() == old(self).topology(),
    {
        let active = match self.node_activation_states.get(&node_id) {
            Some(s) => match s {
                NodeActivationState::Active => true,
                _ => false,
            },
            None => false,
        };
        let activated = !active;
        if activated {
            self.node_activation_states.insert(node_id, NodeActivationState::Active);
            self.stats.lazy_activations = self.stats.lazy_activations + 1;
        }
        match triggered_by_fact {
            Some(f) => self.note_fact(f, node_id),
            None => {},
        }
        activated
    }

    /// Makes an active node dormant and counts a deactivation; says whether
    /// it did.
    pub fn deactivate_node(&mut self, node_id: NodeId) -> (deactivated: bool)
        requires
            old(self).wf(),
            old(self).states().contains_key(node_id) && old(self).states()[node_id] is Active
                ==> old(self).stats_view().deactivations < usize::MAX,
        ensures
            final(self).wf(),
            deactivated == (old(self).states().contains_key(node_id) && old(self).states()[node_id] is Active),
            final(self).states() == if deactivated {
                old(self).states().insert(node_id, NodeActivationState::Dormant)
            } else {
                old(self).states()
            },
            final(self).stats_view() == if deactivated {
                IncrementalConstructionStats { deactivations: (old(self).stats_view().deactivations + 1) as usize, ..old(self).stats_view() }
            } else {
                old(self).stats_view()
            },
            final(self).fact_nodes() == old(self).fact_nodes(),
            final(self).rule_nodes() == old(self).rule_nodes(),
            final(self).joins() == old(self).joins(),
            final(self).topology() == old(self).topology(),
    {
        let active = match self.node_activation_states.get(&node_id) {
            Some(s) => match s {
                NodeActivationState::Active => true,
                _ => false,
            },
            None => false,
        };
        if active {
            self.node_activation_states.insert(node_id, NodeActivationState::Dormant);
            self.stats.deactivations = self.stats.deactivations + 1;
        }
        active
    }

    /// Whether a node is registered and active.
    pub fn is_node_active(&self, node_id: NodeId) -> (b: bool)
        ensures
            b == (self.states().contains_key(node_id) && self.states()[node_id] is Active),
    {
        match self.node_activation_states.get(&node_id) {
            Some(s) => match s {
                NodeActivationState::Active => true,
                _ => false,
            },
            None => false,
        }
    }

    /// The nodes a fact activated, if any were recorded.
    pub fn get_nodes_for_fact(&self, fact_id: FactId) -> (r: Option<&HashSet<NodeId>>)
        ensures
            match r {
                Some(s) => self.fact_nodes().contains_key(fact_id) && s@ == self.fact_nodes()[fact_id],
                None => !self.fact_nodes().contains_key(fact_id),
            },
    {
        self.fact_to_nodes.get(&fact_id)
    }

    /// Records the nodes a rule contributed to (replacing an earlier
    /// record).
    pub fn register_rule_nodes(&mut self, rule_id: u64, node_ids: &[NodeId])
        requires
            old(self).wf(),
        ensures
            final(self).wf(),
            final(self).rule_nodes() == old(self).rule_nodes().insert(rule_id, node_ids@.to_set()),
            final(self).states() == old(self).states(),
            final(self).fact_nodes() == old(self).fact_nodes(),
            final(self).joins() == old(self).joins(),
            final(self).topology() == old(self).topology(),
            final(self).stats_view() == old(self).stats_view(),
    {
        let ghost before = self.rule_nodes();
        let mut nodes: HashSet<NodeId> = HashSet::new();
        let n = node_ids.len();
        let mut i: usize = 0;
        proof {
            assert(nodes@ =~= node_ids@.take(0).to_set());
        }
        while i < n
            invariant
                n == node_ids@.len(),
                i <= n,
                nodes@ == node_ids@.take(i as int).to_set(),
            decreases n - i,
        {
            nodes.insert(node_ids[i]);
            proof {
                assert(node_ids@.take(i + 1) =~= node_ids@.take(i as int).push(node_ids@[i as int]));
                node_ids@.take(i as int).lemma_push_to_set_commute(node_ids@[i as int]);
            }
            i = i + 1;
        }
        proof {
            assert(node_ids@.take(n as int) =~= node_ids@);
        }
        self.rule_to_nodes.insert(rule_id, nodes);
        proof {
            assert(self.rule_nodes() =~= before.insert(rule_id, node_ids@.to_set()));
        }
    }

    /// Forgets the nodes of a rule, giving them back if any were recorded.
    pub fn unregister_rule_nodes(&mut self, rule_id: u64) -> (r: Option<HashSet<NodeId>>)
        requires
            old(self).wf(),
        ensures
            final(self).wf(),
            match r {
                Some(s) => old(self).rule_nodes().contains_key(rule_id) && s@ == old(self).rule_nodes()[rule_id],
                None => !old(self).rule_nodes().contains_key(rule_id),
            },
            final(self).rule_nodes() == old(self).rule_nodes().remove(rule_id),
            final(self).states() == old(self).states(),
            final(self).fact_nodes() == old(self).fact_nodes(),
            final(self).joins() == old(self).joins(),
            final(self).topology() == old(self).topology(),
            final(self).stats_view() == old(self).stats_view(),
    {
        let ghost before = self.rule_nodes();
        let r = self.rule_to_nodes.remove(&rule_id);
        proof {
            assert(self.rule_nodes() =~= before.remove(rule_id));
        }
        r
    }

    /// Where the pair sits among the join entries.
    fn find_join(&self, key: (NodeId, NodeId)) -> (r: Option<usize>)
        requires
            self.wf(),
        ensures
            match r {
                Some(i) => i == join_index(self.joins(), key) && i < self.joins().len(),
                None => join_index(self.joins(), key) == -1,
            },
    {
        let n = self.join_path_stats.len();
        let mut i: usize = 0;
        while i < n
            invariant
                self.wf(),
                n == self.join_path_stats@.len(),
                i <= n,
                forall|j: int| 0 <= j < i ==> self.join_path_stats@[j].0 != key,
            decreases n - i,
        {
            let k = self.join_path_stats[i].0;
            if k.0 == key.0 && k.1 == key.1 {
                proof {
                    let e = self.join_path_stats@;
                    let c = choose|t: int| 0 <= t < e.len() && e[t].0 == key;
                    if c != i {
                        if c < i {
                            assert(e[c].0 != e[i as int].0);
                        } else {
                            assert(e[i as int].0 != e[c].0);
                        }
                    }
                }
                return Some(i);
            }
            i = i + 1;
        }
        None
    }

    /// The statistics recorded for the join path from `left_node` to
    /// `right_node`, if any.
    pub fn get_join_path_stats(&self, left_node: NodeId, right_node: NodeId) -> (r: Option<JoinPathStats>)
        requires
            self.wf(),
        ensures
            r == join_stats(self.joins(), (left_node, right_node)),
    {
        match self.find_join((left_node, right_node)) {
            Some(i) => Some(self.join_path_stats[i].1),
            None => None,
        }
    }

    /// Records a join attempt from `left_node` to `right_node`: a success
    /// adds its tokens to the path's average, a failure is counted; the
    /// path is marked as used now.
    pub fn record_join_attempt(&mut self, left_node: NodeId, right_node: NodeId, successful: bool, tokens_produced: usize)
        requires
            old(self).wf(),
            ({
                let (s, f, t) = join_counts(old(self).joins(), (left_node, right_node));
                &&& s + f < usize::MAX
                &&& successful ==> t + tokens_produced <= usize::MAX
            }),
        ensures
            final(self).wf(),
            ({
                let (s, f, t) = join_counts(old(self).joins(), (left_node, right_node));
                let after = join_stats(final(self).joins(), (left_node, right_node));
                &&& after is Some
                &&& after.unwrap().successful_joins == s + if successful { 1int } else { 0int }
                &&& after.unwrap().failed_joins == f + if successful { 0int } else { 1int }
                &&& after.unwrap().avg_tokens_produced.part == t + if successful { tokens_produced as int } else { 0int }
                &&& after.unwrap().avg_tokens_produced.whole == after.unwrap().successful_joins
                &&& after.unwrap().last_used is Some
            }),
            forall|k: (NodeId, NodeId)| k != (left_node, right_node)
                ==> #[trigger] join_stats(final(self).joins(), k) == join_stats(old(self).joins(), k),
            final(self).states() == old(self).states(),
            final(self).fact_nodes() == old(self).fact_nodes(),
            final(self).rule_nodes() == old(self).rule_nodes(),
            final(self).topology() == old(self).topology(),
            final(self).stats_view() == old(self).stats_view(),
    {
        let key = (left_node, right_node);
        let ghost old_joins = self.join_path_stats@;
        let idx: usize = match self.find_join(key) {
            Some(i) => i,
            None => {
                let fresh = JoinPathStats {
                    successful_joins: 0,
                    failed_joins: 0,
                    avg_tokens_produced: Ratio { part: 0, whole: 0 },
                    last_used: None,
                };
                self.join_path_stats.push((key, fresh));
                proof {
                    let e = self.join_path_stats@;
                    assert forall|a: int, b: int| 0 <= a < b < e.len() implies #[trigger] e[a].0 != #[trigger] e[b].0 by {
                        if b == e.len() - 1 {
                            assert(e[a] == old_joins[a]);
                        } else {
                            assert(e[a] == old_joins[a] && e[b] == old_joins[b]);
                        }
                    }
                    assert forall|k: (NodeId, NodeId)| k != key implies #[trigger] join_stats(e, k) == join_stats(old_joins, k) by {
                        if join_index(old_joins, k) >= 0 {
                            let j = join_index(old_joins, k);
                            assert(e[j] == old_joins[j]);
                            let c = join_index(e, k);
                            if c != j {
                                if c < j {
                                    assert(e[c].0 != e[j].0);
                                } else {
                                    assert(e[j].0 != e[c].0);
                                }
                            }
                        } else {
                            if join_index(e, k) >= 0 {
                                let c = join_index(e, k);
                                assert(e[c] == old_joins[c]);
                            }
                        }
                    }
                    assert(e[e.len() - 1].0 == key);
                }
                self.join_path_stats.len() - 1
            },
        };
        let ghost mid = self.join_path_stats@;
        let cur = self.join_path_stats[idx].1;
        let updated = if successful {
            JoinPathStats {
                successful_joins: cur.successful_joins + 1,
                failed_joins: cur.failed_joins,
                avg_tokens_produced: Ratio {
                    part: cur.avg_tokens_produced.part + tokens_produced,
                    whole: cur.successful_joins + 1,
                },
                last_used: Some(now()),
            }
        } else {
            JoinPathStats {
                successful_joins: cur.successful_joins,
                failed_joins: cur.failed_joins + 1,
                avg_tokens_produced: cur.avg_tokens_produced,
                last_used: Some(now()),
            }
        };
        self.join_path_stats.set(idx, (key, updated));
        proof {
            let e = self.join_path_stats@;
            assert(e == mid.update(idx as int, (key, updated)));
            assert forall|a: int, b: int| 0 <= a < b < e.len() implies #[trigger] e[a].0 != #[trigger] e[b].0 by {
                assert(e[a].0 == mid[a].0 && e[b].0 == mid[b].0);
            }
            assert forall|k: (NodeId, NodeId)| #[trigger] join_stats(e, k) == if k == key { Some(updated) } else { join_stats(mid, k) } by {
                let c = join_index(mid, k);
                let d = join_index(e, k);
                if c >= 0 {
                    assert(e[c].0 == mid[c].0);
                    if d != c {
                        if d < c {
                            assert(e[d].0 != e[c].0);
                        } else {
                            assert(e[c].0 != e[d].0);
                        }
                    }
                } else if d >= 0 {
                    assert(e[d].0 == mid[d].0);
                }
            }
        }
    }

    /// Estimated memory saved by nodes that hold none: 1024 bytes for each
    /// inactive or dormant node.
    pub fn estimate_memory_savings(&self) -> (r: usize)
        requires
            idle_nodes(self.states()).len() * 1024 <= usize::MAX,
        ensures
            r == idle_nodes(self.states()).len() * 1024,
    {
        let ghost states = self.states();
        let ghost p = |k: NodeId| idle_in(states, k);
        let mut count: usize = 0;
        let ghost mut seen: Seq<NodeId> = Seq::empty();
        for k in it: self.node_activation_states.keys()
            invariant
                states == self.node_activation_states@,
                p == (|k: NodeId| idle_in(states, k)),
                seen == it.seq().take(it.index() as int).map_values(|r: &NodeId| *r),
                it.seq() == vstd::std_specs::hash::spec_keys_iter(&self.node_activation_states).remaining(),
                count == seen.filter(p).len(),
                count <= idle_nodes(states).len(),
                idle_nodes(states).len() * 1024 <= usize::MAX,
        {
            let is_idle = match self.node_activation_states.get(k) {
                Some(st) => match st {
                    NodeActivationState::Inactive => true,
                    NodeActivationState::Dormant => true,
                    _ => false,
                },
                None => false,
            };
            proof {
                reveal(Seq::filter);
                let prev = seen;
                seen = seen.push(*k);
                let all = it.seq().map_values(|r: &NodeId| *r);
                assert(seen =~= it.seq().take(it.index() + 1).map_values(|r: &NodeId| *r));
                assert(seen.drop_last() =~= prev);
                assert(is_idle == p(*k));
                assert(all =~= vstd::std_specs::hash::spec_keys_iter(&self.node_activation_states).remaining().unref());
                assert(seen.no_duplicates()) by {
                    assert forall|a: int, b: int| 0 <= a < seen.len() && 0 <= b < seen.len() && a != b implies seen[a] != seen[b] by {
                        assert(seen[a] == all[a] && seen[b] == all[b]);
                    }
                }
                lemma_filter_count(seen, p);
                assert(seen.to_set().filter(p).subset_of(idle_nodes(states))) by {
                    assert forall|x: NodeId| seen.to_set().filter(p).contains(x) implies idle_nodes(states).contains(x) by {
                        assert(p(x));
                    }
                }
                vstd::set_lib::lemma_len_subset(seen.to_set().filter(p), idle_nodes(states));
            }
            if is_idle {
                count = count + 1;
            }
        }
        proof {
            let keys = vstd::std_specs::hash::spec_keys_iter(&self.node_activation_states).remaining();
            assert(seen =~= keys.unref());
            lemma_filter_count(seen, p);
            assert(seen.to_set().filter(p) =~= idle_nodes(states));
        }
        count * 1024
    }

    /// The counters, with the memory saved estimated now.
    pub fn get_comprehensive_stats(&self) -> (r: IncrementalConstructionStats)
        requires
            idle_nodes(self.states()).len() * 1024 <= usize::MAX,
        ensures
            r == (IncrementalConstructionStats {
                memory_saved_bytes: (idle_nodes(self.states()).len() * 1024) as usize,
                ..self.stats_view()
            }),
    {
        let mut stats = self.stats;
        stats.memory_saved_bytes = self.estimate_memory_savings();
        stats
    }

    /// Paths for the heavy join paths whose end is reachable from their
    /// start, in the order of the entries.
    fn identify_critical_paths(&self) -> (paths: Vec<Vec<NodeId>>)
        requires
            self.wf(),
        ensures
            paths@.len() == count_critical(self.topology().successors(), self.joins()),
            forall|i: int| 0 <= i < paths@.len() ==> {
                let p = (#[trigger] paths@[i])@;
                &&& is_path(self.topology().successors(), p)
                &&& exists|j: int| 0 <= j < self.joins().len() && heavy(self.joins()[j].1)
                    && p[0] == self.joins()[j].0.0 && p.last() == self.joins()[j].0.1
            },
    {
        let ghost adj = self.topology().successors();
        let ghost joins = self.joins();
        let mut paths: Vec<Vec<NodeId>> = Vec::new();
        let n = self.join_path_stats.len();
        let mut i: usize = 0;
        while i < n
            invariant
                n == self.join_path_stats@.len(),
                joins == self.joins(),
                adj == self.topology().successors(),
                i <= n,
                paths@.len() == count_critical(adj, joins.take(i as int)),
                forall|t: int| 0 <= t < paths@.len() ==> {
                    let p = (#[trigger] paths@[t])@;
                    &&& is_path(adj, p)
                    &&& exists|j: int| 0 <= j < joins.len() && heavy(joins[j].1) && p[0] == joins[j].0.0
                        && p.last() == joins[j].0.1
                },
            decreases n - i,
        {
            let (key, st) = self.join_path_stats[i];
            proof {
                assert(joins.take(i + 1).drop_last() =~= joins.take(i as int));
                assert(joins.take(i + 1).last() == joins[i as int]);
            }
            if st.successful_joins > 100 && st.avg_tokens_produced.part > st.successful_joins {
                match self.network_topology.find_path(key.0, key.1) {
                    Some(path) => {
                        let ghost pv = path@;
                        proof {
                            assert(reachable(adj, key.0, key.1)) by {
                                assert(is_path(adj, pv) && pv[0] == key.0 && pv.last() == key.1);
                            }
                        }
                        let ghost before = paths@;
                        paths.push(path);
                        proof {
                            assert forall|t: int| 0 <= t < paths@.len() implies {
                                let p = (#[trigger] paths@[t])@;
                                &&& is_path(adj, p)
                                &&& exists|j: int| 0 <= j < joins.len() && heavy(joins[j].1) && p[0] == joins[j].0.0
                                    && p.last() == joins[j].0.1
                            } by {
                                if t < before.len() {
                                    assert(paths@[t] == before[t]);
                                } else {
                                    assert(joins[i as int].0 == key && joins[i as int].1 == st);
                                }
                            }
                        }
                    },
                    None => {},
                }
            }
            i = i + 1;
        }
        proof {
            assert(joins.take(n as int) =~= joins);
        }
        paths
    }

    /// Marks inefficient join paths (more than ten attempts, under 30
    /// percent successful) for pruning, records the paths of heavy join
    /// paths as critical, and counts the optimizations; returns how many
    /// paths were marked.
    pub fn optimize_network_paths(&mut self) -> (optimizations: usize)
        requires
            old(self).wf(),
            old(self).stats_view().path_optimizations + count_inefficient(old(self).joins()) <= usize::MAX,
        ensures
            final(self).wf(),
            optimizations == count_inefficient(old(self).joins()),
            final(self).stats_view() == (IncrementalConstructionStats {
                path_optimizations: (old(self).stats_view().path_optimizations + optimizations) as usize,
                ..old(self).stats_view()
            }),
            final(self).topology().successors() == old(self).topology().successors(),
            final(self).topology().predecessors() == old(self).topology().predecessors(),
            final(self).topology().depths() == old(self).topology().depths(),
            final(self).topology().critical().len() == count_critical(old(self).topology().successors(), old(self).joins()),
            forall|i: int| 0 <= i < final(self).topology().critical().len() ==> {
                let p = #[trigger] final(self).topology().critical()[i];
                &&& is_path(old(self).topology().successors(), p)
                &&& exists|j: int| 0 <= j < old(self).joins().len() && heavy(old(self).joins()[j].1)
                    && p[0] == old(self).joins()[j].0.0 && p.last() == old(self).joins()[j].0.1
            },
            final(self).joins() == old(self).joins(),
            final(self).states() == old(self).states(),
            final(self).fact_nodes() == old(self).fact_nodes(),
            final(self).rule_nodes() == old(self).rule_nodes(),
    {
        let ghost joins = self.joins();
        let ghost topo = self.topology();
        let n = self.join_path_stats.len();
        let mut count: usize = 0;
        let mut i: usize = 0;
        while i < n
            invariant
                self.wf(),
                n == self.join_path_stats@.len(),
                joins == self.joins(),
                self.topology().successors() == topo.successors(),
                self.topology().predecessors() == topo.predecessors(),
                self.topology().depths() == topo.depths(),
                self.topology().critical() == topo.critical(),
                self.states() == old(self).states(),
                self.fact_nodes() == old(self).fact_nodes(),
                self.rule_nodes() == old(self).rule_nodes(),
                self.stats_view() == old(self).stats_view(),
                i <= n,
                count == count_inefficient(joins.take(i as int)),
                count <= i,
            decreases n - i,
        {
            let (key, st) = self.join_path_stats[i];
            proof {
                assert(joins.take(i + 1).drop_last() =~= joins.take(i as int));
                assert(joins.take(i + 1).last() == joins[i as int]);
                assert(attempts(joins[i as int].1) <= usize::MAX);
            }
            let total = st.successful_joins + st.failed_joins;
            if total > 10 && (st.successful_joins as u128) * 10 < (total as u128) * 3 {
                self.network_topology.mark_path_for_pruning(key.0, key.1);
                count = count + 1;
            }
            i = i + 1;
        }
        proof {
            assert(joins.take(n as int) =~= joins);
        }
        let critical = self.identify_critical_paths();
        self.network_topology.critical_paths = critical;
        self.stats.path_optimizations = self.stats.path_optimizations + count;
        count
    }

    /// Forgets the join statistics of paths not used within `age_threshold`
    /// (and of paths never used), keeping the others in order.
    pub fn cleanup_stale_data(&mut self, age_threshold: Duration)
        requires
            old(self).wf(),
        ensures
            final(self).wf(),
            forall|i: int| 0 <= i < final(self).joins().len()
                ==> old(self).joins().contains(#[trigger] final(self).joins()[i]) && final(self).joins()[i].1.last_used is Some,
            forall|k: (NodeId, NodeId)| #[trigger] join_stats(final(self).joins(), k) is Some
                ==> join_stats(final(self).joins(), k) == join_stats(old(self).joins(), k),
            final(self).states() == old(self).states(),
            final(self).fact_nodes() == old(self).fact_nodes(),
            final(self).rule_nodes() == old(self).rule_nodes(),
            final(self).topology() == old(self).topology(),
            final(self).stats_view() == old(self).stats_view(),
    {
        let current = now();
        let limit = duration_nanos(&age_threshold);
        let ghost old_joins = self.join_path_stats@;
        let mut kept: Vec<((NodeId, NodeId), JoinPathStats)> = Vec::new();
        let n = self.join_path_stats.len();
        let mut i: usize = 0;
        let ghost mut from: Seq<int> = Seq::empty();
        while i < n
            invariant
                self.join_path_stats@ == old_joins,
                distinct_pairs(old_joins),
                forall|t: int| 0 <= t < old_joins.len() ==> {
                    &&& (#[trigger] old_joins[t]).1.avg_tokens_produced.whole == old_joins[t].1.successful_joins
                    &&& attempts(old_joins[t].1) <= usize::MAX
                },
                n == old_joins.len(),
                i <= n,
                from.len() == kept@.len(),
                forall|t: int| 0 <= t < from.len() ==> 0 <= #[trigger] from[t] < i && kept@[t] == old_joins[from[t]],
                forall|a: int, b: int| 0 <= a < b < from.len() ==> #[trigger] from[a] < #[trigger] from[b],
                forall|t: int| 0 <= t < kept@.len() ==> (#[trigger] kept@[t]).1.last_used is Some,
            decreases n - i,
        {
            let entry = self.join_path_stats[i];
            let keep = match entry.1.last_used {
                Some(t) => {
                    let since = duration_between(&current, &t);
                    duration_nanos(&since) < limit
                },
                None => false,
            };
            if keep {
                kept.push(entry);
                proof {
                    from = from.push(i as int);
                }
            }
            i = i + 1;
        }
        proof {
            let e = kept@;
            assert forall|a: int, b: int| 0 <= a < b < e.len() implies #[trigger] e[a].0 != #[trigger] e[b].0 by {
                assert(from[a] < from[b]);
                assert(old_joins[from[a]].0 != old_joins[from[b]].0);
            }
            assert forall|t: int| 0 <= t < e.len() implies old_joins.contains(#[trigger] e[t]) by {
                assert(old_joins[from[t]] == e[t]);
            }
            assert forall|k: (NodeId, NodeId)| #[trigger] join_stats(e, k) is Some implies join_stats(e, k) == join_stats(old_joins, k) by {
                let d = join_index(e, k);
                let src = from[d];
                assert(old_joins[src].0 == k);
                let c = join_index(old_joins, k);
                if c != src {
                    if c < src {
                        assert(old_joins[c].0 != old_joins[src].0);
                    } else {
                        assert(old_joins[src].0 != old_joins[c].0);
                    }
                }
            }
        }
        self.join_path_stats = kept;
    }

    /// The success rate of the join path from `left_node` to `right_node`:
    /// successful joins over attempts; zero over zero when nothing is
    /// recorded.
    pub fn get_join_path_efficiency(&self, left_node: NodeId, right_node: NodeId) -> (r: Ratio)
        requires
            self.wf(),
        ensures
            r == match join_stats(self.joins(), (left_node, right_node)) {
                Some(s) => Ratio { part: s.successful_joins, whole: attempts(s) as usize },
                None => Ratio { part: 0, whole: 0 },
            },
    {
        match self.find_join((left_node, right_node)) {
            Some(i) => {
                let s = self.join_path_stats[i].1;
                Ratio { part: s.successful_joins, whole: s.successful_joins + s.failed_joins }
            },
            None => Ratio { part: 0, whole: 0 },
        }
    }
}

impl Default for IncrementalConstructionManager {
    fn default() -> (m: IncrementalConstructionManager)
        ensures
            m.wf(),
            m.states() == Map::<NodeId, NodeActivationState>::empty(),
            m.joins() == JoinEntries::empty(),
            m.stats_view() == zero_construction_stats(),
    {
        IncrementalConstructionManager::new()
    }
}

impl Default for NetworkTopology {
    fn default() -> (t: NetworkTopology)
        ensures
            t.successors() == Map::<NodeId, Set<NodeId>>::empty(),
            t.predecessors() == Map::<NodeId, Set<NodeId>>::empty(),
            t.depths() == Map::<NodeId, usize>::empty(),
    {
        NetworkTopology::new()
    }
}

} // verus!
