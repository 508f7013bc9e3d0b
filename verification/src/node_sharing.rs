//! Node sharing: identical alpha and beta nodes are registered once and
//! reused, with reference counts that tell when a node can be deleted.

use vstd::prelude::*;
use std::collections::HashMap;
use crate::assoc::{SignatureKey, SignatureMap};
use crate::text::{nat_decimal, hundredths_decimal, rounded_hundredths, u64_to_string, hundredths_to_string};
use crate::types::{
    AlphaNode, BetaNode, Condition, ConditionView, JoinCondition, JoinView, NodeId, Ratio, add_product, canonical_joins,
    duplicate_joins, joins_sorted, joins_view, lemma_canonical_joins, sort_joins,
};

verus! {

broadcast use vstd::std_specs::hash::group_hash_axioms;

/// The condition an alpha node tests, as the key under which it is shared.
#[derive(Debug, Clone, PartialEq)]
pub struct AlphaNodeSignature {
    condition: Condition,
}

impl AlphaNodeSignature {
    /// The model: the condition's model.
    pub closed spec fn view(&self) -> ConditionView {
        self.condition@
    }

    /// A signature for the given condition.
    pub fn new(condition: Condition) -> (s: AlphaNodeSignature)
        ensures
            s.view() == condition@,
    {
        AlphaNodeSignature { condition }
    }

    /// The signature of an existing alpha node.
    pub fn from_alpha_node(node: &AlphaNode) -> (s: AlphaNodeSignature)
        ensures
            s.view() == node.condition@,
    {
        AlphaNodeSignature { condition: node.condition.duplicate() }
    }

    /// Only simple conditions are shared.
    pub fn is_shareable(&self) -> (b: bool)
        ensures
            b == (self.view() is Simple),
    {
        self.condition.is_simple()
    }

    /// The condition.
    pub fn condition(&self) -> (c: &Condition)
        ensures
            c@ == self.view(),
    {
        &self.condition
    }
}

/// The join conditions a beta node tests, sorted, as the key under which it
/// is shared.
#[derive(Debug, Clone, PartialEq)]
pub struct BetaNodeSignature {
    join_conditions: Vec<JoinCondition>,
}

impl BetaNodeSignature {
    /// The model: the sorted join conditions.
    pub closed spec fn view(&self) -> Seq<JoinView> {
        joins_view(self.join_conditions@)
    }

    /// A signature: the join conditions sorted by left field, right field
    /// and operator name, so that the input order does not matter.
    pub fn new(join_conditions: Vec<JoinCondition>) -> (s: BetaNodeSignature)
        ensures
            joins_sorted(s.view()),
            s.view().to_multiset() == joins_view(join_conditions@).to_multiset(),
            s.view() == canonical_joins(joins_view(join_conditions@)),
    {
        let ghost input = joins_view(join_conditions@);
        let s = BetaNodeSignature { join_conditions: sort_joins(join_conditions) };
        proof {
            lemma_canonical_joins(input, s.view());
        }
        s
    }

    /// The signature of an existing beta node.
    pub fn from_beta_node(node: &BetaNode) -> (s: BetaNodeSignature)
        ensures
            joins_sorted(s.view()),
            s.view().to_multiset() == joins_view(node.join_conditions@).to_multiset(),
            s.view() == canonical_joins(joins_view(node.join_conditions@)),
    {
        Self::new(duplicate_joins(node.join_conditions.as_slice()))
    }

    /// Beta nodes can always be shared.
    pub fn is_shareable(&self) -> (b: bool)
        ensures
            b,
    {
        true
    }
}

impl SignatureKey for AlphaNodeSignature {
    type KeyView = ConditionView;

    open spec fn key_view(&self) -> ConditionView {
        self.view()
    }

    fn same_key(&self, other: &Self) -> (r: bool) {
        self.condition.equals(&other.condition)
    }
}

impl SignatureKey for BetaNodeSignature {
    type KeyView = Seq<JoinView>;

    open spec fn key_view(&self) -> Seq<JoinView> {
        self.view()
    }

    fn same_key(&self, other: &Self) -> (r: bool) {
        let n = self.join_conditions.len();
        if n != other.join_conditions.len() {
            return false;
        }
        let mut i: usize = 0;
        while i < n
            invariant
                n == self.join_conditions@.len(),
                n == other.join_conditions@.len(),
                i <= n,
                forall|j: int| 0 <= j < i ==> self.join_conditions@[j]@ == other.join_conditions@[j]@,
            decreases n - i,
        {
            let a = &self.join_conditions[i];
            let b = &other.join_conditions[i];
            if !(crate::text::str_eq(a.left_field.as_str(), b.left_field.as_str())
                && crate::text::str_eq(a.right_field.as_str(), b.right_field.as_str())
                && a.operator == b.operator) {
                assert(self.view()[i as int] != other.view()[i as int]);
                return false;
            }
            i = i + 1;
        }
        assert(self.view() =~= other.view());
        true
    }
}

/// The reference count of a node, zero when it has none.
pub open spec fn ref_or_zero(refs: Map<NodeId, usize>, id: NodeId) -> usize {
    if refs.contains_key(id) { refs[id] } else { 0 }
}

/// Mathematical model of a [`NodeSharingRegistry`].
#[verifier::ext_equal]
pub struct RegistryView {
    /// Alpha signatures (condition models) to node ids.
    pub alpha: Map<ConditionView, NodeId>,
    /// Beta signatures (sorted join models) to node ids.
    pub beta: Map<Seq<JoinView>, NodeId>,
    /// Reference counts of alpha nodes.
    pub alpha_refs: Map<NodeId, usize>,
    /// Reference counts of beta nodes.
    pub beta_refs: Map<NodeId, usize>,
    pub alpha_shares: usize,
    pub beta_shares: usize,
    pub alpha_created: usize,
    pub beta_created: usize,
}

/// The counts with one more reference to `id`.
pub open spec fn bump(refs: Map<NodeId, usize>, id: NodeId) -> Map<NodeId, usize> {
    refs.insert(id, (ref_or_zero(refs, id) + 1) as usize)
}

/// The map without the entries that point to `id`.
pub open spec fn without_node<K>(m: Map<K, NodeId>, id: NodeId) -> Map<K, NodeId> {
    Map::new(|k: K| m.contains_key(k) && m[k] != id, |k: K| m[k])
}

/// The alpha node shared for a condition: only simple conditions are shared.
pub open spec fn alpha_found(v: RegistryView, c: ConditionView) -> Option<NodeId> {
    if c is Simple && v.alpha.contains_key(c) { Some(v.alpha[c]) } else { None }
}

/// The beta node shared for a sorted join signature.
pub open spec fn beta_found(v: RegistryView, key: Seq<JoinView>) -> Option<NodeId> {
    if v.beta.contains_key(key) { Some(v.beta[key]) } else { None }
}

/// The registry after a search for an alpha node: a hit counts a share and
/// a reference.
pub open spec fn find_alpha_spec(v: RegistryView, c: ConditionView) -> RegistryView {
    match alpha_found(v, c) {
        Some(id) => RegistryView {
            alpha_shares: (v.alpha_shares + 1) as usize,
            alpha_refs: bump(v.alpha_refs, id),
            ..v
        },
        None => v,
    }
}

/// The registry after a search for a beta node.
pub open spec fn find_beta_spec(v: RegistryView, key: Seq<JoinView>) -> RegistryView {
    match beta_found(v, key) {
        Some(id) => RegistryView {
            beta_shares: (v.beta_shares + 1) as usize,
            beta_refs: bump(v.beta_refs, id),
            ..v
        },
        None => v,
    }
}

/// The registry after an alpha node is registered: a simple condition maps
/// to the node, which gets one reference; a created node is counted.
pub open spec fn register_alpha_spec(v: RegistryView, id: NodeId, c: ConditionView) -> RegistryView {
    RegistryView {
        alpha: if c is Simple { v.alpha.insert(c, id) } else { v.alpha },
        alpha_refs: if c is Simple { v.alpha_refs.insert(id, 1usize) } else { v.alpha_refs },
        alpha_created: (v.alpha_created + 1) as usize,
        ..v
    }
}

/// The registry after a beta node is registered.
pub open spec fn register_beta_spec(v: RegistryView, id: NodeId, key: Seq<JoinView>) -> RegistryView {
    RegistryView {
        beta: v.beta.insert(key, id),
        beta_refs: v.beta_refs.insert(id, 1usize),
        beta_created: (v.beta_created + 1) as usize,
        ..v
    }
}

/// The registry after one reference to an alpha node is dropped: the node
/// is forgotten with its last reference.
pub open spec fn unregister_alpha_spec(v: RegistryView, id: NodeId) -> RegistryView {
    if !v.alpha_refs.contains_key(id) {
        v
    } else if v.alpha_refs[id] == 1 {
        RegistryView { alpha_refs: v.alpha_refs.remove(id), alpha: without_node(v.alpha, id), ..v }
    } else {
        RegistryView { alpha_refs: v.alpha_refs.insert(id, (v.alpha_refs[id] - 1) as usize), ..v }
    }
}

/// The registry after one reference to a beta node is dropped.
pub open spec fn unregister_beta_spec(v: RegistryView, id: NodeId) -> RegistryView {
    if !v.beta_refs.contains_key(id) {
        v
    } else if v.beta_refs[id] == 1 {
        RegistryView { beta_refs: v.beta_refs.remove(id), beta: without_node(v.beta, id), ..v }
    } else {
        RegistryView { beta_refs: v.beta_refs.insert(id, (v.beta_refs[id] - 1) as usize), ..v }
    }
}

/// True when dropping a reference to the alpha node drops its last one.
pub open spec fn alpha_last_ref(v: RegistryView, id: NodeId) -> bool {
    v.alpha_refs.contains_key(id) && v.alpha_refs[id] == 1
}

/// True when dropping a reference to the beta node drops its last one.
pub open spec fn beta_last_ref(v: RegistryView, id: NodeId) -> bool {
    v.beta_refs.contains_key(id) && v.beta_refs[id] == 1
}

/// Registry of shareable nodes, their reference counts and sharing
/// statistics.
#[derive(Debug)]
pub struct NodeSharingRegistry {
    alpha_node_map: SignatureMap<AlphaNodeSignature, NodeId>,
    beta_node_map: SignatureMap<BetaNodeSignature, NodeId>,
    alpha_ref_counts: HashMap<NodeId, usize>,
    beta_ref_counts: HashMap<NodeId, usize>,
    pub alpha_shares_found: usize,
    pub beta_shares_found: usize,
    pub alpha_nodes_created: usize,
    pub beta_nodes_created: usize,
}

impl View for NodeSharingRegistry {
    type V = RegistryView;

    closed spec fn view(&self) -> RegistryView {
        RegistryView {
            alpha: self.alpha_node_map.view(),
            beta: self.beta_node_map.view(),
            alpha_refs: self.alpha_ref_counts@,
            beta_refs: self.beta_ref_counts@,
            alpha_shares: self.alpha_shares_found,
            beta_shares: self.beta_shares_found,
            alpha_created: self.alpha_nodes_created,
            beta_created: self.beta_nodes_created,
        }
    }
}

impl NodeSharingRegistry {
    /// Alpha signatures (condition models) to node ids.
    pub open spec fn alpha_map(&self) -> Map<ConditionView, NodeId> {
        self@.alpha
    }

    /// Beta signatures (sorted join models) to node ids.
    pub open spec fn beta_map(&self) -> Map<Seq<JoinView>, NodeId> {
        self@.beta
    }

    /// Shares found for alpha nodes.
    pub open spec fn alpha_shares(&self) -> usize {
        self@.alpha_shares
    }

    /// Shares found for beta nodes.
    pub open spec fn beta_shares(&self) -> usize {
        self@.beta_shares
    }

    /// Alpha nodes registered.
    pub open spec fn alpha_created(&self) -> usize {
        self@.alpha_created
    }

    /// Beta nodes registered.
    pub open spec fn beta_created(&self) -> usize {
        self@.beta_created
    }

    /// Reference counts of alpha nodes.
    pub open spec fn alpha_refs(&self) -> Map<NodeId, usize> {
        self@.alpha_refs
    }

    /// Reference counts of beta nodes.
    pub open spec fn beta_refs(&self) -> Map<NodeId, usize> {
        self@.beta_refs
    }

    /// Well-formedness: the maps are consistent and every recorded count is
    /// at least one.
    pub closed spec fn wf(&self) -> bool {
        &&& self.alpha_node_map.wf()
        &&& self.beta_node_map.wf()
        &&& forall|id: NodeId| #[trigger] self.alpha_ref_counts@.contains_key(id) ==> self.alpha_ref_counts@[id] >= 1
        &&& forall|id: NodeId| #[trigger] self.beta_ref_counts@.contains_key(id) ==> self.beta_ref_counts@[id] >= 1
    }

    /// An empty registry.
    pub fn new() -> (r: NodeSharingRegistry)
        ensures
            r.wf(),
            r.alpha_map() == Map::<ConditionView, NodeId>::empty(),
            r.beta_map() == Map::<Seq<JoinView>, NodeId>::empty(),
            r.alpha_refs() == Map::<NodeId, usize>::empty(),
            r.beta_refs() == Map::<NodeId, usize>::empty(),
            r.alpha_shares() == 0,
            r.beta_shares() == 0,
            r.alpha_created() == 0,
            r.beta_created() == 0,
    {
        NodeSharingRegistry {
            alpha_node_map: SignatureMap::new(),
            beta_node_map: SignatureMap::new(),
            alpha_ref_counts: HashMap::new(),
            beta_ref_counts: HashMap::new(),
            alpha_shares_found: 0,
            beta_shares_found: 0,
            alpha_nodes_created: 0,
            beta_nodes_created: 0,
        }
    }

    /// The alpha node already registered for a simple condition, if any;
    /// finding one counts a share and a reference.
    pub fn find_shared_alpha_node(&mut self, condition: &Condition) -> (r: Option<NodeId>)
        requires
            old(self).wf(),
            alpha_found(old(self)@, condition@) matches Some(id) ==> {
                &&& old(self)@.alpha_shares < usize::MAX
                &&& ref_or_zero(old(self)@.alpha_refs, id) < usize::MAX
            },
        ensures
            final(self).wf(),
            r == alpha_found(old(self)@, condition@),
            final(self)@ == find_alpha_spec(old(self)@, condition@),
    {
        let signature = AlphaNodeSignature::new(condition.duplicate());
        if !signature.is_shareable() {
            return None;
        }
        match self.alpha_node_map.get(&signature) {
            Some(found) => {
                let node_id: NodeId = *found;
                self.alpha_shares_found = self.alpha_shares_found + 1;
                let count: usize = match self.alpha_ref_counts.get(&node_id) {
                    Some(c) => *c,
                    None => 0,
                };
                self.alpha_ref_counts.insert(node_id, count + 1);
                Some(node_id)
            },
            None => None,
        }
    }

    /// Registers a node for a condition; simple conditions become shareable
    /// with one reference. Counts a created node either way.
    pub fn register_alpha_node(&mut self, node_id: NodeId, condition: &Condition)
        requires
            old(self).wf(),
            old(self)@.alpha_created < usize::MAX,
        ensures
            final(self).wf(),
            final(self)@ == register_alpha_spec(old(self)@, node_id, condition@),
    {
        let signature = AlphaNodeSignature::new(condition.duplicate());
        if signature.is_shareable() {
            self.alpha_node_map.insert(signature, node_id);
            self.alpha_ref_counts.insert(node_id, 1);
        }
        self.alpha_nodes_created = self.alpha_nodes_created + 1;
    }

    /// The beta node already registered for these join conditions (in any
    /// order), if any; finding one counts a share and a reference.
    pub fn find_shared_beta_node(&mut self, join_conditions: &[JoinCondition]) -> (r: Option<NodeId>)
        requires
            old(self).wf(),
            beta_found(old(self)@, canonical_joins(joins_view(join_conditions@))) matches Some(id) ==> {
                &&& old(self)@.beta_shares < usize::MAX
                &&& ref_or_zero(old(self)@.beta_refs, id) < usize::MAX
            },
        ensures
            final(self).wf(),
            r == beta_found(old(self)@, canonical_joins(joins_view(join_conditions@))),
            final(self)@ == find_beta_spec(old(self)@, canonical_joins(joins_view(join_conditions@))),
    {
        let signature = BetaNodeSignature::new(duplicate_joins(join_conditions));
        match self.beta_node_map.get(&signature) {
            Some(found) => {
                let node_id: NodeId = *found;
                self.beta_shares_found = self.beta_shares_found + 1;
                let count: usize = match self.beta_ref_counts.get(&node_id) {
                    Some(c) => *c,
                    None => 0,
                };
                self.beta_ref_counts.insert(node_id, count + 1);
                Some(node_id)
            },
            None => None,
        }
    }

    /// Registers a node for join conditions with one reference, and counts
    /// a created node.
    pub fn register_beta_node(&mut self, node_id: NodeId, join_conditions: &[JoinCondition])
        requires
            old(self).wf(),
            old(self)@.beta_created < usize::MAX,
        ensures
            final(self).wf(),
            final(self)@ == register_beta_spec(old(self)@, node_id, canonical_joins(joins_view(join_conditions@))),
    {
        let signature = BetaNodeSignature::new(duplicate_joins(join_conditions));
        if signature.is_shareable() {
            self.beta_node_map.insert(signature, node_id);
            self.beta_ref_counts.insert(node_id, 1);
        }
        self.beta_nodes_created = self.beta_nodes_created + 1;
    }

    /// Drops one reference to an alpha node. When none is left, the node is
    /// forgotten and `true` says it can be deleted.
    pub fn unregister_alpha_node(&mut self, node_id: NodeId) -> (deletable: bool)
        requires
            old(self).wf(),
        ensures
            final(self).wf(),
            deletable == alpha_last_ref(old(self)@, node_id),
            final(self)@ == unregister_alpha_spec(old(self)@, node_id),
    {
        let count: usize = match self.alpha_ref_counts.get(&node_id) {
            Some(c) => *c,
            None => {
                return false;
            },
        };
        let remaining = count - 1;
        if remaining == 0 {
            self.alpha_ref_counts.remove(&node_id);
            self.alpha_node_map.retain_not(node_id);
            true
        } else {
            self.alpha_ref_counts.insert(node_id, remaining);
            false
        }
    }

    /// Drops one reference to a beta node. When none is left, the node is
    /// forgotten and `true` says it can be deleted.
    pub fn unregister_beta_node(&mut self, node_id: NodeId) -> (deletable: bool)
        requires
            old(self).wf(),
        ensures
            final(self).wf(),
            deletable == beta_last_ref(old(self)@, node_id),
            final(self)@ == unregister_beta_spec(old(self)@, node_id),
    {
        let count: usize = match self.beta_ref_counts.get(&node_id) {
            Some(c) => *c,
            None => {
                return false;
            },
        };
        let remaining = count - 1;
        if remaining == 0 {
            self.beta_ref_counts.remove(&node_id);
            self.beta_node_map.retain_not(node_id);
            true
        } else {
            self.beta_ref_counts.insert(node_id, remaining);
            false
        }
    }

    /// Forgets every node and resets the statistics.
    pub fn clear(&mut self)
        ensures
            final(self).wf(),
            final(self).alpha_map() == Map::<ConditionView, NodeId>::empty(),
            final(self).beta_map() == Map::<Seq<JoinView>, NodeId>::empty(),
            final(self).alpha_refs() == Map::<NodeId, usize>::empty(),
            final(self).beta_refs() == Map::<NodeId, usize>::empty(),
            final(self).alpha_shares() == 0,
            final(self).beta_shares() == 0,
            final(self).alpha_created() == 0,
            final(self).beta_created() == 0,
    {
        self.alpha_node_map.clear();
        self.beta_node_map.clear();
        self.alpha_ref_counts.clear();
        self.beta_ref_counts.clear();
        self.alpha_shares_found = 0;
        self.beta_shares_found = 0;
        self.alpha_nodes_created = 0;
        self.beta_nodes_created = 0;
    }
}

impl Default for NodeSharingRegistry {
    fn default() -> (r: NodeSharingRegistry)
        ensures
            r.wf(),
    {
        NodeSharingRegistry::new()
    }
}

/// The registry after `k` searches for an alpha node.
pub open spec fn alpha_finds(v: RegistryView, c: ConditionView, k: nat) -> RegistryView
    decreases k,
{
    if k == 0 { v } else { find_alpha_spec(alpha_finds(v, c, (k - 1) as nat), c) }
}

/// The registry after `k` references to an alpha node are dropped.
pub open spec fn alpha_unregisters(v: RegistryView, id: NodeId, k: nat) -> RegistryView
    decreases k,
{
    if k == 0 { v } else { unregister_alpha_spec(alpha_unregisters(v, id, (k - 1) as nat), id) }
}

/// The registry after `k` searches for a beta node.
pub open spec fn beta_finds(v: RegistryView, key: Seq<JoinView>, k: nat) -> RegistryView
    decreases k,
{
    if k == 0 { v } else { find_beta_spec(beta_finds(v, key, (k - 1) as nat), key) }
}

/// The registry after `k` references to a beta node are dropped.
pub open spec fn beta_unregisters(v: RegistryView, id: NodeId, k: nat) -> RegistryView
    decreases k,
{
    if k == 0 { v } else { unregister_beta_spec(beta_unregisters(v, id, (k - 1) as nat), id) }
}

/// Each search that finds an alpha node adds one reference and one share
/// and keeps the signatures.
pub proof fn lemma_alpha_finds(u: RegistryView, c: ConditionView, id: NodeId, k: nat)
    requires
        alpha_found(u, c) == Some(id),
        u.alpha_refs.contains_key(id),
        u.alpha_refs[id] + k <= usize::MAX,
        u.alpha_shares + k <= usize::MAX,
    ensures
        alpha_finds(u, c, k).alpha == u.alpha,
        alpha_finds(u, c, k).alpha_refs.contains_key(id),
        alpha_finds(u, c, k).alpha_refs[id] == u.alpha_refs[id] + k,
        alpha_finds(u, c, k).alpha_shares == u.alpha_shares + k,
    decreases k,
{
    if k > 0 {
        lemma_alpha_finds(u, c, id, (k - 1) as nat);
    }
}

/// Dropping fewer references than an alpha node holds keeps it registered
/// with that many fewer.
pub proof fn lemma_alpha_unregisters(u: RegistryView, id: NodeId, j: nat)
    requires
        u.alpha_refs.contains_key(id),
        j < u.alpha_refs[id],
    ensures
        alpha_unregisters(u, id, j).alpha == u.alpha,
        alpha_unregisters(u, id, j).alpha_refs.contains_key(id),
        alpha_unregisters(u, id, j).alpha_refs[id] == u.alpha_refs[id] - j,
    decreases j,
{
    if j > 0 {
        lemma_alpha_unregisters(u, id, (j - 1) as nat);
    }
}

/// Each search that finds a beta node adds one reference and one share and
/// keeps the signatures.
pub proof fn lemma_beta_finds(u: RegistryView, key: Seq<JoinView>, id: NodeId, k: nat)
    requires
        beta_found(u, key) == Some(id),
        u.beta_refs.contains_key(id),
        u.beta_refs[id] + k <= usize::MAX,
        u.beta_shares + k <= usize::MAX,
    ensures
        beta_finds(u, key, k).beta == u.beta,
        beta_finds(u, key, k).beta_refs.contains_key(id),
        beta_finds(u, key, k).beta_refs[id] == u.beta_refs[id] + k,
        beta_finds(u, key, k).beta_shares == u.beta_shares + k,
    decreases k,
{
    if k > 0 {
        lemma_beta_finds(u, key, id, (k - 1) as nat);
    }
}

/// Dropping fewer references than a beta node holds keeps it registered
/// with that many fewer.
pub proof fn lemma_beta_unregisters(u: RegistryView, id: NodeId, j: nat)
    requires
        u.beta_refs.contains_key(id),
        j < u.beta_refs[id],
    ensures
        beta_unregisters(u, id, j).beta == u.beta,
        beta_unregisters(u, id, j).beta_refs.contains_key(id),
        beta_unregisters(u, id, j).beta_refs[id] == u.beta_refs[id] - j,
    decreases j,
{
    if j > 0 {
        lemma_beta_unregisters(u, id, (j - 1) as nat);
    }
}

/// A simple condition registered for a node is found again and gives that
/// node.
pub proof fn law_register_then_find_alpha(v: RegistryView, id: NodeId, c: ConditionView)
    requires
        c is Simple,
    ensures
        alpha_found(register_alpha_spec(v, id, c), c) == Some(id),
{
}

/// Join conditions registered for a node are found again, whatever order
/// they are given in.
pub proof fn law_register_then_find_beta(v: RegistryView, id: NodeId, a: Seq<JoinView>, b: Seq<JoinView>)
    requires
        a.to_multiset() == b.to_multiset(),
    ensures
        beta_found(register_beta_spec(v, id, canonical_joins(a)), canonical_joins(b)) == Some(id),
{
    law_beta_signature_order_independent(a, b);
}

/// Two lists of the same join conditions, in any order, have the same beta
/// signature.
pub proof fn law_beta_signature_order_independent(a: Seq<JoinView>, b: Seq<JoinView>)
    requires
        a.to_multiset() == b.to_multiset(),
    ensures
        canonical_joins(a) == canonical_joins(b),
{
}

/// Reference counting of alpha nodes: a node registered for a simple
/// condition and then found `k` times holds `k + 1` references. Dropping
/// `k` of them never drops the last one; the next drop does, and the node
/// is then forgotten, so the condition is no longer found.
pub proof fn law_alpha_reference_counting(v: RegistryView, id: NodeId, c: ConditionView, k: nat)
    requires
        c is Simple,
        v.alpha_shares + k <= usize::MAX,
        k + 1 <= usize::MAX,
    ensures
        ({
            let w = alpha_finds(register_alpha_spec(v, id, c), c, k);
            &&& w.alpha_refs.contains_key(id)
            &&& w.alpha_refs[id] == k + 1
            &&& forall|j: nat| j < k ==> !alpha_last_ref(#[trigger] alpha_unregisters(w, id, j), id)
            &&& alpha_last_ref(alpha_unregisters(w, id, k), id)
            &&& alpha_found(alpha_unregisters(w, id, k + 1), c) is None
        }),
{
    let u = register_alpha_spec(v, id, c);
    lemma_alpha_finds(u, c, id, k);
    let w = alpha_finds(u, c, k);
    assert forall|j: nat| j < k implies !alpha_last_ref(#[trigger] alpha_unregisters(w, id, j), id) by {
        lemma_alpha_unregisters(w, id, j);
    }
    lemma_alpha_unregisters(w, id, k);
    let z = alpha_unregisters(w, id, k + 1);
    assert(z == unregister_alpha_spec(alpha_unregisters(w, id, k), id));
    assert(!z.alpha.contains_key(c));
}

/// Reference counting of beta nodes: a node registered for join conditions
/// and then found `k` times holds `k + 1` references. Dropping `k` of them
/// never drops the last one; the next drop does, and the node is then
/// forgotten, so the join conditions are no longer found.
pub proof fn law_beta_reference_counting(v: RegistryView, id: NodeId, key: Seq<JoinView>, k: nat)
    requires
        v.beta_shares + k <= usize::MAX,
        k + 1 <= usize::MAX,
    ensures
        ({
            let w = beta_finds(register_beta_spec(v, id, key), key, k);
            &&& w.beta_refs.contains_key(id)
            &&& w.beta_refs[id] == k + 1
            &&& forall|j: nat| j < k ==> !beta_last_ref(#[trigger] beta_unregisters(w, id, j), id)
            &&& beta_last_ref(beta_unregisters(w, id, k), id)
            &&& beta_found(beta_unregisters(w, id, k + 1), key) is None
        }),
{
    let u = register_beta_spec(v, id, key);
    lemma_beta_finds(u, key, id, k);
    let w = beta_finds(u, key, k);
    assert forall|j: nat| j < k implies !beta_last_ref(#[trigger] beta_unregisters(w, id, j), id) by {
        lemma_beta_unregisters(w, id, j);
    }
    lemma_beta_unregisters(w, id, k);
    let z = beta_unregisters(w, id, k + 1);
    assert(z == unregister_beta_spec(beta_unregisters(w, id, k), id));
    assert(!z.beta.contains_key(key));
}

/// `HashMap::capacity`: how many entries the map holds room for. The
/// allocator and the hashing strategy decide it, so nothing is stated.
#[verifier::external_body]
fn hash_map_capacity(m: &HashMap<NodeId, usize>) -> usize {
    m.capacity()
}


/// Statistics of node sharing.
#[derive(Debug, Clone, Copy, PartialEq, Eq, Structural)]
pub struct NodeSharingStats {
    pub alpha_nodes_total: usize,
    pub beta_nodes_total: usize,
    pub alpha_shares_found: usize,
    pub beta_shares_found: usize,
    pub alpha_nodes_active: usize,
    pub beta_nodes_active: usize,
    pub alpha_sharing_rate: Ratio,
    pub beta_sharing_rate: Ratio,
}

impl NodeSharingStats {
    /// Shares over created nodes, alpha and beta together.
    pub fn overall_sharing_rate(&self) -> (r: Ratio)
        requires
            self.alpha_nodes_total + self.beta_nodes_total <= usize::MAX,
            self.alpha_shares_found + self.beta_shares_found <= usize::MAX,
        ensures
            r.part == self.alpha_shares_found + self.beta_shares_found,
            r.whole == self.alpha_nodes_total + self.beta_nodes_total,
    {
        Ratio {
            part: self.alpha_shares_found + self.beta_shares_found,
            whole: self.alpha_nodes_total + self.beta_nodes_total,
        }
    }

    /// How many nodes would exist had nothing been shared.
    pub fn nodes_without_sharing(&self) -> (n: usize)
        requires
            self.alpha_nodes_total + self.alpha_shares_found + self.beta_nodes_total + self.beta_shares_found
                <= usize::MAX,
        ensures
            n == self.alpha_nodes_total + self.alpha_shares_found + self.beta_nodes_total + self.beta_shares_found,
    {
        self.alpha_nodes_total + self.alpha_shares_found + self.beta_nodes_total + self.beta_shares_found
    }
}

/// Memory that sharing saved.
#[derive(Debug, Clone, Copy, PartialEq, Eq, Structural)]
pub struct MemorySavings {
    pub alpha_nodes_saved: usize,
    pub beta_nodes_saved: usize,
    pub alpha_memory_saved_bytes: usize,
    pub beta_memory_saved_bytes: usize,
    pub total_memory_saved_bytes: usize,
}

/// The text of a byte count: plain bytes under 1 KiB, else KB under 1 MiB,
/// else MB, each with two decimals rounded half to even.
pub open spec fn human_readable_spec(bytes: nat) -> Seq<char> {
    if bytes < 1024 {
        nat_decimal(bytes) + " bytes"@
    } else if bytes < 1048576 {
        hundredths_decimal(rounded_hundredths(bytes, 1024)) + " KB"@
    } else {
        hundredths_decimal(rounded_hundredths(bytes, 1048576)) + " MB"@
    }
}

/// `bytes / unit` in hundredths, rounded half to even.
fn rounded_hundredths_exec(bytes: u64, unit: u64) -> (q: u64)
    requires
        unit == 1024 || unit == 1048576,
    ensures
        q == rounded_hundredths(bytes as nat, unit as nat),
{
    let wide: u128 = (bytes as u128) * 100;
    let q: u128 = wide / (unit as u128);
    let r: u128 = wide % (unit as u128);
    let rounded: u128 = if 2 * r > unit as u128 || (2 * r == unit as u128 && q % 2 == 1) { q + 1 } else { q };
    assert(rounded <= u64::MAX) by (nonlinear_arith)
        requires
            wide == bytes * 100,
            q == wide / (unit as u128),
            unit >= 1024,
            rounded <= q + 1,
            bytes <= u64::MAX,
    ;
    rounded as u64
}

impl MemorySavings {
    /// The saved total as text, in bytes, KB or MB.
    pub fn to_human_readable(&self) -> (s: String)
        ensures
            s@ == human_readable_spec(self.total_memory_saved_bytes as nat),
    {
        proof {
            reveal_strlit(" bytes");
            reveal_strlit(" KB");
            reveal_strlit(" MB");
        }
        let bytes: u64 = self.total_memory_saved_bytes as u64;
        if bytes < 1024 {
            let mut s = u64_to_string(bytes);
            s.append(" bytes");
            s
        } else if bytes < 1048576 {
            let mut s = hundredths_to_string(rounded_hundredths_exec(bytes, 1024));
            s.append(" KB");
            s
        } else {
            let mut s = hundredths_to_string(rounded_hundredths_exec(bytes, 1048576));
            s.append(" MB");
            s
        }
    }

    /// Alpha and beta nodes saved together.
    pub fn total_nodes_saved(&self) -> (n: usize)
        requires
            self.alpha_nodes_saved + self.beta_nodes_saved <= usize::MAX,
        ensures
            n == self.alpha_nodes_saved + self.beta_nodes_saved,
    {
        self.alpha_nodes_saved + self.beta_nodes_saved
    }
}

/// The footprint formula: the registry itself plus each table's reserved
/// entries times the size of an entry.
pub open spec fn footprint_spec(alpha_cap: nat, beta_cap: nat, alpha_ref_cap: nat, beta_ref_cap: nat) -> nat {
    vstd::layout::size_of::<NodeSharingRegistry>()
        + alpha_cap * vstd::layout::size_of::<(AlphaNodeSignature, NodeId)>()
        + beta_cap * vstd::layout::size_of::<(BetaNodeSignature, NodeId)>()
        + alpha_ref_cap * vstd::layout::size_of::<(NodeId, usize)>()
        + beta_ref_cap * vstd::layout::size_of::<(NodeId, usize)>()
}

impl NodeSharingRegistry {
    /// Estimated footprint for the given reserved capacities; saturates at
    /// `usize::MAX`.
    pub fn footprint_for_capacities(alpha_cap: usize, beta_cap: usize, alpha_ref_cap: usize, beta_ref_cap: usize) -> (r: usize)
        ensures
            r == (if footprint_spec(alpha_cap as nat, beta_cap as nat, alpha_ref_cap as nat, beta_ref_cap as nat) <= usize::MAX {
                footprint_spec(alpha_cap as nat, beta_cap as nat, alpha_ref_cap as nat, beta_ref_cap as nat) as usize
            } else {
                usize::MAX
            }),
    {
        let base: usize = core::mem::size_of::<NodeSharingRegistry>();
        let acc = add_product(Some(base), alpha_cap, core::mem::size_of::<(AlphaNodeSignature, NodeId)>());
        let acc = add_product(acc, beta_cap, core::mem::size_of::<(BetaNodeSignature, NodeId)>());
        let acc = add_product(acc, alpha_ref_cap, core::mem::size_of::<(NodeId, usize)>());
        let acc = add_product(acc, beta_ref_cap, core::mem::size_of::<(NodeId, usize)>());
        proof {
            let sa = vstd::layout::size_of::<(AlphaNodeSignature, NodeId)>();
            let sb = vstd::layout::size_of::<(BetaNodeSignature, NodeId)>();
            let sr = vstd::layout::size_of::<(NodeId, usize)>();
            assert(alpha_cap * sa >= 0 && beta_cap * sb >= 0 && alpha_ref_cap * sr >= 0 && beta_ref_cap * sr >= 0) by (nonlinear_arith)
                requires sa >= 0, sb >= 0, sr >= 0;
        }
        match acc {
            Some(total) => total,
            None => usize::MAX,
        }
    }

    /// Estimated memory held by the registry, from the capacities its tables
    /// reserved (which the allocator decides); saturates at `usize::MAX`.
    pub fn memory_usage_bytes(&self) -> (r: usize)
        ensures
            r >= vstd::layout::size_of::<NodeSharingRegistry>() || r == usize::MAX,
    {
        let r = NodeSharingRegistry::footprint_for_capacities(
            self.alpha_node_map.capacity(),
            self.beta_node_map.capacity(),
            hash_map_capacity(&self.alpha_ref_counts),
            hash_map_capacity(&self.beta_ref_counts),
        );
        r
    }

    /// Sharing statistics: counts, nodes still referenced, and rates of
    /// shares over created nodes.
    pub fn get_stats(&self) -> (s: NodeSharingStats)
        ensures
            s.alpha_nodes_total == self.alpha_created(),
            s.beta_nodes_total == self.beta_created(),
            s.alpha_shares_found == self.alpha_shares(),
            s.beta_shares_found == self.beta_shares(),
            s.alpha_nodes_active == self.alpha_refs().len(),
            s.beta_nodes_active == self.beta_refs().len(),
            s.alpha_sharing_rate == (Ratio { part: self.alpha_shares(), whole: self.alpha_created() }),
            s.beta_sharing_rate == (Ratio { part: self.beta_shares(), whole: self.beta_created() }),
    {
        NodeSharingStats {
            alpha_nodes_total: self.alpha_nodes_created,
            beta_nodes_total: self.beta_nodes_created,
            alpha_shares_found: self.alpha_shares_found,
            beta_shares_found: self.beta_shares_found,
            alpha_nodes_active: self.alpha_ref_counts.len(),
            beta_nodes_active: self.beta_ref_counts.len(),
            alpha_sharing_rate: Ratio { part: self.alpha_shares_found, whole: self.alpha_nodes_created },
            beta_sharing_rate: Ratio { part: self.beta_shares_found, whole: self.beta_nodes_created },
        }
    }

    /// Memory saved by the shares found: each share spared one node.
    pub fn calculate_memory_savings(&self) -> (m: MemorySavings)
        requires
            self.alpha_shares() * vstd::layout::size_of::<AlphaNode>()
                + self.beta_shares() * vstd::layout::size_of::<BetaNode>() <= usize::MAX,
        ensures
            m.alpha_nodes_saved == self.alpha_shares(),
            m.beta_nodes_saved == self.beta_shares(),
            m.alpha_memory_saved_bytes == self.alpha_shares() * vstd::layout::size_of::<AlphaNode>(),
            m.beta_memory_saved_bytes == self.beta_shares() * vstd::layout::size_of::<BetaNode>(),
            m.total_memory_saved_bytes == m.alpha_memory_saved_bytes + m.beta_memory_saved_bytes,
    {
        let sa: usize = core::mem::size_of::<AlphaNode>();
        let sb: usize = core::mem::size_of::<BetaNode>();
        proof {
            assert(self.alpha_shares_found * sa >= 0 && self.beta_shares_found * sb >= 0) by (nonlinear_arith)
                requires sa >= 0, sb >= 0;
        }
        let alpha_memory_saved = self.alpha_shares_found * sa;
        let beta_memory_saved = self.beta_shares_found * sb;
        MemorySavings {
            alpha_nodes_saved: self.alpha_shares_found,
            beta_nodes_saved: self.beta_shares_found,
            alpha_memory_saved_bytes: alpha_memory_saved,
            beta_memory_saved_bytes: beta_memory_saved,
            total_memory_saved_bytes: alpha_memory_saved + beta_memory_saved,
        }
    }
}

} // verus!
