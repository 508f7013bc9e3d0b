//! Arena fact store: facts kept at the position of their id, with secondary
//! indexes on commonly queried fields and a map from external ids.

use vstd::prelude::*;
pub mod arena_store;

use std::sync::{Arc, RwLock};
use crate::assoc::StrMap;
use crate::cache::CacheStats;
use crate::text::str_eq;
use crate::types::{Fact, FactData, FactId, FactValue, FactView, Ratio, ValueView, index_key, lookup, distinct_names, opt_str_view, lemma_lookup_push_any, lemma_lookup_absent};

verus! {

/// Ids above this value are treated as foreign (for example hashed external
/// identifiers) and replaced by a sequential id on insertion.
pub const MAX_USER_FACT_ID: u64 = 1_000_000;

/// The fields that are indexed: `entity_id`, `id`, `user_id`, `customer_id`,
/// `status` and `category`.
pub open spec fn is_indexed_field(n: Seq<char>) -> bool {
    ||| n == seq!['e', 'n', 't', 'i', 't', 'y', '_', 'i', 'd']
    ||| n == seq!['i', 'd']
    ||| n == seq!['u', 's', 'e', 'r', '_', 'i', 'd']
    ||| n == seq!['c', 'u', 's', 't', 'o', 'm', 'e', 'r', '_', 'i', 'd']
    ||| n == seq!['s', 't', 'a', 't', 'u', 's']
    ||| n == seq!['c', 'a', 't', 'e', 'g', 'o', 'r', 'y']
}

/// Whether `name` is one of the indexed fields.
pub fn is_indexed_field_name(name: &str) -> (b: bool)
    ensures
        b == is_indexed_field(name@),
{
    proof {
        reveal_strlit("entity_id");
        reveal_strlit("id");
        reveal_strlit("user_id");
        reveal_strlit("customer_id");
        reveal_strlit("status");
        reveal_strlit("category");
        assert("entity_id"@ =~= seq!['e', 'n', 't', 'i', 't', 'y', '_', 'i', 'd']);
        assert("id"@ =~= seq!['i', 'd']);
        assert("user_id"@ =~= seq!['u', 's', 'e', 'r', '_', 'i', 'd']);
        assert("customer_id"@ =~= seq!['c', 'u', 's', 't', 'o', 'm', 'e', 'r', '_', 'i', 'd']);
        assert("status"@ =~= seq!['s', 't', 'a', 't', 'u', 's']);
        assert("category"@ =~= seq!['c', 'a', 't', 'e', 'g', 'o', 'r', 'y']);
    }
    str_eq(name, "entity_id") || str_eq(name, "id") || str_eq(name, "user_id") || str_eq(name, "customer_id")
        || str_eq(name, "status") || str_eq(name, "category")
}

/// Field index model: field name -> index key -> fact ids, in insertion order.
pub type IndexView = Map<Seq<char>, Map<Seq<char>, Seq<FactId>>>;

/// Mathematical model of an [`ArenaFactStore`].
pub struct StoreView {
    /// Slot `i` holds the fact with id `i`, if any.
    pub facts: Seq<Option<FactView>>,
    pub index: IndexView,
    pub external: Map<Seq<char>, FactId>,
    pub next_id: u64,
}

/// True when the requested id is replaced by a sequential one.
pub open spec fn auto_assigned(requested: u64) -> bool {
    requested == 0 || requested > MAX_USER_FACT_ID
}

/// The id a fact receives on insertion.
pub open spec fn assigned_id(next: u64, requested: u64) -> u64 {
    if auto_assigned(requested) { next } else { requested }
}

/// The sequential-id counter after an insertion.
pub open spec fn next_after(next: u64, requested: u64) -> u64 {
    if auto_assigned(requested) {
        (next + 1) as u64
    } else if requested >= next {
        (requested + 1) as u64
    } else {
        next
    }
}

/// The slots, grown with empty slots to at least `len`.
pub open spec fn padded(facts: Seq<Option<FactView>>, len: nat) -> Seq<Option<FactView>> {
    if facts.len() >= len {
        facts
    } else {
        facts + Seq::new((len - facts.len()) as nat, |i: int| None::<FactView>)
    }
}

/// The fact with its id replaced.
pub open spec fn with_id(f: FactView, id: FactId) -> FactView {
    FactView { id, external_id: f.external_id, timestamp: f.timestamp, fields: f.fields }
}

/// The ids indexed under field `n` and key `k`.
pub open spec fn index_ids(index: IndexView, n: Seq<char>, k: Seq<char>) -> Seq<FactId> {
    if index.contains_key(n) && index[n].contains_key(k) { index[n][k] } else { Seq::empty() }
}

/// The index with `id` appended under field `n` and key `k`.
pub open spec fn index_push(index: IndexView, n: Seq<char>, k: Seq<char>, id: FactId) -> IndexView {
    let fm = if index.contains_key(n) { index[n] } else { Map::empty() };
    index.insert(n, fm.insert(k, index_ids(index, n, k).push(id)))
}

/// The index after a fact with these fields and id is indexed: each indexed
/// field gets the id appended under the key of its value.
pub open spec fn index_add(index: IndexView, fields: Seq<(Seq<char>, ValueView)>, id: FactId) -> IndexView
    decreases fields.len(),
{
    if fields.len() == 0 {
        index
    } else {
        let rest = index_add(index, fields.drop_last(), id);
        let (n, v) = fields.last();
        if is_indexed_field(n) { index_push(rest, n, index_key(v), id) } else { rest }
    }
}

/// The store after inserting a fact.
pub open spec fn insert_spec(s: StoreView, f: FactView) -> StoreView {
    let id = assigned_id(s.next_id, f.id);
    StoreView {
        facts: padded(s.facts, id as nat + 1).update(id as int, Some(with_id(f, id))),
        index: index_add(s.index, f.fields, id),
        external: match f.external_id {
            Some(e) => s.external.insert(e, id),
            None => s.external,
        },
        next_id: next_after(s.next_id, f.id),
    }
}

/// The fact in slot `id`, if any.
pub open spec fn slot(facts: Seq<Option<FactView>>, id: FactId) -> Option<FactView> {
    if id < facts.len() { facts[id as int] } else { None }
}

/// The facts stored, in slot order.
pub open spec fn present(facts: Seq<Option<FactView>>) -> Seq<FactView>
    decreases facts.len(),
{
    if facts.len() == 0 {
        Seq::empty()
    } else {
        let rest = present(facts.drop_last());
        match facts.last() {
            Some(f) => rest.push(f),
            None => rest,
        }
    }
}

/// Whether `id` is listed under the key of each indexed field's value of
/// `f`.
pub open spec fn indexed_under(index: IndexView, f: FactView, id: FactId) -> bool {
    forall|i: int|
        0 <= i < f.fields.len() && is_indexed_field(#[trigger] f.fields[i].0) ==> index_ids(
            index,
            f.fields[i].0,
            index_key(f.fields[i].1),
        ).contains(id)
}

/// Whether the index lists every stored fact under the key of each of its
/// indexed fields' values.
pub open spec fn index_complete(s: StoreView) -> bool {
    forall|id: FactId| #![trigger slot(s.facts, id)] slot(s.facts, id) is Some ==> indexed_under(s.index, slot(s.facts, id).unwrap(), id)
}

/// The invariant of every store: each stored fact sits in the slot of its
/// id, the slots fit in memory, and the index is complete.
pub open spec fn store_invariant(s: StoreView) -> bool {
    &&& s.facts.len() <= usize::MAX
    &&& forall|id: FactId| #![trigger slot(s.facts, id)] slot(s.facts, id) is Some ==> slot(s.facts, id).unwrap().id == id
    &&& index_complete(s)
}

/// Whether `f` is the fact stored under its id.
pub open spec fn stored(s: StoreView, f: FactView) -> bool {
    slot(s.facts, f.id) == Some(f)
}

/// There are no more stored facts than slots.
pub proof fn lemma_present_len(facts: Seq<Option<FactView>>)
    ensures
        present(facts).len() <= facts.len(),
    decreases facts.len(),
{
    if facts.len() > 0 {
        lemma_present_len(facts.drop_last());
    }
}

/// Filling or emptying a slot changes the number of stored facts by one.
pub proof fn lemma_present_update(facts: Seq<Option<FactView>>, i: int, o: Option<FactView>)
    requires
        0 <= i < facts.len(),
    ensures
        present(facts.update(i, o)).len() + (if facts[i] is Some { 1int } else { 0int }) == present(facts).len() + (if o is Some { 1int } else { 0int }),
    decreases facts.len(),
{
    let u = facts.update(i, o);
    if i == facts.len() - 1 {
        assert(u.drop_last() =~= facts.drop_last());
    } else {
        assert(u.drop_last() =~= facts.drop_last().update(i, o));
        lemma_present_update(facts.drop_last(), i, o);
    }
}

/// Empty slots added at the end store nothing.
pub proof fn lemma_present_padded(facts: Seq<Option<FactView>>, len: nat)
    ensures
        present(padded(facts, len)) == present(facts),
    decreases len,
{
    if facts.len() < len {
        let p = padded(facts, len);
        assert(p.drop_last() =~= padded(facts, (len - 1) as nat));
        assert(p.last() is None);
        lemma_present_padded(facts, (len - 1) as nat);
    }
}

/// The list without `x` holds exactly the other elements.
pub proof fn lemma_remove_id_contains(s: Seq<FactId>, x: FactId, y: FactId)
    ensures
        remove_id(s, x).contains(y) <==> (s.contains(y) && y != x),
    decreases s.len(),
{
    if s.len() > 0 {
        lemma_remove_id_contains(s.drop_last(), x, y);
        let r = remove_id(s.drop_last(), x);
        if s.contains(y) && y != x {
            let j = choose|j: int| 0 <= j < s.len() && s[j] == y;
            if j < s.len() - 1 {
                assert(s.drop_last()[j] == y);
            }
            if s.last() != x {
                vstd::seq_lib::lemma_seq_contains_after_push(r, s.last(), y);
            }
        }
        if remove_id(s, x).contains(y) {
            if s.last() != x {
                vstd::seq_lib::lemma_seq_contains_after_push(r, s.last(), y);
            }
            if r.contains(y) {
                let j = choose|j: int| 0 <= j < s.drop_last().len() && s.drop_last()[j] == y;
                assert(s[j] == y);
            } else {
                assert(s[s.len() - 1] == y);
            }
        }
    }
}

/// Adding index entries keeps every entry listing an id.
pub proof fn lemma_index_add_keeps(index: IndexView, fields: Seq<(Seq<char>, ValueView)>, id: FactId, n: Seq<char>, k: Seq<char>, x: FactId)
    requires
        index_ids(index, n, k).contains(x),
    ensures
        index_ids(index_add(index, fields, id), n, k).contains(x),
    decreases fields.len(),
{
    if fields.len() > 0 {
        lemma_index_add_keeps(index, fields.drop_last(), id, n, k, x);
        let rest = index_add(index, fields.drop_last(), id);
        let (n2, v2) = fields.last();
        if is_indexed_field(n2) {
            lemma_index_push_ids(rest, n2, index_key(v2), id, n, k);
            vstd::seq_lib::lemma_seq_contains_after_push(index_ids(rest, n, k), id, x);
        }
    }
}

/// Removing `id` keeps every entry listing another id.
pub proof fn lemma_index_remove_fields_keeps(index: IndexView, fields: Seq<(Seq<char>, ValueView)>, id: FactId, n: Seq<char>, k: Seq<char>, x: FactId)
    requires
        index_ids(index, n, k).contains(x),
        x != id,
    ensures
        index_ids(index_remove_fields(index, fields, id), n, k).contains(x),
    decreases fields.len(),
{
    if fields.len() > 0 {
        lemma_index_remove_fields_keeps(index, fields.drop_last(), id, n, k, x);
        let rest = index_remove_fields(index, fields.drop_last(), id);
        let (n2, v2) = fields.last();
        if is_indexed_field(n2) {
            let k2 = index_key(v2);
            if n == n2 && k == k2 {
                lemma_remove_id_contains(rest[n][k], id, x);
            }
        }
    }
}

/// Adding index entries keeps a fact indexed.
pub proof fn lemma_indexed_under_add(index: IndexView, fields: Seq<(Seq<char>, ValueView)>, id: FactId, f: FactView, x: FactId)
    requires
        indexed_under(index, f, x),
    ensures
        indexed_under(index_add(index, fields, id), f, x),
{
    assert forall|i: int| 0 <= i < f.fields.len() && is_indexed_field(#[trigger] f.fields[i].0) implies index_ids(
        index_add(index, fields, id),
        f.fields[i].0,
        index_key(f.fields[i].1),
    ).contains(x) by {
        lemma_index_add_keeps(index, fields, id, f.fields[i].0, index_key(f.fields[i].1), x);
    }
}

/// Removing the entries of another id keeps a fact indexed.
pub proof fn lemma_indexed_under_remove(index: IndexView, fields: Seq<(Seq<char>, ValueView)>, id: FactId, f: FactView, x: FactId)
    requires
        indexed_under(index, f, x),
        x != id,
    ensures
        indexed_under(index_remove_fields(index, fields, id), f, x),
{
    assert forall|i: int| 0 <= i < f.fields.len() && is_indexed_field(#[trigger] f.fields[i].0) implies index_ids(
        index_remove_fields(index, fields, id),
        f.fields[i].0,
        index_key(f.fields[i].1),
    ).contains(x) by {
        lemma_index_remove_fields_keeps(index, fields, id, f.fields[i].0, index_key(f.fields[i].1), x);
    }
}

/// Indexing a fact's fields under `id` indexes that fact.
pub proof fn lemma_indexed_under_self(index: IndexView, f: FactView, id: FactId)
    ensures
        indexed_under(index_add(index, f.fields, id), f, id),
{
    assert forall|i: int| 0 <= i < f.fields.len() && is_indexed_field(#[trigger] f.fields[i].0) implies index_ids(
        index_add(index, f.fields, id),
        f.fields[i].0,
        index_key(f.fields[i].1),
    ).contains(id) by {
        lemma_index_add_holds(index, f.fields, id, i);
    }
}

/// The model of a fact vector.
pub open spec fn fact_views(v: Seq<Fact>) -> Seq<FactView> {
    v.map_values(|f: Fact| f@)
}

/// The model of a slot vector.
pub open spec fn slot_views(v: Seq<Option<Fact>>) -> Seq<Option<FactView>> {
    v.map_values(|o: Option<Fact>| match o { Some(f) => Some(f@), None => None })
}

/// The model of a field-index value map.
pub open spec fn inner_model(fm: StrMap<Vec<FactId>>) -> Map<Seq<char>, Seq<FactId>> {
    Map::new(|k: Seq<char>| fm.view().contains_key(k), |k: Seq<char>| fm.view()[k]@)
}

/// The model of the field indexes.
pub open spec fn index_model(m: Map<Seq<char>, StrMap<Vec<FactId>>>) -> IndexView {
    Map::new(|n: Seq<char>| m.contains_key(n), |n: Seq<char>| inner_model(m[n]))
}

/// Arena-based fact store. Facts are held at the position of their id;
/// indexed fields are mapped to the ids of the facts that carry each value;
/// external ids are mapped to fact ids.
#[derive(Debug)]
pub struct ArenaFactStore {
    facts: Vec<Option<Fact>>,
    field_indexes: StrMap<StrMap<Vec<FactId>>>,
    external_id_map: StrMap<FactId>,
    next_id: u64,
    /// The number of facts stored.
    fact_count: usize,
}

impl View for ArenaFactStore {
    type V = StoreView;

    closed spec fn view(&self) -> StoreView {
        StoreView {
            facts: slot_views(self.facts@),
            index: index_model(self.field_indexes.view()),
            external: self.external_id_map.view(),
            next_id: self.next_id,
        }
    }
}

impl ArenaFactStore {
    /// Consistency of the parts: the maps are well formed, each stored fact
    /// sits in the slot of its id, and the fact counter counts the stored
    /// facts.
    closed spec fn wf_core(&self) -> bool {
        &&& index_wf(self.field_indexes)
        &&& self.external_id_map.wf()
        &&& forall|i: int| 0 <= i < self.facts@.len() && #[trigger] self.facts@[i] is Some ==> self.facts@[i].unwrap().id == i
        &&& self.fact_count == present(slot_views(self.facts@)).len()
    }

    /// Internal consistency: the parts are consistent, and the index lists
    /// every stored fact under each of its indexed values (`store_invariant`).
    pub closed spec fn wf(&self) -> bool {
        &&& self.wf_core()
        &&& index_complete(self@)
    }

    /// What well-formedness promises of the model: each stored fact sits in
    /// the slot of its id, and the index lists every stored fact under the
    /// key of each of its indexed fields' values.
    pub proof fn lemma_store_invariant(&self)
        requires
            self.wf(),
        ensures
            store_invariant(self@),
    {
        let n = self.facts.len();
        assert(self@.facts.len() == n);
        assert forall|id: FactId| #[trigger] slot(self@.facts, id) is Some implies slot(self@.facts, id).unwrap().id == id by {
            assert(self.facts@[id as int] is Some);
        }
    }

    /// An empty store.
    pub fn new() -> (s: ArenaFactStore)
        ensures
            s.wf(),
            s@.facts == Seq::<Option<FactView>>::empty(),
            s@.index == IndexView::empty(),
            s@.external == Map::<Seq<char>, FactId>::empty(),
            s@.next_id == 0,
    {
        let s = ArenaFactStore {
            facts: Vec::new(),
            field_indexes: StrMap::new(),
            external_id_map: StrMap::new(),
            next_id: 0,
            fact_count: 0,
        };
        assert(s@.facts =~= Seq::<Option<FactView>>::empty());
        assert(s@.index =~= IndexView::empty());
        s
    }

    /// An empty store; `capacity` is a hint for the expected number of facts.
    pub fn with_capacity(capacity: usize) -> (s: ArenaFactStore)
        ensures
            s.wf(),
            s@.facts == Seq::<Option<FactView>>::empty(),
            s@.index == IndexView::empty(),
            s@.external == Map::<Seq<char>, FactId>::empty(),
            s@.next_id == 0,
    {
        let mut s = Self::new();
        s.facts = Vec::with_capacity(capacity);
        assert(s@.facts =~= Seq::<Option<FactView>>::empty());
        s
    }

    /// An empty store sized for large datasets.
    pub fn with_large_capacity(capacity: usize) -> (s: ArenaFactStore)
        ensures
            s.wf(),
            s@.facts == Seq::<Option<FactView>>::empty(),
            s@.index == IndexView::empty(),
            s@.external == Map::<Seq<char>, FactId>::empty(),
            s@.next_id == 0,
    {
        Self::with_capacity(capacity)
    }

    /// Appends `id` to the ids indexed under field `n` and key `k`.
    fn push_index_entry(&mut self, n: &String, k: String, id: FactId)
        requires
            old(self).wf_core(),
        ensures
            final(self).wf_core(),
            final(self)@ == (StoreView { index: index_push(old(self)@.index, n@, k@, id), ..old(self)@ }),
    {
        index_map_push(&mut self.field_indexes, n, k, id);
    }
}

/// Well-formedness of a field index: the field map and each value map are
/// well formed.
pub open spec fn index_wf(m: StrMap<StrMap<Vec<FactId>>>) -> bool {
    &&& m.wf()
    &&& forall|n: Seq<char>| #[trigger] m.view().contains_key(n) ==> m.view()[n].wf()
}

/// Appends `id` to the ids indexed under field `n` and key `k`.
pub fn index_map_push(m: &mut StrMap<StrMap<Vec<FactId>>>, n: &String, k: String, id: FactId)
    requires
        index_wf(*old(m)),
    ensures
        index_wf(*final(m)),
        index_model(final(m).view()) == index_push(index_model(old(m).view()), n@, k@, id),
{
    let ghost old_index = index_model(m.view());
    let ghost old_outer = m.view();
    let ghost nv = n@;
    let ghost kv = k@;
    proof {
        m.lemma_entries();
    }
    let mut fm: StrMap<Vec<FactId>> = match m.position(n.as_str()) {
        Some(p) => {
            assert(m.view().contains_key(m.key_seq()[p as int]));
            m.remove_at(p)
        },
        None => StrMap::new(),
    };
    let ghost fm_init = fm.view();
    proof {
        fm.lemma_entries();
        let spec_fm = if old_index.contains_key(nv) { old_index[nv] } else { Map::empty() };
        assert(inner_model(fm) =~= spec_fm);
    }
    let ids: Vec<FactId> = match fm.position(k.as_str()) {
        Some(q) => {
            assert(fm.view().contains_key(fm.key_seq()[q as int]));
            let mut v = fm.remove_at(q);
            v.push(id);
            v
        },
        None => {
            let mut v: Vec<FactId> = Vec::new();
            v.push(id);
            v
        },
    };
    let ghost ids_v = ids@;
    fm.insert(k, ids);
    proof {
        assert(index_ids(old_index, nv, kv).push(id) =~= ids_v);
        let spec_fm = if old_index.contains_key(nv) { old_index[nv] } else { Map::empty() };
        assert(fm.view() =~= fm_init.insert(kv, fm.view()[kv]));
        assert(inner_model(fm) =~= spec_fm.insert(kv, ids_v));
    }
    let ghost fm_final = fm;
    m.insert(n.clone(), fm);
    proof {
        assert(m.view() =~= old_outer.insert(nv, fm_final));
        assert(index_model(m.view()) =~= index_push(old_index, nv, kv, id));
    }
}

/// The model of an optional fact.
pub open spec fn opt_fact_view(o: Option<Fact>) -> Option<FactView> {
    match o {
        Some(f) => Some(f@),
        None => None,
    }
}

impl ArenaFactStore {
    /// Indexes the fields of a fact under `id`.
    fn update_indexes(&mut self, data: &FactData, id: FactId)
        requires
            old(self).wf_core(),
        ensures
            final(self).wf_core(),
            final(self)@ == (StoreView { index: index_add(old(self)@.index, data@, id), ..old(self)@ }),
    {
        let ghost old_view = self@;
        let n = data.len();
        let mut i: usize = 0;
        while i < n
            invariant
                self.wf_core(),
                n == data@.len(),
                i <= n,
                self@ == (StoreView { index: index_add(old_view.index, data@.take(i as int), id), ..old_view }),
            decreases n - i,
        {
            let name = data.name_at(i);
            proof {
                assert(data@.take(i + 1).drop_last() =~= data@.take(i as int));
                assert(data@.take(i + 1).last() == data@[i as int]);
            }
            if is_indexed_field_name(name.as_str()) {
                let key = data.value_at(i).as_string();
                self.push_index_entry(name, key, id);
            }
            i = i + 1;
        }
        proof {
            assert(data@.take(n as int) =~= data@);
        }
    }

    /// Grows the slot vector with empty slots so that slot `id` exists.
    fn ensure_slot(&mut self, id: usize)
        requires
            old(self).wf_core(),
            id < usize::MAX,
        ensures
            final(self).wf_core(),
            final(self)@ == (StoreView { facts: padded(old(self)@.facts, id as nat + 1), ..old(self)@ }),
            final(self)@.facts.len() > id,
    {
        let ghost old_view = self@;
        let ghost old_len = self.facts@.len();
        proof {
            assert(padded(old_view.facts, old_len) =~= old_view.facts);
        }
        while self.facts.len() <= id
            invariant
                self.wf_core(),
                id < usize::MAX,
                old_len <= self.facts@.len(),
                self.facts@.len() <= old_len || self.facts@.len() <= id + 1,
                self@ == (StoreView { facts: padded(old_view.facts, self.facts@.len()), ..old_view }),
                old_view.facts.len() == old_len,
            decreases id + 1 - self.facts@.len(),
        {
            let ghost l = self.facts@.len();
            self.facts.push(None);
            proof {
                assert(padded(old_view.facts, l + 1) =~= padded(old_view.facts, l).push(None));
                assert(slot_views(self.facts@) =~= padded(old_view.facts, l + 1));
                lemma_present_padded(old_view.facts, l);
                lemma_present_padded(old_view.facts, l + 1);
            }
        }
        proof {
            if old_len > id + 1 {
                assert(padded(old_view.facts, id as nat + 1) == old_view.facts);
            }
        }
    }

    /// Inserts a fact and returns the id it is stored under. A requested id
    /// of 0 or above [`MAX_USER_FACT_ID`] is replaced by the next sequential
    /// id; any other requested id is kept, and the sequential counter moves
    /// past it. The external id, if any, is mapped to the stored id and the
    /// indexed fields are indexed.
    pub fn insert(&mut self, fact: Fact) -> (id: FactId)
        requires
            old(self).wf(),
            assigned_id(old(self)@.next_id, fact.id) < usize::MAX,
        ensures
            final(self).wf(),
            id == assigned_id(old(self)@.next_id, fact.id),
            final(self)@ == insert_spec(old(self)@, fact@),
    {
        let ghost old_view = self@;
        let ghost fv = fact@;
        let mut fact = fact;
        let id: FactId = if fact.id == 0 || fact.id > MAX_USER_FACT_ID {
            let assigned = self.next_id;
            self.next_id = self.next_id + 1;
            assigned
        } else {
            if fact.id >= self.next_id {
                self.next_id = fact.id + 1;
            }
            fact.id
        };
        fact.id = id;
        match &fact.external_id {
            Some(e) => {
                self.external_id_map.insert(e.clone(), id);
            },
            None => {},
        }
        self.update_indexes(&fact.data, id);
        self.ensure_slot(id as usize);
        let ghost stored = fact@;
        let ghost before_set = slot_views(self.facts@);
        let was_empty = self.facts[id as usize].is_none();
        assert(self.fact_count == present(before_set).len());
        assert(was_empty == (before_set[id as int] is None));
        self.facts.set(id as usize, Some(fact));
        proof {
            assert(stored == with_id(fv, id));
            assert(slot_views(self.facts@) =~= before_set.update(id as int, Some(with_id(fv, id))));
            lemma_present_update(before_set, id as int, Some(with_id(fv, id)));
            lemma_present_len(slot_views(self.facts@));
        }
        let slots = self.facts.len();
        assert(slot_views(self.facts@).len() == slots);
        if was_empty {
            self.fact_count = self.fact_count + 1;
        }
        proof {
            assert(slot_views(self.facts@) =~= padded(old_view.facts, id as nat + 1).update(id as int, Some(with_id(fv, id))));
            assert(self@ == insert_spec(old_view, fv));
            law_insert_then_get(old_view, fv);
            let t = insert_spec(old_view, fv);
            assert forall|j: FactId| #![trigger slot(t.facts, j)] slot(t.facts, j) is Some implies indexed_under(t.index, slot(t.facts, j).unwrap(), j) by {
                if j == id {
                    lemma_indexed_under_self(old_view.index, with_id(fv, id), id);
                } else {
                    assert(slot(old_view.facts, j) is Some);
                    lemma_indexed_under_add(old_view.index, fv.fields, id, slot(old_view.facts, j).unwrap(), j);
                }
            }
        }
        id
    }

    /// The fact stored under `id`, if any.
    pub fn get_fact(&self, id: FactId) -> (r: Option<Fact>)
        ensures
            opt_fact_view(r) == slot(self@.facts, id),
    {
        if id < self.facts.len() as u64 {
            match &self.facts[id as usize] {
                Some(f) => Some(f.duplicate()),
                None => None,
            }
        } else {
            None
        }
    }

    /// The fact that the external id `external_id` is mapped to, if any.
    pub fn get_by_external_id(&self, external_id: &str) -> (r: Option<Fact>)
        requires
            self.wf(),
        ensures
            opt_fact_view(r) == (if self@.external.contains_key(external_id@) {
                slot(self@.facts, self@.external[external_id@])
            } else {
                None
            }),
    {
        match self.external_id_map.get(external_id) {
            Some(id) => self.get_fact(*id),
            None => None,
        }
    }

    /// The value of field `field` of the fact with external id `fact_id`.
    pub fn get_field_by_id(&self, fact_id: &str, field: &str) -> (r: Option<FactValue>)
        requires
            self.wf(),
        ensures
            match r {
                Some(v) => self@.external.contains_key(fact_id@)
                    && slot(self@.facts, self@.external[fact_id@]) is Some
                    && lookup(slot(self@.facts, self@.external[fact_id@]).unwrap().fields, field@) == Some(v@),
                None => !self@.external.contains_key(fact_id@)
                    || slot(self@.facts, self@.external[fact_id@]) is None
                    || lookup(slot(self@.facts, self@.external[fact_id@]).unwrap().fields, field@) is None,
            },
    {
        match self.get_by_external_id(fact_id) {
            Some(f) => match f.data.get(field) {
                Some(v) => Some(v.duplicate()),
                None => None,
            },
            None => None,
        }
    }

    /// The number of facts stored.
    pub fn len(&self) -> (n: usize)
        requires
            self.wf(),
        ensures
            n == present(self@.facts).len(),
    {
        self.fact_count
    }

    /// True when no fact is stored.
    pub fn is_empty(&self) -> (b: bool)
        requires
            self.wf(),
        ensures
            b == (present(self@.facts).len() == 0),
    {
        self.fact_count == 0
    }

    /// Removes every fact, index entry and external id, and resets the
    /// counters.
    pub fn clear(&mut self)
        ensures
            final(self).wf(),
            final(self)@.facts == Seq::<Option<FactView>>::empty(),
            final(self)@.index == IndexView::empty(),
            final(self)@.external == Map::<Seq<char>, FactId>::empty(),
            final(self)@.next_id == 0,
    {
        self.facts.clear();
        self.field_indexes.clear();
        self.external_id_map.clear();
        self.next_id = 0;
        self.fact_count = 0;
        assert(self@.facts =~= Seq::<Option<FactView>>::empty());
        assert(self@.index =~= IndexView::empty());
    }

    /// Copies of all stored facts, in increasing order of id: each is the
    /// fact stored under its id, and every stored fact is listed.
    pub fn iter(&self) -> (r: Vec<Fact>)
        requires
            self.wf(),
        ensures
            fact_views(r@) == present(self@.facts),
            forall|k: int| 0 <= k < r@.len() ==> stored(self@, #[trigger] fact_views(r@)[k]),
            forall|a: int, b: int| 0 <= a < b < r@.len() ==> #[trigger] fact_views(r@)[a].id < #[trigger] fact_views(r@)[b].id,
            forall|f: FactView| #[trigger] stored(self@, f) ==> fact_views(r@).contains(f),
    {
        proof {
            self.lemma_store_invariant();
            let t = |f: FactView| true;
            lemma_present_is_filter(self@.facts, t);
            assert(slots_match(self@.facts)) by {
                assert forall|i: int| 0 <= i < self@.facts.len() && #[trigger] self@.facts[i] is Some implies self@.facts[i].unwrap().id == i by {
                    assert(slot(self@.facts, i as FactId) == self@.facts[i]);
                }
            }
            lemma_filter_present_props(self@.facts, t);
            assert forall|f: FactView| #[trigger] stored(self@, f) implies present(self@.facts).contains(f) by {
                lemma_filter_present_has(self@.facts, t, f.id as int);
            }
        }
        let n = self.facts.len();
        let mut r: Vec<Fact> = Vec::new();
        let mut i: usize = 0;
        while i < n
            invariant
                n == self.facts@.len(),
                i <= n,
                fact_views(r@) == present(slot_views(self.facts@).take(i as int)),
            decreases n - i,
        {
            proof {
                assert(slot_views(self.facts@).take(i + 1).drop_last() =~= slot_views(self.facts@).take(i as int));
            }
            match &self.facts[i] {
                Some(f) => {
                    let c = f.duplicate();
                    r.push(c);
                    proof {
                        assert(fact_views(r@) =~= fact_views(r@.drop_last()).push(c@));
                    }
                },
                None => {},
            }
            i = i + 1;
        }
        proof {
            assert(slot_views(self.facts@).take(n as int) =~= slot_views(self.facts@));
        }
        r
    }
}

/// The store after inserting each fact in turn.
pub open spec fn insert_all_spec(s: StoreView, fs: Seq<FactView>) -> StoreView
    decreases fs.len(),
{
    if fs.len() == 0 {
        s
    } else {
        insert_spec(insert_all_spec(s, fs.drop_last()), fs.last())
    }
}

/// Whether every fact, inserted in turn, gets an id below `usize::MAX`.
pub open spec fn insert_all_fits(s: StoreView, fs: Seq<FactView>) -> bool {
    forall|i: int| 0 <= i < fs.len() ==> assigned_id(insert_all_spec(s, fs.take(i)).next_id, #[trigger] fs[i].id) < usize::MAX
}

/// The ids given to each fact when inserted in turn.
pub open spec fn insert_all_ids(s: StoreView, fs: Seq<FactView>) -> Seq<FactId>
    decreases fs.len(),
{
    if fs.len() == 0 {
        Seq::empty()
    } else {
        let before = insert_all_spec(s, fs.drop_last());
        insert_all_ids(s, fs.drop_last()).push(assigned_id(before.next_id, fs.last().id))
    }
}

/// The stored facts, in slot order, that satisfy `p`.
pub open spec fn filter_present(facts: Seq<Option<FactView>>, p: spec_fn(FactView) -> bool) -> Seq<FactView>
    decreases facts.len(),
{
    if facts.len() == 0 {
        Seq::empty()
    } else {
        let rest = filter_present(facts.drop_last(), p);
        match facts.last() {
            Some(f) => if p(f) { rest.push(f) } else { rest },
            None => rest,
        }
    }
}

impl ArenaFactStore {
    /// Inserts each fact of the slice in turn, returning their ids.
    pub fn bulk_insert_slice(&mut self, facts: &[Fact]) -> (ids: Vec<FactId>)
        requires
            old(self).wf(),
            insert_all_fits(old(self)@, fact_views(facts@)),
        ensures
            final(self).wf(),
            final(self)@ == insert_all_spec(old(self)@, fact_views(facts@)),
            ids@ == insert_all_ids(old(self)@, fact_views(facts@)),
    {
        let ghost old_view = self@;
        let n = facts.len();
        let mut ids: Vec<FactId> = Vec::new();
        let mut i: usize = 0;
        while i < n
            invariant
                self.wf(),
                n == facts@.len(),
                i <= n,
                insert_all_fits(old_view, fact_views(facts@)),
                self@ == insert_all_spec(old_view, fact_views(facts@).take(i as int)),
                ids@ == insert_all_ids(old_view, fact_views(facts@).take(i as int)),
            decreases n - i,
        {
            let f = facts[i].duplicate();
            proof {
                assert(fact_views(facts@).take(i + 1).drop_last() =~= fact_views(facts@).take(i as int));
                assert(fact_views(facts@).take(i + 1).last() == f@);
                assert(fact_views(facts@)[i as int] == f@);
                assert(assigned_id(insert_all_spec(old_view, fact_views(facts@).take(i as int)).next_id, fact_views(facts@)[i as int].id) < usize::MAX);
                assert(f@.id == f.id);
            }
            let id = self.insert(f);
            ids.push(id);
            i = i + 1;
        }
        proof {
            assert(fact_views(facts@).take(n as int) =~= fact_views(facts@));
        }
        ids
    }

    /// Inserts each fact in turn, returning their ids.
    pub fn bulk_insert(&mut self, facts: Vec<Fact>) -> (ids: Vec<FactId>)
        requires
            old(self).wf(),
            insert_all_fits(old(self)@, fact_views(facts@)),
        ensures
            final(self).wf(),
            final(self)@ == insert_all_spec(old(self)@, fact_views(facts@)),
            ids@ == insert_all_ids(old(self)@, fact_views(facts@)),
    {
        self.bulk_insert_slice(facts.as_slice())
    }

    /// Inserts each fact in turn.
    pub fn extend_from_vec(&mut self, facts: Vec<Fact>)
        requires
            old(self).wf(),
            insert_all_fits(old(self)@, fact_views(facts@)),
        ensures
            final(self).wf(),
            final(self)@ == insert_all_spec(old(self)@, fact_views(facts@)),
    {
        let _ = self.bulk_insert(facts);
    }

    /// Facts with field `field` equal to `value`, each once: for an indexed
    /// field whose index has an entry for the value's key, the facts listed
    /// there (in index order) whose field equals the value; otherwise, by a
    /// scan in id order.
    pub fn find_by_field(&self, field: &str, value: &FactValue) -> (r: Vec<Fact>)
        requires
            self.wf(),
        ensures
            forall|k: int| 0 <= k < r@.len() ==> {
                let f = #[trigger] fact_views(r@)[k];
                stored(self@, f) && lookup(f.fields, field@) == Some(value@)
            },
            forall|f: FactView| #[trigger] stored(self@, f) && lookup(f.fields, field@) == Some(value@)
                ==> fact_views(r@).contains(f),
            forall|a: int, b: int| 0 <= a < b < r@.len() ==> #[trigger] fact_views(r@)[a].id != #[trigger] fact_views(r@)[b].id,
    {
        proof {
            self.lemma_store_invariant();
        }
        if is_indexed_field_name(field) {
            let key = value.as_string();
            proof {
                self.field_indexes.lemma_entries();
            }
            match self.field_indexes.get(field) {
                Some(fm) => {
                    proof {
                        fm.lemma_entries();
                    }
                    match fm.get(key.as_str()) {
                        Some(ids) => {
                            proof {
                                assert(ids@ == index_ids(self@.index, field@, index_key(value@)));
                            }
                            let r = self.matching_facts_of_ids(ids, field, value);
                            proof {
                                assert forall|f: FactView| #[trigger] stored(self@, f) && lookup(f.fields, field@) == Some(value@)
                                    implies fact_views(r@).contains(f) by {
                                    assert(slot(self@.facts, f.id) is Some);
                                    assert(indexed_under(self@.index, f, f.id));
                                    crate::types::lemma_lookup_found(f.fields, field@);
                                    let j = choose|j: int| 0 <= j < f.fields.len() && f.fields[j].0 == field@ && Some(f.fields[j].1) == lookup(f.fields, field@);
                                    assert(is_indexed_field(f.fields[j].0));
                                    assert(ids@.contains(f.id));
                                }
                            }
                            return r;
                        },
                        None => {},
                    }
                },
                None => {},
            }
        }
        let r = self.scan_field(field, value);
        proof {
            let p = |f: FactView| lookup(f.fields, field@) == Some(value@);
            assert(slots_match(self@.facts)) by {
                assert forall|i: int| 0 <= i < self@.facts.len() && #[trigger] self@.facts[i] is Some implies self@.facts[i].unwrap().id == i by {
                    assert(slot(self@.facts, i as FactId) == self@.facts[i]);
                }
            }
            lemma_filter_present_props(self@.facts, p);
            assert forall|f: FactView| #[trigger] stored(self@, f) && lookup(f.fields, field@) == Some(value@)
                implies fact_views(r@).contains(f) by {
                lemma_filter_present_has(self@.facts, p, f.id as int);
            }
            assert forall|a: int, b: int| 0 <= a < b < r@.len() implies #[trigger] fact_views(r@)[a].id != #[trigger] fact_views(r@)[b].id by {
                assert(filter_present(self@.facts, p)[a].id < filter_present(self@.facts, p)[b].id);
            }
        }
        r
    }

    /// The stored facts listed under `ids` whose field `field` equals
    /// `value`, each once, in list order.
    fn matching_facts_of_ids(&self, ids: &Vec<FactId>, field: &str, value: &FactValue) -> (r: Vec<Fact>)
        requires
            self.wf(),
            store_invariant(self@),
        ensures
            forall|k: int| 0 <= k < r@.len() ==> {
                let f = #[trigger] fact_views(r@)[k];
                stored(self@, f) && lookup(f.fields, field@) == Some(value@)
            },
            forall|f: FactView| #[trigger] stored(self@, f) && lookup(f.fields, field@) == Some(value@) && ids@.contains(f.id)
                ==> fact_views(r@).contains(f),
            forall|a: int, b: int| 0 <= a < b < r@.len() ==> #[trigger] fact_views(r@)[a].id != #[trigger] fact_views(r@)[b].id,
    {
        let n = ids.len();
        let mut r: Vec<Fact> = Vec::new();
        let mut taken: Vec<FactId> = Vec::new();
        let mut i: usize = 0;
        while i < n
            invariant
                n == ids@.len(),
                i <= n,
                store_invariant(self@),
                r@.len() == taken@.len(),
                forall|k: int| 0 <= k < r@.len() ==> (#[trigger] fact_views(r@)[k]).id == taken@[k],
                forall|k: int| 0 <= k < r@.len() ==> {
                    let f = #[trigger] fact_views(r@)[k];
                    stored(self@, f) && lookup(f.fields, field@) == Some(value@)
                },
                forall|a: int, b: int| 0 <= a < b < taken@.len() ==> #[trigger] taken@[a] != #[trigger] taken@[b],
                forall|j: int| 0 <= j < i ==> match #[trigger] slot(self@.facts, ids@[j]) {
                    Some(f) => lookup(f.fields, field@) == Some(value@) ==> taken@.contains(ids@[j]),
                    None => true,
                },
            decreases n - i,
        {
            let id = ids[i];
            if !contains_id(&taken, id) {
                match self.get_fact(id) {
                    Some(f) => {
                        let hit = match f.data.get(field) {
                            Some(v) => v.equals(value),
                            None => false,
                        };
                        if hit {
                            let ghost fv = f@;
                            assert(slot(self@.facts, id) == Some(fv));
                            assert(fv.id == id);
                            let ghost before_r = r@;
                            let ghost before_t = taken@;
                            r.push(f);
                            taken.push(id);
                            proof {
                                assert(fact_views(r@) =~= fact_views(before_r).push(fv));
                                assert forall|j: int| 0 <= j < i + 1 implies match #[trigger] slot(self@.facts, ids@[j]) {
                                    Some(g) => lookup(g.fields, field@) == Some(value@) ==> taken@.contains(ids@[j]),
                                    None => true,
                                } by {
                                    if before_t.contains(ids@[j]) {
                                        let t = choose|t: int| 0 <= t < before_t.len() && before_t[t] == ids@[j];
                                        assert(taken@[t] == ids@[j]);
                                    }
                                    if j == i {
                                        assert(taken@[taken@.len() - 1] == id);
                                    }
                                }
                            }
                        }
                    },
                    None => {},
                }
            }
            i = i + 1;
        }
        proof {
            assert forall|f: FactView| #[trigger] stored(self@, f) && lookup(f.fields, field@) == Some(value@) && ids@.contains(f.id)
                implies fact_views(r@).contains(f) by {
                let j = choose|j: int| 0 <= j < ids@.len() && ids@[j] == f.id;
                assert(slot(self@.facts, ids@[j]) == Some(f));
                let t = choose|t: int| 0 <= t < taken@.len() && taken@[t] == f.id;
                let g = fact_views(r@)[t];
                assert(g.id == f.id);
                assert(stored(self@, g));
            }
        }
        r
    }

    /// Stored facts whose field `field` equals `value`, in slot order.
    fn scan_field(&self, field: &str, value: &FactValue) -> (r: Vec<Fact>)
        ensures
            fact_views(r@) == filter_present(self@.facts, |f: FactView| lookup(f.fields, field@) == Some(value@)),
    {
        let ghost p = |f: FactView| lookup(f.fields, field@) == Some(value@);
        let n = self.facts.len();
        let mut r: Vec<Fact> = Vec::new();
        let mut i: usize = 0;
        while i < n
            invariant
                n == self.facts@.len(),
                i <= n,
                p == (|f: FactView| lookup(f.fields, field@) == Some(value@)),
                fact_views(r@) == filter_present(slot_views(self.facts@).take(i as int), p),
            decreases n - i,
        {
            proof {
                assert(slot_views(self.facts@).take(i + 1).drop_last() =~= slot_views(self.facts@).take(i as int));
            }
            match &self.facts[i] {
                Some(f) => {
                    let hit = match f.data.get(field) {
                        Some(v) => v.equals(value),
                        None => false,
                    };
                    if hit {
                        let c = f.duplicate();
                        r.push(c);
                        proof {
                            assert(fact_views(r@) =~= fact_views(r@.drop_last()).push(c@));
                        }
                    }
                },
                None => {},
            }
            i = i + 1;
        }
        proof {
            assert(slot_views(self.facts@).take(n as int) =~= slot_views(self.facts@));
        }
        r
    }

    /// Stored facts whose timestamp lies in `[start, end]`, in slot order.
    pub fn facts_in_time_range(&self, start: i64, end: i64) -> (r: Vec<Fact>)
        ensures
            fact_views(r@) == filter_present(self@.facts, |f: FactView| start <= f.timestamp && f.timestamp <= end),
    {
        let ghost p = |f: FactView| start <= f.timestamp && f.timestamp <= end;
        let n = self.facts.len();
        let mut r: Vec<Fact> = Vec::new();
        let mut i: usize = 0;
        while i < n
            invariant
                n == self.facts@.len(),
                i <= n,
                p == (|f: FactView| start <= f.timestamp && f.timestamp <= end),
                fact_views(r@) == filter_present(slot_views(self.facts@).take(i as int), p),
            decreases n - i,
        {
            proof {
                assert(slot_views(self.facts@).take(i + 1).drop_last() =~= slot_views(self.facts@).take(i as int));
            }
            match &self.facts[i] {
                Some(f) => {
                    if start <= f.timestamp && f.timestamp <= end {
                        let c = f.duplicate();
                        r.push(c);
                        proof {
                            assert(fact_views(r@) =~= fact_views(r@.drop_last()).push(c@));
                        }
                    }
                },
                None => {},
            }
            i = i + 1;
        }
        proof {
            assert(slot_views(self.facts@).take(n as int) =~= slot_views(self.facts@));
        }
        r
    }
}

/// The model of a criteria list.
pub open spec fn criteria_view(c: Seq<(String, FactValue)>) -> Seq<(Seq<char>, ValueView)> {
    c.map_values(|p: (String, FactValue)| (p.0@, p.1@))
}

/// True when the fields carry every (name, value) pair of the criteria.
pub open spec fn matches_all(fields: Seq<(Seq<char>, ValueView)>, crit: Seq<(Seq<char>, ValueView)>) -> bool {
    forall|i: int| 0 <= i < crit.len() ==> lookup(fields, #[trigger] crit[i].0) == Some(crit[i].1)
}

/// The candidate ids that the indexed criteria allow.
pub enum Candidates {
    /// No indexed criterion constrains the search.
    Unconstrained,
    /// Only these ids can match.
    Ids(Set<FactId>),
    /// Some indexed criterion has no index entry: nothing matches.
    NoMatch,
}

/// Candidates after the criteria are read in order: each indexed criterion
/// whose field has an index narrows the candidates to the ids indexed under
/// its value's key, or rules out every fact when there is no such entry.
pub open spec fn candidates(index: IndexView, crit: Seq<(Seq<char>, ValueView)>) -> Candidates
    decreases crit.len(),
{
    if crit.len() == 0 {
        Candidates::Unconstrained
    } else {
        let prev = candidates(index, crit.drop_last());
        let n = crit.last().0;
        let k = index_key(crit.last().1);
        if prev is NoMatch {
            prev
        } else if is_indexed_field(n) && index.contains_key(n) {
            if index[n].contains_key(k) {
                match prev {
                    Candidates::Ids(p) => Candidates::Ids(p.intersect(index[n][k].to_set())),
                    _ => Candidates::Ids(index[n][k].to_set()),
                }
            } else {
                Candidates::NoMatch
            }
        } else {
            prev
        }
    }
}

/// What a multi-criteria search returns: all facts when there are no
/// criteria; otherwise the stored facts that match every criterion, limited
/// to the candidates that the indexed criteria allow.
pub open spec fn find_by_criteria_spec(s: StoreView, crit: Seq<(Seq<char>, ValueView)>) -> Seq<FactView> {
    if crit.len() == 0 {
        present(s.facts)
    } else {
        match candidates(s.index, crit) {
            Candidates::NoMatch => Seq::empty(),
            Candidates::Unconstrained => filter_present(s.facts, |f: FactView| matches_all(f.fields, crit)),
            Candidates::Ids(ids) => filter_present(s.facts, |f: FactView| ids.contains(f.id) && matches_all(f.fields, crit)),
        }
    }
}

/// Whether `x` occurs in `v`.
pub fn contains_id(v: &Vec<FactId>, x: FactId) -> (b: bool)
    ensures
        b == v@.contains(x),
{
    let n = v.len();
    let mut i: usize = 0;
    while i < n
        invariant
            n == v@.len(),
            i <= n,
            forall|j: int| 0 <= j < i ==> v@[j] != x,
        decreases n - i,
    {
        if v[i] == x {
            return true;
        }
        i = i + 1;
    }
    false
}

/// The elements of `a` that also occur in `b`.
fn intersect_ids(a: &Vec<FactId>, b: &Vec<FactId>) -> (r: Vec<FactId>)
    ensures
        r@.to_set() == a@.to_set().intersect(b@.to_set()),
{
    let n = a.len();
    let mut r: Vec<FactId> = Vec::new();
    let mut i: usize = 0;
    while i < n
        invariant
            n == a@.len(),
            i <= n,
            forall|x: FactId| r@.contains(x) <==> (a@.take(i as int).contains(x) && b@.contains(x)),
        decreases n - i,
    {
        let x = a[i];
        let ghost r_before = r@;
        proof {
            assert(a@.take(i + 1) =~= a@.take(i as int).push(x));
        }
        if contains_id(b, x) {
            r.push(x);
        }
        proof {
            assert forall|y: FactId| r@.contains(y) <==> (a@.take(i + 1).contains(y) && b@.contains(y)) by {
                vstd::seq_lib::lemma_seq_contains_after_push(a@.take(i as int), x, y);
                if b@.contains(x) {
                    vstd::seq_lib::lemma_seq_contains_after_push(r_before, x, y);
                }
            }
        }
        i = i + 1;
    }
    proof {
        assert(a@.take(n as int) =~= a@);
        assert(r@.to_set() =~= a@.to_set().intersect(b@.to_set()));
    }
    r
}

/// A copy of an id list.
fn copy_ids(v: &Vec<FactId>) -> (r: Vec<FactId>)
    ensures
        r@ == v@,
{
    let n = v.len();
    let mut r: Vec<FactId> = Vec::new();
    let mut i: usize = 0;
    while i < n
        invariant
            n == v@.len(),
            i <= n,
            r@ == v@.take(i as int),
        decreases n - i,
    {
        r.push(v[i]);
        proof {
            assert(v@.take(i + 1) =~= v@.take(i as int).push(v@[i as int]));
        }
        i = i + 1;
    }
    proof {
        assert(v@.take(n as int) =~= v@);
    }
    r
}

/// Whether the fields carry every (name, value) pair of the criteria.
pub fn matches_all_criteria(data: &FactData, criteria: &[(String, FactValue)]) -> (b: bool)
    ensures
        b == matches_all(data@, criteria_view(criteria@)),
{
    let n = criteria.len();
    let mut i: usize = 0;
    while i < n
        invariant
            n == criteria@.len(),
            i <= n,
            forall|j: int| 0 <= j < i ==> lookup(data@, #[trigger] criteria_view(criteria@)[j].0) == Some(criteria_view(criteria@)[j].1),
        decreases n - i,
    {
        let (f, v) = &criteria[i];
        let ok = match data.get(f.as_str()) {
            Some(x) => x.equals(v),
            None => false,
        };
        if !ok {
            assert(lookup(data@, criteria_view(criteria@)[i as int].0) != Some(criteria_view(criteria@)[i as int].1));
            return false;
        }
        i = i + 1;
    }
    true
}

impl ArenaFactStore {
    /// Facts that match every (field, value) criterion. Indexed criteria
    /// narrow the candidates through the index (a criterion on an indexed
    /// field whose index lacks the value rules out every fact); the
    /// candidates are then checked against all criteria. No criteria yields
    /// every fact.
    pub fn find_by_criteria(&self, criteria: &[(String, FactValue)]) -> (r: Vec<Fact>)
        requires
            self.wf(),
        ensures
            fact_views(r@) == find_by_criteria_spec(self@, criteria_view(criteria@)),
            fact_views(r@) == criteria_matches(self@, criteria_view(criteria@)),
            forall|k: int| 0 <= k < r@.len() ==> {
                let f = #[trigger] fact_views(r@)[k];
                stored(self@, f) && matches_all(f.fields, criteria_view(criteria@))
            },
            forall|f: FactView| #[trigger] stored(self@, f) && matches_all(f.fields, criteria_view(criteria@))
                ==> fact_views(r@).contains(f),
            forall|a: int, b: int| 0 <= a < b < r@.len() ==> #[trigger] fact_views(r@)[a].id < #[trigger] fact_views(r@)[b].id,
    {
        proof {
            self.lemma_store_invariant();
            lemma_criteria_exact(self@, criteria_view(criteria@));
            let m = |f: FactView| matches_all(f.fields, criteria_view(criteria@));
            assert(slots_match(self@.facts)) by {
                assert forall|i: int| 0 <= i < self@.facts.len() && #[trigger] self@.facts[i] is Some implies self@.facts[i].unwrap().id == i by {
                    assert(slot(self@.facts, i as FactId) == self@.facts[i]);
                }
            }
            lemma_filter_present_props(self@.facts, m);
            assert forall|f: FactView| #[trigger] stored(self@, f) && matches_all(f.fields, criteria_view(criteria@))
                implies criteria_matches(self@, criteria_view(criteria@)).contains(f) by {
                lemma_filter_present_has(self@.facts, m, f.id as int);
            }
        }
        if criteria.len() == 0 {
            return self.iter();
        }
        let ghost crit = criteria_view(criteria@);
        let n = criteria.len();
        let mut cand: Option<Vec<FactId>> = None;
        let mut i: usize = 0;
        proof {
            self.field_indexes.lemma_entries();
        }
        while i < n
            invariant
                self.wf(),
                n == criteria@.len(),
                crit == criteria_view(criteria@),
                i <= n,
                find_by_criteria_spec(self@, crit) == criteria_matches(self@, crit),
                forall|f: FactView| #[trigger] stored(self@, f) && matches_all(f.fields, crit)
                    ==> criteria_matches(self@, crit).contains(f),
                match cand {
                    None => candidates(self@.index, crit.take(i as int)) is Unconstrained,
                    Some(v) => candidates(self@.index, crit.take(i as int)) == Candidates::Ids(v@.to_set()),
                },
            decreases n - i,
        {
            proof {
                assert(crit.take(i + 1).drop_last() =~= crit.take(i as int));
                assert(crit.take(i + 1).last() == crit[i as int]);
                self.field_indexes.lemma_entries();
            }
            let (f, v) = &criteria[i];
            if is_indexed_field_name(f.as_str()) {
                match self.field_indexes.get(f.as_str()) {
                    Some(fm) => {
                        proof {
                            fm.lemma_entries();
                        }
                        let key = v.as_string();
                        match fm.get(key.as_str()) {
                            Some(ids) => {
                                let next = match &cand {
                                    None => copy_ids(ids),
                                    Some(prev) => intersect_ids(prev, ids),
                                };
                                cand = Some(next);
                            },
                            None => {
                                proof {
                                    lemma_candidates_no_match(self@.index, crit, i as int + 1);
                                }
                                return Vec::new();
                            },
                        }
                    },
                    None => {},
                }
            }
            i = i + 1;
        }
        proof {
            assert(crit.take(n as int) =~= crit);
        }
        self.scan_candidates(&cand, criteria)
    }

    /// Stored facts, in slot order, whose id is a candidate and that match
    /// every criterion.
    fn scan_candidates(&self, cand: &Option<Vec<FactId>>, criteria: &[(String, FactValue)]) -> (r: Vec<Fact>)
        requires
            self.wf(),
        ensures
            fact_views(r@) == (match cand {
                None => filter_present(self@.facts, |f: FactView| matches_all(f.fields, criteria_view(criteria@))),
                Some(ids) => filter_present(self@.facts, |f: FactView| ids@.to_set().contains(f.id) && matches_all(f.fields, criteria_view(criteria@))),
            }),
    {
        let ghost p = match cand {
            None => |f: FactView| matches_all(f.fields, criteria_view(criteria@)),
            Some(ids) => |f: FactView| ids@.to_set().contains(f.id) && matches_all(f.fields, criteria_view(criteria@)),
        };
        let n = self.facts.len();
        let mut r: Vec<Fact> = Vec::new();
        let mut i: usize = 0;
        while i < n
            invariant
                n == self.facts@.len(),
                i <= n,
                p == (match cand {
                    None => |f: FactView| matches_all(f.fields, criteria_view(criteria@)),
                    Some(ids) => |f: FactView| ids@.to_set().contains(f.id) && matches_all(f.fields, criteria_view(criteria@)),
                }),
                fact_views(r@) == filter_present(slot_views(self.facts@).take(i as int), p),
            decreases n - i,
        {
            proof {
                assert(slot_views(self.facts@).take(i + 1).drop_last() =~= slot_views(self.facts@).take(i as int));
            }
            match &self.facts[i] {
                Some(f) => {
                    let allowed = match cand {
                        None => true,
                        Some(ids) => contains_id(ids, f.id),
                    };
                    if allowed && matches_all_criteria(&f.data, criteria) {
                        let c = f.duplicate();
                        r.push(c);
                        proof {
                            assert(fact_views(r@) =~= fact_views(r@.drop_last()).push(c@));
                        }
                    }
                },
                None => {},
            }
            i = i + 1;
        }
        proof {
            assert(slot_views(self.facts@).take(n as int) =~= slot_views(self.facts@));
        }
        r
    }
}

/// Once a criterion rules out every fact, the whole list does.
pub proof fn lemma_candidates_no_match(index: IndexView, crit: Seq<(Seq<char>, ValueView)>, i: int)
    requires
        0 < i <= crit.len(),
        candidates(index, crit.take(i)) is NoMatch,
    ensures
        candidates(index, crit) is NoMatch,
    decreases crit.len() - i,
{
    if i < crit.len() {
        assert(crit.take(i + 1).drop_last() =~= crit.take(i));
        lemma_candidates_no_match(index, crit, i + 1);
    } else {
        assert(crit.take(i) =~= crit);
    }
}

/// Whether each stored fact sits in the slot of its id.
pub open spec fn slots_match(facts: Seq<Option<FactView>>) -> bool {
    forall|i: int| 0 <= i < facts.len() && #[trigger] facts[i] is Some ==> facts[i].unwrap().id == i
}

/// The stored facts that satisfy `p`.
pub open spec fn field_matches(s: StoreView, n: Seq<char>, v: ValueView) -> Seq<FactView> {
    filter_present(s.facts, |f: FactView| lookup(f.fields, n) == Some(v))
}

/// The stored facts that match every criterion.
pub open spec fn criteria_matches(s: StoreView, crit: Seq<(Seq<char>, ValueView)>) -> Seq<FactView> {
    filter_present(s.facts, |f: FactView| matches_all(f.fields, crit))
}

/// A stored fact that satisfies `p` is among the facts that filtering
/// keeps.
pub proof fn lemma_filter_present_has(facts: Seq<Option<FactView>>, p: spec_fn(FactView) -> bool, i: int)
    requires
        0 <= i < facts.len(),
        facts[i] is Some,
        p(facts[i].unwrap()),
    ensures
        filter_present(facts, p).contains(facts[i].unwrap()),
    decreases facts.len(),
{
    let rest = filter_present(facts.drop_last(), p);
    if i == facts.len() - 1 {
        assert(filter_present(facts, p).last() == facts[i].unwrap());
    } else {
        assert(facts.drop_last()[i] == facts[i]);
        lemma_filter_present_has(facts.drop_last(), p, i);
        let k = choose|k: int| 0 <= k < rest.len() && rest[k] == facts[i].unwrap();
        match facts.last() {
            Some(g) => if p(g) {
                assert(rest.push(g)[k] == facts[i].unwrap());
            },
            None => {},
        }
    }
}

/// What filtering keeps, when each stored fact sits in the slot of its id:
/// stored facts that satisfy `p`, in strictly increasing order of id.
pub proof fn lemma_filter_present_props(facts: Seq<Option<FactView>>, p: spec_fn(FactView) -> bool)
    requires
        slots_match(facts),
    ensures
        forall|k: int| 0 <= k < filter_present(facts, p).len() ==> {
            let f = #[trigger] filter_present(facts, p)[k];
            &&& f.id < facts.len()
            &&& slot(facts, f.id) == Some(f)
            &&& p(f)
        },
        forall|a: int, b: int| 0 <= a < b < filter_present(facts, p).len() ==> #[trigger] filter_present(facts, p)[a].id
            < #[trigger] filter_present(facts, p)[b].id,
    decreases facts.len(),
{
    if facts.len() > 0 {
        let d = facts.drop_last();
        assert forall|i: int| 0 <= i < d.len() && #[trigger] d[i] is Some implies d[i].unwrap().id == i by {
            assert(d[i] == facts[i]);
        }
        lemma_filter_present_props(d, p);
        let rest = filter_present(d, p);
        let r = filter_present(facts, p);
        assert forall|k: int| 0 <= k < rest.len() implies slot(facts, (#[trigger] rest[k]).id) == slot(d, rest[k].id) by {
            assert(facts[rest[k].id as int] == d[rest[k].id as int]);
        }
        match facts.last() {
            Some(g) => {
                assert(facts[facts.len() - 1] is Some);
                if p(g) {
                    assert(r == rest.push(g));
                    assert forall|k: int| 0 <= k < r.len() implies {
                        let f = #[trigger] r[k];
                        &&& f.id < facts.len()
                        &&& slot(facts, f.id) == Some(f)
                        &&& p(f)
                    } by {
                        if k < rest.len() {
                            assert(r[k] == rest[k]);
                        }
                    }
                    assert forall|a: int, b: int| 0 <= a < b < r.len() implies #[trigger] r[a].id < #[trigger] r[b].id by {
                        assert(r[a] == rest[a]);
                        if b < rest.len() {
                            assert(r[b] == rest[b]);
                        }
                    }
                }
            },
            None => {},
        }
    }
}

/// Filtering by predicates that agree on the stored facts keeps the same
/// facts.
pub proof fn lemma_filter_present_ext(facts: Seq<Option<FactView>>, p: spec_fn(FactView) -> bool, q: spec_fn(FactView) -> bool)
    requires
        forall|i: int| 0 <= i < facts.len() && #[trigger] facts[i] is Some ==> p(facts[i].unwrap()) == q(facts[i].unwrap()),
    ensures
        filter_present(facts, p) == filter_present(facts, q),
    decreases facts.len(),
{
    if facts.len() > 0 {
        let d = facts.drop_last();
        assert forall|i: int| 0 <= i < d.len() && #[trigger] d[i] is Some implies p(d[i].unwrap()) == q(d[i].unwrap()) by {
            assert(d[i] == facts[i]);
        }
        lemma_filter_present_ext(d, p, q);
        assert(facts[facts.len() - 1] == facts.last());
    }
}

/// All stored facts are what filtering by a predicate true of every fact
/// keeps.
pub proof fn lemma_present_is_filter(facts: Seq<Option<FactView>>, p: spec_fn(FactView) -> bool)
    requires
        forall|f: FactView| #[trigger] p(f),
    ensures
        present(facts) == filter_present(facts, p),
    decreases facts.len(),
{
    if facts.len() > 0 {
        lemma_present_is_filter(facts.drop_last(), p);
        match facts.last() {
            Some(g) => assert(p(g)),
            None => {},
        }
    }
}

/// Filtering by a predicate true of no stored fact keeps nothing.
pub proof fn lemma_filter_present_none(facts: Seq<Option<FactView>>, p: spec_fn(FactView) -> bool)
    requires
        forall|i: int| 0 <= i < facts.len() && #[trigger] facts[i] is Some ==> !p(facts[i].unwrap()),
    ensures
        filter_present(facts, p).len() == 0,
    decreases facts.len(),
{
    if facts.len() > 0 {
        let d = facts.drop_last();
        assert forall|i: int| 0 <= i < d.len() && #[trigger] d[i] is Some implies !p(d[i].unwrap()) by {
            assert(d[i] == facts[i]);
        }
        lemma_filter_present_none(d, p);
        assert(facts[facts.len() - 1] == facts.last());
    }
}

/// The candidates of criteria that an indexed fact matches never rule that
/// fact out.
pub proof fn lemma_candidates_keep(index: IndexView, crit: Seq<(Seq<char>, ValueView)>, f: FactView, id: FactId)
    requires
        indexed_under(index, f, id),
        matches_all(f.fields, crit),
    ensures
        !(candidates(index, crit) is NoMatch),
        candidates(index, crit) matches Candidates::Ids(ids) ==> ids.contains(id),
    decreases crit.len(),
{
    if crit.len() > 0 {
        let d = crit.drop_last();
        assert forall|i: int| 0 <= i < d.len() implies lookup(f.fields, #[trigger] d[i].0) == Some(d[i].1) by {
            assert(d[i] == crit[i]);
        }
        lemma_candidates_keep(index, d, f, id);
        let n = crit.last().0;
        let v = crit.last().1;
        assert(lookup(f.fields, crit[crit.len() - 1].0) == Some(crit[crit.len() - 1].1));
        if is_indexed_field(n) && index.contains_key(n) {
            crate::types::lemma_lookup_found(f.fields, n);
            let j = choose|j: int| 0 <= j < f.fields.len() && f.fields[j].0 == n && Some(f.fields[j].1) == lookup(f.fields, n);
            assert(is_indexed_field(f.fields[j].0));
            let ids = index_ids(index, n, index_key(v));
            assert(ids.contains(id));
            assert(index[n].contains_key(index_key(v)));
            let k = choose|k: int| 0 <= k < ids.len() && ids[k] == id;
            assert(ids.to_set().contains(id));
        }
    }
}

/// With a complete index, a multi-criteria search gives exactly the stored
/// facts that match every criterion.
pub proof fn lemma_criteria_exact(s: StoreView, crit: Seq<(Seq<char>, ValueView)>)
    requires
        store_invariant(s),
    ensures
        find_by_criteria_spec(s, crit) == criteria_matches(s, crit),
{
    let m = |f: FactView| matches_all(f.fields, crit);
    assert forall|i: int| 0 <= i < s.facts.len() && #[trigger] s.facts[i] is Some implies indexed_under(s.index, s.facts[i].unwrap(), i as FactId)
        && s.facts[i].unwrap().id == i by {
        assert(slot(s.facts, i as FactId) == s.facts[i]);
    }
    if crit.len() == 0 {
        lemma_present_is_filter(s.facts, m);
    } else {
        match candidates(s.index, crit) {
            Candidates::NoMatch => {
                assert forall|i: int| 0 <= i < s.facts.len() && #[trigger] s.facts[i] is Some implies !m(s.facts[i].unwrap()) by {
                    if m(s.facts[i].unwrap()) {
                        lemma_candidates_keep(s.index, crit, s.facts[i].unwrap(), i as FactId);
                    }
                }
                lemma_filter_present_none(s.facts, m);
                assert(criteria_matches(s, crit) =~= Seq::<FactView>::empty());
            },
            Candidates::Unconstrained => {},
            Candidates::Ids(ids) => {
                let q = |f: FactView| ids.contains(f.id) && matches_all(f.fields, crit);
                assert forall|i: int| 0 <= i < s.facts.len() && #[trigger] s.facts[i] is Some implies q(s.facts[i].unwrap()) == m(s.facts[i].unwrap()) by {
                    if m(s.facts[i].unwrap()) {
                        lemma_candidates_keep(s.index, crit, s.facts[i].unwrap(), i as FactId);
                    }
                }
                lemma_filter_present_ext(s.facts, q, m);
            },
        }
    }
}

/// Compacting the index keeps it complete.
pub proof fn lemma_compact_complete(s: StoreView)
    requires
        index_complete(s),
    ensures
        index_complete(StoreView { index: compact_spec(s.index), ..s }),
{
    let t = StoreView { index: compact_spec(s.index), ..s };
    assert forall|j: FactId| #![trigger slot(t.facts, j)] slot(t.facts, j) is Some implies indexed_under(t.index, slot(t.facts, j).unwrap(), j) by {
        let f = slot(t.facts, j).unwrap();
        assert(indexed_under(s.index, f, j));
        assert forall|i: int| 0 <= i < f.fields.len() && is_indexed_field(#[trigger] f.fields[i].0) implies index_ids(
            t.index,
            f.fields[i].0,
            index_key(f.fields[i].1),
        ).contains(j) by {
            lemma_compact_keeps(s.index, f.fields[i].0, index_key(f.fields[i].1), j);
        }
    }
}

/// Compacting the index changes no multi-criteria search: before and after,
/// a search gives the stored facts that match every criterion.
pub proof fn law_compact_keeps_searches(s: StoreView, crit: Seq<(Seq<char>, ValueView)>)
    requires
        store_invariant(s),
    ensures
        find_by_criteria_spec(StoreView { index: compact_spec(s.index), ..s }, crit) == find_by_criteria_spec(s, crit),
{
    lemma_compact_complete(s);
    lemma_criteria_exact(s, crit);
    lemma_criteria_exact(StoreView { index: compact_spec(s.index), ..s }, crit);
}

/// Compacting the indexes keeps the results of a search by one field: the
/// same stored facts have the field with the value, and a fact is stored
/// afterwards exactly when it was before.
pub proof fn law_compact_keeps_field_search(s: StoreView, n: Seq<char>, v: ValueView, f: FactView)
    ensures
        field_matches(StoreView { index: compact_spec(s.index), ..s }, n, v) == field_matches(s, n, v),
        stored(StoreView { index: compact_spec(s.index), ..s }, f) == stored(s, f),
{
}

/// The list without any occurrence of `x`.
pub open spec fn remove_id(s: Seq<FactId>, x: FactId) -> Seq<FactId>
    decreases s.len(),
{
    if s.len() == 0 {
        s
    } else {
        let r = remove_id(s.drop_last(), x);
        if s.last() == x { r } else { r.push(s.last()) }
    }
}

/// The index with `id` removed from the entry of field `n` and key `k`; an
/// entry left empty is dropped (the field's map stays).
pub open spec fn index_remove(index: IndexView, n: Seq<char>, k: Seq<char>, id: FactId) -> IndexView {
    if index.contains_key(n) && index[n].contains_key(k) {
        let r = remove_id(index[n][k], id);
        if r.len() == 0 {
            index.insert(n, index[n].remove(k))
        } else {
            index.insert(n, index[n].insert(k, r))
        }
    } else {
        index
    }
}

/// The index after the entries of a fact with these fields are removed.
pub open spec fn index_remove_fields(index: IndexView, fields: Seq<(Seq<char>, ValueView)>, id: FactId) -> IndexView
    decreases fields.len(),
{
    if fields.len() == 0 {
        index
    } else {
        let rest = index_remove_fields(index, fields.drop_last(), id);
        let (n, v) = fields.last();
        if is_indexed_field(n) { index_remove(rest, n, index_key(v), id) } else { rest }
    }
}

/// The store after deleting the fact in slot `id`.
pub open spec fn delete_spec(s: StoreView, id: FactId) -> StoreView {
    match slot(s.facts, id) {
        None => s,
        Some(f) => StoreView {
            facts: s.facts.update(id as int, None),
            index: index_remove_fields(s.index, f.fields, id),
            external: match f.external_id {
                Some(e) => s.external.remove(e),
                None => s.external,
            },
            next_id: s.next_id,
        },
    }
}

/// True when `g` holds the fields of `f` overridden by `updates`.
pub open spec fn overridden(
    f: Seq<(Seq<char>, ValueView)>,
    updates: Seq<(Seq<char>, ValueView)>,
    g: Seq<(Seq<char>, ValueView)>,
) -> bool {
    forall|n: Seq<char>| #[trigger] lookup(g, n) == (if lookup(updates, n) is Some { lookup(updates, n) } else { lookup(f, n) })
}

impl ArenaFactStore {
    /// Removes every occurrence of `id` from the entry of field `n`, key `k`.
    fn remove_index_entry(&mut self, n: &String, k: String, id: FactId)
        requires
            old(self).wf_core(),
        ensures
            final(self).wf_core(),
            final(self)@ == (StoreView { index: index_remove(old(self)@.index, n@, k@, id), ..old(self)@ }),
    {
        index_map_remove(&mut self.field_indexes, n, k, id);
    }

    /// Removes the index entries of a fact with these fields under `id`.
    fn remove_from_indexes(&mut self, data: &FactData, id: FactId)
        requires
            old(self).wf_core(),
        ensures
            final(self).wf_core(),
            final(self)@ == (StoreView { index: index_remove_fields(old(self)@.index, data@, id), ..old(self)@ }),
    {
        let ghost old_view = self@;
        let n = data.len();
        let mut i: usize = 0;
        while i < n
            invariant
                self.wf_core(),
                n == data@.len(),
                i <= n,
                self@ == (StoreView { index: index_remove_fields(old_view.index, data@.take(i as int), id), ..old_view }),
            decreases n - i,
        {
            let name = data.name_at(i);
            proof {
                assert(data@.take(i + 1).drop_last() =~= data@.take(i as int));
                assert(data@.take(i + 1).last() == data@[i as int]);
            }
            if is_indexed_field_name(name.as_str()) {
                let key = data.value_at(i).as_string();
                self.remove_index_entry(name, key, id);
            }
            i = i + 1;
        }
        proof {
            assert(data@.take(n as int) =~= data@);
        }
    }

    /// Deletes the fact stored under `fact_id`: its slot is emptied, its
    /// external id unmapped and its index entries removed. Returns whether
    /// a fact was there.
    pub fn delete_fact(&mut self, fact_id: FactId) -> (deleted: bool)
        requires
            old(self).wf(),
        ensures
            final(self).wf(),
            deleted == slot(old(self)@.facts, fact_id) is Some,
            final(self)@ == delete_spec(old(self)@, fact_id),
    {
        let ghost old_view = self@;
        if fact_id >= self.facts.len() as u64 {
            return false;
        }
        let i = fact_id as usize;
        let fact = match &self.facts[i] {
            Some(f) => f.duplicate(),
            None => {
                return false;
            },
        };
        self.facts.set(i, None);
        match &fact.external_id {
            Some(e) => {
                self.external_id_map.remove(e.as_str());
            },
            None => {},
        }
        proof {
            assert(slot_views(self.facts@) =~= old_view.facts.update(i as int, None));
            lemma_present_update(old_view.facts, i as int, None);
        }
        self.fact_count = self.fact_count - 1;
        self.remove_from_indexes(&fact.data, fact_id);
        proof {
            let t = delete_spec(old_view, fact_id);
            assert(self@ == t);
            assert forall|j: FactId| #![trigger slot(t.facts, j)] slot(t.facts, j) is Some implies indexed_under(t.index, slot(t.facts, j).unwrap(), j) by {
                assert(j != fact_id);
                assert(slot(t.facts, j) == slot(old_view.facts, j));
                lemma_indexed_under_remove(old_view.index, fact.data@, fact_id, slot(old_view.facts, j).unwrap(), j);
            }
        }
        true
    }

    /// Applies `updates` to the fields of the fact stored under `fact_id`;
    /// the fact's index entries are replaced by entries for its updated
    /// fields. Returns whether a fact was there.
    pub fn update_fact(&mut self, fact_id: FactId, updates: FactData) -> (updated: bool)
        requires
            old(self).wf(),
        ensures
            final(self).wf(),
            updated == slot(old(self)@.facts, fact_id) is Some,
            !updated ==> final(self)@ == old(self)@,
            updated ==> {
                let f = slot(old(self)@.facts, fact_id).unwrap();
                let g = slot(final(self)@.facts, fact_id).unwrap();
                &&& slot(final(self)@.facts, fact_id) is Some
                &&& final(self)@.facts == old(self)@.facts.update(fact_id as int, Some(g))
                &&& g.id == f.id
                &&& g.external_id == f.external_id
                &&& g.timestamp == f.timestamp
                &&& overridden(f.fields, updates@, g.fields)
                &&& distinct_names(g.fields)
                &&& final(self)@.index == index_add(index_remove_fields(old(self)@.index, f.fields, fact_id), g.fields, fact_id)
                &&& final(self)@.external == old(self)@.external
                &&& final(self)@.next_id == old(self)@.next_id
            },
    {
        let ghost old_view = self@;
        if fact_id >= self.facts.len() as u64 {
            return false;
        }
        let i = fact_id as usize;
        let mut fact = match &self.facts[i] {
            Some(f) => f.duplicate(),
            None => {
                return false;
            },
        };
        let ghost f0 = fact@;
        let m = updates.len();
        let mut j: usize = 0;
        while j < m
            invariant
                m == updates@.len(),
                distinct_names(updates@),
                j <= m,
                fact.id == f0.id,
                opt_str_view(fact.external_id) == f0.external_id,
                fact.timestamp == f0.timestamp,
                overridden(f0.fields, updates@.take(j as int), fact.data@),
            decreases m - j,
        {
            let name = updates.name_at(j);
            let value = updates.value_at(j);
            let ghost before = fact.data@;
            fact.data.insert(name.clone(), value.duplicate());
            proof {
                let e = updates@[j as int];
                assert(updates@.take(j + 1) =~= updates@.take(j as int).push(e));
                assert forall|n: Seq<char>| #[trigger] lookup(fact.data@, n) == (if lookup(updates@.take(j + 1), n) is Some {
                    lookup(updates@.take(j + 1), n)
                } else {
                    lookup(f0.fields, n)
                }) by {
                    lemma_lookup_push_any(updates@.take(j as int), e, n);
                    if n == e.0 {
                        assert forall|t: int| 0 <= t < updates@.take(j as int).len() implies updates@.take(j as int)[t].0 != n by {
                            assert(updates@[t].0 != updates@[j as int].0);
                        }
                        lemma_lookup_absent(updates@.take(j as int), n);
                    }
                }
            }
            j = j + 1;
        }
        proof {
            assert(updates@.take(m as int) =~= updates@);
        }
        let ghost g = fact@;
        let _ = fact.data.len();
        let old_data = match &self.facts[i] {
            Some(f) => f.data.duplicate(),
            None => FactData::new(),
        };
        assert(old_data@ == f0.fields);
        self.facts.set(i, Some(fact.duplicate()));
        proof {
            assert(slot_views(self.facts@) =~= old_view.facts.update(i as int, Some(g)));
            lemma_present_update(old_view.facts, i as int, Some(g));
            assert(self.facts@[i as int] is Some && self.facts@[i as int].unwrap().id == i);
        }
        self.remove_from_indexes(&old_data, fact_id);
        self.update_indexes(&fact.data, fact_id);
        proof {
            let t = self@;
            let mid = index_remove_fields(old_view.index, f0.fields, fact_id);
            assert forall|j: FactId| #![trigger slot(t.facts, j)] slot(t.facts, j) is Some implies indexed_under(t.index, slot(t.facts, j).unwrap(), j) by {
                if j == fact_id {
                    lemma_indexed_under_self(mid, g, fact_id);
                } else {
                    assert(slot(t.facts, j) == slot(old_view.facts, j));
                    lemma_indexed_under_remove(old_view.index, f0.fields, fact_id, slot(old_view.facts, j).unwrap(), j);
                    lemma_indexed_under_add(mid, g.fields, fact_id, slot(old_view.facts, j).unwrap(), j);
                }
            }
        }
        true
    }
}

/// Removes every occurrence of `id` from the entry of field `n`, key `k`;
/// an entry left empty is dropped.
pub fn index_map_remove(m: &mut StrMap<StrMap<Vec<FactId>>>, n: &String, k: String, id: FactId)
    requires
        index_wf(*old(m)),
    ensures
        index_wf(*final(m)),
        index_model(final(m).view()) == index_remove(index_model(old(m).view()), n@, k@, id),
{
    let ghost old_index = index_model(m.view());
    let ghost old_outer = m.view();
    let ghost nv = n@;
    let ghost kv = k@;
    proof {
        m.lemma_entries();
    }
    let p = match m.position(n.as_str()) {
        Some(p) => p,
        None => {
            return;
        },
    };
    assert(m.view().contains_key(m.key_seq()[p as int]));
    let mut fm = m.remove_at(p);
    let ghost fm_init = fm.view();
    proof {
        fm.lemma_entries();
        assert(inner_model(fm) =~= old_index[nv]);
    }
    let q = match fm.position(k.as_str()) {
        Some(q) => q,
        None => {
            m.insert(n.clone(), fm);
            proof {
                assert(m.view() =~= old_outer);
                assert(index_model(m.view()) =~= old_index);
            }
            return;
        },
    };
    assert(fm.view().contains_key(fm.key_seq()[q as int]));
    let ids = fm.remove_at(q);
    let kept = remove_all_ids(&ids, id);
    let ghost kept_v = kept@;
    if kept.len() > 0 {
        fm.insert(k, kept);
        proof {
            assert(inner_model(fm) =~= old_index[nv].insert(kv, kept_v));
        }
    } else {
        proof {
            assert(inner_model(fm) =~= old_index[nv].remove(kv));
        }
    }
    let ghost fm_final = fm;
    m.insert(n.clone(), fm);
    proof {
        assert(m.view() =~= old_outer.insert(nv, fm_final));
        assert(index_model(m.view()) =~= index_remove(old_index, nv, kv, id));
    }
}

/// The list without any occurrence of `x`.
fn remove_all_ids(v: &Vec<FactId>, x: FactId) -> (r: Vec<FactId>)
    ensures
        r@ == remove_id(v@, x),
{
    let n = v.len();
    let mut r: Vec<FactId> = Vec::new();
    let mut i: usize = 0;
    while i < n
        invariant
            n == v@.len(),
            i <= n,
            r@ == remove_id(v@.take(i as int), x),
        decreases n - i,
    {
        proof {
            assert(v@.take(i + 1).drop_last() =~= v@.take(i as int));
        }
        if v[i] != x {
            r.push(v[i]);
        }
        i = i + 1;
    }
    proof {
        assert(v@.take(n as int) =~= v@);
    }
    r
}

/// The entries of a field's map that hold at least one id.
pub open spec fn nonempty_entries(m: Map<Seq<char>, Seq<FactId>>) -> Map<Seq<char>, Seq<FactId>> {
    Map::new(|k: Seq<char>| m.contains_key(k) && m[k].len() > 0, |k: Seq<char>| m[k])
}

/// The index with empty entries dropped, and fields left without entries
/// dropped.
pub open spec fn compact_spec(index: IndexView) -> IndexView {
    Map::new(
        |n: Seq<char>| index.contains_key(n) && exists|k: Seq<char>| #[trigger] nonempty_entries(index[n]).contains_key(k),
        |n: Seq<char>| nonempty_entries(index[n]),
    )
}

/// Compacting keeps every listed id where it is listed.
pub proof fn lemma_compact_keeps(index: IndexView, n: Seq<char>, k: Seq<char>, x: FactId)
    requires
        index_ids(index, n, k).contains(x),
    ensures
        index_ids(compact_spec(index), n, k).contains(x),
{
    assert(index[n][k].len() > 0);
    assert(nonempty_entries(index[n]).contains_key(k));
    assert(compact_spec(index).contains_key(n));
}

/// The entries of a field's map that hold at least one id.
#[verifier::spinoff_prover]
fn compact_field_map(fm: &StrMap<Vec<FactId>>) -> (r: StrMap<Vec<FactId>>)
    requires
        fm.wf(),
    ensures
        r.wf(),
        inner_model(r) == nonempty_entries(inner_model(*fm)),
{
    proof {
        fm.lemma_entries();
    }
    let n = fm.len();
    let mut r: StrMap<Vec<FactId>> = StrMap::new();
    let mut i: usize = 0;
    while i < n
        invariant
            fm.wf(),
            r.wf(),
            n == fm.key_seq().len(),
            n == fm.val_seq().len(),
            i <= n,
            forall|j: int| 0 <= j < n ==> #[trigger] fm.view().contains_key(fm.key_seq()[j]) && fm.view()[fm.key_seq()[j]] == fm.val_seq()[j],
            forall|k: Seq<char>| #[trigger] fm.view().contains_key(k) ==> exists|j: int| 0 <= j < n && fm.key_seq()[j] == k,
            fm.key_seq().no_duplicates(),
            inner_model(r) == Map::new(
                |k: Seq<char>| fm.key_seq().take(i as int).contains(k) && inner_model(*fm)[k].len() > 0,
                |k: Seq<char>| inner_model(*fm)[k],
            ),
        decreases n - i,
    {
        let ghost ki = fm.key_seq()[i as int];
        let ghost before = inner_model(r);
        proof {
            assert(fm.key_seq().take(i + 1) =~= fm.key_seq().take(i as int).push(ki));
            assert(fm.view().contains_key(ki));
        }
        let v = fm.value_at(i);
        proof {
            assert(inner_model(*fm)[ki] == v@);
            assert(!fm.key_seq().take(i as int).contains(ki)) by {
                if fm.key_seq().take(i as int).contains(ki) {
                    let t = choose|t: int| 0 <= t < i && fm.key_seq().take(i as int)[t] == ki;
                    assert(fm.key_seq()[t] == fm.key_seq()[i as int]);
                }
            }
        }
        if v.len() > 0 {
            let c = copy_ids(v);
            r.insert(fm.key_at(i).clone(), c);
        }
        proof {
            assert forall|k: Seq<char>| fm.key_seq().take(i + 1).contains(k) <==> (fm.key_seq().take(i as int).contains(k) || k == ki) by {
                vstd::seq_lib::lemma_seq_contains_after_push(fm.key_seq().take(i as int), ki, k);
            }
            let target = Map::new(
                |k: Seq<char>| fm.key_seq().take(i + 1).contains(k) && inner_model(*fm)[k].len() > 0,
                |k: Seq<char>| inner_model(*fm)[k],
            );
            assert forall|k: Seq<char>| #[trigger] inner_model(r).contains_key(k) <==> target.contains_key(k) by {
                if k != ki {
                    assert(inner_model(r).contains_key(k) == before.contains_key(k));
                }
            }
            assert forall|k: Seq<char>| #[trigger] inner_model(r).contains_key(k) implies inner_model(r)[k] == target[k] by {
                if k != ki {
                    assert(inner_model(r)[k] == before[k]);
                }
            }
            assert(inner_model(r) =~= target);
        }
        i = i + 1;
    }
    proof {
        assert(fm.key_seq().take(n as int) =~= fm.key_seq());
        assert forall|k: Seq<char>| fm.key_seq().contains(k) <==> fm.view().contains_key(k) by {
            if fm.key_seq().contains(k) {
                let j = choose|j: int| 0 <= j < n && fm.key_seq()[j] == k;
                assert(fm.view().contains_key(fm.key_seq()[j]));
            }
        }
        assert(inner_model(r) =~= nonempty_entries(inner_model(*fm)));
    }
    r
}

impl ArenaFactStore {
    /// Drops index entries that hold no id, then fields whose map is left
    /// without entries.
    #[verifier::spinoff_prover]
    pub fn compact_indexes(&mut self)
        requires
            old(self).wf(),
        ensures
            final(self).wf(),
            final(self)@ == (StoreView { index: compact_spec(old(self)@.index), ..old(self)@ }),
    {
        let ghost old_view = self@;
        let outer = &self.field_indexes;
        proof {
            outer.lemma_entries();
        }
        let n = outer.len();
        let mut r: StrMap<StrMap<Vec<FactId>>> = StrMap::new();
        let mut i: usize = 0;
        while i < n
            invariant
                outer.wf(),
                outer == self.field_indexes,
                self.wf(),
                self@ == old_view,
                r.wf(),
                forall|m: Seq<char>| #[trigger] r.view().contains_key(m) ==> r.view()[m].wf(),
                n == outer.key_seq().len(),
                n == outer.val_seq().len(),
                i <= n,
                forall|j: int| 0 <= j < n ==> #[trigger] outer.view().contains_key(outer.key_seq()[j]) && outer.view()[outer.key_seq()[j]] == outer.val_seq()[j],
                forall|k: Seq<char>| #[trigger] outer.view().contains_key(k) ==> exists|j: int| 0 <= j < n && outer.key_seq()[j] == k,
                outer.key_seq().no_duplicates(),
                index_model(r.view()) == Map::new(
                    |m: Seq<char>| outer.key_seq().take(i as int).contains(m) && compact_spec(old_view.index).contains_key(m),
                    |m: Seq<char>| compact_spec(old_view.index)[m],
                ),
            decreases n - i,
        {
            let ghost ki = outer.key_seq()[i as int];
            proof {
                assert(outer.key_seq().take(i + 1) =~= outer.key_seq().take(i as int).push(ki));
                assert(outer.view().contains_key(ki));
            }
            let fm = outer.value_at(i);
            let c = compact_field_map(fm);
            proof {
                c.lemma_entries();
                assert(inner_model(*fm) == old_view.index[ki]);
                vstd::set_lib::lemma_set_empty_equivalency_len(c.view().dom());
                if exists|k: Seq<char>| #[trigger] nonempty_entries(old_view.index[ki]).contains_key(k) {
                    let k = choose|k: Seq<char>| #[trigger] nonempty_entries(old_view.index[ki]).contains_key(k);
                    assert(inner_model(c).contains_key(k));
                    assert(c.view().contains_key(k));
                }
                if c.view().dom().len() > 0 {
                    let k = choose|k: Seq<char>| c.view().dom().contains(k);
                    assert(inner_model(c).contains_key(k));
                    assert(nonempty_entries(old_view.index[ki]).contains_key(k));
                }
                assert(!outer.key_seq().take(i as int).contains(ki)) by {
                    if outer.key_seq().take(i as int).contains(ki) {
                        let t = choose|t: int| 0 <= t < i && outer.key_seq().take(i as int)[t] == ki;
                        assert(outer.key_seq()[t] == outer.key_seq()[i as int]);
                    }
                }
            }
            let ghost cg = c;
            let ghost before_r = index_model(r.view());
            if c.len() > 0 {
                r.insert(outer.key_at(i).clone(), c);
            }
            proof {
                assert forall|k: Seq<char>| outer.key_seq().take(i + 1).contains(k) <==> (outer.key_seq().take(i as int).contains(k) || k == ki) by {
                    vstd::seq_lib::lemma_seq_contains_after_push(outer.key_seq().take(i as int), ki, k);
                }
                let target = Map::new(
                    |m: Seq<char>| outer.key_seq().take(i + 1).contains(m) && compact_spec(old_view.index).contains_key(m),
                    |m: Seq<char>| compact_spec(old_view.index)[m],
                );
                assert forall|m: Seq<char>| #[trigger] index_model(r.view()).contains_key(m) <==> target.contains_key(m) by {
                    if m != ki {
                        assert(index_model(r.view()).contains_key(m) == before_r.contains_key(m));
                    }
                }
                assert forall|m: Seq<char>| #[trigger] index_model(r.view()).contains_key(m) implies index_model(r.view())[m] == target[m] by {
                    if m != ki {
                        assert(index_model(r.view())[m] == before_r[m]);
                    } else {
                        assert(index_model(r.view())[m] == inner_model(cg));
                    }
                }
                assert(index_model(r.view()) =~= target);
            }
            i = i + 1;
        }
        proof {
            assert(outer.key_seq().take(n as int) =~= outer.key_seq());
            assert forall|k: Seq<char>| outer.key_seq().contains(k) <==> outer.view().contains_key(k) by {
                if outer.key_seq().contains(k) {
                    let j = choose|j: int| 0 <= j < n && outer.key_seq()[j] == k;
                    assert(outer.view().contains_key(outer.key_seq()[j]));
                }
            }
            assert(index_model(r.view()) =~= compact_spec(old_view.index));
        }
        self.field_indexes = r;
        proof {
            let t = self@;
            assert forall|j: FactId| #![trigger slot(t.facts, j)] slot(t.facts, j) is Some implies indexed_under(t.index, slot(t.facts, j).unwrap(), j) by {
                let f = slot(t.facts, j).unwrap();
                assert(indexed_under(old_view.index, f, j));
                assert forall|i: int| 0 <= i < f.fields.len() && is_indexed_field(#[trigger] f.fields[i].0) implies index_ids(
                    t.index,
                    f.fields[i].0,
                    index_key(f.fields[i].1),
                ).contains(j) by {
                    lemma_compact_keeps(old_view.index, f.fields[i].0, index_key(f.fields[i].1), j);
                }
            }
        }
    }
}

/// The sum of `f` over a finite set.
pub open spec fn sum_over<K>(s: Set<K>, f: spec_fn(K) -> nat) -> nat
    decreases s.len(),
    when s.finite()
{
    if s.len() == 0 {
        0
    } else {
        let k = s.choose();
        proof {
            vstd::set_lib::lemma_set_empty_equivalency_len(s);
        }
        f(k) + sum_over(s.remove(k), f)
    }
}

/// The sum of `f` over a list.
pub open spec fn seq_sum<K>(s: Seq<K>, f: spec_fn(K) -> nat) -> nat
    decreases s.len(),
{
    if s.len() == 0 { 0 } else { seq_sum(s.drop_last(), f) + f(s.last()) }
}

/// A sum over a set is the term of any member plus the sum over the rest.
pub proof fn lemma_sum_over_remove<K>(s: Set<K>, f: spec_fn(K) -> nat, k: K)
    requires
        s.finite(),
        s.contains(k),
    ensures
        sum_over(s, f) == f(k) + sum_over(s.remove(k), f),
    decreases s.len(),
{
    vstd::set_lib::lemma_set_empty_equivalency_len(s);
    let c = s.choose();
    if c != k {
        lemma_sum_over_remove(s.remove(c), f, k);
        lemma_sum_over_remove(s.remove(k), f, c);
        assert(s.remove(c).remove(k) =~= s.remove(k).remove(c));
    }
}

/// A sum over a list without duplicates is the sum over its set.
pub proof fn lemma_seq_sum_set<K>(s: Seq<K>, f: spec_fn(K) -> nat)
    requires
        s.no_duplicates(),
    ensures
        seq_sum(s, f) == sum_over(s.to_set(), f),
    decreases s.len(),
{
    vstd::seq_lib::seq_to_set_is_finite(s);
    if s.len() == 0 {
        assert(s.to_set() =~= Set::<K>::empty());
    } else {
        let t = s.drop_last();
        let x = s.last();
        assert(t.no_duplicates());
        lemma_seq_sum_set(t, f);
        assert(s =~= t.push(x));
        t.lemma_push_to_set_commute(x);
        assert(!t.to_set().contains(x)) by {
            if t.to_set().contains(x) {
                let j = choose|j: int| 0 <= j < t.len() && t[j] == x;
                assert(s[j] == s[s.len() - 1]);
            }
        }
        lemma_sum_over_remove(s.to_set(), f, x);
        assert(s.to_set().remove(x) =~= t.to_set());
    }
}

/// A sum over a prefix is at most the sum over the whole list.
pub proof fn lemma_seq_sum_prefix<K>(s: Seq<K>, f: spec_fn(K) -> nat, i: int)
    requires
        0 <= i <= s.len(),
    ensures
        seq_sum(s.take(i), f) <= seq_sum(s, f),
    decreases s.len(),
{
    if i < s.len() {
        assert(s.take(i) =~= s.drop_last().take(i));
        lemma_seq_sum_prefix(s.drop_last(), f, i);
    } else {
        assert(s.take(i) =~= s);
    }
}

/// A sum over a subset equals the sum over the whole set when the terms
/// agree on the subset and the terms left out are zero.
proof fn lemma_sum_over_zeros<K>(s: Set<K>, t: Set<K>, f: spec_fn(K) -> nat, g: spec_fn(K) -> nat)
    requires
        s.finite(),
        t.subset_of(s),
        forall|k: K| #[trigger] t.contains(k) ==> g(k) == f(k),
        forall|k: K| #[trigger] s.contains(k) && !t.contains(k) ==> f(k) == 0,
    ensures
        sum_over(t, g) == sum_over(s, f),
    decreases s.len(),
{
    vstd::set_lib::lemma_len_subset(t, s);
    vstd::set_lib::lemma_set_empty_equivalency_len(s);
    vstd::set_lib::lemma_set_empty_equivalency_len(t);
    if s.len() > 0 {
        let k = s.choose();
        assert(s.contains(k));
        lemma_sum_over_remove(s, f, k);
        if t.contains(k) {
            lemma_sum_over_remove(t, g, k);
            lemma_sum_over_zeros(s.remove(k), t.remove(k), f, g);
        } else {
            assert(t.subset_of(s.remove(k)));
            lemma_sum_over_zeros(s.remove(k), t, f, g);
        }
    }
}

/// The number of ids under each key of a field's index.
pub open spec fn ids_count(fm: Map<Seq<char>, Seq<FactId>>) -> spec_fn(Seq<char>) -> nat {
    |k: Seq<char>| fm[k].len()
}

/// The ids indexed under all keys of a field's index.
pub open spec fn entry_refs(fm: Map<Seq<char>, Seq<FactId>>) -> nat {
    sum_over(fm.dom(), ids_count(fm))
}

/// The number of distinct keys of each field.
pub open spec fn keys_count(index: IndexView) -> spec_fn(Seq<char>) -> nat {
    |n: Seq<char>| index[n].dom().len()
}

/// The ids indexed under each field.
pub open spec fn refs_count(index: IndexView) -> spec_fn(Seq<char>) -> nat {
    |n: Seq<char>| entry_refs(index[n])
}

/// Distinct keys over all fields.
pub open spec fn total_values(index: IndexView) -> nat {
    sum_over(index.dom(), keys_count(index))
}

/// Indexed ids over all fields.
pub open spec fn total_refs(index: IndexView) -> nat {
    sum_over(index.dom(), refs_count(index))
}

/// Dropping the empty entries of a field's index keeps its count of ids.
proof fn lemma_entry_refs_nonempty(m: Map<Seq<char>, Seq<FactId>>)
    requires
        m.dom().finite(),
    ensures
        entry_refs(nonempty_entries(m)) == entry_refs(m),
{
    let c = nonempty_entries(m);
    assert(c.dom().subset_of(m.dom()));
    assert forall|k: Seq<char>| #[trigger] c.dom().contains(k) implies ids_count(c)(k) == ids_count(m)(k) by {}
    lemma_sum_over_zeros(m.dom(), c.dom(), ids_count(m), ids_count(c));
}

/// Compacting the indexes keeps the number of indexed ids, the figure that
/// the index statistics report as indexed facts: only empty entries, and
/// fields left with none, are dropped.
pub proof fn law_compact_keeps_indexed_count(index: IndexView)
    requires
        index.dom().finite(),
        forall|n: Seq<char>| #[trigger] index.contains_key(n) ==> index[n].dom().finite(),
    ensures
        total_refs(compact_spec(index)) == total_refs(index),
{
    let c = compact_spec(index);
    assert(c.dom().subset_of(index.dom()));
    assert forall|n: Seq<char>| #[trigger] c.dom().contains(n) implies refs_count(c)(n) == refs_count(index)(n) by {
        lemma_entry_refs_nonempty(index[n]);
    }
    assert forall|n: Seq<char>| #[trigger] index.dom().contains(n) && !c.dom().contains(n) implies refs_count(index)(n) == 0 by {
        let m = index[n];
        assert forall|k: Seq<char>| #[trigger] m.dom().contains(k) && !Set::<Seq<char>>::empty().contains(k) implies ids_count(m)(k) == 0 by {
            if m[k].len() > 0 {
                assert(nonempty_entries(m).contains_key(k));
            }
        }
        lemma_sum_over_zeros(m.dom(), Set::empty(), ids_count(m), ids_count(m));
        assert(sum_over(Set::<Seq<char>>::empty(), ids_count(m)) == 0);
    }
    lemma_sum_over_zeros(index.dom(), c.dom(), refs_count(index), refs_count(c));
}

/// Statistics of one field's index.
#[derive(Debug, Clone, Copy, PartialEq, Eq, Structural)]
pub struct FieldIndexStats {
    pub unique_values: usize,
    pub indexed_facts: usize,
    /// Indexed facts over unique values.
    pub average_facts_per_value: Ratio,
}

/// Statistics of all field indexes.
#[derive(Debug)]
pub struct IndexStats {
    pub total_indexed_fields: usize,
    pub total_unique_values: usize,
    pub total_indexed_facts: usize,
    pub field_stats: StrMap<FieldIndexStats>,
    /// Indexed facts over stored facts.
    pub index_efficiency: Ratio,
}

/// The statistics of a field with this index.
pub open spec fn field_stats_spec(fm: Map<Seq<char>, Seq<FactId>>) -> FieldIndexStats {
    FieldIndexStats {
        unique_values: fm.dom().len() as usize,
        indexed_facts: entry_refs(fm) as usize,
        average_facts_per_value: Ratio { part: entry_refs(fm) as usize, whole: fm.dom().len() as usize },
    }
}

/// The number of ids under all keys of one field's index.
pub(crate) fn entry_fact_count(fm: &StrMap<Vec<FactId>>) -> (c: usize)
    requires
        fm.wf(),
        entry_refs(inner_model(*fm)) <= usize::MAX,
    ensures
        c == entry_refs(inner_model(*fm)),
{
    let ghost m = inner_model(*fm);
    let ghost ks = fm.key_seq();
    proof {
        fm.lemma_entries();
        assert(m.dom() =~= ks.to_set());
        lemma_seq_sum_set(ks, ids_count(m));
    }
    let n = fm.len();
    let mut c: usize = 0;
    let mut j: usize = 0;
    while j < n
        invariant
            fm.wf(),
            n == ks.len(),
            ks == fm.key_seq(),
            m == inner_model(*fm),
            j <= n,
            c == seq_sum(ks.take(j as int), ids_count(m)),
            seq_sum(ks, ids_count(m)) <= usize::MAX,
            forall|i: int| 0 <= i < ks.len() ==> #[trigger] fm.view().contains_key(ks[i])
                && fm.view()[ks[i]] == fm.val_seq()[i],
        decreases n - j,
    {
        let ids = fm.value_at(j);
        proof {
            assert(ks.take(j + 1).drop_last() =~= ks.take(j as int));
            assert(ks.take(j + 1).last() == ks[j as int]);
            assert(fm.view().contains_key(ks[j as int]));
            assert(ids_count(m)(ks[j as int]) == ids@.len());
            lemma_seq_sum_prefix(ks, ids_count(m), j + 1);
        }
        c = c + ids.len();
        j = j + 1;
    }
    proof {
        assert(ks.take(n as int) =~= ks);
    }
    c
}

impl ArenaFactStore {
    /// Statistics of the field indexes: per field, its distinct keys, its
    /// indexed ids and their ratio; in total, the fields, keys and ids, and
    /// the ids per stored fact.
    #[verifier::spinoff_prover]
    pub fn index_stats(&self) -> (r: IndexStats)
        requires
            self.wf(),
            total_values(self@.index) <= usize::MAX,
            total_refs(self@.index) <= usize::MAX,
        ensures
            r.field_stats.wf(),
            r.total_indexed_fields == self@.index.dom().len(),
            r.total_unique_values == total_values(self@.index),
            r.total_indexed_facts == total_refs(self@.index),
            r.field_stats.view().dom() == self@.index.dom(),
            forall|n: Seq<char>| #[trigger] self@.index.contains_key(n)
                ==> r.field_stats.view()[n] == field_stats_spec(self@.index[n]),
            r.index_efficiency == (Ratio { part: total_refs(self@.index) as usize, whole: present(self@.facts).len() as usize }),
    {
        let outer = &self.field_indexes;
        let ghost index = self@.index;
        let ghost ks = outer.key_seq();
        proof {
            outer.lemma_entries();
            assert(index.dom() =~= ks.to_set());
            lemma_seq_sum_set(ks, keys_count(index));
            lemma_seq_sum_set(ks, refs_count(index));
        }
        let n = outer.len();
        let mut field_stats: StrMap<FieldIndexStats> = StrMap::new();
        let mut unique_total: usize = 0;
        let mut facts_total: usize = 0;
        let mut i: usize = 0;
        while i < n
            invariant
                self.wf(),
                outer == &self.field_indexes,
                index == self@.index,
                ks == outer.key_seq(),
                n == ks.len(),
                ks.no_duplicates(),
                i <= n,
                field_stats.wf(),
                unique_total == seq_sum(ks.take(i as int), keys_count(index)),
                facts_total == seq_sum(ks.take(i as int), refs_count(index)),
                seq_sum(ks, keys_count(index)) <= usize::MAX,
                seq_sum(ks, refs_count(index)) <= usize::MAX,
                field_stats.view().dom() == ks.take(i as int).to_set(),
                forall|t: int| 0 <= t < i ==> #[trigger] field_stats.view()[ks[t]] == field_stats_spec(index[ks[t]]),
                forall|t: int| 0 <= t < ks.len() ==> #[trigger] outer.view().contains_key(ks[t])
                    && outer.view()[ks[t]] == outer.val_seq()[t],
            decreases n - i,
        {
            let name = outer.key_at(i);
            let fm = outer.value_at(i);
            let ghost k = ks[i as int];
            proof {
                assert(outer.view().contains_key(k));
                assert(index[k] == inner_model(*fm));
                assert(fm.wf());
                fm.lemma_entries();
                assert(inner_model(*fm).dom() =~= fm.view().dom());
                assert(ks.take(i + 1).drop_last() =~= ks.take(i as int));
                assert(ks.take(i + 1).last() == k);
                lemma_seq_sum_prefix(ks, keys_count(index), i + 1);
                lemma_seq_sum_prefix(ks, refs_count(index), i + 1);
                assert(keys_count(index)(k) == fm.view().dom().len());
                assert(refs_count(index)(k) == entry_refs(inner_model(*fm)));
            }
            let unique = fm.len();
            let facts = entry_fact_count(fm);
            unique_total = unique_total + unique;
            facts_total = facts_total + facts;
            let ghost before = field_stats.view();
            field_stats.insert(
                name.clone(),
                FieldIndexStats {
                    unique_values: unique,
                    indexed_facts: facts,
                    average_facts_per_value: Ratio { part: facts, whole: unique },
                },
            );
            proof {
                ks.take(i as int).lemma_push_to_set_commute(k);
                assert(ks.take(i + 1) =~= ks.take(i as int).push(k));
                assert forall|t: int| 0 <= t < i + 1 implies #[trigger] field_stats.view()[ks[t]] == field_stats_spec(index[ks[t]]) by {
                    if t < i {
                        assert(ks[t] != k);
                    }
                }
            }
            i = i + 1;
        }
        proof {
            assert(ks.take(n as int) =~= ks);
        }
        IndexStats {
            total_indexed_fields: n,
            total_unique_values: unique_total,
            total_indexed_facts: facts_total,
            field_stats,
            index_efficiency: Ratio { part: facts_total, whole: self.len() },
        }
    }
}

/// The index entry of field `n`, key `k` after appending `id` under
/// `n2`, `k2`: the same list with `id` appended when the two name the same
/// entry, the same list otherwise.
pub proof fn lemma_index_push_ids(index: IndexView, n2: Seq<char>, k2: Seq<char>, id: FactId, n: Seq<char>, k: Seq<char>)
    ensures
        index_ids(index_push(index, n2, k2, id), n, k) == (if n == n2 && k == k2 {
            index_ids(index, n, k).push(id)
        } else {
            index_ids(index, n, k)
        }),
{
}

/// After the fields of a fact are indexed under `id`, the entry of every
/// indexed field holds `id` under the key of that field's value.
pub proof fn lemma_index_add_holds(index: IndexView, fields: Seq<(Seq<char>, ValueView)>, id: FactId, i: int)
    requires
        0 <= i < fields.len(),
        is_indexed_field(fields[i].0),
    ensures
        index_ids(index_add(index, fields, id), fields[i].0, index_key(fields[i].1)).contains(id),
    decreases fields.len(),
{
    let last = fields.len() - 1;
    let rest = index_add(index, fields.drop_last(), id);
    let (n2, v2) = fields.last();
    if i == last {
        lemma_index_push_ids(rest, n2, index_key(v2), id, fields[i].0, index_key(fields[i].1));
        assert(index_ids(rest, n2, index_key(v2)).push(id).last() == id);
    } else {
        assert(fields.drop_last()[i] == fields[i]);
        lemma_index_add_holds(index, fields.drop_last(), id, i);
        if is_indexed_field(n2) {
            lemma_index_push_ids(rest, n2, index_key(v2), id, fields[i].0, index_key(fields[i].1));
            let before = index_ids(rest, fields[i].0, index_key(fields[i].1));
            let j = choose|j: int| 0 <= j < before.len() && before[j] == id;
            assert(before.push(id)[j] == id);
        }
    }
}

/// An inserted fact is stored, with its id, under the id it was given; no
/// other slot changes.
pub proof fn law_insert_then_get(s: StoreView, f: FactView)
    ensures
        slot(insert_spec(s, f).facts, assigned_id(s.next_id, f.id)) == Some(with_id(f, assigned_id(s.next_id, f.id))),
        forall|j: FactId| j != assigned_id(s.next_id, f.id)
            ==> #[trigger] slot(insert_spec(s, f).facts, j) == slot(s.facts, j),
{
    let id = assigned_id(s.next_id, f.id);
    let p = padded(s.facts, id as nat + 1);
    assert forall|j: FactId| j != id implies #[trigger] slot(insert_spec(s, f).facts, j) == slot(s.facts, j) by {
        if j < s.facts.len() {
            assert(p[j as int] == s.facts[j as int]);
        } else if j < p.len() {
            assert(p[j as int] == None::<FactView>);
        }
    }
}

/// The external id of an inserted fact resolves to the id it was given.
pub proof fn law_insert_then_external(s: StoreView, f: FactView)
    requires
        f.external_id is Some,
    ensures
        insert_spec(s, f).external.contains_key(f.external_id.unwrap()),
        insert_spec(s, f).external[f.external_id.unwrap()] == assigned_id(s.next_id, f.id),
{
}

/// An inserted fact is among the stored facts whose field `n` has the
/// value it was inserted with.
pub proof fn law_insert_then_find(s: StoreView, f: FactView, n: Seq<char>, v: ValueView)
    requires
        lookup(f.fields, n) == Some(v),
    ensures
        field_matches(insert_spec(s, f), n, v).contains(with_id(f, assigned_id(s.next_id, f.id))),
{
    let id = assigned_id(s.next_id, f.id);
    let t = insert_spec(s, f);
    law_insert_then_get(s, f);
    assert(t.facts[id as int] == Some(with_id(f, id)));
    lemma_filter_present_has(t.facts, |g: FactView| lookup(g.fields, n) == Some(v), id as int);
}

/// After a delete nothing is stored under the id, no other slot changes,
/// and the external id of the deleted fact no longer resolves.
pub proof fn law_delete_then_get(s: StoreView, id: FactId)
    ensures
        slot(delete_spec(s, id).facts, id) is None,
        forall|j: FactId| j != id ==> #[trigger] slot(delete_spec(s, id).facts, j) == slot(s.facts, j),
        match slot(s.facts, id) {
            Some(f) => match f.external_id {
                Some(e) => !delete_spec(s, id).external.contains_key(e),
                None => true,
            },
            None => true,
        },
{
}

/// Inserting a fact under a free id and deleting it again leaves as many
/// facts stored as before; inserting under a taken id stores no more facts
/// than before.
pub proof fn law_insert_delete_count(s: StoreView, f: FactView)
    requires
        assigned_id(s.next_id, f.id) < usize::MAX,
    ensures
        slot(s.facts, assigned_id(s.next_id, f.id)) is None ==> present(
            delete_spec(insert_spec(s, f), assigned_id(s.next_id, f.id)).facts,
        ).len() == present(s.facts).len(),
        slot(s.facts, assigned_id(s.next_id, f.id)) is Some ==> present(insert_spec(s, f).facts).len() == present(
            s.facts,
        ).len(),
{
    let id = assigned_id(s.next_id, f.id);
    law_insert_then_get(s, f);
    let p = padded(s.facts, id as nat + 1);
    lemma_present_padded(s.facts, id as nat + 1);
    if id < s.facts.len() {
        assert(p[id as int] == s.facts[id as int]);
    } else {
        assert(p[id as int] is None);
    }
    lemma_present_update(p, id as int, Some(with_id(f, id)));
    let t = insert_spec(s, f);
    assert(t.facts[id as int] is Some);
    lemma_present_update(t.facts, id as int, None);
    assert(t.facts.update(id as int, None) =~= p.update(id as int, None));
    if slot(s.facts, id) is None {
        lemma_present_update(p, id as int, None);
        assert(p.update(id as int, None) =~= p);
    }
}

/// The sequential-id counter after ids were handed out, starting from `n`:
/// past every id handed out and never below `n`.
pub open spec fn counter_after(n: int, ids: Seq<FactId>) -> int
    decreases ids.len(),
{
    if ids.len() == 0 {
        n
    } else {
        let prev = counter_after(n, ids.drop_last());
        if prev > ids.last() + 1 { prev } else { ids.last() + 1 }
    }
}

/// Inserting facts one after another, as a bulk insert does: the `i`-th
/// fact gets the id that a single insert into the store left by the earlier
/// ones gives it, and the store after it is that single insert's result.
pub proof fn law_bulk_insert_is_single_inserts(s: StoreView, fs: Seq<FactView>, i: int)
    requires
        0 <= i < fs.len(),
    ensures
        insert_all_ids(s, fs).len() == fs.len(),
        insert_all_ids(s, fs)[i] == assigned_id(insert_all_spec(s, fs.take(i)).next_id, fs[i].id),
        insert_all_spec(s, fs.take(i + 1)) == insert_spec(insert_all_spec(s, fs.take(i)), fs[i]),
    decreases fs.len(),
{
    lemma_insert_all_ids_len(s, fs);
    assert(fs.take(i + 1).drop_last() =~= fs.take(i));
    assert(fs.take(i + 1).last() == fs[i]);
    if i == fs.len() - 1 {
        assert(fs.drop_last() =~= fs.take(i));
    } else {
        let d = fs.drop_last();
        assert(d.take(i) =~= fs.take(i));
        assert(d.take(i + 1) =~= fs.take(i + 1));
        assert(d[i] == fs[i]);
        law_bulk_insert_is_single_inserts(s, d, i);
        lemma_insert_all_ids_len(s, d);
        assert(insert_all_ids(s, fs)[i] == insert_all_ids(s, d)[i]);
    }
}

/// One id for each fact inserted.
proof fn lemma_insert_all_ids_len(s: StoreView, fs: Seq<FactView>)
    ensures
        insert_all_ids(s, fs).len() == fs.len(),
    decreases fs.len(),
{
    if fs.len() > 0 {
        lemma_insert_all_ids_len(s, fs.drop_last());
    }
}

/// The sequential-id counter moves past every id handed out: after facts
/// are inserted in turn, it is the larger of where it stood and one more
/// than the largest id given; from a new or cleared store (counter zero),
/// it is zero when no id was given and otherwise one more than the largest.
pub proof fn law_counter_follows_ids(s: StoreView, fs: Seq<FactView>)
    requires
        insert_all_fits(s, fs),
    ensures
        insert_all_spec(s, fs).next_id == counter_after(s.next_id as int, insert_all_ids(s, fs)),
    decreases fs.len(),
{
    if fs.len() > 0 {
        let d = fs.drop_last();
        assert forall|i: int| 0 <= i < d.len() implies assigned_id(insert_all_spec(s, d.take(i)).next_id, #[trigger] d[i].id) < usize::MAX by {
            assert(d.take(i) =~= fs.take(i));
            assert(d[i] == fs[i]);
        }
        law_counter_follows_ids(s, d);
        let before = insert_all_spec(s, d);
        assert(fs.take(fs.len() - 1) =~= d);
        assert(fs[fs.len() - 1] == fs.last());
        assert(assigned_id(before.next_id, fs.last().id) < usize::MAX);
        assert(insert_all_ids(s, fs).drop_last() =~= insert_all_ids(s, d));
    }
}

/// `std::sync::RwLock`, declared so that a store can be held behind one.
#[verifier::external_type_specification]
#[verifier::external_body]
#[verifier::reject_recursive_types(T)]
pub struct ExRwLock<T: ?Sized>(RwLock<T>);

/// A store shared between threads behind a read-write lock.
pub type ThreadSafeArenaFactStore = Arc<RwLock<ArenaFactStore>>;

/// `RwLock::new`: a lock that holds the store. The lock is opaque here, so
/// nothing is stated of what it holds.
#[verifier::external_body]
fn lock_store(store: ArenaFactStore) -> RwLock<ArenaFactStore> {
    RwLock::new(store)
}

impl ArenaFactStore {
    /// An empty store behind a lock, to share between threads.
    pub fn new_shared() -> ThreadSafeArenaFactStore {
        Arc::new(lock_store(ArenaFactStore::new()))
    }

    /// An empty store sized for `capacity` facts, behind a lock.
    pub fn with_capacity_shared(capacity: usize) -> ThreadSafeArenaFactStore {
        Arc::new(lock_store(ArenaFactStore::with_capacity(capacity)))
    }

    /// An empty store sized for large datasets, behind a lock.
    pub fn with_large_capacity_shared(capacity: usize) -> ThreadSafeArenaFactStore {
        Arc::new(lock_store(ArenaFactStore::with_large_capacity(capacity)))
    }

    /// The store keeps no cache, so there are no cache statistics.
    pub fn cache_stats(&self) -> (r: Option<CacheStats>)
        ensures
            r is None,
    {
        None
    }

    /// The store keeps no cache; nothing to clear.
    pub fn clear_cache(&self) {
    }
}

} // verus!
