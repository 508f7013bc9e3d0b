//! A configurable field index: for chosen fields, maps each value's key to
//! the ids of the facts that carry it.

use vstd::prelude::*;
use crate::assoc::StrMap;
use crate::fact_store::{IndexView, index_wf, index_model, index_push, index_remove, index_ids, index_map_push,
    index_map_remove, criteria_view, remove_id, lemma_index_push_ids, inner_model, sum_over, seq_sum, lemma_seq_sum_set,
    lemma_seq_sum_prefix, total_values, total_refs, entry_refs, keys_count, refs_count, entry_fact_count};
use crate::types::Ratio;
use vstd::utf8::encode_utf8;
use crate::text::{str_eq, strs_view};
use crate::types::{Fact, FactId, FactValue, ValueView, index_key};

verus! {

/// The index after a fact with these fields is indexed under `id`: each
/// field in `indexed` gets the id appended under its value's key.
pub open spec fn indexer_add(
    index: IndexView,
    fields: Seq<(Seq<char>, ValueView)>,
    id: FactId,
    indexed: Seq<Seq<char>>,
) -> IndexView
    decreases fields.len(),
{
    if fields.len() == 0 {
        index
    } else {
        let rest = indexer_add(index, fields.drop_last(), id, indexed);
        let (n, v) = fields.last();
        if indexed.contains(n) { index_push(rest, n, index_key(v), id) } else { rest }
    }
}

/// The index after `id` is removed from field `n`, key `k`: an entry left
/// empty is dropped, and so is a field left without entries.
pub open spec fn indexer_remove_one(index: IndexView, n: Seq<char>, k: Seq<char>, id: FactId) -> IndexView {
    if index.contains_key(n) {
        let i1 = index_remove(index, n, k, id);
        if i1[n].dom() == Set::<Seq<char>>::empty() { i1.remove(n) } else { i1 }
    } else {
        index
    }
}

/// The index after the entries of a fact with these fields are removed.
pub open spec fn indexer_remove(
    index: IndexView,
    fields: Seq<(Seq<char>, ValueView)>,
    id: FactId,
    indexed: Seq<Seq<char>>,
) -> IndexView
    decreases fields.len(),
{
    if fields.len() == 0 {
        index
    } else {
        let rest = indexer_remove(index, fields.drop_last(), id, indexed);
        let (n, v) = fields.last();
        if indexed.contains(n) { indexer_remove_one(rest, n, index_key(v), id) } else { rest }
    }
}

/// The elements of `s` that occur in `other`, in order.
pub open spec fn retain_in(s: Seq<FactId>, other: Seq<FactId>) -> Seq<FactId>
    decreases s.len(),
{
    if s.len() == 0 {
        s
    } else {
        let r = retain_in(s.drop_last(), other);
        if other.contains(s.last()) { r.push(s.last()) } else { r }
    }
}

/// Ids matching every criterion: the ids of the first criterion, kept in
/// order when every later criterion also lists them; none for no criteria.
pub open spec fn indexer_criteria(index: IndexView, crit: Seq<(Seq<char>, ValueView)>) -> Seq<FactId>
    decreases crit.len(),
{
    if crit.len() == 0 {
        Seq::empty()
    } else if crit.len() == 1 {
        index_ids(index, crit[0].0, index_key(crit[0].1))
    } else {
        retain_in(indexer_criteria(index, crit.drop_last()), index_ids(index, crit.last().0, index_key(crit.last().1)))
    }
}

/// The names of the default indexed fields.
pub open spec fn default_fields_spec() -> Seq<Seq<char>> {
    seq![
        seq!['e', 'n', 't', 'i', 't', 'y', '_', 'i', 'd'],
        seq!['i', 'd'],
        seq!['u', 's', 'e', 'r', '_', 'i', 'd'],
        seq!['c', 'u', 's', 't', 'o', 'm', 'e', 'r', '_', 'i', 'd'],
        seq!['s', 't', 'a', 't', 'u', 's'],
        seq!['c', 'a', 't', 'e', 'g', 'o', 'r', 'y'],
    ]
}

/// Removing `x` from a list leaves no `x` and adds nothing.
pub proof fn lemma_remove_id_shrinks(s: Seq<FactId>, x: FactId)
    ensures
        !remove_id(s, x).contains(x),
        forall|y: FactId| remove_id(s, x).contains(y) ==> s.contains(y),
    decreases s.len(),
{
    if s.len() > 0 {
        let pre = s.drop_last();
        lemma_remove_id_shrinks(pre, x);
        let r = remove_id(pre, x);
        assert forall|y: FactId| remove_id(s, x).contains(y) implies s.contains(y) by {
            let j = choose|j: int| 0 <= j < remove_id(s, x).len() && remove_id(s, x)[j] == y;
            if j < r.len() {
                assert(remove_id(s, x)[j] == r[j]);
                assert(r.contains(y));
                assert(pre.contains(y));
                let t = choose|t: int| 0 <= t < pre.len() && pre[t] == y;
                assert(s[t] == y);
            } else {
                assert(s[s.len() - 1] == y);
            }
        }
        if s.last() != x {
            assert forall|j: int| 0 <= j < r.push(s.last()).len() implies r.push(s.last())[j] != x by {
                if j < r.len() {
                    assert(r.push(s.last())[j] == r[j]);
                }
            }
        }
    }
}

/// Removing `id` from one entry adds nothing to any entry, and leaves no
/// `id` in that entry.
pub proof fn lemma_remove_one_shrinks(index: IndexView, n2: Seq<char>, k2: Seq<char>, id: FactId, n: Seq<char>, k: Seq<char>)
    ensures
        forall|y: FactId| index_ids(indexer_remove_one(index, n2, k2, id), n, k).contains(y)
            ==> index_ids(index, n, k).contains(y),
        n == n2 && k == k2 ==> !index_ids(indexer_remove_one(index, n2, k2, id), n, k).contains(id),
{
    if index.contains_key(n2) && index[n2].contains_key(k2) {
        lemma_remove_id_shrinks(index[n2][k2], id);
    }
}

/// Whether some field of `fields` in `indexed` is `n` with a value whose key
/// is `k`.
pub open spec fn indexes_key(fields: Seq<(Seq<char>, ValueView)>, indexed: Seq<Seq<char>>, n: Seq<char>, k: Seq<char>) -> bool {
    exists|i: int| 0 <= i < fields.len() && indexed.contains(#[trigger] fields[i].0) && fields[i].0 == n && index_key(fields[i].1) == k
}

/// Removing `x` twice removes it once; from a list without `x`, removing
/// it changes nothing.
proof fn lemma_remove_id_facts(s: Seq<FactId>, x: FactId)
    ensures
        remove_id(remove_id(s, x), x) == remove_id(s, x),
        !s.contains(x) ==> remove_id(s, x) == s,
    decreases s.len(),
{
    if s.len() > 0 {
        lemma_remove_id_facts(s.drop_last(), x);
        let r = remove_id(s.drop_last(), x);
        if s.last() != x {
            assert(r.push(s.last()).drop_last() =~= r);
        }
        if !s.contains(x) {
            assert(!s.drop_last().contains(x)) by {
                if s.drop_last().contains(x) {
                    let j = choose|j: int| 0 <= j < s.drop_last().len() && s.drop_last()[j] == x;
                    assert(s[j] == x);
                }
            }
            assert(s[s.len() - 1] == s.last());
            assert(s.drop_last().push(s.last()) =~= s);
        }
    }
}

/// Indexing a fact only appends its id: with the id taken out, every entry
/// is as before, and entries of keys it does not have are unchanged.
proof fn lemma_add_then_strip(index: IndexView, fields: Seq<(Seq<char>, ValueView)>, id: FactId, indexed: Seq<Seq<char>>, n: Seq<char>, k: Seq<char>)
    ensures
        remove_id(index_ids(indexer_add(index, fields, id, indexed), n, k), id) == remove_id(index_ids(index, n, k), id),
        !indexes_key(fields, indexed, n, k) ==> index_ids(indexer_add(index, fields, id, indexed), n, k) == index_ids(index, n, k),
    decreases fields.len(),
{
    if fields.len() > 0 {
        let d = fields.drop_last();
        lemma_add_then_strip(index, d, id, indexed, n, k);
        let rest = indexer_add(index, d, id, indexed);
        let (n2, v2) = fields.last();
        if indexed.contains(n2) {
            lemma_index_push_ids(rest, n2, index_key(v2), id, n, k);
            let s = index_ids(rest, n, k);
            assert(s.push(id).drop_last() =~= s);
        }
        if !indexes_key(fields, indexed, n, k) {
            assert(!indexes_key(d, indexed, n, k)) by {
                if indexes_key(d, indexed, n, k) {
                    let i = choose|i: int| 0 <= i < d.len() && indexed.contains(#[trigger] d[i].0) && d[i].0 == n && index_key(d[i].1) == k;
                    assert(fields[i] == d[i]);
                }
            }
            if indexed.contains(n2) {
                assert(fields[fields.len() - 1] == fields.last());
                assert(!(n2 == n && index_key(v2) == k));
            }
        }
    }
}

/// Removing `id` from one entry takes it out of that entry's list and
/// leaves every other entry alone.
proof fn lemma_remove_one_ids(index: IndexView, n2: Seq<char>, k2: Seq<char>, id: FactId, n: Seq<char>, k: Seq<char>)
    ensures
        index_ids(indexer_remove_one(index, n2, k2, id), n, k) == if n == n2 && k == k2 {
            remove_id(index_ids(index, n, k), id)
        } else {
            index_ids(index, n, k)
        },
{
    let target = if n == n2 && k == k2 { remove_id(index_ids(index, n, k), id) } else { index_ids(index, n, k) };
    if index.contains_key(n2) {
        let i1 = index_remove(index, n2, k2, id);
        assert(i1.contains_key(n2));
        assert(index_ids(i1, n, k) == target) by {
            if index[n2].contains_key(k2) {
                let r = remove_id(index[n2][k2], id);
                if r.len() == 0 {
                    assert(r =~= Seq::<FactId>::empty());
                }
            } else if n == n2 && k == k2 {
                assert(index_ids(index, n, k) =~= Seq::<FactId>::empty());
            }
        }
        if i1[n2].dom() == Set::<Seq<char>>::empty() {
            let res = i1.remove(n2);
            assert(indexer_remove_one(index, n2, k2, id) == res);
            if n == n2 {
                assert(!i1[n2].dom().contains(k));
                assert(!i1[n2].contains_key(k));
                assert(index_ids(i1, n, k) =~= Seq::<FactId>::empty());
                assert(index_ids(res, n, k) =~= Seq::<FactId>::empty());
            } else {
                assert(res.contains_key(n) == i1.contains_key(n));
                if res.contains_key(n) {
                    assert(res[n] == i1[n]);
                }
            }
        } else {
            assert(indexer_remove_one(index, n2, k2, id) == i1);
        }
    } else {
        if n == n2 && k == k2 {
            assert(index_ids(index, n, k) =~= Seq::<FactId>::empty());
        }
    }
}

/// Removing a fact's entries takes its id out of the entries of the keys it
/// has and leaves every other entry alone.
proof fn lemma_remove_entries(index: IndexView, fields: Seq<(Seq<char>, ValueView)>, id: FactId, indexed: Seq<Seq<char>>, n: Seq<char>, k: Seq<char>)
    ensures
        index_ids(indexer_remove(index, fields, id, indexed), n, k) == if indexes_key(fields, indexed, n, k) {
            remove_id(index_ids(index, n, k), id)
        } else {
            index_ids(index, n, k)
        },
    decreases fields.len(),
{
    if fields.len() > 0 {
        let d = fields.drop_last();
        lemma_remove_entries(index, d, id, indexed, n, k);
        let rest = indexer_remove(index, d, id, indexed);
        let (n2, v2) = fields.last();
        let k2 = index_key(v2);
        assert(fields[fields.len() - 1] == fields.last());
        assert forall|i: int| 0 <= i < d.len() implies d[i] == fields[i] by {}
        if indexes_key(d, indexed, n, k) {
            let i = choose|i: int| 0 <= i < d.len() && indexed.contains(#[trigger] d[i].0) && d[i].0 == n && index_key(d[i].1) == k;
            assert(fields[i] == d[i]);
        }
        if indexes_key(fields, indexed, n, k) && !indexes_key(d, indexed, n, k) {
            let i = choose|i: int| 0 <= i < fields.len() && indexed.contains(#[trigger] fields[i].0) && fields[i].0 == n && index_key(fields[i].1) == k;
            if i < d.len() {
                assert(d[i] == fields[i]);
            }
        }
        if indexed.contains(n2) {
            lemma_remove_one_ids(rest, n2, k2, id, n, k);
            lemma_remove_id_facts(index_ids(index, n, k), id);
        }
    }
}

/// Indexing a fact whose id no entry lists and then removing its entries
/// leaves every entry as it was, so every search gives what it gave before.
pub proof fn law_index_then_remove_is_identity(
    index: IndexView,
    fields: Seq<(Seq<char>, ValueView)>,
    id: FactId,
    indexed: Seq<Seq<char>>,
    n: Seq<char>,
    k: Seq<char>,
)
    requires
        forall|n2: Seq<char>, k2: Seq<char>| !(#[trigger] index_ids(index, n2, k2)).contains(id),
    ensures
        index_ids(indexer_remove(indexer_add(index, fields, id, indexed), fields, id, indexed), n, k) == index_ids(index, n, k),
{
    let added = indexer_add(index, fields, id, indexed);
    lemma_remove_entries(added, fields, id, indexed, n, k);
    lemma_add_then_strip(index, fields, id, indexed, n, k);
    assert(!index_ids(index, n, k).contains(id));
    lemma_remove_id_facts(index_ids(index, n, k), id);
}

/// After a fact is indexed, a search on any of its indexed fields' values
/// finds its id.
pub proof fn law_index_then_find(
    index: IndexView,
    fields: Seq<(Seq<char>, ValueView)>,
    id: FactId,
    indexed: Seq<Seq<char>>,
    i: int,
)
    requires
        0 <= i < fields.len(),
        indexed.contains(fields[i].0),
    ensures
        index_ids(indexer_add(index, fields, id, indexed), fields[i].0, index_key(fields[i].1)).contains(id),
    decreases fields.len(),
{
    let last = fields.len() - 1;
    let rest = indexer_add(index, fields.drop_last(), id, indexed);
    let (n2, v2) = fields.last();
    if i == last {
        lemma_index_push_ids(rest, n2, index_key(v2), id, fields[i].0, index_key(fields[i].1));
        assert(index_ids(rest, n2, index_key(v2)).push(id).last() == id);
    } else {
        assert(fields.drop_last()[i] == fields[i]);
        law_index_then_find(index, fields.drop_last(), id, indexed, i);
        if indexed.contains(n2) {
            lemma_index_push_ids(rest, n2, index_key(v2), id, fields[i].0, index_key(fields[i].1));
            let before = index_ids(rest, fields[i].0, index_key(fields[i].1));
            let j = choose|j: int| 0 <= j < before.len() && before[j] == id;
            assert(before.push(id)[j] == id);
        }
    }
}

/// After a fact is removed, a search on any of its indexed fields' values
/// no longer finds its id.
pub proof fn law_remove_then_absent(
    index: IndexView,
    fields: Seq<(Seq<char>, ValueView)>,
    id: FactId,
    indexed: Seq<Seq<char>>,
    i: int,
)
    requires
        0 <= i < fields.len(),
        indexed.contains(fields[i].0),
    ensures
        !index_ids(indexer_remove(index, fields, id, indexed), fields[i].0, index_key(fields[i].1)).contains(id),
    decreases fields.len(),
{
    let last = fields.len() - 1;
    let rest = indexer_remove(index, fields.drop_last(), id, indexed);
    let (n2, v2) = fields.last();
    let n = fields[i].0;
    let k = index_key(fields[i].1);
    if i == last {
        lemma_remove_one_shrinks(rest, n2, index_key(v2), id, n, k);
    } else {
        assert(fields.drop_last()[i] == fields[i]);
        law_remove_then_absent(index, fields.drop_last(), id, indexed, i);
        if indexed.contains(n2) {
            lemma_remove_one_shrinks(rest, n2, index_key(v2), id, n, k);
        }
    }
}

/// Whether `name` is one of `fields`.
pub fn contains_string(fields: &Vec<String>, name: &str) -> (b: bool)
    ensures
        b == strs_view(fields@).contains(name@),
{
    let n = fields.len();
    let mut i: usize = 0;
    while i < n
        invariant
            n == fields@.len(),
            i <= n,
            forall|j: int| 0 <= j < i ==> fields@[j]@ != name@,
        decreases n - i,
    {
        if str_eq(fields[i].as_str(), name) {
            assert(strs_view(fields@)[i as int] == name@);
            return true;
        }
        i = i + 1;
    }
    proof {
        if strs_view(fields@).contains(name@) {
            let j = choose|j: int| 0 <= j < strs_view(fields@).len() && strs_view(fields@)[j] == name@;
            assert(fields@[j]@ == name@);
        }
    }
    false
}

/// Statistics of a field indexer.
#[derive(Debug, Clone, Copy, PartialEq, Eq, Structural)]
pub struct FieldIndexStats {
    pub indexed_fields: usize,
    pub total_indexes: usize,
    pub total_entries: usize,
    pub total_fact_refs: usize,
    pub memory_usage_bytes: usize,
}

impl FieldIndexStats {
    /// Entries per field index.
    pub fn avg_entries_per_index(&self) -> (r: Ratio)
        ensures
            r == (Ratio { part: self.total_entries, whole: self.total_indexes }),
    {
        Ratio { part: self.total_entries, whole: self.total_indexes }
    }

    /// Fact references per entry.
    pub fn avg_facts_per_entry(&self) -> (r: Ratio)
        ensures
            r == (Ratio { part: self.total_fact_refs, whole: self.total_entries }),
    {
        Ratio { part: self.total_fact_refs, whole: self.total_entries }
    }

    /// Index efficiency: fact references per entry (lower means more
    /// selective).
    pub fn index_efficiency(&self) -> (r: Ratio)
        ensures
            r == (Ratio { part: self.total_fact_refs, whole: self.total_entries }),
    {
        self.avg_facts_per_entry()
    }
}

/// Estimated bytes of one entry of a field's index: its key, its ids and
/// the vector holding them.
pub open spec fn entry_memory(fm: Map<Seq<char>, Seq<FactId>>) -> spec_fn(Seq<char>) -> nat {
    |k: Seq<char>| encode_utf8(k).len() + fm[k].len() * vstd::layout::size_of::<FactId>()
        + vstd::layout::size_of::<Vec<FactId>>()
}

/// Estimated bytes of one field's index: its name, its map and its
/// entries.
pub open spec fn field_memory(index: IndexView) -> spec_fn(Seq<char>) -> nat {
    |n: Seq<char>| encode_utf8(n).len() + vstd::layout::size_of::<StrMap<Vec<FactId>>>()
        + sum_over(index[n].dom(), entry_memory(index[n]))
}

/// Estimated bytes of an indexer with this index.
pub open spec fn index_memory(index: IndexView) -> nat {
    vstd::layout::size_of::<FieldIndexer>() + sum_over(index.dom(), field_memory(index))
}

/// Estimated bytes of the entries of one field's index.
fn entries_memory(fm: &StrMap<Vec<FactId>>) -> (c: usize)
    requires
        fm.wf(),
        sum_over(inner_model(*fm).dom(), entry_memory(inner_model(*fm))) <= usize::MAX,
    ensures
        c == sum_over(inner_model(*fm).dom(), entry_memory(inner_model(*fm))),
{
    let ghost m = inner_model(*fm);
    let ghost ks = fm.key_seq();
    let ghost f = entry_memory(m);
    proof {
        fm.lemma_entries();
        assert(m.dom() =~= ks.to_set());
        lemma_seq_sum_set(ks, f);
    }
    let id_size = core::mem::size_of::<FactId>();
    let vec_size = core::mem::size_of::<Vec<FactId>>();
    let n = fm.len();
    let mut c: usize = 0;
    let mut j: usize = 0;
    while j < n
        invariant
            fm.wf(),
            n == ks.len(),
            ks == fm.key_seq(),
            m == inner_model(*fm),
            f == entry_memory(m),
            id_size == vstd::layout::size_of::<FactId>(),
            vec_size == vstd::layout::size_of::<Vec<FactId>>(),
            j <= n,
            c == seq_sum(ks.take(j as int), f),
            seq_sum(ks, f) <= usize::MAX,
            forall|i: int| 0 <= i < ks.len() ==> #[trigger] fm.view().contains_key(ks[i])
                && fm.view()[ks[i]] == fm.val_seq()[i],
        decreases n - j,
    {
        let key = fm.key_at(j);
        let ids = fm.value_at(j);
        proof {
            assert(ks.take(j + 1).drop_last() =~= ks.take(j as int));
            assert(ks.take(j + 1).last() == ks[j as int]);
            assert(fm.view().contains_key(ks[j as int]));
            lemma_seq_sum_prefix(ks, f, j + 1);
            assert(f(ks[j as int]) == encode_utf8(key@).len() + ids@.len() * id_size + vec_size);
            assert(ids@.len() * id_size >= 0) by (nonlinear_arith)
                requires id_size >= 0;
        }
        let key_bytes = key.as_str().len();
        let id_bytes = ids.len() * id_size;
        c = c + key_bytes + id_bytes + vec_size;
        j = j + 1;
    }
    proof {
        assert(ks.take(n as int) =~= ks);
    }
    c
}

/// Field index over a configurable list of fields.
#[derive(Debug)]
pub struct FieldIndexer {
    indexes: StrMap<StrMap<Vec<FactId>>>,
    indexed_fields: Vec<String>,
}

impl FieldIndexer {
    /// The index model: field -> value key -> fact ids.
    pub closed spec fn index(&self) -> IndexView {
        index_model(self.indexes.view())
    }

    /// The fields that are indexed.
    pub closed spec fn fields(&self) -> Seq<Seq<char>> {
        strs_view(self.indexed_fields@)
    }

    /// Internal consistency of the index maps.
    pub closed spec fn wf(&self) -> bool {
        index_wf(self.indexes)
    }

    /// The default indexed fields: `entity_id`, `id`, `user_id`,
    /// `customer_id`, `status`, `category`.
    pub fn default_indexed_fields() -> (v: Vec<String>)
        ensures
            strs_view(v@) == default_fields_spec(),
    {
        proof {
            reveal_strlit("entity_id");
            reveal_strlit("id");
            reveal_strlit("user_id");
            reveal_strlit("customer_id");
            reveal_strlit("status");
            reveal_strlit("category");
            assert("entity_id"@ =~= seq!['e', 'n', 't', 'i', 't', 'y', '_', 'i', 'd']);
            assert("id"@ =~= seq!['i', 'd']);
            assert("user_id"@ =~= seq!['u', 's', 'e', 'r', '_', 'i', 'd']);
            assert("customer_id"@ =~= seq!['c', 'u', 's', 't', 'o', 'm', 'e', 'r', '_', 'i', 'd']);
            assert("status"@ =~= seq!['s', 't', 'a', 't', 'u', 's']);
            assert("category"@ =~= seq!['c', 'a', 't', 'e', 'g', 'o', 'r', 'y']);
        }
        let mut v: Vec<String> = Vec::new();
        v.push(String::from_str("entity_id"));
        v.push(String::from_str("id"));
        v.push(String::from_str("user_id"));
        v.push(String::from_str("customer_id"));
        v.push(String::from_str("status"));
        v.push(String::from_str("category"));
        assert(strs_view(v@) =~= default_fields_spec());
        v
    }

    /// An empty index over the default fields.
    pub fn new() -> (r: FieldIndexer)
        ensures
            r.wf(),
            r.index() == IndexView::empty(),
            r.fields() == default_fields_spec(),
    {
        let r = FieldIndexer { indexes: StrMap::new(), indexed_fields: Self::default_indexed_fields() };
        assert(r.index() =~= IndexView::empty());
        r
    }

    /// An empty index over the given fields.
    pub fn with_fields(fields: Vec<String>) -> (r: FieldIndexer)
        ensures
            r.wf(),
            r.index() == IndexView::empty(),
            r.fields() == strs_view(fields@),
    {
        let r = FieldIndexer { indexes: StrMap::new(), indexed_fields: fields };
        assert(r.index() =~= IndexView::empty());
        r
    }

    /// Indexes the fact's indexed fields under its id.
    pub fn index_fact(&mut self, fact: &Fact)
        requires
            old(self).wf(),
        ensures
            final(self).wf(),
            final(self).fields() == old(self).fields(),
            final(self).index() == indexer_add(old(self).index(), fact.data@, fact.id, old(self).fields()),
    {
        let ghost old_index = self.index();
        let data = &fact.data;
        let n = data.len();
        let mut i: usize = 0;
        while i < n
            invariant
                self.wf(),
                n == data@.len(),
                i <= n,
                self.fields() == old(self).fields(),
                self.index() == indexer_add(old_index, data@.take(i as int), fact.id, self.fields()),
            decreases n - i,
        {
            let name = data.name_at(i);
            proof {
                assert(data@.take(i + 1).drop_last() =~= data@.take(i as int));
                assert(data@.take(i + 1).last() == data@[i as int]);
            }
            if contains_string(&self.indexed_fields, name.as_str()) {
                let key = data.value_at(i).as_string();
                index_map_push(&mut self.indexes, name, key, fact.id);
            }
            i = i + 1;
        }
        proof {
            assert(data@.take(n as int) =~= data@);
        }
    }

    /// Removes the fact's index entries; emptied entries and fields are
    /// dropped.
    pub fn remove_fact(&mut self, fact: &Fact)
        requires
            old(self).wf(),
        ensures
            final(self).wf(),
            final(self).fields() == old(self).fields(),
            final(self).index() == indexer_remove(old(self).index(), fact.data@, fact.id, old(self).fields()),
    {
        let ghost old_index = self.index();
        let data = &fact.data;
        let n = data.len();
        let mut i: usize = 0;
        while i < n
            invariant
                self.wf(),
                n == data@.len(),
                i <= n,
                self.fields() == old(self).fields(),
                self.index() == indexer_remove(old_index, data@.take(i as int), fact.id, self.fields()),
            decreases n - i,
        {
            let name = data.name_at(i);
            proof {
                assert(data@.take(i + 1).drop_last() =~= data@.take(i as int));
                assert(data@.take(i + 1).last() == data@[i as int]);
            }
            if contains_string(&self.indexed_fields, name.as_str()) {
                let key = data.value_at(i).as_string();
                self.remove_one(name, key, fact.id);
            }
            i = i + 1;
        }
        proof {
            assert(data@.take(n as int) =~= data@);
        }
    }

    /// Removes `id` under field `n`, key `k`, dropping emptied entries and
    /// fields.
    fn remove_one(&mut self, n: &String, k: String, id: FactId)
        requires
            old(self).wf(),
        ensures
            final(self).wf(),
            final(self).fields() == old(self).fields(),
            final(self).index() == indexer_remove_one(old(self).index(), n@, k@, id),
    {
        let ghost old_index = self.index();
        proof {
            self.indexes.lemma_entries();
        }
        if !self.indexes.contains_key(n.as_str()) {
            return;
        }
        assert(old_index.contains_key(n@));
        index_map_remove(&mut self.indexes, n, k, id);
        proof {
            self.indexes.lemma_entries();
            assert(self.index().contains_key(n@));
            assert(self.indexes.view().contains_key(n@));
        }
        let p = match self.indexes.position(n.as_str()) {
            Some(p) => p,
            None => {
                assert(false);
                return;
            },
        };
        assert(self.indexes.view().contains_key(self.indexes.key_seq()[p as int]));
        let empty = self.indexes.value_at(p).len() == 0;
        proof {
            let fm = self.indexes.view()[n@];
            fm.lemma_entries();
            vstd::set_lib::lemma_set_empty_equivalency_len(fm.view().dom());
            assert(self.index()[n@].dom() =~= fm.view().dom());
        }
        if empty {
            let ghost before = self.index();
            let _ = self.indexes.remove_at(p);
            proof {
                assert(self.index() =~= before.remove(n@));
            }
        }
    }

    /// Statistics: the indexed fields, the field indexes in use, their
    /// entries and fact references, and an estimate of the memory used.
    pub fn stats(&self) -> (r: FieldIndexStats)
        requires
            self.wf(),
            total_values(self.index()) <= usize::MAX,
            total_refs(self.index()) <= usize::MAX,
            index_memory(self.index()) <= usize::MAX,
        ensures
            r.indexed_fields == self.fields().len(),
            r.total_indexes == self.index().dom().len(),
            r.total_entries == total_values(self.index()),
            r.total_fact_refs == total_refs(self.index()),
            r.memory_usage_bytes == index_memory(self.index()),
    {
        let outer = &self.indexes;
        let ghost index = self.index();
        let ghost ks = outer.key_seq();
        let ghost fm_of = field_memory(index);
        proof {
            outer.lemma_entries();
            assert(index.dom() =~= ks.to_set());
            lemma_seq_sum_set(ks, keys_count(index));
            lemma_seq_sum_set(ks, refs_count(index));
            lemma_seq_sum_set(ks, fm_of);
        }
        let map_size = core::mem::size_of::<StrMap<Vec<FactId>>>();
        let self_size = core::mem::size_of::<FieldIndexer>();
        let n = outer.len();
        let mut entries: usize = 0;
        let mut refs: usize = 0;
        let mut memory: usize = 0;
        let mut i: usize = 0;
        while i < n
            invariant
                self.wf(),
                outer == &self.indexes,
                index == self.index(),
                fm_of == field_memory(index),
                map_size == vstd::layout::size_of::<StrMap<Vec<FactId>>>(),
                ks == outer.key_seq(),
                n == ks.len(),
                i <= n,
                entries == seq_sum(ks.take(i as int), keys_count(index)),
                refs == seq_sum(ks.take(i as int), refs_count(index)),
                memory == seq_sum(ks.take(i as int), fm_of),
                seq_sum(ks, keys_count(index)) <= usize::MAX,
                seq_sum(ks, refs_count(index)) <= usize::MAX,
                seq_sum(ks, fm_of) <= usize::MAX,
                forall|t: int| 0 <= t < ks.len() ==> #[trigger] outer.view().contains_key(ks[t])
                    && outer.view()[ks[t]] == outer.val_seq()[t],
            decreases n - i,
        {
            let name = outer.key_at(i);
            let fm = outer.value_at(i);
            let ghost k = ks[i as int];
            proof {
                assert(outer.view().contains_key(k));
                assert(index[k] == inner_model(*fm));
                assert(fm.wf());
                fm.lemma_entries();
                assert(inner_model(*fm).dom() =~= fm.view().dom());
                assert(ks.take(i + 1).drop_last() =~= ks.take(i as int));
                assert(ks.take(i + 1).last() == k);
                lemma_seq_sum_prefix(ks, keys_count(index), i + 1);
                lemma_seq_sum_prefix(ks, refs_count(index), i + 1);
                lemma_seq_sum_prefix(ks, fm_of, i + 1);
                assert(keys_count(index)(k) == fm.view().dom().len());
                assert(refs_count(index)(k) == entry_refs(inner_model(*fm)));
                assert(fm_of(k) == encode_utf8(name@).len() + map_size
                    + sum_over(inner_model(*fm).dom(), entry_memory(inner_model(*fm))));
            }
            let unique = fm.len();
            let facts = entry_fact_count(fm);
            let entry_bytes = entries_memory(fm);
            entries = entries + unique;
            refs = refs + facts;
            memory = memory + name.as_str().len() + map_size + entry_bytes;
            i = i + 1;
        }
        proof {
            assert(ks.take(n as int) =~= ks);
        }
        FieldIndexStats {
            indexed_fields: self.indexed_fields.len(),
            total_indexes: n,
            total_entries: entries,
            total_fact_refs: refs,
            memory_usage_bytes: self_size + memory,
        }
    }

    /// Ids indexed under field `field` for the key of `value`; none when
    /// there is no such entry.
    pub fn find_by_field(&self, field: &str, value: &FactValue) -> (r: Vec<FactId>)
        requires
            self.wf(),
        ensures
            r@ == index_ids(self.index(), field@, index_key(value@)),
    {
        let key = value.as_string();
        proof {
            self.indexes.lemma_entries();
        }
        match self.indexes.get(field) {
            Some(fm) => {
                proof {
                    fm.lemma_entries();
                }
                match fm.get(key.as_str()) {
                    Some(ids) => copy_id_vec(ids),
                    None => Vec::new(),
                }
            },
            None => Vec::new(),
        }
    }

    /// Ids that every criterion lists, in the order of the first
    /// criterion's ids; none for no criteria.
    pub fn find_by_criteria(&self, criteria: &[(String, FactValue)]) -> (r: Vec<FactId>)
        requires
            self.wf(),
        ensures
            r@ == indexer_criteria(self.index(), criteria_view(criteria@)),
    {
        let ghost crit = criteria_view(criteria@);
        let n = criteria.len();
        if n == 0 {
            return Vec::new();
        }
        let mut candidates = self.find_by_field(criteria[0].0.as_str(), &criteria[0].1);
        let mut i: usize = 1;
        proof {
            assert(crit.take(1).len() == 1);
            assert(crit.take(1)[0] == crit[0]);
        }
        while i < n
            invariant
                self.wf(),
                n == criteria@.len(),
                crit == criteria_view(criteria@),
                1 <= i <= n,
                candidates@ == indexer_criteria(self.index(), crit.take(i as int)),
            decreases n - i,
        {
            let matching = self.find_by_field(criteria[i].0.as_str(), &criteria[i].1);
            candidates = retain_contained(&candidates, &matching);
            proof {
                assert(crit.take(i + 1).drop_last() =~= crit.take(i as int));
                assert(crit.take(i + 1).last() == crit[i as int]);
            }
            i = i + 1;
        }
        proof {
            assert(crit.take(n as int) =~= crit);
        }
        candidates
    }

    /// Empties the index; the indexed fields stay.
    pub fn clear(&mut self)
        ensures
            final(self).wf(),
            final(self).fields() == old(self).fields(),
            final(self).index() == IndexView::empty(),
    {
        self.indexes.clear();
        assert(self.index() =~= IndexView::empty());
    }

    /// The indexed fields.
    pub fn get_indexed_fields(&self) -> (r: &[String])
        ensures
            strs_view(r@) == self.fields(),
    {
        self.indexed_fields.as_slice()
    }

    /// Replaces the indexed fields and empties the index.
    pub fn set_indexed_fields(&mut self, fields: Vec<String>)
        ensures
            final(self).wf(),
            final(self).fields() == strs_view(fields@),
            final(self).index() == IndexView::empty(),
    {
        self.clear();
        self.indexed_fields = fields;
    }
}

impl Default for FieldIndexer {
    fn default() -> (r: FieldIndexer)
        ensures
            r.wf(),
            r.index() == IndexView::empty(),
            r.fields() == default_fields_spec(),
    {
        FieldIndexer::new()
    }
}

/// A copy of an id list.
fn copy_id_vec(v: &Vec<FactId>) -> (r: Vec<FactId>)
    ensures
        r@ == v@,
{
    let n = v.len();
    let mut r: Vec<FactId> = Vec::new();
    let mut i: usize = 0;
    while i < n
        invariant
            n == v@.len(),
            i <= n,
            r@ == v@.take(i as int),
        decreases n - i,
    {
        r.push(v[i]);
        proof {
            assert(v@.take(i + 1) =~= v@.take(i as int).push(v@[i as int]));
        }
        i = i + 1;
    }
    proof {
        assert(v@.take(n as int) =~= v@);
    }
    r
}

/// The elements of `s` that occur in `other`, in order.
fn retain_contained(s: &Vec<FactId>, other: &Vec<FactId>) -> (r: Vec<FactId>)
    ensures
        r@ == retain_in(s@, other@),
{
    let n = s.len();
    let mut r: Vec<FactId> = Vec::new();
    let mut i: usize = 0;
    while i < n
        invariant
            n == s@.len(),
            i <= n,
            r@ == retain_in(s@.take(i as int), other@),
        decreases n - i,
    {
        proof {
            assert(s@.take(i + 1).drop_last() =~= s@.take(i as int));
        }
        if crate::fact_store::contains_id(other, s[i]) {
            r.push(s[i]);
        }
        i = i + 1;
    }
    proof {
        assert(s@.take(n as int) =~= s@);
    }
    r
}

} // verus!
