//! Incremental fact processing: a content hash per fact tells new,
//! modified and unchanged facts apart between processing cycles, and facts
//! that are gone are reported as deleted.

use vstd::prelude::*;
use std::collections::hash_map::DefaultHasher;
use std::collections::{HashMap, HashSet};
use std::hash::Hasher;
use std::time::Duration;
use crate::clock::duration_whole_secs;
use vstd::std_specs::hash::DefaultHasherAdditionalSpecFns;
use vstd::std_specs::iter::IteratorSpec;
use crate::fact_store::fact_views;
use crate::pattern_cache::str_writes;
use crate::text::{canonical_strs, lemma_canonical_strs, lemma_canonical_strs_exists, sort_strings, strs_view};
use crate::types::{Fact, FactId, FactValue, FactView, Ratio, ValueView, lookup};

verus! {

broadcast use vstd::std_specs::hash::group_hash_axioms;

/// The `n` low bytes of `x`, least significant first.
pub open spec fn le_bytes(x: nat, n: nat) -> Seq<u8>
    decreases n,
{
    if n == 0 {
        Seq::empty()
    } else {
        seq![(x % 256) as u8] + le_bytes(x / 256, (n - 1) as nat)
    }
}

fn le_bytes_exec(x: u64) -> (b: Vec<u8>)
    ensures
        b@ == le_bytes(x as nat, 8),
{
    let mut b: Vec<u8> = Vec::new();
    let mut rest: u64 = x;
    let mut k: usize = 0;
    while k < 8
        invariant
            k <= 8,
            b@ + le_bytes(rest as nat, (8 - k) as nat) == le_bytes(x as nat, 8),
        decreases 8 - k,
    {
        let ghost before = b@;
        b.push((rest % 256) as u8);
        proof {
            assert(le_bytes(rest as nat, (8 - k) as nat) == seq![(rest % 256) as u8] + le_bytes((rest / 256) as nat, (8 - k - 1) as nat));
            assert(b@ + le_bytes((rest / 256) as nat, (8 - k - 1) as nat) =~= before + le_bytes(rest as nat, (8 - k) as nat));
        }
        rest = rest / 256;
        k = k + 1;
    }
    proof {
        assert(b@ + le_bytes(rest as nat, 0) =~= b@);
    }
    b
}

/// The writes that hashing a value makes: its variant's index in eight
/// bytes, then its content.
pub open spec fn value_writes(v: ValueView) -> Seq<Seq<u8>> {
    match v {
        ValueView::Str(s) => seq![le_bytes(0, 8)] + str_writes(s),
        ValueView::Int(i) => seq![le_bytes(1, 8), le_bytes((i as u64) as nat, 8)],
        ValueView::Bool(b) => seq![le_bytes(2, 8), seq![if b { 1u8 } else { 0u8 }]],
        ValueView::Date(ms) => seq![le_bytes(3, 8), le_bytes((ms as u64) as nat, 8)],
        ValueView::Null => seq![le_bytes(4, 8)],
    }
}

/// The names of a fact's fields.
pub open spec fn field_names(fields: Seq<(Seq<char>, ValueView)>) -> Seq<Seq<char>> {
    fields.map_values(|p: (Seq<char>, ValueView)| p.0)
}

/// The writes for the fields under the given names, in order.
pub open spec fn fields_writes(fields: Seq<(Seq<char>, ValueView)>, names: Seq<Seq<char>>) -> Seq<Seq<u8>>
    decreases names.len(),
{
    if names.len() == 0 {
        Seq::empty()
    } else {
        fields_writes(fields, names.drop_last()) + str_writes(names.last()) + match lookup(fields, names.last()) {
            Some(v) => value_writes(v),
            None => Seq::empty(),
        }
    }
}

/// The writes that hashing a fact makes: its id, then each field, by
/// ascending name.
pub open spec fn fact_feed(f: FactView) -> Seq<Seq<u8>> {
    seq![le_bytes(f.id as nat, 8)] + fields_writes(f.fields, canonical_strs(field_names(f.fields)))
}

/// `256` to the power `n`.
pub open spec fn pow256(n: nat) -> nat
    decreases n,
{
    if n == 0 { 1 } else { 256 * pow256((n - 1) as nat) }
}

/// Eight bytes hold the numbers below `2^64`.
proof fn lemma_pow256_8()
    ensures
        pow256(8) == 0x1_0000_0000_0000_0000,
{
    reveal_with_fuel(pow256, 9);
}

/// Numbers below `256^n` are told apart by their `n` low bytes.
proof fn lemma_le_bytes_injective(x: nat, y: nat, n: nat)
    requires
        le_bytes(x, n) == le_bytes(y, n),
        x < pow256(n),
        y < pow256(n),
    ensures
        x == y,
    decreases n,
{
    if n > 0 {
        let k = (n - 1) as nat;
        let a = le_bytes(x, n);
        let b = le_bytes(y, n);
        assert(a[0] == (x % 256) as u8);
        assert(b[0] == (y % 256) as u8);
        assert(a.drop_first() =~= le_bytes(x / 256, k));
        assert(b.drop_first() =~= le_bytes(y / 256, k));
        let pk = pow256(k);
        assert(x / 256 < pk) by (nonlinear_arith)
            requires x < 256 * pk;
        assert(y / 256 < pk) by (nonlinear_arith)
            requires y < 256 * pk;
        lemma_le_bytes_injective(x / 256, y / 256, k);
        assert(x % 256 == y % 256);
        assert(x == 256 * (x / 256) + x % 256) by (nonlinear_arith);
        assert(y == 256 * (y / 256) + y % 256) by (nonlinear_arith);
    }
}

/// The first byte written for variant tag `k`.
proof fn lemma_tag_byte(k: nat)
    requires
        k < 256,
    ensures
        le_bytes(k, 8)[0] == k as u8,
{
    assert(le_bytes(k, 8) == seq![(k % 256) as u8] + le_bytes(k / 256, 7));
}

/// Different values are written differently: their writes differ at the
/// tag or at the first write of the content.
proof fn lemma_value_writes_differ(v1: ValueView, v2: ValueView) -> (c: int)
    requires
        v1 != v2,
    ensures
        0 <= c < value_writes(v1).len(),
        c < value_writes(v2).len(),
        value_writes(v1)[c] != value_writes(v2)[c],
{
    lemma_tag_byte(0);
    lemma_tag_byte(1);
    lemma_tag_byte(2);
    lemma_tag_byte(3);
    lemma_tag_byte(4);
    let w1 = value_writes(v1);
    let w2 = value_writes(v2);
    match (v1, v2) {
        (ValueView::Str(a), ValueView::Str(b)) => {
            vstd::utf8::encode_utf8_decode_utf8(a);
            vstd::utf8::encode_utf8_decode_utf8(b);
            assert(w1[1] == vstd::utf8::encode_utf8(a));
            assert(w2[1] == vstd::utf8::encode_utf8(b));
            1
        },
        (ValueView::Int(a), ValueView::Int(b)) => {
            assert((a as u64) == (b as u64) ==> a == b) by (bit_vector);
            lemma_pow256_8();
            if w1[1] == w2[1] {
                lemma_le_bytes_injective((a as u64) as nat, (b as u64) as nat, 8);
            }
            1
        },
        (ValueView::Date(a), ValueView::Date(b)) => {
            assert((a as u64) == (b as u64) ==> a == b) by (bit_vector);
            lemma_pow256_8();
            if w1[1] == w2[1] {
                lemma_le_bytes_injective((a as u64) as nat, (b as u64) as nat, 8);
            }
            1
        },
        (ValueView::Bool(a), ValueView::Bool(b)) => {
            assert(w1[1][0] != w2[1][0]);
            1
        },
        _ => {
            assert(w1[0][0] != w2[0][0]);
            0
        },
    }
}

/// A name of the fields has a value.
proof fn lemma_lookup_present(fields: Seq<(Seq<char>, ValueView)>, n: Seq<char>)
    requires
        field_names(fields).contains(n),
    ensures
        lookup(fields, n) is Some,
    decreases fields.len(),
{
    let i = choose|i: int| 0 <= i < field_names(fields).len() && field_names(fields)[i] == n;
    if fields[0].0 != n {
        assert(i > 0);
        assert(field_names(fields.drop_first())[i - 1] == n);
        lemma_lookup_present(fields.drop_first(), n);
    }
}

/// The writes for the first `m` names begin the writes for all of them.
proof fn lemma_fields_writes_prefix(fields: Seq<(Seq<char>, ValueView)>, names: Seq<Seq<char>>, m: int)
    requires
        0 <= m <= names.len(),
    ensures
        fields_writes(fields, names.take(m)).len() <= fields_writes(fields, names).len(),
        forall|i: int| 0 <= i < fields_writes(fields, names.take(m)).len()
            ==> #[trigger] fields_writes(fields, names)[i] == fields_writes(fields, names.take(m))[i],
    decreases names.len(),
{
    if m == names.len() {
        assert(names.take(m) =~= names);
    } else {
        let d = names.drop_last();
        assert(names.take(m) =~= d.take(m));
        lemma_fields_writes_prefix(fields, d, m);
    }
}

/// Facts whose values agree under the first `k` names write the same for
/// them.
proof fn lemma_fields_writes_agree(
    f1: Seq<(Seq<char>, ValueView)>,
    f2: Seq<(Seq<char>, ValueView)>,
    names: Seq<Seq<char>>,
    k: int,
)
    requires
        0 <= k <= names.len(),
        forall|i: int| 0 <= i < k ==> lookup(f1, #[trigger] names[i]) == lookup(f2, names[i]),
    ensures
        fields_writes(f1, names.take(k)) == fields_writes(f2, names.take(k)),
    decreases k,
{
    if k > 0 {
        let t = names.take(k);
        assert(t.drop_last() =~= names.take(k - 1));
        assert(t.last() == names[k - 1]);
        lemma_fields_writes_agree(f1, f2, names, k - 1);
    }
}

/// The first name, up to `k`, under which the two facts' values differ.
proof fn first_difference(
    f1: Seq<(Seq<char>, ValueView)>,
    f2: Seq<(Seq<char>, ValueView)>,
    names: Seq<Seq<char>>,
    k: int,
) -> (j: int)
    requires
        0 <= k < names.len(),
        lookup(f1, names[k]) != lookup(f2, names[k]),
    ensures
        0 <= j <= k,
        lookup(f1, names[j]) != lookup(f2, names[j]),
        forall|i: int| 0 <= i < j ==> lookup(f1, #[trigger] names[i]) == lookup(f2, names[i]),
    decreases k,
{
    if exists|i: int| 0 <= i < k && lookup(f1, #[trigger] names[i]) != lookup(f2, names[i]) {
        let i = choose|i: int| 0 <= i < k && lookup(f1, #[trigger] names[i]) != lookup(f2, names[i]);
        first_difference(f1, f2, names, i)
    } else {
        k
    }
}

/// Facts with different ids are written differently for hashing.
pub proof fn law_fact_feed_tells_ids_apart(f1: FactView, f2: FactView)
    requires
        f1.id != f2.id,
    ensures
        fact_feed(f1) != fact_feed(f2),
{
    lemma_pow256_8();
    if le_bytes(f1.id as nat, 8) == le_bytes(f2.id as nat, 8) {
        lemma_le_bytes_injective(f1.id as nat, f2.id as nat, 8);
    }
    assert(fact_feed(f1)[0] == le_bytes(f1.id as nat, 8));
    assert(fact_feed(f2)[0] == le_bytes(f2.id as nat, 8));
}

/// Two facts with the same id and the same field names whose values differ
/// under some name are written differently for hashing: every field value,
/// of any kind, is part of what is hashed.
pub proof fn law_fact_feed_tells_values_apart(f1: FactView, f2: FactView, n: Seq<char>)
    requires
        f1.id == f2.id,
        field_names(f1.fields) == field_names(f2.fields),
        field_names(f1.fields).contains(n),
        lookup(f1.fields, n) != lookup(f2.fields, n),
    ensures
        fact_feed(f1) != fact_feed(f2),
{
    let names = field_names(f1.fields);
    let ns = canonical_strs(names);
    lemma_canonical_strs_exists(names);
    names.to_multiset_ensures();
    ns.to_multiset_ensures();
    assert(names.to_multiset().count(n) > 0);
    assert(ns.to_multiset().count(n) > 0);
    assert(ns.contains(n));
    let k0 = choose|i: int| 0 <= i < ns.len() && ns[i] == n;
    let j = first_difference(f1.fields, f2.fields, ns, k0);
    assert(ns.contains(ns[j]));
    assert(ns.to_multiset().count(ns[j]) > 0);
    assert(names.to_multiset().count(ns[j]) > 0);
    assert(names.contains(ns[j]));
    lemma_lookup_present(f1.fields, ns[j]);
    lemma_lookup_present(f2.fields, ns[j]);
    let v1 = lookup(f1.fields, ns[j]).unwrap();
    let v2 = lookup(f2.fields, ns[j]).unwrap();
    lemma_fields_writes_agree(f1.fields, f2.fields, ns, j);
    let pre = fields_writes(f1.fields, ns.take(j));
    let t = ns.take(j + 1);
    assert(t.drop_last() =~= ns.take(j));
    assert(t.last() == ns[j]);
    let w1 = fields_writes(f1.fields, t);
    let w2 = fields_writes(f2.fields, t);
    assert(w1 == pre + str_writes(ns[j]) + value_writes(v1));
    assert(w2 == pre + str_writes(ns[j]) + value_writes(v2));
    let c = lemma_value_writes_differ(v1, v2);
    let idx = pre.len() + 2 + c;
    assert(w1[idx] == value_writes(v1)[c]);
    assert(w2[idx] == value_writes(v2)[c]);
    lemma_fields_writes_prefix(f1.fields, ns, j + 1);
    lemma_fields_writes_prefix(f2.fields, ns, j + 1);
    let all1 = fields_writes(f1.fields, ns);
    let all2 = fields_writes(f2.fields, ns);
    assert(all1[idx] == w1[idx]);
    assert(all2[idx] == w2[idx]);
    assert(fact_feed(f1)[idx + 1] == all1[idx]);
    assert(fact_feed(f2)[idx + 1] == all2[idx]);
}

/// The content hash of a fact.
pub open spec fn fact_hash_spec(f: FactView) -> u64 {
    DefaultHasher::spec_finish(fact_feed(f))
}

fn write_u64(h: &mut DefaultHasher, x: u64)
    ensures
        final(h)@ == old(h)@.push(le_bytes(x as nat, 8)),
{
    let b = le_bytes_exec(x);
    h.write(b.as_slice());
}

fn write_str(h: &mut DefaultHasher, s: &str)
    ensures
        final(h)@ == old(h)@ + str_writes(s@),
{
    h.write(s.as_bytes());
    let end: [u8; 1] = [0xffu8];
    h.write(&end);
    proof {
        assert(end@ =~= seq![0xffu8]);
        assert(final(h)@ =~= old(h)@ + str_writes(s@));
    }
}

fn write_value(h: &mut DefaultHasher, v: &FactValue)
    ensures
        final(h)@ == old(h)@ + value_writes(v@),
{
    match v {
        FactValue::String(s) => {
            write_u64(h, 0);
            write_str(h, s.as_str());
        },
        FactValue::Integer(i) => {
            write_u64(h, 1);
            write_u64(h, *i as u64);
        },
        FactValue::Boolean(b) => {
            write_u64(h, 2);
            let byte: [u8; 1] = [if *b { 1u8 } else { 0u8 }];
            h.write(&byte);
            proof {
                assert(byte@ =~= seq![if *b { 1u8 } else { 0u8 }]);
            }
        },
        FactValue::Date(ms) => {
            write_u64(h, 3);
            write_u64(h, *ms as u64);
        },
        FactValue::Null => {
            write_u64(h, 4);
        },
    }
    proof {
        assert(final(h)@ =~= old(h)@ + value_writes(v@));
    }
}

/// The content hash of a fact: its id and its fields by ascending name.
pub fn compute_fact_hash(fact: &Fact) -> (h: u64)
    ensures
        h == fact_hash_spec(fact@),
{
    let mut hasher = DefaultHasher::new();
    write_u64(&mut hasher, fact.id);
    let n = fact.data.len();
    let ghost fields = fact.data@;
    let mut names: Vec<String> = Vec::new();
    let mut i: usize = 0;
    while i < n
        invariant
            n == fields.len(),
            fields == fact.data@,
            i <= n,
            names@.len() == i,
            strs_view(names@) == field_names(fields).take(i as int),
        decreases n - i,
    {
        let ghost before = names@;
        names.push(fact.data.name_at(i).clone());
        proof {
            assert(names@ =~= before.push(names@[i as int]));
            assert(strs_view(names@) =~= strs_view(before).push(fields[i as int].0));
            assert(strs_view(names@) =~= field_names(fields).take(i + 1));
        }
        i = i + 1;
    }
    proof {
        assert(field_names(fields).take(n as int) =~= field_names(fields));
    }
    let sorted = sort_strings(names);
    let ghost sv = strs_view(sorted@);
    proof {
        lemma_canonical_strs(field_names(fields), sv);
        assert(sv.take(0) =~= Seq::<Seq<char>>::empty());
        assert(hasher@ =~= seq![le_bytes(fact.id as nat, 8)] + fields_writes(fields, sv.take(0)));
    }
    let m = sorted.len();
    let mut j: usize = 0;
    while j < m
        invariant
            m == sorted@.len(),
            sv == strs_view(sorted@),
            fields == fact.data@,
            j <= m,
            hasher@ == seq![le_bytes(fact.id as nat, 8)] + fields_writes(fields, sv.take(j as int)),
        decreases m - j,
    {
        let name = sorted[j].as_str();
        write_str(&mut hasher, name);
        match fact.data.get(name) {
            Some(v) => write_value(&mut hasher, v),
            None => {},
        }
        proof {
            let t = sv.take(j + 1);
            assert(t.drop_last() =~= sv.take(j as int));
            assert(t.last() == sorted@[j as int]@);
            assert(hasher@ =~= seq![le_bytes(fact.id as nat, 8)] + fields_writes(fields, t));
        }
        j = j + 1;
    }
    proof {
        assert(sv.take(m as int) =~= sv);
    }
    hasher.finish()
}

/// How a fact stands against the last processing cycle.
#[derive(Debug, Clone, Copy, PartialEq, Eq, Structural)]
pub enum FactState {
    /// Not seen before.
    New,
    /// Seen before with other content.
    Modified,
    /// Seen before with the same content.
    Unchanged,
    /// Seen before, absent now.
    Deleted,
}

/// Counts of one change-detection cycle.
#[derive(Debug, Clone, Copy, PartialEq, Eq, Structural)]
pub struct ChangeTrackingStats {
    pub total_facts_processed: usize,
    pub new_facts: usize,
    pub modified_facts: usize,
    pub unchanged_facts: usize,
    pub deleted_facts: usize,
    /// Unchanged facts over facts processed.
    pub cache_hit_rate: Ratio,
}

/// All counts at zero.
pub open spec fn zero_tracking_stats() -> ChangeTrackingStats {
    ChangeTrackingStats {
        total_facts_processed: 0,
        new_facts: 0,
        modified_facts: 0,
        unchanged_facts: 0,
        deleted_facts: 0,
        cache_hit_rate: Ratio { part: 0, whole: 0 },
    }
}

impl Default for ChangeTrackingStats {
    fn default() -> (s: ChangeTrackingStats)
        ensures
            s == zero_tracking_stats(),
    {
        ChangeTrackingStats {
            total_facts_processed: 0,
            new_facts: 0,
            modified_facts: 0,
            unchanged_facts: 0,
            deleted_facts: 0,
            cache_hit_rate: Ratio { part: 0, whole: 0 },
        }
    }
}

impl ChangeTrackingStats {
    /// Unchanged facts over facts processed.
    pub fn efficiency(&self) -> (r: Ratio)
        ensures
            r == (Ratio { part: self.unchanged_facts, whole: self.total_facts_processed }),
    {
        Ratio { part: self.unchanged_facts, whole: self.total_facts_processed }
    }

    /// New and modified facts over facts processed.
    pub fn change_rate(&self) -> (r: Ratio)
        requires
            self.new_facts + self.modified_facts <= usize::MAX,
        ensures
            r == (Ratio { part: (self.new_facts + self.modified_facts) as usize, whole: self.total_facts_processed }),
    {
        Ratio { part: self.new_facts + self.modified_facts, whole: self.total_facts_processed }
    }
}

/// Which facts a cycle has to process.
#[derive(Debug, Clone)]
pub struct IncrementalProcessingPlan {
    pub new_facts: Vec<Fact>,
    pub modified_facts: Vec<Fact>,
    pub unchanged_facts: Vec<Fact>,
    pub deleted_fact_ids: Vec<FactId>,
}

impl IncrementalProcessingPlan {
    /// An empty plan.
    pub fn new() -> (p: IncrementalProcessingPlan)
        ensures
            p.new_facts@.len() == 0,
            p.modified_facts@.len() == 0,
            p.unchanged_facts@.len() == 0,
            p.deleted_fact_ids@.len() == 0,
    {
        IncrementalProcessingPlan {
            new_facts: Vec::new(),
            modified_facts: Vec::new(),
            unchanged_facts: Vec::new(),
            deleted_fact_ids: Vec::new(),
        }
    }

    /// The facts to process: the new ones, then the modified ones.
    pub fn facts_needing_processing(&self) -> (r: Vec<&Fact>)
        ensures
            r@.len() == self.new_facts@.len() + self.modified_facts@.len(),
            forall|i: int| 0 <= i < self.new_facts@.len() ==> *r@[i] == self.new_facts@[i],
            forall|i: int| 0 <= i < self.modified_facts@.len() ==>
                *r@[self.new_facts@.len() + i] == self.modified_facts@[i],
    {
        let mut r: Vec<&Fact> = Vec::new();
        let mut i: usize = 0;
        while i < self.new_facts.len()
            invariant
                i <= self.new_facts@.len(),
                r@.len() == i,
                forall|k: int| 0 <= k < i ==> *r@[k] == self.new_facts@[k],
            decreases self.new_facts@.len() - i,
        {
            r.push(&self.new_facts[i]);
            i = i + 1;
        }
        let mut j: usize = 0;
        while j < self.modified_facts.len()
            invariant
                j <= self.modified_facts@.len(),
                r@.len() == self.new_facts@.len() + j,
                forall|k: int| 0 <= k < self.new_facts@.len() ==> *r@[k] == self.new_facts@[k],
                forall|k: int| 0 <= k < j ==> *r@[self.new_facts@.len() + k] == self.modified_facts@[k],
            decreases self.modified_facts@.len() - j,
        {
            r.push(&self.modified_facts[j]);
            j = j + 1;
        }
        r
    }

    /// How many facts need processing: new and modified ones.
    pub fn processing_count(&self) -> (n: usize)
        requires
            self.new_facts@.len() + self.modified_facts@.len() <= usize::MAX,
        ensures
            n == self.new_facts@.len() + self.modified_facts@.len(),
    {
        self.new_facts.len() + self.modified_facts.len()
    }

    /// How many facts the plan covers, deleted ones aside.
    pub fn total_facts(&self) -> (n: usize)
        requires
            self.new_facts@.len() + self.modified_facts@.len() + self.unchanged_facts@.len() <= usize::MAX,
        ensures
            n == self.new_facts@.len() + self.modified_facts@.len() + self.unchanged_facts@.len(),
    {
        self.new_facts.len() + self.modified_facts.len() + self.unchanged_facts.len()
    }

    /// Whether anything is new, modified or deleted.
    pub fn needs_processing(&self) -> (b: bool)
        ensures
            b == (self.new_facts@.len() > 0 || self.modified_facts@.len() > 0 || self.deleted_fact_ids@.len() > 0),
    {
        !self.new_facts.is_empty() || !self.modified_facts.is_empty() || !self.deleted_fact_ids.is_empty()
    }

    /// Unchanged facts over the facts the plan covers.
    pub fn efficiency(&self) -> (r: Ratio)
        requires
            self.new_facts@.len() + self.modified_facts@.len() + self.unchanged_facts@.len() <= usize::MAX,
        ensures
            r == (Ratio {
                part: self.unchanged_facts@.len() as usize,
                whole: (self.new_facts@.len() + self.modified_facts@.len() + self.unchanged_facts@.len()) as usize,
            }),
    {
        Ratio { part: self.unchanged_facts.len(), whole: self.total_facts() }
    }
}

impl Default for IncrementalProcessingPlan {
    fn default() -> (p: IncrementalProcessingPlan)
        ensures
            p.new_facts@.len() == 0,
            p.modified_facts@.len() == 0,
            p.unchanged_facts@.len() == 0,
            p.deleted_fact_ids@.len() == 0,
    {
        IncrementalProcessingPlan::new()
    }
}

/// What a change-detection cycle has seen so far: known hashes, states,
/// watched ids, and the facts sorted into new, modified and unchanged.
pub struct ChangeScan {
    pub last: Map<FactId, u64>,
    pub states: Map<FactId, FactState>,
    pub watched: Set<FactId>,
    pub new_facts: Seq<FactView>,
    pub modified: Seq<FactView>,
    pub unchanged: Seq<FactView>,
}

/// One fact looked at: unchanged when its hash is the known one, modified
/// when another hash is known, new otherwise (and then watched).
pub open spec fn scan_step(sc: ChangeScan, f: FactView) -> ChangeScan {
    let h = fact_hash_spec(f);
    if sc.last.contains_key(f.id) && sc.last[f.id] == h {
        ChangeScan {
            states: sc.states.insert(f.id, FactState::Unchanged),
            unchanged: sc.unchanged.push(f),
            ..sc
        }
    } else if sc.last.contains_key(f.id) {
        ChangeScan {
            last: sc.last.insert(f.id, h),
            states: sc.states.insert(f.id, FactState::Modified),
            modified: sc.modified.push(f),
            ..sc
        }
    } else {
        ChangeScan {
            last: sc.last.insert(f.id, h),
            states: sc.states.insert(f.id, FactState::New),
            watched: sc.watched.insert(f.id),
            new_facts: sc.new_facts.push(f),
            ..sc
        }
    }
}

/// The facts looked at in order.
pub open spec fn scan(init: ChangeScan, facts: Seq<FactView>) -> ChangeScan
    decreases facts.len(),
{
    if facts.len() == 0 {
        init
    } else {
        scan_step(scan(init, facts.drop_last()), facts.last())
    }
}

/// The ids of the facts.
pub open spec fn ids_of(facts: Seq<FactView>) -> Set<FactId> {
    facts.map_values(|f: FactView| f.id).to_set()
}

/// The ids of a list of facts, in order.
pub open spec fn id_list(facts: Seq<FactView>) -> Seq<FactId> {
    facts.map_values(|f: FactView| f.id)
}

/// After a scan of facts with distinct ids, the known hash of each of them
/// is its content hash.
pub proof fn lemma_scan_records_hashes(start: ChangeScan, fv: Seq<FactView>)
    requires
        id_list(fv).no_duplicates(),
    ensures
        forall|i: int| 0 <= i < fv.len() ==> {
            &&& #[trigger] scan(start, fv).last.contains_key(fv[i].id)
            &&& scan(start, fv).last[fv[i].id] == fact_hash_spec(fv[i])
        },
    decreases fv.len(),
{
    if fv.len() > 0 {
        let pre = fv.drop_last();
        assert(id_list(pre) =~= id_list(fv).drop_last());
        lemma_scan_records_hashes(start, pre);
        let last = fv.len() - 1;
        assert forall|i: int| 0 <= i < fv.len() implies {
            &&& #[trigger] scan(start, fv).last.contains_key(fv[i].id)
            &&& scan(start, fv).last[fv[i].id] == fact_hash_spec(fv[i])
        } by {
            let r = scan(start, pre);
            assert(scan(start, fv) == scan_step(r, fv[last]));
            if i < last {
                assert(pre[i] == fv[i]);
                assert(r.last.contains_key(pre[i].id));
                assert(id_list(fv)[i] != id_list(fv)[last]);
            }
        }
    }
}

/// A scan of facts whose content hashes are all known finds every one of
/// them unchanged and changes no known hash.
pub proof fn lemma_scan_all_known(start: ChangeScan, fv: Seq<FactView>)
    requires
        forall|i: int| 0 <= i < fv.len() ==> {
            &&& #[trigger] start.last.contains_key(fv[i].id)
            &&& start.last[fv[i].id] == fact_hash_spec(fv[i])
        },
    ensures
        scan(start, fv).last == start.last,
        scan(start, fv).new_facts == start.new_facts,
        scan(start, fv).modified == start.modified,
        scan(start, fv).unchanged == start.unchanged + fv,
    decreases fv.len(),
{
    if fv.len() > 0 {
        let pre = fv.drop_last();
        assert forall|i: int| 0 <= i < pre.len() implies {
            &&& #[trigger] start.last.contains_key(pre[i].id)
            &&& start.last[pre[i].id] == fact_hash_spec(pre[i])
        } by {
            assert(pre[i] == fv[i]);
        }
        lemma_scan_all_known(start, pre);
        assert(start.last.contains_key(fv[fv.len() - 1].id));
        assert(start.unchanged + pre.push(fv.last()) =~= (start.unchanged + pre).push(fv.last()));
        assert(pre.push(fv.last()) =~= fv);
    }
}

/// Facts seen again, unchanged, in the next cycle are all found unchanged:
/// after a cycle over facts with distinct ids, a cycle over the same facts
/// finds no new and no modified fact, and every fact unchanged. (The known
/// hashes and watched ids are those a cycle leaves; the states play no part.)
pub proof fn law_repeat_cycle_unchanged(start: ChangeScan, fv: Seq<FactView>, states: Map<FactId, FactState>)
    requires
        id_list(fv).no_duplicates(),
    ensures
        ({
            let sc = scan(start, fv);
            let deleted = sc.watched.difference(ids_of(fv));
            let next = ChangeScan {
                last: sc.last.remove_keys(deleted),
                states,
                watched: ids_of(fv),
                new_facts: Seq::empty(),
                modified: Seq::empty(),
                unchanged: Seq::empty(),
            };
            let again = scan(next, fv);
            &&& again.new_facts.len() == 0
            &&& again.modified.len() == 0
            &&& again.unchanged == fv
        }),
{
    let sc = scan(start, fv);
    let deleted = sc.watched.difference(ids_of(fv));
    let next = ChangeScan {
        last: sc.last.remove_keys(deleted),
        states,
        watched: ids_of(fv),
        new_facts: Seq::empty(),
        modified: Seq::empty(),
        unchanged: Seq::empty(),
    };
    lemma_scan_records_hashes(start, fv);
    assert forall|i: int| 0 <= i < fv.len() implies {
        &&& #[trigger] next.last.contains_key(fv[i].id)
        &&& next.last[fv[i].id] == fact_hash_spec(fv[i])
    } by {
        assert(id_list(fv)[i] == fv[i].id);
        assert(ids_of(fv).contains(fv[i].id));
        assert(!deleted.contains(fv[i].id));
        assert(sc.last.contains_key(fv[i].id));
    }
    lemma_scan_all_known(next, fv);
    assert(Seq::<FactView>::empty() + fv =~= fv);
}

/// How a fact is classified against the known content hashes: unchanged
/// when its hash is the known one, modified when another hash is known for
/// its id, new when none is.
pub open spec fn classify(last: Map<FactId, u64>, f: FactView) -> FactState {
    if last.contains_key(f.id) && last[f.id] == fact_hash_spec(f) {
        FactState::Unchanged
    } else if last.contains_key(f.id) {
        FactState::Modified
    } else {
        FactState::New
    }
}

/// A scan leaves the known hash of an id that none of its facts has as it
/// was.
proof fn lemma_scan_keeps_other(init: ChangeScan, fv: Seq<FactView>, x: FactId)
    requires
        !id_list(fv).contains(x),
    ensures
        scan(init, fv).last.contains_key(x) == init.last.contains_key(x),
        init.last.contains_key(x) ==> scan(init, fv).last[x] == init.last[x],
    decreases fv.len(),
{
    if fv.len() > 0 {
        let pre = fv.drop_last();
        assert(id_list(pre) =~= id_list(fv).drop_last());
        if id_list(pre).contains(x) {
            let j = choose|j: int| 0 <= j < id_list(pre).len() && id_list(pre)[j] == x;
            assert(id_list(fv)[j] == x);
        }
        assert(id_list(fv)[fv.len() - 1] == fv.last().id);
        lemma_scan_keeps_other(init, pre, x);
    }
}

/// In a scan of facts with distinct ids, each fact's state is what its
/// content says against the hashes known before the scan.
proof fn lemma_scan_classifies(init: ChangeScan, fv: Seq<FactView>)
    requires
        id_list(fv).no_duplicates(),
    ensures
        forall|i: int| 0 <= i < fv.len() ==> {
            &&& #[trigger] scan(init, fv).states.contains_key(fv[i].id)
            &&& scan(init, fv).states[fv[i].id] == classify(init.last, fv[i])
        },
    decreases fv.len(),
{
    if fv.len() > 0 {
        let pre = fv.drop_last();
        let last = fv.len() - 1;
        let f = fv.last();
        assert(id_list(pre) =~= id_list(fv).drop_last());
        lemma_scan_classifies(init, pre);
        if id_list(pre).contains(f.id) {
            let j = choose|j: int| 0 <= j < id_list(pre).len() && id_list(pre)[j] == f.id;
            assert(id_list(fv)[j] == id_list(fv)[last]);
        }
        lemma_scan_keeps_other(init, pre, f.id);
        let sc = scan(init, pre);
        assert(pre.push(f) =~= fv);
        assert(scan(init, fv) == scan_step(sc, f));
        assert(classify(sc.last, f) == classify(init.last, f));
        assert(scan(init, fv).states == sc.states.insert(f.id, classify(init.last, f)));
        assert forall|i: int| 0 <= i < fv.len() implies {
            &&& #[trigger] scan(init, fv).states.contains_key(fv[i].id)
            &&& scan(init, fv).states[fv[i].id] == classify(init.last, fv[i])
        } by {
            if i < last {
                assert(pre[i] == fv[i]);
                assert(id_list(fv)[i] != id_list(fv)[last]);
                assert(sc.states.contains_key(pre[i].id));
            }
        }
    }
}

/// A scan sorts each fact into exactly one of the three lists.
proof fn lemma_scan_partitions(init: ChangeScan, fv: Seq<FactView>)
    ensures
        scan(init, fv).new_facts.to_multiset().add(scan(init, fv).modified.to_multiset()).add(
            scan(init, fv).unchanged.to_multiset(),
        ) == init.new_facts.to_multiset().add(init.modified.to_multiset()).add(init.unchanged.to_multiset()).add(
            fv.to_multiset(),
        ),
    decreases fv.len(),
{
    broadcast use vstd::seq_lib::group_to_multiset_ensures;
    broadcast use vstd::multiset::group_multiset_axioms;

    if fv.len() == 0 {
        assert(fv.to_multiset() =~= vstd::multiset::Multiset::empty());
    } else {
        let pre = fv.drop_last();
        lemma_scan_partitions(init, pre);
        assert(pre.push(fv.last()) =~= fv);
        let a = init.new_facts.to_multiset().add(init.modified.to_multiset()).add(init.unchanged.to_multiset());
        assert(a.add(fv.to_multiset()) =~= a.add(pre.to_multiset()).insert(fv.last()));
        let sc = scan(init, pre);
        let m = sc.new_facts.to_multiset().add(sc.modified.to_multiset()).add(sc.unchanged.to_multiset());
        let sc2 = scan(init, fv);
        assert(sc2.new_facts.to_multiset().add(sc2.modified.to_multiset()).add(sc2.unchanged.to_multiset()) =~= m.insert(fv.last()));
    }
}

/// Whether scan `sc` gave fact `f` the state its content gives it against
/// the hashes `last` known before, and put it in the list of that state.
pub open spec fn sorted_by_content(sc: ChangeScan, last: Map<FactId, u64>, f: FactView) -> bool {
    &&& sc.states.contains_key(f.id)
    &&& sc.states[f.id] == classify(last, f)
    &&& (classify(last, f) == FactState::New <==> sc.new_facts.contains(f))
    &&& (classify(last, f) == FactState::Modified <==> sc.modified.contains(f))
    &&& (classify(last, f) == FactState::Unchanged <==> sc.unchanged.contains(f))
}

/// A list with `f` pushed holds what the list held, and `f`.
proof fn lemma_push_contains(s: Seq<FactView>, f: FactView, g: FactView)
    ensures
        s.push(f).contains(g) <==> (s.contains(g) || f == g),
{
    if s.push(f).contains(g) {
        let k = choose|k: int| 0 <= k < s.push(f).len() && s.push(f)[k] == g;
        if k < s.len() {
            assert(s[k] == g);
        }
    }
    if s.contains(g) {
        let k = choose|k: int| 0 <= k < s.len() && s[k] == g;
        assert(s.push(f)[k] == g);
    }
    if f == g {
        assert(s.push(f)[s.len() as int] == g);
    }
}

/// Whether `g` is one of the facts and is classified as `st`.
pub open spec fn sorted_as(last: Map<FactId, u64>, fv: Seq<FactView>, g: FactView, st: FactState) -> bool {
    exists|i: int| 0 <= i < fv.len() && fv[i] == g && #[trigger] classify(last, fv[i]) == st
}

/// A fact is in one of the lists of a scan exactly when it is one of the
/// facts and is classified that way.
proof fn lemma_scan_members(init: ChangeScan, fv: Seq<FactView>, g: FactView)
    requires
        id_list(fv).no_duplicates(),
        init.new_facts.len() == 0,
        init.modified.len() == 0,
        init.unchanged.len() == 0,
    ensures
        scan(init, fv).new_facts.contains(g) <==> sorted_as(init.last, fv, g, FactState::New),
        scan(init, fv).modified.contains(g) <==> sorted_as(init.last, fv, g, FactState::Modified),
        scan(init, fv).unchanged.contains(g) <==> sorted_as(init.last, fv, g, FactState::Unchanged),
    decreases fv.len(),
{
    if fv.len() > 0 {
        let pre = fv.drop_last();
        let last = fv.len() - 1;
        let f = fv.last();
        assert(id_list(pre) =~= id_list(fv).drop_last());
        lemma_scan_members(init, pre, g);
        if id_list(pre).contains(f.id) {
            let j = choose|j: int| 0 <= j < id_list(pre).len() && id_list(pre)[j] == f.id;
            assert(id_list(fv)[j] == id_list(fv)[last]);
        }
        lemma_scan_keeps_other(init, pre, f.id);
        let sc = scan(init, pre);
        assert(pre.push(f) =~= fv);
        assert(scan(init, fv) == scan_step(sc, f));
        assert(classify(sc.last, f) == classify(init.last, f));
        let sc2 = scan(init, fv);
        lemma_push_contains(sc.new_facts, f, g);
        lemma_push_contains(sc.modified, f, g);
        lemma_push_contains(sc.unchanged, f, g);
        assert(sc2.new_facts == if classify(init.last, f) == FactState::New { sc.new_facts.push(f) } else { sc.new_facts });
        assert(sc2.modified == if classify(init.last, f) == FactState::Modified { sc.modified.push(f) } else { sc.modified });
        assert(sc2.unchanged == if classify(init.last, f) == FactState::Unchanged { sc.unchanged.push(f) } else { sc.unchanged });
        assert forall|st: FactState| #![trigger sorted_as(init.last, fv, g, st)]
            sorted_as(init.last, fv, g, st) <==> (sorted_as(init.last, pre, g, st) || (f == g && classify(init.last, f) == st)) by {
            if sorted_as(init.last, fv, g, st) {
                let i = choose|i: int| 0 <= i < fv.len() && fv[i] == g && #[trigger] classify(init.last, fv[i]) == st;
                if i < last {
                    assert(pre[i] == fv[i]);
                }
            }
            if sorted_as(init.last, pre, g, st) {
                let i = choose|i: int| 0 <= i < pre.len() && pre[i] == g && #[trigger] classify(init.last, pre[i]) == st;
                assert(fv[i] == pre[i]);
            }
            if f == g && classify(init.last, f) == st {
                assert(fv[last] == f);
            }
        }
        assert(sorted_as(init.last, fv, g, FactState::New) <==> (sorted_as(init.last, pre, g, FactState::New) || (f == g && classify(init.last, f) == FactState::New)));
        assert(sorted_as(init.last, fv, g, FactState::Modified) <==> (sorted_as(init.last, pre, g, FactState::Modified) || (f == g && classify(init.last, f) == FactState::Modified)));
        assert(sorted_as(init.last, fv, g, FactState::Unchanged) <==> (sorted_as(init.last, pre, g, FactState::Unchanged) || (f == g && classify(init.last, f) == FactState::Unchanged)));
    }
}

/// Each fact of a scan over facts with distinct ids has the state its
/// content gives it, and is in the list of that state.
#[verifier::spinoff_prover]
proof fn lemma_detection_classifies(init: ChangeScan, fv: Seq<FactView>)
    requires
        id_list(fv).no_duplicates(),
        init.new_facts.len() == 0,
        init.modified.len() == 0,
        init.unchanged.len() == 0,
    ensures
        forall|i: int| 0 <= i < fv.len() ==> #[trigger] sorted_by_content(scan(init, fv), init.last, fv[i]),
{
    lemma_scan_classifies(init, fv);
    assert forall|i: int| 0 <= i < fv.len() implies #[trigger] sorted_by_content(scan(init, fv), init.last, fv[i]) by {
        lemma_scan_members(init, fv, fv[i]);
        let c = classify(init.last, fv[i]);
        assert(sorted_as(init.last, fv, fv[i], c));
        assert forall|st: FactState| #[trigger] sorted_as(init.last, fv, fv[i], st) implies st == c by {
            let j = choose|j: int| 0 <= j < fv.len() && fv[j] == fv[i] && #[trigger] classify(init.last, fv[j]) == st;
            if j != i {
                assert(id_list(fv)[j] == id_list(fv)[i]);
            }
        }
        assert(sorted_as(init.last, fv, fv[i], FactState::New) ==> FactState::New == c);
        assert(sorted_as(init.last, fv, fv[i], FactState::Modified) ==> FactState::Modified == c);
        assert(sorted_as(init.last, fv, fv[i], FactState::Unchanged) ==> FactState::Unchanged == c);
        let sc = scan(init, fv);
        assert(sc.states.contains_key(fv[i].id));
        assert(sc.states[fv[i].id] == c);
        assert(c == FactState::New <==> sc.new_facts.contains(fv[i]));
        assert(c == FactState::Modified <==> sc.modified.contains(fv[i]));
        assert(c == FactState::Unchanged <==> sc.unchanged.contains(fv[i]));
    }
}

/// A change-detection cycle over facts with distinct ids sorts them into
/// new, modified and unchanged ones: together the three lists hold exactly
/// the facts, and each fact is new when no hash was known for its id,
/// unchanged when its hash is the known one, and modified otherwise.
pub proof fn law_detection_partitions(init: ChangeScan, fv: Seq<FactView>)
    requires
        id_list(fv).no_duplicates(),
        init.new_facts.len() == 0,
        init.modified.len() == 0,
        init.unchanged.len() == 0,
    ensures
        (scan(init, fv).new_facts + scan(init, fv).modified + scan(init, fv).unchanged).to_multiset()
            == fv.to_multiset(),
        forall|i: int| 0 <= i < fv.len() ==> #[trigger] sorted_by_content(scan(init, fv), init.last, fv[i]),
{
    broadcast use vstd::seq_lib::group_to_multiset_ensures;
    broadcast use vstd::multiset::group_multiset_axioms;

    lemma_scan_partitions(init, fv);
    lemma_detection_classifies(init, fv);
    let sc = scan(init, fv);
    assert(init.new_facts =~= Seq::<FactView>::empty());
    assert(init.modified =~= Seq::<FactView>::empty());
    assert(init.unchanged =~= Seq::<FactView>::empty());
    vstd::seq_lib::lemma_multiset_commutative(sc.new_facts, sc.modified);
    vstd::seq_lib::lemma_multiset_commutative(sc.new_facts + sc.modified, sc.unchanged);
    assert((sc.new_facts + sc.modified + sc.unchanged).to_multiset() =~= fv.to_multiset());
}

/// Tracks fact content between processing cycles.
#[derive(Debug)]
pub struct FactChangeTracker {
    last_known_state: HashMap<FactId, u64>,
    fact_states: HashMap<FactId, FactState>,
    tracked_facts: HashSet<FactId>,
    pub stats: ChangeTrackingStats,
}

impl FactChangeTracker {
    /// The last known content hash of each fact.
    pub closed spec fn known(&self) -> Map<FactId, u64> {
        self.last_known_state@
    }

    /// The state of each fact.
    pub closed spec fn states(&self) -> Map<FactId, FactState> {
        self.fact_states@
    }

    /// The watched fact ids.
    pub closed spec fn watched(&self) -> Set<FactId> {
        self.tracked_facts@
    }

    /// The statistics.
    pub closed spec fn stats_view(&self) -> ChangeTrackingStats {
        self.stats
    }

    /// The scan state a cycle starts from.
    pub open spec fn scan_start(&self) -> ChangeScan {
        ChangeScan {
            last: self.known(),
            states: self.states(),
            watched: self.watched(),
            new_facts: Seq::empty(),
            modified: Seq::empty(),
            unchanged: Seq::empty(),
        }
    }

    /// An empty tracker.
    pub fn new() -> (t: FactChangeTracker)
        ensures
            t.known() == Map::<FactId, u64>::empty(),
            t.states() == Map::<FactId, FactState>::empty(),
            t.watched() == Set::<FactId>::empty(),
            t.stats_view() == zero_tracking_stats(),
    {
        FactChangeTracker {
            last_known_state: HashMap::new(),
            fact_states: HashMap::new(),
            tracked_facts: HashSet::new(),
            stats: ChangeTrackingStats::default(),
        }
    }

    /// An empty tracker with room for `capacity` facts.
    pub fn with_capacity(capacity: usize) -> (t: FactChangeTracker)
        ensures
            t.known() == Map::<FactId, u64>::empty(),
            t.states() == Map::<FactId, FactState>::empty(),
            t.watched() == Set::<FactId>::empty(),
            t.stats_view() == zero_tracking_stats(),
    {
        FactChangeTracker {
            last_known_state: HashMap::with_capacity(capacity),
            fact_states: HashMap::with_capacity(capacity),
            tracked_facts: HashSet::with_capacity(capacity),
            stats: ChangeTrackingStats::default(),
        }
    }

    /// Sorts the facts of a cycle into new, modified and unchanged ones by
    /// their content hashes, and reports watched facts that are absent as
    /// deleted; the facts present become the watched ones.
    pub fn detect_changes(&mut self, facts: &[Fact]) -> (plan: IncrementalProcessingPlan)
        ensures
            ({
                let fv = fact_views(facts@);
                let sc = scan(old(self).scan_start(), fv);
                let deleted = sc.watched.difference(ids_of(fv));
                &&& fact_views(plan.new_facts@) == sc.new_facts
                &&& fact_views(plan.modified_facts@) == sc.modified
                &&& fact_views(plan.unchanged_facts@) == sc.unchanged
                &&& plan.deleted_fact_ids@.to_set() == deleted
                &&& plan.deleted_fact_ids@.no_duplicates()
                &&& final(self).known() == sc.last.remove_keys(deleted)
                &&& final(self).states() == Map::new(
                    |k: FactId| sc.states.contains_key(k) || deleted.contains(k),
                    |k: FactId| if deleted.contains(k) { FactState::Deleted } else { sc.states[k] },
                )
                &&& final(self).watched() == ids_of(fv)
                &&& final(self).stats_view() == (ChangeTrackingStats {
                    total_facts_processed: facts@.len() as usize,
                    new_facts: sc.new_facts.len() as usize,
                    modified_facts: sc.modified.len() as usize,
                    unchanged_facts: sc.unchanged.len() as usize,
                    deleted_facts: plan.deleted_fact_ids@.len() as usize,
                    cache_hit_rate: Ratio { part: sc.unchanged.len() as usize, whole: facts@.len() as usize },
                })
            }),
    {
        let ghost fv = fact_views(facts@);
        let ghost init = self.scan_start();
        let mut plan = IncrementalProcessingPlan::new();
        let mut current: HashSet<FactId> = HashSet::new();
        let n = facts.len();
        let mut new_count: usize = 0;
        let mut modified_count: usize = 0;
        let mut unchanged_count: usize = 0;
        let mut i: usize = 0;
        proof {
            assert(fv.take(0) =~= Seq::<FactView>::empty());
            assert(fact_views(plan.new_facts@) =~= Seq::<FactView>::empty());
            assert(fact_views(plan.modified_facts@) =~= Seq::<FactView>::empty());
            assert(fact_views(plan.unchanged_facts@) =~= Seq::<FactView>::empty());
            assert(current@ =~= ids_of(fv.take(0)));
        }
        while i < n
            invariant
                n == facts@.len(),
                fv == fact_views(facts@),
                i <= n,
                ({
                    let sc = scan(init, fv.take(i as int));
                    &&& self.last_known_state@ == sc.last
                    &&& self.fact_states@ == sc.states
                    &&& self.tracked_facts@ == sc.watched
                    &&& fact_views(plan.new_facts@) == sc.new_facts
                    &&& fact_views(plan.modified_facts@) == sc.modified
                    &&& fact_views(plan.unchanged_facts@) == sc.unchanged
                    &&& new_count == sc.new_facts.len()
                    &&& modified_count == sc.modified.len()
                    &&& unchanged_count == sc.unchanged.len()
                    &&& new_count + modified_count + unchanged_count == i
                }),
                plan.deleted_fact_ids@.len() == 0,
                current@ == ids_of(fv.take(i as int)),
            decreases n - i,
        {
            let fact = &facts[i];
            let fact_id = fact.id;
            let h = compute_fact_hash(fact);
            let ghost sc0 = scan(init, fv.take(i as int));
            proof {
                let t = fv.take(i + 1);
                assert(t.drop_last() =~= fv.take(i as int));
                assert(t.last() == fact@);
            }
            let known: Option<u64> = match self.last_known_state.get(&fact_id) {
                Some(k) => Some(*k),
                None => None,
            };
            let ghost pv0 = fact_views(plan.new_facts@);
            let ghost pm0 = fact_views(plan.modified_facts@);
            let ghost pu0 = fact_views(plan.unchanged_facts@);
            match known {
                Some(k) => {
                    if k == h {
                        unchanged_count = unchanged_count + 1;
                        self.fact_states.insert(fact_id, FactState::Unchanged);
                        plan.unchanged_facts.push(fact.duplicate());
                        proof {
                            assert(fact_views(plan.unchanged_facts@) =~= pu0.push(fact@));
                        }
                    } else {
                        modified_count = modified_count + 1;
                        self.last_known_state.insert(fact_id, h);
                        self.fact_states.insert(fact_id, FactState::Modified);
                        plan.modified_facts.push(fact.duplicate());
                        proof {
                            assert(fact_views(plan.modified_facts@) =~= pm0.push(fact@));
                        }
                    }
                },
                None => {
                    new_count = new_count + 1;
                    self.last_known_state.insert(fact_id, h);
                    self.tracked_facts.insert(fact_id);
                    self.fact_states.insert(fact_id, FactState::New);
                    plan.new_facts.push(fact.duplicate());
                    proof {
                        assert(fact_views(plan.new_facts@) =~= pv0.push(fact@));
                    }
                },
            }
            current.insert(fact_id);
            proof {
                let t = fv.take(i + 1);
                assert(t.map_values(|f: FactView| f.id) =~= fv.take(i as int).map_values(|f: FactView| f.id).push(fact_id));
                fv.take(i as int).map_values(|f: FactView| f.id).lemma_push_to_set_commute(fact_id);
                assert(current@ =~= ids_of(t));
            }
            i = i + 1;
        }
        proof {
            assert(fv.take(n as int) =~= fv);
        }
        let ghost sc = scan(init, fv);
        let ghost deleted = sc.watched.difference(ids_of(fv));
        let mut deleted_ids: Vec<FactId> = Vec::new();
        let ghost mut seen: Seq<FactId> = Seq::empty();
        for id in it: self.tracked_facts.iter()
            invariant
                seen == it.seq().take(it.index() as int).map_values(|r: &FactId| *r),
                forall|x: FactId| #[trigger] deleted_ids@.contains(x) <==> (seen.contains(x) && !current@.contains(x)),
                deleted_ids@.no_duplicates(),
                it.seq().map_values(|r: &FactId| *r).no_duplicates(),
        {
            let ghost before = deleted_ids@;
            let ghost before_seen = seen;
            if !current.contains(id) {
                deleted_ids.push(*id);
            }
            proof {
                if !current@.contains(*id) {
                    assert(!before.contains(*id)) by {
                        if before.contains(*id) {
                            assert(before_seen.contains(*id));
                        }
                    }
                    assert(deleted_ids@ =~= before.push(*id));
                    assert forall|x: int, y: int| 0 <= x < y < deleted_ids@.len() implies deleted_ids@[x] != deleted_ids@[y] by {
                        if y == deleted_ids@.len() - 1 {
                            assert(deleted_ids@[x] == before[x]);
                            assert(before.contains(before[x]));
                        } else {
                            assert(deleted_ids@[x] == before[x] && deleted_ids@[y] == before[y]);
                        }
                    }
                }
                seen = seen.push(*id);
                assert(seen =~= it.seq().take(it.index() + 1).map_values(|r: &FactId| *r));
                assert(!before_seen.contains(*id)) by {
                    if before_seen.contains(*id) {
                        let j = choose|j: int| 0 <= j < before_seen.len() && before_seen[j] == *id;
                        let full = it.seq().map_values(|r: &FactId| *r);
                        assert(full[j] == before_seen[j]);
                        assert(full[it.index() as int] == *id);
                    }
                }
                assert forall|x: FactId| #[trigger] deleted_ids@.contains(x) <==> (seen.contains(x) && !current@.contains(x)) by {
                    if deleted_ids@.contains(x) && x != *id {
                        let j = choose|j: int| 0 <= j < deleted_ids@.len() && deleted_ids@[j] == x;
                        assert(before[j] == x);
                    }
                    if before.contains(x) {
                        let j = choose|j: int| 0 <= j < before.len() && before[j] == x;
                        assert(deleted_ids@[j] == x);
                    }
                    if seen.contains(x) && x != *id {
                        let j = choose|j: int| 0 <= j < seen.len() && seen[j] == x;
                        assert(before_seen[j] == x);
                    }
                    if before_seen.contains(x) {
                        let j = choose|j: int| 0 <= j < before_seen.len() && before_seen[j] == x;
                        assert(seen[j] == x);
                    }
                    if x == *id && !current@.contains(x) {
                        assert(deleted_ids@[deleted_ids@.len() - 1] == x);
                        assert(seen[seen.len() - 1] == x);
                    }
                }
            }
        }
        proof {
            let s = vstd::std_specs::hash::spec_hash_keys_iter(&self.tracked_facts).remaining();
            assert(seen =~= s.unref());
            assert forall|x: FactId| #[trigger] deleted_ids@.to_set().contains(x) <==> deleted.contains(x) by {
                assert(deleted_ids@.to_set().contains(x) <==> deleted_ids@.contains(x));
                assert(seen.to_set().contains(x) <==> seen.contains(x));
            }
            assert(deleted_ids@.to_set() =~= deleted);
        }
        let d = deleted_ids.len();
        let mut k: usize = 0;
        while k < d
            invariant
                d == deleted_ids@.len(),
                k <= d,
                self.last_known_state@ == sc.last.remove_keys(deleted_ids@.take(k as int).to_set()),
                self.fact_states@ == Map::new(
                    |x: FactId| sc.states.contains_key(x) || deleted_ids@.take(k as int).contains(x),
                    |x: FactId| if deleted_ids@.take(k as int).contains(x) { FactState::Deleted } else { sc.states[x] },
                ),
            decreases d - k,
        {
            let x = deleted_ids[k];
            self.fact_states.insert(x, FactState::Deleted);
            self.last_known_state.remove(&x);
            proof {
                let t = deleted_ids@.take(k + 1);
                assert(t =~= deleted_ids@.take(k as int).push(x));
                assert forall|y: FactId| t.contains(y) <==> (deleted_ids@.take(k as int).contains(y) || y == x) by {
                    vstd::seq_lib::lemma_seq_contains_after_push(deleted_ids@.take(k as int), x, y);
                }
                deleted_ids@.take(k as int).lemma_push_to_set_commute(x);
                assert(self.last_known_state@ =~= sc.last.remove_keys(t.to_set()));
                assert(self.fact_states@ =~= Map::new(
                    |y: FactId| sc.states.contains_key(y) || t.contains(y),
                    |y: FactId| if t.contains(y) { FactState::Deleted } else { sc.states[y] },
                ));
            }
            k = k + 1;
        }
        proof {
            assert(deleted_ids@.take(d as int) =~= deleted_ids@);
            assert forall|x: FactId| deleted_ids@.contains(x) <==> deleted.contains(x) by {
                assert(deleted_ids@.to_set().contains(x) <==> deleted_ids@.contains(x));
            }
            assert(self.fact_states@ =~= Map::new(
                |x: FactId| sc.states.contains_key(x) || deleted.contains(x),
                |x: FactId| if deleted.contains(x) { FactState::Deleted } else { sc.states[x] },
            ));
        }
        self.tracked_facts = current;
        self.stats = ChangeTrackingStats {
            total_facts_processed: n,
            new_facts: new_count,
            modified_facts: modified_count,
            unchanged_facts: unchanged_count,
            deleted_facts: deleted_ids.len(),
            cache_hit_rate: Ratio { part: unchanged_count, whole: n },
        };
        plan.deleted_fact_ids = deleted_ids;
        plan
    }

    /// The state of a fact, if it has one.
    pub fn get_fact_state(&self, fact_id: FactId) -> (r: Option<&FactState>)
        ensures
            match r {
                Some(s) => self.states().contains_key(fact_id) && self.states()[fact_id] == *s,
                None => !self.states().contains_key(fact_id),
            },
    {
        self.fact_states.get(&fact_id)
    }

    /// Forgets a fact's hash so that the next cycle processes it again.
    pub fn mark_for_reprocessing(&mut self, fact_id: FactId)
        ensures
            final(self).known() == old(self).known().remove(fact_id),
            final(self).states() == old(self).states().insert(fact_id, FactState::Modified),
            final(self).watched() == old(self).watched(),
            final(self).stats_view() == old(self).stats_view(),
    {
        self.last_known_state.remove(&fact_id);
        self.fact_states.insert(fact_id, FactState::Modified);
    }

    /// Forgets everything and resets the statistics.
    pub fn clear(&mut self)
        ensures
            final(self).known() == Map::<FactId, u64>::empty(),
            final(self).states() == Map::<FactId, FactState>::empty(),
            final(self).watched() == Set::<FactId>::empty(),
            final(self).stats_view() == zero_tracking_stats(),
    {
        self.last_known_state.clear();
        self.fact_states.clear();
        self.tracked_facts.clear();
        self.stats = ChangeTrackingStats::default();
    }
}

impl Default for FactChangeTracker {
    fn default() -> (t: FactChangeTracker)
        ensures
            t.known() == Map::<FactId, u64>::empty(),
            t.states() == Map::<FactId, FactState>::empty(),
            t.watched() == Set::<FactId>::empty(),
            t.stats_view() == zero_tracking_stats(),
    {
        FactChangeTracker::new()
    }
}


/// Whether `after` is `before` with the entries of `n` known facts
/// forgotten: their hashes, states and watching.
pub open spec fn forgets(before: FactChangeTracker, after: FactChangeTracker, n: nat) -> bool {
    exists|r: Set<FactId>| {
        &&& r.subset_of(before.known().dom())
        &&& r.finite()
        &&& #[trigger] r.len() == n
        &&& after.known() == before.known().remove_keys(r)
        &&& after.states() == before.states().remove_keys(r)
        &&& after.watched() == before.watched().difference(r)
    }
}

impl FactChangeTracker {
    /// Estimated bytes of the tracking state: each known hash, state and
    /// watched id by the size of its key and value.
    pub fn memory_usage(&self) -> (r: usize)
        requires
            self.known().len() * (vstd::layout::size_of::<FactId>() + vstd::layout::size_of::<u64>())
                + self.states().len() * (vstd::layout::size_of::<FactId>() + vstd::layout::size_of::<FactState>())
                + self.watched().len() * vstd::layout::size_of::<FactId>() <= usize::MAX,
        ensures
            r == self.known().len() * (vstd::layout::size_of::<FactId>() + vstd::layout::size_of::<u64>())
                + self.states().len() * (vstd::layout::size_of::<FactId>() + vstd::layout::size_of::<FactState>())
                + self.watched().len() * vstd::layout::size_of::<FactId>(),
    {
        vstd::layout::layout_for_type_is_valid::<FactState>();
        proof {
            broadcast use vstd::layout::layout_of_primitives;
            assert(vstd::layout::size_of::<u64>() == 8);
        }
        let id_size = core::mem::size_of::<FactId>();
        let hash_size = core::mem::size_of::<u64>();
        let state_size = core::mem::size_of::<FactState>();
        let a = self.last_known_state.len();
        let b = self.fact_states.len();
        let c = self.tracked_facts.len();
        proof {
            let x = a * (id_size + hash_size);
            let y = b * (id_size + state_size);
            let z = c * id_size;
            assert(x >= 0 && y >= 0 && z >= 0) by (nonlinear_arith)
                requires a >= 0, b >= 0, c >= 0, id_size >= 0, hash_size >= 0, state_size >= 0,
                    x == a * (id_size + hash_size), y == b * (id_size + state_size), z == c * id_size;
        }
        let state_memory = a * (id_size + hash_size);
        let fact_state_memory = b * (id_size + state_size);
        let tracked_memory = c * id_size;
        state_memory + fact_state_memory + tracked_memory
    }

    /// The ids with a known hash, each once, in the map's own order.
    fn known_ids(&self) -> (ids: Vec<FactId>)
        ensures
            ids@.no_duplicates(),
            ids@.to_set() == self.known().dom(),
            ids@.len() == self.known().dom().len(),
    {
        let mut ids: Vec<FactId> = Vec::new();
        for k in it: self.last_known_state.keys()
            invariant
                ids@ == it.seq().take(it.index() as int).map_values(|r: &FactId| *r),
        {
            ids.push(*k);
            proof {
                assert(ids@ =~= it.seq().take(it.index() + 1).map_values(|r: &FactId| *r));
            }
        }
        proof {
            let s = vstd::std_specs::hash::spec_keys_iter(&self.last_known_state).remaining();
            assert(ids@ =~= s.unref());
        }
        ids
    }

    /// Forgets the first `count` ids with a known hash, in the map's own
    /// order.
    fn forget_first(&mut self, count: usize)
        requires
            count <= old(self).known().len(),
        ensures
            forgets(*old(self), *final(self), count as nat),
            final(self).stats_view() == old(self).stats_view(),
    {
        let ids = self.known_ids();
        let ghost r = ids@.take(count as int).to_set();
        let ghost before = *self;
        let mut i: usize = 0;
        proof {
            assert(ids@.take(0).to_set() =~= Set::<FactId>::empty());
            assert(before.known().remove_keys(Set::<FactId>::empty()) =~= before.known());
            assert(before.states().remove_keys(Set::<FactId>::empty()) =~= before.states());
            assert(before.watched().difference(Set::<FactId>::empty()) =~= before.watched());
        }
        while i < count
            invariant
                i <= count,
                count <= ids@.len(),
                self.known() == before.known().remove_keys(ids@.take(i as int).to_set()),
                self.states() == before.states().remove_keys(ids@.take(i as int).to_set()),
                self.watched() == before.watched().difference(ids@.take(i as int).to_set()),
                self.stats_view() == before.stats_view(),
            decreases count - i,
        {
            let id = ids[i];
            self.last_known_state.remove(&id);
            self.fact_states.remove(&id);
            self.tracked_facts.remove(&id);
            proof {
                assert(ids@.take(i + 1) =~= ids@.take(i as int).push(id));
                ids@.take(i as int).lemma_push_to_set_commute(id);
                assert(self.known() =~= before.known().remove_keys(ids@.take(i + 1).to_set()));
                assert(self.states() =~= before.states().remove_keys(ids@.take(i + 1).to_set()));
                assert(self.watched() =~= before.watched().difference(ids@.take(i + 1).to_set()));
            }
            i = i + 1;
        }
        proof {
            let t = ids@.take(count as int);
            assert(t.no_duplicates()) by {
                assert forall|a: int, b: int| 0 <= a < t.len() && 0 <= b < t.len() && a != b implies t[a] != t[b] by {
                    assert(t[a] == ids@[a] && t[b] == ids@[b]);
                }
            }
            t.unique_seq_to_set();
            vstd::seq_lib::seq_to_set_is_finite(t);
            assert(r.subset_of(before.known().dom())) by {
                assert forall|x: FactId| r.contains(x) implies before.known().dom().contains(x) by {
                    let j = choose|j: int| 0 <= j < t.len() && t[j] == x;
                    assert(ids@[j] == x);
                    assert(ids@.to_set().contains(x));
                }
            }
            assert(r.len() == count);
        }
    }

    /// Under critical memory pressure, forgets all but 100 of the facts with
    /// a known hash (which ones follow the map's own order) and resets the
    /// statistics.
    pub fn emergency_cleanup(&mut self)
        ensures
            forgets(*old(self), *final(self), if old(self).known().len() > 100 { (old(self).known().len() - 100) as nat } else { 0 }),
            final(self).stats_view() == zero_tracking_stats(),
    {
        let keep_count: usize = 100;
        let n = self.last_known_state.len();
        if n > keep_count {
            self.forget_first(n - keep_count);
        } else {
            self.forget_first(0);
        }
        self.stats = ChangeTrackingStats::default();
    }

    /// Forgets part of the tracking state for an age limit of
    /// `max_age_secs` seconds: six tenths of the facts with a known hash
    /// when the limit is under five minutes, three tenths otherwise
    /// (rounded down; which ones follow the map's own order).
    pub fn cleanup_entries_older_than_secs(&mut self, max_age_secs: u64)
        ensures
            forgets(
                *old(self),
                *final(self),
                old(self).known().len() * (if max_age_secs < 300 { 6nat } else { 3nat }) / 10,
            ),
            final(self).stats_view() == old(self).stats_view(),
    {
        let tenths: usize = if max_age_secs < 300 { 6 } else { 3 };
        let n = self.last_known_state.len();
        proof {
            assert(n * tenths / 10 <= n) by (nonlinear_arith)
                requires tenths <= 6, n >= 0;
        }
        let remove_count = (n as u128 * tenths as u128 / 10) as usize;
        self.forget_first(remove_count);
        proof {
            let t: nat = if max_age_secs < 300 { 6nat } else { 3nat };
            assert(t == tenths);
            assert(remove_count == old(self).known().len() * t / 10);
        }
    }

    /// Forgets part of the tracking state for the age limit `max_age`, as
    /// [`FactChangeTracker::cleanup_entries_older_than_secs`] does with its
    /// whole seconds. A `Duration` is opaque here, so the contract says
    /// only that one of the two shares was forgotten.
    pub fn cleanup_old_entries(&mut self, max_age: Duration)
        ensures
            exists|tenths: nat| (tenths == 6 || tenths == 3)
                && #[trigger] forgets(*old(self), *final(self), old(self).known().len() * tenths / 10),
            final(self).stats_view() == old(self).stats_view(),
    {
        let secs = duration_whole_secs(&max_age);
        self.cleanup_entries_older_than_secs(secs);
        proof {
            let t: nat = if secs < 300 { 6nat } else { 3nat };
            assert(forgets(*old(self), *self, old(self).known().len() * t / 10));
        }
    }
}

/// How facts are processed from one cycle to the next.
#[derive(Debug, Clone, Copy, PartialEq, Eq, Structural)]
pub enum ProcessingMode {
    /// Every fact is processed.
    Full,
    /// Unchanged facts may be skipped.
    Incremental {
        skip_unchanged: bool,
        /// The change rate, in percent, from which incremental processing
        /// applies.
        min_change_threshold: u32,
    },
    /// Full processing above a change rate, incremental below it.
    Adaptive {
        /// The change rate, in percent, above which every fact is processed.
        full_processing_threshold: u32,
        skip_unchanged: bool,
    },
}

impl ProcessingMode {
    /// Incremental processing that skips unchanged facts, from a change
    /// rate of 5 percent.
    pub fn default_incremental() -> (m: ProcessingMode)
        ensures
            m == (ProcessingMode::Incremental { skip_unchanged: true, min_change_threshold: 5 }),
    {
        ProcessingMode::Incremental { skip_unchanged: true, min_change_threshold: 5 }
    }

    /// Adaptive processing: full above a change rate of 75 percent, and
    /// skipping unchanged facts otherwise.
    pub fn default_adaptive() -> (m: ProcessingMode)
        ensures
            m == (ProcessingMode::Adaptive { full_processing_threshold: 75, skip_unchanged: true }),
    {
        ProcessingMode::Adaptive { full_processing_threshold: 75, skip_unchanged: true }
    }
}

impl Default for ProcessingMode {
    fn default() -> (m: ProcessingMode)
        ensures
            m == (ProcessingMode::Incremental { skip_unchanged: true, min_change_threshold: 5 }),
    {
        ProcessingMode::default_incremental()
    }
}

} // verus!
