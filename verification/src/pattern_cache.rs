//! Caches of compilation plans, keyed by pattern signatures: a hash of the
//! pattern's structure and a short description of it.

use vstd::prelude::*;
use std::collections::hash_map::DefaultHasher;
use std::hash::Hasher;
use std::time::Duration;
use crate::clock::duration_whole_secs;
use vstd::std_specs::hash::DefaultHasherAdditionalSpecFns;
use crate::assoc::{SignatureKey, SignatureMap};
use crate::text::{
    canonical_strs, join_with, lemma_canonical_strs, lemma_int_decimal_injective, nat_decimal, int_decimal, sort_strings,
    str_eq, strs_view, u64_to_string, i64_to_string,
};
use crate::types::{
    Condition, ConditionView, FactValue, add_product, JoinCondition, JoinView, LogicalOperator, Operator, Ratio, Rule, ValueView,
    canonical_joins, condition_view, conditions_view, duplicate_joins, joins_view, lemma_canonical_joins,
    lemma_conditions_view_index, operator_name, sort_joins,
};

verus! {

/// The name `{:?}` gives the text of a string: the string quoted, with
/// quotes, backslashes and unprintable characters escaped.
pub uninterp spec fn str_debug_text(s: Seq<char>) -> Seq<char>;

/// `<str as Debug>::fmt`, through `format!("{:?}", s)`. The result is named:
/// it depends on the text alone.
#[verifier::external_body]
fn debug_text(s: &str) -> (r: String)
    ensures
        r@ == str_debug_text(s@),
{
    format!("{:?}", s)
}

/// The writes that hashing a string makes: its UTF-8 bytes, then the byte
/// `0xff` that ends every string.
pub open spec fn str_writes(s: Seq<char>) -> Seq<Seq<u8>> {
    seq![vstd::utf8::encode_utf8(s), seq![0xffu8]]
}

/// Hashes a string into the hasher as `str::hash` does.
fn feed_str(h: &mut DefaultHasher, s: &str)
    ensures
        final(h)@ == old(h)@ + str_writes(s@),
{
    h.write(s.as_bytes());
    let end: [u8; 1] = [0xffu8];
    h.write(&end);
    proof {
        assert(end@ =~= seq![0xffu8]);
        assert(final(h)@ =~= old(h)@ + str_writes(s@));
    }
}

/// The name of a logical connective, as `{:?}` prints it.
pub open spec fn logical_name(op: LogicalOperator) -> Seq<char> {
    match op {
        LogicalOperator::And => "And"@,
        LogicalOperator::Or => "Or"@,
    }
}

fn logical_name_str(op: LogicalOperator) -> (s: &'static str)
    ensures
        s@ == logical_name(op),
{
    match op {
        LogicalOperator::And => "And",
        LogicalOperator::Or => "Or",
    }
}

/// The text `{:?}` gives a value.
pub open spec fn value_debug(v: ValueView) -> Seq<char> {
    match v {
        ValueView::Str(s) => "String("@ + str_debug_text(s) + ")"@,
        ValueView::Int(i) => "Integer("@ + int_decimal(i as int) + ")"@,
        ValueView::Bool(b) => if b { "Boolean(true)"@ } else { "Boolean(false)"@ },
        ValueView::Date(ms) => "Date("@ + int_decimal(ms as int) + ")"@,
        ValueView::Null => "Null"@,
    }
}

fn value_debug_string(v: &FactValue) -> (s: String)
    ensures
        s@ == value_debug(v@),
{
    match v {
        FactValue::String(t) => {
            let mut s = String::from_str("String(");
            let d = debug_text(t.as_str());
            s.append(d.as_str());
            s.append(")");
            s
        },
        FactValue::Integer(i) => {
            let mut s = String::from_str("Integer(");
            let d = i64_to_string(*i);
            s.append(d.as_str());
            s.append(")");
            s
        },
        FactValue::Boolean(b) => {
            if *b {
                String::from_str("Boolean(true)")
            } else {
                String::from_str("Boolean(false)")
            }
        },
        FactValue::Date(ms) => {
            let mut s = String::from_str("Date(");
            let d = i64_to_string(*ms);
            s.append(d.as_str());
            s.append(")");
            s
        },
        FactValue::Null => String::from_str("Null"),
    }
}

/// The writes that hashing a condition makes: a tag for its kind, then its
/// parts, sub-conditions in order.
pub open spec fn condition_feed(c: ConditionView) -> Seq<Seq<u8>>
    decreases c, 1nat,
{
    match c {
        ConditionView::Simple { field, operator, value } => str_writes("Simple"@) + str_writes(field)
            + str_writes(operator_name(operator)) + str_writes(value_debug(value)),
        ConditionView::Complex { operator, conditions } => str_writes("Complex"@) + str_writes(logical_name(operator))
            + conditions_feed(conditions),
        ConditionView::Aggregation { spec } => str_writes("Aggregation"@) + str_writes(str_debug_text(spec)),
        ConditionView::Stream { spec } => str_writes("Stream"@) + str_writes(str_debug_text(spec)),
    }
}

/// The writes that hashing conditions one after another makes.
pub open spec fn conditions_feed(s: Seq<ConditionView>) -> Seq<Seq<u8>>
    decreases s, 0nat,
{
    if s.len() == 0 {
        Seq::empty()
    } else {
        proof {
            assert(decreases_to!(s => s[s.len() - 1]));
        }
        conditions_feed(s.subrange(0, s.len() - 1)) + condition_feed(s[s.len() - 1])
    }
}

/// Hashes a condition into the hasher.
fn hash_condition(c: &Condition, h: &mut DefaultHasher)
    ensures
        final(h)@ == old(h)@ + condition_feed(c@),
    decreases *c, 1nat,
{
    match c {
        Condition::Simple { field, operator, value } => {
            feed_str(h, "Simple");
            feed_str(h, field.as_str());
            feed_str(h, operator.name());
            let v = value_debug_string(value);
            feed_str(h, v.as_str());
            proof {
                assert(final(h)@ =~= old(h)@ + condition_feed(c@));
            }
        },
        Condition::Complex { operator, conditions } => {
            feed_str(h, "Complex");
            feed_str(h, logical_name_str(*operator));
            hash_conditions(conditions, h);
            proof {
                assert(final(h)@ =~= old(h)@ + condition_feed(c@));
            }
        },
        Condition::Aggregation { spec } => {
            feed_str(h, "Aggregation");
            let d = debug_text(spec.as_str());
            feed_str(h, d.as_str());
            proof {
                assert(final(h)@ =~= old(h)@ + condition_feed(c@));
            }
        },
        Condition::Stream { spec } => {
            feed_str(h, "Stream");
            let d = debug_text(spec.as_str());
            feed_str(h, d.as_str());
            proof {
                assert(final(h)@ =~= old(h)@ + condition_feed(c@));
            }
        },
    }
}

/// Hashes conditions one after another into the hasher.
fn hash_conditions(conditions: &Vec<Condition>, h: &mut DefaultHasher)
    ensures
        final(h)@ == old(h)@ + conditions_feed(conditions_view(conditions@)),
    decreases conditions@, 0nat,
{
    let ghost start = h@;
    let ghost cv = conditions_view(conditions@);
    proof {
        lemma_conditions_view_index(conditions@);
        assert(cv.subrange(0, 0) =~= Seq::<ConditionView>::empty());
    }
    let n = conditions.len();
    let mut i: usize = 0;
    while i < n
        invariant
            n == conditions@.len(),
            i <= n,
            cv == conditions_view(conditions@),
            cv.len() == n,
            forall|j: int| 0 <= j < n ==> #[trigger] cv[j] == condition_view(conditions@[j]),
            h@ == start + conditions_feed(cv.subrange(0, i as int)),
        decreases n - i,
    {
        assert(decreases_to!(conditions@ => conditions@[i as int]));
        hash_condition(&conditions[i], h);
        proof {
            let t = cv.subrange(0, i + 1);
            assert(t.subrange(0, t.len() - 1) =~= cv.subrange(0, i as int));
            assert(t[t.len() - 1] == condition_view(conditions@[i as int]));
            assert(h@ =~= start + conditions_feed(t));
        }
        i = i + 1;
    }
    proof {
        assert(cv.subrange(0, n as int) =~= cv);
    }
}

/// A short description of a condition: `field:Operator` for simple ones,
/// `And(n)` or `Or(n)` for complex ones, `Agg` and `Stream` otherwise.
pub open spec fn describe_condition_spec(c: ConditionView) -> Seq<char> {
    match c {
        ConditionView::Simple { field, operator, .. } => field + ":"@ + operator_name(operator),
        ConditionView::Complex { operator, conditions } => logical_name(operator) + "("@
            + nat_decimal(conditions.len()) + ")"@,
        ConditionView::Aggregation { .. } => "Agg"@,
        ConditionView::Stream { .. } => "Stream"@,
    }
}

/// The description of a rule's conditions: `Pattern[d1,d2,...]`.
pub open spec fn describe_conditions_spec(s: Seq<ConditionView>) -> Seq<char> {
    "Pattern["@ + join_with(s.map_values(|c: ConditionView| describe_condition_spec(c)), ","@) + "]"@
}

/// The model of a signature: the hash and the description.
pub open spec fn signature_of(feed: Seq<Seq<u8>>, description: Seq<char>) -> (u64, Seq<char>) {
    (DefaultHasher::spec_finish(feed), description)
}

/// The signature of a single condition.
pub open spec fn condition_signature(c: ConditionView) -> (u64, Seq<char>) {
    signature_of(condition_feed(c), describe_condition_spec(c))
}

/// The signature of a rule's conditions.
pub open spec fn conditions_signature(s: Seq<ConditionView>) -> (u64, Seq<char>) {
    signature_of(conditions_feed(s), describe_conditions_spec(s))
}

/// The writes for join conditions, each as left field, right field and
/// operator name.
pub open spec fn joins_feed(s: Seq<JoinView>) -> Seq<Seq<u8>>
    decreases s.len(),
{
    if s.len() == 0 {
        Seq::empty()
    } else {
        joins_feed(s.drop_last()) + str_writes(s.last().left_field) + str_writes(s.last().right_field)
            + str_writes(operator_name(s.last().operator))
    }
}

/// The description of join conditions: `Join[l1=r1,l2=r2,...]`.
pub open spec fn describe_joins_spec(s: Seq<JoinView>) -> Seq<char> {
    "Join["@ + join_with(s.map_values(|j: JoinView| j.left_field + "="@ + j.right_field), ","@) + "]"@
}

/// The signature of join conditions: those of their sorted arrangement.
pub open spec fn joins_signature(s: Seq<JoinView>) -> (u64, Seq<char>) {
    signature_of(joins_feed(canonical_joins(s)), describe_joins_spec(canonical_joins(s)))
}

/// The writes for field names, one string each.
pub open spec fn fields_feed(s: Seq<Seq<char>>) -> Seq<Seq<u8>>
    decreases s.len(),
{
    if s.len() == 0 {
        Seq::empty()
    } else {
        fields_feed(s.drop_last()) + str_writes(s.last())
    }
}

/// The signature of a set of field names: those of their ascending
/// arrangement, described as `Fields[a,b,...]`.
pub open spec fn fields_signature(s: Seq<Seq<char>>) -> (u64, Seq<char>) {
    signature_of(fields_feed(canonical_strs(s)), "Fields["@ + join_with(canonical_strs(s), ","@) + "]"@)
}

/// Appends `parts` joined by `sep` to `out`.
fn append_joined(out: &mut String, parts: &Vec<String>, sep: &str)
    ensures
        final(out)@ == old(out)@ + join_with(strs_view(parts@), sep@),
{
    let ghost start = out@;
    let ghost pv = strs_view(parts@);
    let n = parts.len();
    let mut i: usize = 0;
    proof {
        assert(pv.take(0) =~= Seq::<Seq<char>>::empty());
    }
    while i < n
        invariant
            n == parts@.len(),
            pv == strs_view(parts@),
            i <= n,
            out@ == start + join_with(pv.take(i as int), sep@),
        decreases n - i,
    {
        if i > 0 {
            out.append(sep);
        }
        out.append(parts[i].as_str());
        proof {
            let t = pv.take(i + 1);
            assert(t.drop_last() =~= pv.take(i as int));
            assert(t.last() == parts@[i as int]@);
            if i == 0 {
                assert(join_with(pv.take(0), sep@) =~= Seq::<char>::empty());
            }
            assert(out@ =~= start + join_with(t, sep@));
        }
        i = i + 1;
    }
    proof {
        assert(pv.take(n as int) =~= pv);
    }
}

/// A signature of a compilation pattern: a hash of its structure and a
/// readable description.
#[derive(Debug, Clone, PartialEq, Eq, Hash)]
pub struct PatternSignature {
    pattern_hash: u64,
    pattern_description: String,
}

impl View for PatternSignature {
    type V = (u64, Seq<char>);

    closed spec fn view(&self) -> (u64, Seq<char>) {
        (self.pattern_hash, self.pattern_description@)
    }
}

impl SignatureKey for PatternSignature {
    type KeyView = (u64, Seq<char>);

    open spec fn key_view(&self) -> (u64, Seq<char>) {
        self@
    }

    fn same_key(&self, other: &Self) -> (r: bool) {
        self.pattern_hash == other.pattern_hash
            && str_eq(self.pattern_description.as_str(), other.pattern_description.as_str())
    }
}

impl PatternSignature {
    /// A copy of this signature.
    pub fn duplicate(&self) -> (r: PatternSignature)
        ensures
            r@ == self@,
    {
        PatternSignature { pattern_hash: self.pattern_hash, pattern_description: self.pattern_description.clone() }
    }

    /// The hash of the pattern's structure.
    pub fn pattern_hash(&self) -> (h: u64)
        ensures
            h == self@.0,
    {
        self.pattern_hash
    }

    /// The readable description.
    pub fn pattern_description(&self) -> (d: &String)
        ensures
            d@ == self@.1,
    {
        &self.pattern_description
    }

    /// The signature of a rule's conditions, taken in order.
    pub fn from_rule_conditions(conditions: &[Condition]) -> (s: PatternSignature)
        ensures
            s@ == conditions_signature(conditions_view(conditions@)),
    {
        let mut hasher = DefaultHasher::new();
        let ghost cv = conditions_view(conditions@);
        proof {
            lemma_conditions_view_index(conditions@);
            assert(cv.subrange(0, 0) =~= Seq::<ConditionView>::empty());
        }
        let n = conditions.len();
        let mut i: usize = 0;
        while i < n
            invariant
                n == conditions@.len(),
                i <= n,
                cv == conditions_view(conditions@),
                cv.len() == n,
                forall|j: int| 0 <= j < n ==> #[trigger] cv[j] == condition_view(conditions@[j]),
                hasher@ == conditions_feed(cv.subrange(0, i as int)),
            decreases n - i,
        {
            hash_condition(&conditions[i], &mut hasher);
            proof {
                let t = cv.subrange(0, i + 1);
                assert(t.subrange(0, t.len() - 1) =~= cv.subrange(0, i as int));
                assert(hasher@ =~= conditions_feed(t));
            }
            i = i + 1;
        }
        proof {
            assert(cv.subrange(0, n as int) =~= cv);
        }
        let pattern_hash = hasher.finish();
        let pattern_description = PatternSignature::describe_conditions(conditions);
        PatternSignature { pattern_hash, pattern_description }
    }

    /// The signature of a single condition.
    pub fn from_condition(condition: &Condition) -> (s: PatternSignature)
        ensures
            s@ == condition_signature(condition@),
    {
        let mut hasher = DefaultHasher::new();
        hash_condition(condition, &mut hasher);
        proof {
            assert(hasher@ =~= condition_feed(condition@));
        }
        let pattern_hash = hasher.finish();
        let pattern_description = PatternSignature::describe_condition(condition);
        PatternSignature { pattern_hash, pattern_description }
    }

    /// The signature of join conditions, which does not depend on their
    /// order.
    pub fn from_join_conditions(conditions: &[JoinCondition]) -> (s: PatternSignature)
        ensures
            s@ == joins_signature(joins_view(conditions@)),
    {
        let sorted = sort_joins(duplicate_joins(conditions));
        let ghost sv = joins_view(sorted@);
        proof {
            lemma_canonical_joins(joins_view(conditions@), sv);
        }
        let mut hasher = DefaultHasher::new();
        let mut parts: Vec<String> = Vec::new();
        let n = sorted.len();
        let mut i: usize = 0;
        proof {
            assert(sv.take(0) =~= Seq::<JoinView>::empty());
        }
        while i < n
            invariant
                n == sorted@.len(),
                sv == joins_view(sorted@),
                i <= n,
                hasher@ == joins_feed(sv.take(i as int)),
                parts@.len() == i,
                forall|j: int| 0 <= j < i ==> #[trigger] parts@[j]@ == sv[j].left_field + "="@ + sv[j].right_field,
            decreases n - i,
        {
            let jc = &sorted[i];
            feed_str(&mut hasher, jc.left_field.as_str());
            feed_str(&mut hasher, jc.right_field.as_str());
            feed_str(&mut hasher, jc.operator.name());
            let mut part = jc.left_field.clone();
            part.append("=");
            part.append(jc.right_field.as_str());
            parts.push(part);
            proof {
                let t = sv.take(i + 1);
                assert(t.drop_last() =~= sv.take(i as int));
                assert(t.last() == sorted@[i as int]@);
                assert(hasher@ =~= joins_feed(t));
            }
            i = i + 1;
        }
        proof {
            assert(sv.take(n as int) =~= sv);
            assert(strs_view(parts@) =~= sv.map_values(|j: JoinView| j.left_field + "="@ + j.right_field));
        }
        let pattern_hash = hasher.finish();
        let mut pattern_description = String::from_str("Join[");
        append_joined(&mut pattern_description, &parts, ",");
        pattern_description.append("]");
        proof {
            assert(pattern_description@ =~= describe_joins_spec(sv));
        }
        PatternSignature { pattern_hash, pattern_description }
    }

    /// The signature under which join conditions for a set of field names
    /// are cached; it does not depend on the order of the names.
    pub fn from_field_names(field_names: &[String]) -> (s: PatternSignature)
        ensures
            s@ == fields_signature(strs_view(field_names@)),
    {
        let mut copy: Vec<String> = Vec::new();
        let mut k: usize = 0;
        while k < field_names.len()
            invariant
                k <= field_names@.len(),
                copy@.len() == k,
                strs_view(copy@) == strs_view(field_names@.take(k as int)),
            decreases field_names@.len() - k,
        {
            let ghost before = copy@;
            copy.push(field_names[k].clone());
            proof {
                assert(copy@ =~= before.push(copy@[k as int]));
                assert(strs_view(copy@) =~= strs_view(before).push(field_names@[k as int]@));
                assert(field_names@.take(k + 1) =~= field_names@.take(k as int).push(field_names@[k as int]));
                assert(strs_view(copy@) =~= strs_view(field_names@.take(k + 1)));
            }
            k = k + 1;
        }
        proof {
            assert(field_names@.take(k as int) =~= field_names@);
        }
        let sorted = sort_strings(copy);
        let ghost sv = strs_view(sorted@);
        proof {
            lemma_canonical_strs(strs_view(field_names@), sv);
        }
        let mut hasher = DefaultHasher::new();
        let n = sorted.len();
        let mut i: usize = 0;
        proof {
            assert(sv.take(0) =~= Seq::<Seq<char>>::empty());
        }
        while i < n
            invariant
                n == sorted@.len(),
                sv == strs_view(sorted@),
                i <= n,
                hasher@ == fields_feed(sv.take(i as int)),
            decreases n - i,
        {
            feed_str(&mut hasher, sorted[i].as_str());
            proof {
                let t = sv.take(i + 1);
                assert(t.drop_last() =~= sv.take(i as int));
                assert(hasher@ =~= fields_feed(t));
            }
            i = i + 1;
        }
        proof {
            assert(sv.take(n as int) =~= sv);
        }
        let pattern_hash = hasher.finish();
        let mut pattern_description = String::from_str("Fields[");
        append_joined(&mut pattern_description, &sorted, ",");
        pattern_description.append("]");
        PatternSignature { pattern_hash, pattern_description }
    }

    fn describe_condition(condition: &Condition) -> (s: String)
        ensures
            s@ == describe_condition_spec(condition@),
    {
        match condition {
            Condition::Simple { field, operator, .. } => {
                let mut s = field.clone();
                s.append(":");
                s.append(operator.name());
                s
            },
            Condition::Complex { operator, conditions } => {
                let mut s = String::from_str(logical_name_str(*operator));
                s.append("(");
                let count = u64_to_string(conditions.len() as u64);
                s.append(count.as_str());
                s.append(")");
                proof {
                    lemma_conditions_view_index(conditions@);
                }
                s
            },
            Condition::Aggregation { .. } => String::from_str("Agg"),
            Condition::Stream { .. } => String::from_str("Stream"),
        }
    }

    fn describe_conditions(conditions: &[Condition]) -> (s: String)
        ensures
            s@ == describe_conditions_spec(conditions_view(conditions@)),
    {
        let mut parts: Vec<String> = Vec::new();
        let ghost cv = conditions_view(conditions@);
        proof {
            lemma_conditions_view_index(conditions@);
        }
        let n = conditions.len();
        let mut i: usize = 0;
        while i < n
            invariant
                n == conditions@.len(),
                cv == conditions_view(conditions@),
                cv.len() == n,
                forall|j: int| 0 <= j < n ==> #[trigger] cv[j] == condition_view(conditions@[j]),
                i <= n,
                parts@.len() == i,
                forall|j: int| 0 <= j < i ==> #[trigger] parts@[j]@ == describe_condition_spec(cv[j]),
            decreases n - i,
        {
            parts.push(PatternSignature::describe_condition(&conditions[i]));
            i = i + 1;
        }
        proof {
            assert(strs_view(parts@) =~= cv.map_values(|c: ConditionView| describe_condition_spec(c)));
        }
        let mut s = String::from_str("Pattern[");
        append_joined(&mut s, &parts, ",");
        s.append("]");
        s
    }
}

/// Plan for creating or reusing an alpha node.
#[derive(Debug, Clone)]
pub struct AlphaNodePlan {
    pub condition: Condition,
    pub signature: PatternSignature,
    pub shareable: bool,
}

/// Plan for creating a beta node.
#[derive(Debug, Clone)]
pub struct BetaNodePlan {
    pub join_conditions: Vec<JoinCondition>,
    pub signature: PatternSignature,
    pub left_input: usize,
    pub right_input: usize,
}

/// A cached compilation plan for a pattern.
#[derive(Debug, Clone)]
pub struct CompilationPlan {
    pub alpha_nodes: Vec<AlphaNodePlan>,
    pub beta_nodes: Vec<BetaNodePlan>,
    pub join_conditions: Vec<JoinCondition>,
    pub estimated_node_count: usize,
}

/// The simple conditions among `s`, in order, each marked shareable.
pub open spec fn simple_entries(s: Seq<ConditionView>) -> Seq<(ConditionView, bool)>
    decreases s.len(),
{
    if s.len() == 0 {
        Seq::empty()
    } else {
        simple_entries(s.drop_last()) + (if s.last() is Simple { seq![(s.last(), true)] } else { Seq::empty() })
    }
}

/// The alpha nodes one condition asks for: itself when simple, its simple
/// sub-conditions when complex, and otherwise itself, not shareable.
pub open spec fn alpha_entries_of(c: ConditionView) -> Seq<(ConditionView, bool)> {
    match c {
        ConditionView::Simple { .. } => seq![(c, true)],
        ConditionView::Complex { conditions, .. } => simple_entries(conditions),
        _ => seq![(c, false)],
    }
}

/// The alpha nodes a rule's conditions ask for, in order.
pub open spec fn alpha_entries(s: Seq<ConditionView>) -> Seq<(ConditionView, bool)>
    decreases s.len(),
{
    if s.len() == 0 {
        Seq::empty()
    } else {
        alpha_entries(s.drop_last()) + alpha_entries_of(s.last())
    }
}

/// An alpha node plan that tests condition `e.0`, with its signature and
/// shareability `e.1`.
pub open spec fn alpha_plan_matches(p: AlphaNodePlan, e: (ConditionView, bool)) -> bool {
    &&& p.condition@ == e.0
    &&& p.signature@ == condition_signature(e.0)
    &&& p.shareable == e.1
}

/// How many simple conditions test field `f`.
pub open spec fn simple_count_on(s: Seq<ConditionView>, f: Seq<char>) -> nat
    decreases s.len(),
{
    if s.len() == 0 {
        0
    } else {
        simple_count_on(s.drop_last(), f) + match s.last() {
            ConditionView::Simple { field, .. } => if field == f { 1nat } else { 0nat },
            _ => 0nat,
        }
    }
}

/// The join field of a pattern: the first of `entity_id`, `id`, `user_id`
/// and `customer_id` that at least two simple conditions test.
pub open spec fn join_field(s: Seq<ConditionView>) -> Option<Seq<char>> {
    if simple_count_on(s, "entity_id"@) >= 2 {
        Some("entity_id"@)
    } else if simple_count_on(s, "id"@) >= 2 {
        Some("id"@)
    } else if simple_count_on(s, "user_id"@) >= 2 {
        Some("user_id"@)
    } else if simple_count_on(s, "customer_id"@) >= 2 {
        Some("customer_id"@)
    } else {
        None
    }
}

/// The join conditions of a pattern: equality on its join field, if any.
pub open spec fn pattern_joins(s: Seq<ConditionView>) -> Seq<JoinView> {
    match join_field(s) {
        Some(f) => seq![JoinView { left_field: f, right_field: f, operator: Operator::Equal }],
        None => Seq::empty(),
    }
}

fn count_simple_on(conditions: &Vec<Condition>, f: &str) -> (n: usize)
    ensures
        n == simple_count_on(conditions_view(conditions@), f@),
{
    let ghost cv = conditions_view(conditions@);
    proof {
        lemma_conditions_view_index(conditions@);
        assert(cv.take(0) =~= Seq::<ConditionView>::empty());
    }
    let len = conditions.len();
    let mut n: usize = 0;
    let mut i: usize = 0;
    while i < len
        invariant
            len == conditions@.len(),
            cv == conditions_view(conditions@),
            cv.len() == len,
            forall|j: int| 0 <= j < len ==> #[trigger] cv[j] == condition_view(conditions@[j]),
            i <= len,
            n <= i,
            n == simple_count_on(cv.take(i as int), f@),
        decreases len - i,
    {
        match &conditions[i] {
            Condition::Simple { field, .. } => {
                if str_eq(field.as_str(), f) {
                    n = n + 1;
                }
            },
            _ => {},
        }
        proof {
            let t = cv.take(i + 1);
            assert(t.drop_last() =~= cv.take(i as int));
        }
        i = i + 1;
    }
    proof {
        assert(cv.take(len as int) =~= cv);
    }
    n
}

fn field_join(f: &str) -> (v: Vec<JoinCondition>)
    ensures
        joins_view(v@) == seq![JoinView { left_field: f@, right_field: f@, operator: Operator::Equal }],
{
    let mut v: Vec<JoinCondition> = Vec::new();
    v.push(JoinCondition { left_field: String::from_str(f), right_field: String::from_str(f), operator: Operator::Equal });
    proof {
        assert(joins_view(v@) =~= seq![JoinView { left_field: f@, right_field: f@, operator: Operator::Equal }]);
    }
    v
}

/// Statistics of cache use.
#[derive(Debug, Clone, Copy, PartialEq, Eq, Structural)]
pub struct PatternCacheStats {
    pub pattern_cache_hits: usize,
    pub pattern_cache_misses: usize,
    pub alpha_cache_hits: usize,
    pub alpha_cache_misses: usize,
    pub join_cache_hits: usize,
    pub join_cache_misses: usize,
    pub patterns_cached: usize,
    pub cache_memory_usage: usize,
}

/// All counters at zero.
pub open spec fn zero_stats() -> PatternCacheStats {
    PatternCacheStats {
        pattern_cache_hits: 0,
        pattern_cache_misses: 0,
        alpha_cache_hits: 0,
        alpha_cache_misses: 0,
        join_cache_hits: 0,
        join_cache_misses: 0,
        patterns_cached: 0,
        cache_memory_usage: 0,
    }
}

impl Default for PatternCacheStats {
    fn default() -> (s: PatternCacheStats)
        ensures
            s == zero_stats(),
    {
        PatternCacheStats {
            pattern_cache_hits: 0,
            pattern_cache_misses: 0,
            alpha_cache_hits: 0,
            alpha_cache_misses: 0,
            join_cache_hits: 0,
            join_cache_misses: 0,
            patterns_cached: 0,
            cache_memory_usage: 0,
        }
    }
}

impl PatternCacheStats {
    /// Hits over lookups, all three caches together.
    pub fn hit_rate(&self) -> (r: Ratio)
        requires
            self.pattern_cache_hits + self.alpha_cache_hits + self.join_cache_hits + self.pattern_cache_misses
                + self.alpha_cache_misses + self.join_cache_misses <= usize::MAX,
        ensures
            r.part == self.pattern_cache_hits + self.alpha_cache_hits + self.join_cache_hits,
            r.whole == r.part + self.pattern_cache_misses + self.alpha_cache_misses + self.join_cache_misses,
    {
        let hits = self.pattern_cache_hits + self.alpha_cache_hits + self.join_cache_hits;
        let misses = self.pattern_cache_misses + self.alpha_cache_misses + self.join_cache_misses;
        Ratio { part: hits, whole: hits + misses }
    }

    /// Hits over lookups of whole rule patterns.
    pub fn pattern_hit_rate(&self) -> (r: Ratio)
        requires
            self.pattern_cache_hits + self.pattern_cache_misses <= usize::MAX,
        ensures
            r.part == self.pattern_cache_hits,
            r.whole == self.pattern_cache_hits + self.pattern_cache_misses,
    {
        Ratio { part: self.pattern_cache_hits, whole: self.pattern_cache_hits + self.pattern_cache_misses }
    }
}

/// The memory estimate: entries of each cache times the size of an entry,
/// saturating at `usize::MAX`.
pub open spec fn memory_estimate(patterns: nat, alphas: nat, joins: nat) -> usize {
    let total = patterns * vstd::layout::size_of::<CompilationPlan>() + alphas * vstd::layout::size_of::<AlphaNodePlan>()
        + joins * vstd::layout::size_of::<Vec<JoinCondition>>();
    if total <= usize::MAX { total as usize } else { usize::MAX }
}

/// Fewer entries after dropping `removed` of them.
pub open spec fn shrunk<K, V>(before: Map<K, V>, after: Map<K, V>, removed: nat) -> bool {
    &&& after.submap_of(before)
    &&& after.dom().len() == before.dom().len() - removed
}

/// Each cache lost the `1/d` share of its entries, rounded down.
pub open spec fn cleaned_by(before: PatternCache, after: PatternCache, d: nat) -> bool {
    &&& shrunk(before.patterns(), after.patterns(), before.patterns().dom().len() / d)
    &&& shrunk(before.alphas(), after.alphas(), before.alphas().dom().len() / d)
    &&& shrunk(before.joins(), after.joins(), before.joins().dom().len() / d)
}

/// Caches of compilation plans, alpha node plans and join conditions.
#[derive(Debug)]
pub struct PatternCache {
    pattern_cache: SignatureMap<PatternSignature, CompilationPlan>,
    alpha_cache: SignatureMap<PatternSignature, AlphaNodePlan>,
    join_cache: SignatureMap<PatternSignature, Vec<JoinCondition>>,
    pub stats: PatternCacheStats,
}

impl PatternCache {
    /// Cached compilation plans by signature.
    pub closed spec fn patterns(&self) -> Map<(u64, Seq<char>), CompilationPlan> {
        self.pattern_cache.view()
    }

    /// Cached alpha node plans by signature.
    pub closed spec fn alphas(&self) -> Map<(u64, Seq<char>), AlphaNodePlan> {
        self.alpha_cache.view()
    }

    /// Cached join conditions by signature.
    pub closed spec fn joins(&self) -> Map<(u64, Seq<char>), Vec<JoinCondition>> {
        self.join_cache.view()
    }

    /// The statistics.
    pub closed spec fn stats_view(&self) -> PatternCacheStats {
        self.stats
    }

    /// The caches are consistent.
    pub closed spec fn wf(&self) -> bool {
        &&& self.pattern_cache.wf()
        &&& self.alpha_cache.wf()
        &&& self.join_cache.wf()
    }

    /// The memory estimate stored in the statistics matches the caches.
    pub open spec fn memory_accounted(&self) -> bool {
        self.stats_view().cache_memory_usage == memory_estimate(
            self.patterns().dom().len(),
            self.alphas().dom().len(),
            self.joins().dom().len(),
        )
    }

    /// Empty caches and zero statistics.
    pub fn new() -> (c: PatternCache)
        ensures
            c.wf(),
            c.patterns() == Map::<(u64, Seq<char>), CompilationPlan>::empty(),
            c.alphas() == Map::<(u64, Seq<char>), AlphaNodePlan>::empty(),
            c.joins() == Map::<(u64, Seq<char>), Vec<JoinCondition>>::empty(),
            c.stats_view() == zero_stats(),
    {
        PatternCache {
            pattern_cache: SignatureMap::new(),
            alpha_cache: SignatureMap::new(),
            join_cache: SignatureMap::new(),
            stats: PatternCacheStats::default(),
        }
    }

    /// Empty caches with room for `capacity` entries each.
    pub fn with_capacity(capacity: usize) -> (c: PatternCache)
        ensures
            c.wf(),
            c.patterns() == Map::<(u64, Seq<char>), CompilationPlan>::empty(),
            c.alphas() == Map::<(u64, Seq<char>), AlphaNodePlan>::empty(),
            c.joins() == Map::<(u64, Seq<char>), Vec<JoinCondition>>::empty(),
            c.stats_view() == zero_stats(),
    {
        PatternCache {
            pattern_cache: SignatureMap::with_capacity(capacity),
            alpha_cache: SignatureMap::with_capacity(capacity),
            join_cache: SignatureMap::with_capacity(capacity),
            stats: PatternCacheStats::default(),
        }
    }

    fn update_memory_usage(&mut self)
        requires
            old(self).wf(),
        ensures
            final(self).wf(),
            final(self).patterns() == old(self).patterns(),
            final(self).alphas() == old(self).alphas(),
            final(self).joins() == old(self).joins(),
            final(self).stats_view() == (PatternCacheStats {
                cache_memory_usage: memory_estimate(
                    old(self).patterns().dom().len(),
                    old(self).alphas().dom().len(),
                    old(self).joins().dom().len(),
                ),
                ..old(self).stats_view()
            }),
    {
        let p = self.pattern_cache.len();
        let a = self.alpha_cache.len();
        let j = self.join_cache.len();
        let acc = add_product(Some(0usize), p, core::mem::size_of::<CompilationPlan>());
        let acc = add_product(acc, a, core::mem::size_of::<AlphaNodePlan>());
        let acc = add_product(acc, j, core::mem::size_of::<Vec<JoinCondition>>());
        proof {
            let sp = vstd::layout::size_of::<CompilationPlan>();
            let sa = vstd::layout::size_of::<AlphaNodePlan>();
            let sj = vstd::layout::size_of::<Vec<JoinCondition>>();
            assert(p * sp >= 0 && a * sa >= 0 && j * sj >= 0) by (nonlinear_arith)
                requires sp >= 0, sa >= 0, sj >= 0;
        }
        self.stats.cache_memory_usage = match acc {
            Some(total) => total,
            None => usize::MAX,
        };
    }

    /// The plan cached for a rule's conditions, if any; counts a hit or a
    /// miss.
    pub fn get_rule_pattern(&mut self, rule: &Rule) -> (r: Option<&CompilationPlan>)
        requires
            old(self).wf(),
            old(self).stats_view().pattern_cache_hits < usize::MAX,
            old(self).stats_view().pattern_cache_misses < usize::MAX,
        ensures
            final(self).wf(),
            final(self).patterns() == old(self).patterns(),
            final(self).alphas() == old(self).alphas(),
            final(self).joins() == old(self).joins(),
            ({
                let key = conditions_signature(conditions_view(rule.conditions@));
                if old(self).patterns().contains_key(key) {
                    &&& r matches Some(p) && *p == old(self).patterns()[key]
                    &&& final(self).stats_view() == (PatternCacheStats {
                        pattern_cache_hits: (old(self).stats_view().pattern_cache_hits + 1) as usize,
                        ..old(self).stats_view()
                    })
                } else {
                    &&& r is None
                    &&& final(self).stats_view() == (PatternCacheStats {
                        pattern_cache_misses: (old(self).stats_view().pattern_cache_misses + 1) as usize,
                        ..old(self).stats_view()
                    })
                }
            }),
    {
        let signature = PatternSignature::from_rule_conditions(rule.conditions.as_slice());
        let found = self.pattern_cache.get(&signature).is_some();
        if found {
            self.stats.pattern_cache_hits = self.stats.pattern_cache_hits + 1;
        } else {
            self.stats.pattern_cache_misses = self.stats.pattern_cache_misses + 1;
        }
        self.pattern_cache.get(&signature)
    }

    /// Caches a plan under a rule's conditions.
    pub fn cache_rule_pattern(&mut self, rule: &Rule, plan: CompilationPlan)
        requires
            old(self).wf(),
            old(self).stats_view().patterns_cached < usize::MAX,
        ensures
            final(self).wf(),
            final(self).patterns() == old(self).patterns().insert(conditions_signature(conditions_view(rule.conditions@)), plan),
            final(self).alphas() == old(self).alphas(),
            final(self).joins() == old(self).joins(),
            final(self).memory_accounted(),
            final(self).stats_view() == (PatternCacheStats {
                patterns_cached: (old(self).stats_view().patterns_cached + 1) as usize,
                cache_memory_usage: final(self).stats_view().cache_memory_usage,
                ..old(self).stats_view()
            }),
    {
        let signature = PatternSignature::from_rule_conditions(rule.conditions.as_slice());
        self.pattern_cache.insert(signature, plan);
        self.stats.patterns_cached = self.stats.patterns_cached + 1;
        self.update_memory_usage();
    }

    /// The alpha node plan cached for a condition, if any; counts a hit or a
    /// miss.
    pub fn get_alpha_pattern(&mut self, condition: &Condition) -> (r: Option<&AlphaNodePlan>)
        requires
            old(self).wf(),
            old(self).stats_view().alpha_cache_hits < usize::MAX,
            old(self).stats_view().alpha_cache_misses < usize::MAX,
        ensures
            final(self).wf(),
            final(self).patterns() == old(self).patterns(),
            final(self).alphas() == old(self).alphas(),
            final(self).joins() == old(self).joins(),
            ({
                let key = condition_signature(condition@);
                if old(self).alphas().contains_key(key) {
                    &&& r matches Some(p) && *p == old(self).alphas()[key]
                    &&& final(self).stats_view() == (PatternCacheStats {
                        alpha_cache_hits: (old(self).stats_view().alpha_cache_hits + 1) as usize,
                        ..old(self).stats_view()
                    })
                } else {
                    &&& r is None
                    &&& final(self).stats_view() == (PatternCacheStats {
                        alpha_cache_misses: (old(self).stats_view().alpha_cache_misses + 1) as usize,
                        ..old(self).stats_view()
                    })
                }
            }),
    {
        let signature = PatternSignature::from_condition(condition);
        let found = self.alpha_cache.get(&signature).is_some();
        if found {
            self.stats.alpha_cache_hits = self.stats.alpha_cache_hits + 1;
        } else {
            self.stats.alpha_cache_misses = self.stats.alpha_cache_misses + 1;
        }
        self.alpha_cache.get(&signature)
    }

    /// Caches an alpha node plan under a condition.
    pub fn cache_alpha_pattern(&mut self, condition: &Condition, plan: AlphaNodePlan)
        requires
            old(self).wf(),
        ensures
            final(self).wf(),
            final(self).alphas() == old(self).alphas().insert(condition_signature(condition@), plan),
            final(self).patterns() == old(self).patterns(),
            final(self).joins() == old(self).joins(),
            final(self).memory_accounted(),
            final(self).stats_view() == (PatternCacheStats {
                cache_memory_usage: final(self).stats_view().cache_memory_usage,
                ..old(self).stats_view()
            }),
    {
        let signature = PatternSignature::from_condition(condition);
        self.alpha_cache.insert(signature, plan);
        self.update_memory_usage();
    }

    /// The join conditions cached for a set of field names, if any; counts
    /// a hit or a miss.
    pub fn get_join_pattern(&mut self, field_names: &[String]) -> (r: Option<&Vec<JoinCondition>>)
        requires
            old(self).wf(),
            old(self).stats_view().join_cache_hits < usize::MAX,
            old(self).stats_view().join_cache_misses < usize::MAX,
        ensures
            final(self).wf(),
            final(self).patterns() == old(self).patterns(),
            final(self).alphas() == old(self).alphas(),
            final(self).joins() == old(self).joins(),
            ({
                let key = fields_signature(strs_view(field_names@));
                if old(self).joins().contains_key(key) {
                    &&& r matches Some(p) && *p == old(self).joins()[key]
                    &&& final(self).stats_view() == (PatternCacheStats {
                        join_cache_hits: (old(self).stats_view().join_cache_hits + 1) as usize,
                        ..old(self).stats_view()
                    })
                } else {
                    &&& r is None
                    &&& final(self).stats_view() == (PatternCacheStats {
                        join_cache_misses: (old(self).stats_view().join_cache_misses + 1) as usize,
                        ..old(self).stats_view()
                    })
                }
            }),
    {
        let signature = PatternSignature::from_field_names(field_names);
        let found = self.join_cache.get(&signature).is_some();
        if found {
            self.stats.join_cache_hits = self.stats.join_cache_hits + 1;
        } else {
            self.stats.join_cache_misses = self.stats.join_cache_misses + 1;
        }
        self.join_cache.get(&signature)
    }

    /// Caches join conditions under a set of field names.
    pub fn cache_join_pattern(&mut self, field_names: &[String], conditions: Vec<JoinCondition>)
        requires
            old(self).wf(),
        ensures
            final(self).wf(),
            final(self).joins() == old(self).joins().insert(fields_signature(strs_view(field_names@)), conditions),
            final(self).patterns() == old(self).patterns(),
            final(self).alphas() == old(self).alphas(),
            final(self).memory_accounted(),
            final(self).stats_view() == (PatternCacheStats {
                cache_memory_usage: final(self).stats_view().cache_memory_usage,
                ..old(self).stats_view()
            }),
    {
        let signature = PatternSignature::from_field_names(field_names);
        self.join_cache.insert(signature, conditions);
        self.update_memory_usage();
    }

    /// Empties the caches and resets the statistics.
    pub fn clear(&mut self)
        ensures
            final(self).wf(),
            final(self).patterns() == Map::<(u64, Seq<char>), CompilationPlan>::empty(),
            final(self).alphas() == Map::<(u64, Seq<char>), AlphaNodePlan>::empty(),
            final(self).joins() == Map::<(u64, Seq<char>), Vec<JoinCondition>>::empty(),
            final(self).stats_view() == zero_stats(),
    {
        self.pattern_cache.clear();
        self.alpha_cache.clear();
        self.join_cache.clear();
        self.stats = PatternCacheStats::default();
    }

    /// Number of entries in the three caches together.
    pub fn size(&self) -> (n: usize)
        requires
            self.wf(),
            self.patterns().dom().len() + self.alphas().dom().len() + self.joins().dom().len() <= usize::MAX,
        ensures
            n == self.patterns().dom().len() + self.alphas().dom().len() + self.joins().dom().len(),
    {
        self.pattern_cache.len() + self.alpha_cache.len() + self.join_cache.len()
    }

    /// Under memory pressure: keeps a tenth of the plans (at least five), a
    /// twentieth of the alpha plans (at least three), and no join conditions.
    /// The oldest entries go first.
    pub fn emergency_cleanup(&mut self)
        requires
            old(self).wf(),
        ensures
            final(self).wf(),
            ({
                let p = old(self).patterns().dom().len();
                let a = old(self).alphas().dom().len();
                let keep_p = if p / 10 > 5 { p / 10 } else { 5 };
                let keep_a = if a / 20 > 3 { a / 20 } else { 3 };
                &&& shrunk(old(self).patterns(), final(self).patterns(), if p > keep_p { (p - keep_p) as nat } else { 0 })
                &&& shrunk(old(self).alphas(), final(self).alphas(), if a > keep_a { (a - keep_a) as nat } else { 0 })
            }),
            final(self).joins() == Map::<(u64, Seq<char>), Vec<JoinCondition>>::empty(),
            final(self).memory_accounted(),
            final(self).stats_view() == (PatternCacheStats {
                cache_memory_usage: final(self).stats_view().cache_memory_usage,
                ..old(self).stats_view()
            }),
    {
        proof {
            self.pattern_cache.lemma_len();
            self.alpha_cache.lemma_len();
        }
        let p = self.pattern_cache.len();
        let keep_p = if p / 10 > 5 { p / 10 } else { 5 };
        if p > keep_p {
            self.pattern_cache.drop_oldest(p - keep_p);
        }
        let a = self.alpha_cache.len();
        let keep_a = if a / 20 > 3 { a / 20 } else { 3 };
        if a > keep_a {
            self.alpha_cache.drop_oldest(a - keep_a);
        }
        self.join_cache.clear();
        self.update_memory_usage();
    }

    /// Drops the oldest half of every cache when entries may be kept under
    /// five minutes, else the oldest fifth.
    pub fn cleanup_entries_older_than_secs(&mut self, max_age_secs: u64)
        requires
            old(self).wf(),
        ensures
            final(self).wf(),
            cleaned_by(*old(self), *final(self), if max_age_secs < 300 { 2 } else { 5 }),
            final(self).memory_accounted(),
            final(self).stats_view() == (PatternCacheStats {
                cache_memory_usage: final(self).stats_view().cache_memory_usage,
                ..old(self).stats_view()
            }),
    {
        let d: usize = if max_age_secs < 300 { 2 } else { 5 };
        proof {
            self.pattern_cache.lemma_len();
            self.alpha_cache.lemma_len();
            self.join_cache.lemma_len();
        }
        let p = self.pattern_cache.len() / d;
        if p > 0 {
            self.pattern_cache.drop_oldest(p);
        }
        let a = self.alpha_cache.len() / d;
        if a > 0 {
            self.alpha_cache.drop_oldest(a);
        }
        let j = self.join_cache.len() / d;
        if j > 0 {
            self.join_cache.drop_oldest(j);
        }
        self.update_memory_usage();
    }

    /// Drops old entries for an age limit; see
    /// [`PatternCache::cleanup_entries_older_than_secs`].
    pub fn cleanup_old_entries(&mut self, max_age: Duration)
        requires
            old(self).wf(),
        ensures
            final(self).wf(),
            cleaned_by(*old(self), *final(self), 2) || cleaned_by(*old(self), *final(self), 5),
            final(self).memory_accounted(),
            final(self).stats_view() == (PatternCacheStats {
                cache_memory_usage: final(self).stats_view().cache_memory_usage,
                ..old(self).stats_view()
            }),
    {
        let secs = duration_whole_secs(&max_age);
        self.cleanup_entries_older_than_secs(secs);
    }

    /// The plan for a rule: an alpha node per simple condition (and per
    /// simple sub-condition of a complex one), a placeholder for any other
    /// condition, a join on the pattern's join field, one beta node when
    /// there are two alpha nodes or more, and a terminal node.
    pub fn create_compilation_plan(&self, rule: &Rule) -> (plan: CompilationPlan)
        requires
            alpha_entries(conditions_view(rule.conditions@)).len() + 2 <= usize::MAX,
        ensures
            ({
                let cv = conditions_view(rule.conditions@);
                let entries = alpha_entries(cv);
                &&& plan.alpha_nodes@.len() == entries.len()
                &&& forall|i: int| 0 <= i < entries.len() ==> alpha_plan_matches(#[trigger] plan.alpha_nodes@[i], entries[i])
                &&& joins_view(plan.join_conditions@) == pattern_joins(cv)
                &&& if entries.len() > 1 {
                    &&& plan.beta_nodes@.len() == 1
                    &&& joins_view(plan.beta_nodes@[0].join_conditions@) == pattern_joins(cv)
                    &&& plan.beta_nodes@[0].signature@ == joins_signature(pattern_joins(cv))
                    &&& plan.beta_nodes@[0].left_input == 0
                    &&& plan.beta_nodes@[0].right_input == 1
                } else {
                    plan.beta_nodes@.len() == 0
                }
                &&& plan.estimated_node_count == plan.alpha_nodes@.len() + plan.beta_nodes@.len() + 1
            }),
    {
        let conditions = &rule.conditions;
        let ghost cv = conditions_view(conditions@);
        proof {
            lemma_conditions_view_index(conditions@);
            assert(cv.take(0) =~= Seq::<ConditionView>::empty());
            lemma_alpha_entries_prefix(cv);
        }
        let mut alpha_nodes: Vec<AlphaNodePlan> = Vec::new();
        let n = conditions.len();
        let mut i: usize = 0;
        while i < n
            invariant
                n == conditions@.len(),
                cv == conditions_view(conditions@),
                cv.len() == n,
                forall|j: int| 0 <= j < n ==> #[trigger] cv[j] == condition_view(conditions@[j]),
                i <= n,
                alpha_entries(cv).len() + 2 <= usize::MAX,
                forall|k: int| 0 <= k <= n ==> #[trigger] alpha_entries(cv.take(k)).len() <= alpha_entries(cv).len(),
                alpha_nodes@.len() == alpha_entries(cv.take(i as int)).len(),
                forall|k: int| 0 <= k < alpha_nodes@.len() ==>
                    alpha_plan_matches(#[trigger] alpha_nodes@[k], alpha_entries(cv.take(i as int))[k]),
            decreases n - i,
        {
            let ghost before = alpha_entries(cv.take(i as int));
            let ghost c = cv[i as int];
            proof {
                let t = cv.take(i + 1);
                assert(t.drop_last() =~= cv.take(i as int));
                assert(alpha_entries(t) == before + alpha_entries_of(c));
                assert(alpha_entries(cv.take(i + 1)).len() <= alpha_entries(cv).len());
            }
            let cond = &conditions[i];
            match cond {
                Condition::Simple { .. } => {
                    alpha_nodes.push(AlphaNodePlan {
                        condition: cond.duplicate(),
                        signature: PatternSignature::from_condition(cond),
                        shareable: true,
                    });
                    proof {
                        assert(alpha_entries_of(c) == seq![(c, true)]);
                    }
                },
                Condition::Complex { conditions: subs, .. } => {
                    let ghost sv = conditions_view(subs@);
                    proof {
                        lemma_conditions_view_index(subs@);
                        assert(sv.take(0) =~= Seq::<ConditionView>::empty());
                        assert(alpha_entries_of(c) == simple_entries(sv));
                        lemma_simple_entries_prefix(sv);
                    }
                    let m = subs.len();
                    let mut j: usize = 0;
                    while j < m
                        invariant
                            m == subs@.len(),
                            sv == conditions_view(subs@),
                            sv.len() == m,
                            forall|q: int| 0 <= q < m ==> #[trigger] sv[q] == condition_view(subs@[q]),
                            j <= m,
                            before.len() + simple_entries(sv).len() + 2 <= usize::MAX,
                            forall|q: int| 0 <= q <= m ==> #[trigger] simple_entries(sv.take(q)).len() <= simple_entries(sv).len(),
                            alpha_nodes@.len() == before.len() + simple_entries(sv.take(j as int)).len(),
                            forall|k: int| 0 <= k < alpha_nodes@.len() ==>
                                alpha_plan_matches(#[trigger] alpha_nodes@[k], (before + simple_entries(sv.take(j as int)))[k]),
                        decreases m - j,
                    {
                        let ghost inner = before + simple_entries(sv.take(j as int));
                        proof {
                            let t = sv.take(j + 1);
                            assert(t.drop_last() =~= sv.take(j as int));
                            assert(simple_entries(sv.take(j + 1)).len() <= simple_entries(sv).len());
                        }
                        let sub = &subs[j];
                        if sub.is_simple() {
                            alpha_nodes.push(AlphaNodePlan {
                                condition: sub.duplicate(),
                                signature: PatternSignature::from_condition(sub),
                                shareable: true,
                            });
                            proof {
                                assert(before + simple_entries(sv.take(j + 1)) =~= inner.push((sv[j as int], true)));
                            }
                        } else {
                            proof {
                                assert(before + simple_entries(sv.take(j + 1)) =~= inner);
                            }
                        }
                        j = j + 1;
                    }
                    proof {
                        assert(sv.take(m as int) =~= sv);
                    }
                },
                _ => {
                    alpha_nodes.push(AlphaNodePlan {
                        condition: cond.duplicate(),
                        signature: PatternSignature::from_condition(cond),
                        shareable: false,
                    });
                    proof {
                        assert(alpha_entries_of(c) == seq![(c, false)]);
                    }
                },
            }
            proof {
                assert(alpha_nodes@.len() == alpha_entries(cv.take(i + 1)).len());
            }
            i = i + 1;
        }
        proof {
            assert(cv.take(n as int) =~= cv);
        }
        let join_conditions = PatternCache::generate_join_conditions_for_pattern(conditions);
        let mut beta_nodes: Vec<BetaNodePlan> = Vec::new();
        if alpha_nodes.len() > 1 {
            let signature = PatternSignature::from_join_conditions(join_conditions.as_slice());
            beta_nodes.push(BetaNodePlan {
                join_conditions: duplicate_joins(join_conditions.as_slice()),
                signature,
                left_input: 0,
                right_input: 1,
            });
        }
        let estimated_node_count = alpha_nodes.len() + beta_nodes.len() + 1;
        CompilationPlan { alpha_nodes, beta_nodes, join_conditions, estimated_node_count }
    }

    fn generate_join_conditions_for_pattern(conditions: &Vec<Condition>) -> (v: Vec<JoinCondition>)
        ensures
            joins_view(v@) == pattern_joins(conditions_view(conditions@)),
    {
        if count_simple_on(conditions, "entity_id") >= 2 {
            field_join("entity_id")
        } else if count_simple_on(conditions, "id") >= 2 {
            field_join("id")
        } else if count_simple_on(conditions, "user_id") >= 2 {
            field_join("user_id")
        } else if count_simple_on(conditions, "customer_id") >= 2 {
            field_join("customer_id")
        } else {
            let v: Vec<JoinCondition> = Vec::new();
            proof {
                assert(joins_view(v@) =~= Seq::<JoinView>::empty());
            }
            v
        }
    }
}

impl Default for PatternCache {
    fn default() -> (c: PatternCache)
        ensures
            c.wf(),
            c.patterns() == Map::<(u64, Seq<char>), CompilationPlan>::empty(),
            c.alphas() == Map::<(u64, Seq<char>), AlphaNodePlan>::empty(),
            c.joins() == Map::<(u64, Seq<char>), Vec<JoinCondition>>::empty(),
            c.stats_view() == zero_stats(),
    {
        PatternCache::new()
    }
}

/// Join conditions have the same signature whatever order they come in.
pub proof fn law_join_signature_order_independent(a: Seq<JoinView>, b: Seq<JoinView>)
    requires
        a.to_multiset() == b.to_multiset(),
    ensures
        joins_signature(a) == joins_signature(b),
{
    assert(canonical_joins(a) == canonical_joins(b));
}

/// A set of field names has the same signature whatever order the names
/// come in.
pub proof fn law_field_signature_order_independent(a: Seq<Seq<char>>, b: Seq<Seq<char>>)
    requires
        a.to_multiset() == b.to_multiset(),
    ensures
        fields_signature(a) == fields_signature(b),
{
    assert(canonical_strs(a) == canonical_strs(b));
}

/// Join conditions cached under some field names are what a search under
/// the same names, in any order, finds.
pub proof fn law_join_pattern_put_then_get(
    joins: Map<(u64, Seq<char>), Vec<JoinCondition>>,
    a: Seq<Seq<char>>,
    b: Seq<Seq<char>>,
    conditions: Vec<JoinCondition>,
)
    requires
        a.to_multiset() == b.to_multiset(),
    ensures
        joins.insert(fields_signature(a), conditions).contains_key(fields_signature(b)),
        joins.insert(fields_signature(a), conditions)[fields_signature(b)] == conditions,
{
    law_field_signature_order_independent(a, b);
}

/// A plan cached for a rule is what a search for any rule with the same
/// conditions finds.
pub proof fn law_rule_pattern_put_then_get(
    patterns: Map<(u64, Seq<char>), CompilationPlan>,
    conditions: Seq<ConditionView>,
    plan: CompilationPlan,
)
    ensures
        patterns.insert(conditions_signature(conditions), plan).contains_key(conditions_signature(conditions)),
        patterns.insert(conditions_signature(conditions), plan)[conditions_signature(conditions)] == plan,
{
}

/// Different texts are written differently.
proof fn lemma_str_writes_injective(a: Seq<char>, b: Seq<char>)
    requires
        a != b,
    ensures
        str_writes(a)[0] != str_writes(b)[0],
{
    vstd::utf8::encode_utf8_decode_utf8(a);
    vstd::utf8::encode_utf8_decode_utf8(b);
}

/// The middle of a text between a known prefix and suffix.
proof fn lemma_strip(p: Seq<char>, x: Seq<char>, y: Seq<char>, q: Seq<char>)
    requires
        p + x + q == p + y + q,
    ensures
        x == y,
{
    assert((p + x + q).len() == p.len() + x.len() + q.len());
    assert((p + y + q).len() == p.len() + y.len() + q.len());
    assert(x.len() == y.len());
    assert(x =~= (p + x + q).subrange(p.len() as int, (p.len() + x.len()) as int));
    assert(y =~= (p + y + q).subrange(p.len() as int, (p.len() + y.len()) as int));
}

/// Values other than two strings have the same `{:?}` text only when they
/// are equal; two strings have it when their escaped texts agree.
pub proof fn lemma_value_debug_injective(v1: ValueView, v2: ValueView)
    requires
        value_debug(v1) == value_debug(v2),
        !(v1 is Str && v2 is Str),
    ensures
        v1 == v2,
{
    reveal_strlit("String(");
    reveal_strlit("Integer(");
    reveal_strlit("Boolean(true)");
    reveal_strlit("Boolean(false)");
    reveal_strlit("Date(");
    reveal_strlit("Null");
    reveal_strlit(")");
    let d = value_debug(v1);
    let e = value_debug(v2);
    assert(d[0] == e[0]);
    match v1 {
        ValueView::Int(i) => {
            if let ValueView::Int(j) = v2 {
                lemma_strip("Integer("@, int_decimal(i as int), int_decimal(j as int), ")"@);
                lemma_int_decimal_injective(i as int, j as int);
            }
        },
        ValueView::Date(i) => {
            if let ValueView::Date(j) = v2 {
                lemma_strip("Date("@, int_decimal(i as int), int_decimal(j as int), ")"@);
                lemma_int_decimal_injective(i as int, j as int);
            }
        },
        ValueView::Bool(b) => {
            if let ValueView::Bool(c) = v2 {
                assert(d[8] == e[8]);
            }
        },
        _ => {},
    }
}

/// Two simple conditions on the same field with the same operator but
/// different values are hashed differently: the value's `{:?}` text is part
/// of what is written. Values other than two strings always differ in that
/// text; two strings differ in it when their escaped texts differ.
pub proof fn law_condition_feed_tells_values_apart(field: Seq<char>, op: Operator, v1: ValueView, v2: ValueView)
    ensures
        value_debug(v1) != value_debug(v2) ==> condition_feed(ConditionView::Simple { field, operator: op, value: v1 })
            != condition_feed(ConditionView::Simple { field, operator: op, value: v2 }),
        v1 != v2 && !(v1 is Str && v2 is Str) ==> condition_feed(
            ConditionView::Simple { field, operator: op, value: v1 },
        ) != condition_feed(ConditionView::Simple { field, operator: op, value: v2 }),
{
    let f1 = condition_feed(ConditionView::Simple { field, operator: op, value: v1 });
    let f2 = condition_feed(ConditionView::Simple { field, operator: op, value: v2 });
    if value_debug(v1) != value_debug(v2) {
        lemma_str_writes_injective(value_debug(v1), value_debug(v2));
        assert(f1[6] == str_writes(value_debug(v1))[0]);
        assert(f2[6] == str_writes(value_debug(v2))[0]);
    }
    if v1 != v2 && !(v1 is Str && v2 is Str) {
        if value_debug(v1) == value_debug(v2) {
            lemma_value_debug_injective(v1, v2);
        }
    }
}

/// Different operators have different names.
proof fn lemma_operator_name_injective(a: Operator, b: Operator)
    requires
        a != b,
    ensures
        operator_name(a) != operator_name(b),
{
    let x = operator_name(a);
    let y = operator_name(b);
    if x.len() == y.len() {
        assert(x[0] != y[0] || x[1] != y[1] || x[x.len() - 1] != y[y.len() - 1]);
    }
}

/// Simple conditions that differ in field, operator or the `{:?}` text of
/// their value are hashed differently.
pub proof fn law_condition_feed_tells_simple_conditions_apart(
    f1: Seq<char>,
    o1: Operator,
    v1: ValueView,
    f2: Seq<char>,
    o2: Operator,
    v2: ValueView,
)
    ensures
        f1 != f2 || o1 != o2 || value_debug(v1) != value_debug(v2) ==> condition_feed(
            ConditionView::Simple { field: f1, operator: o1, value: v1 },
        ) != condition_feed(ConditionView::Simple { field: f2, operator: o2, value: v2 }),
{
    let c1 = condition_feed(ConditionView::Simple { field: f1, operator: o1, value: v1 });
    let c2 = condition_feed(ConditionView::Simple { field: f2, operator: o2, value: v2 });
    if f1 != f2 {
        lemma_str_writes_injective(f1, f2);
        assert(c1[2] == str_writes(f1)[0] && c2[2] == str_writes(f2)[0]);
    } else if o1 != o2 {
        lemma_operator_name_injective(o1, o2);
        lemma_str_writes_injective(operator_name(o1), operator_name(o2));
        assert(c1[4] == str_writes(operator_name(o1))[0] && c2[4] == str_writes(operator_name(o2))[0]);
    } else if value_debug(v1) != value_debug(v2) {
        law_condition_feed_tells_values_apart(f1, o1, v1, v2);
    }
}

/// Whether `c` is a simple condition on field `f`.
pub open spec fn tests_field(c: ConditionView, f: Seq<char>) -> bool {
    c matches ConditionView::Simple { field, .. } && field == f
}

/// Whether some condition is a simple one on field `f`.
pub open spec fn tested_once(s: Seq<ConditionView>, f: Seq<char>) -> bool {
    exists|i: int| 0 <= i < s.len() && #[trigger] tests_field(s[i], f)
}

/// Whether two distinct conditions are simple ones on field `f`.
pub open spec fn tested_twice(s: Seq<ConditionView>, f: Seq<char>) -> bool {
    exists|i: int, j: int| 0 <= i < j < s.len() && #[trigger] tests_field(s[i], f) && #[trigger] tests_field(s[j], f)
}

/// The fields a pattern may be joined on, in order of preference.
pub open spec fn join_candidates() -> Seq<Seq<char>> {
    seq!["entity_id"@, "id"@, "user_id"@, "customer_id"@]
}

/// At least one simple condition on `f` exactly when one is counted.
proof fn lemma_count_once(s: Seq<ConditionView>, f: Seq<char>)
    ensures
        simple_count_on(s, f) >= 1 <==> tested_once(s, f),
    decreases s.len(),
{
    if s.len() > 0 {
        let d = s.drop_last();
        let last = s.len() - 1;
        lemma_count_once(d, f);
        if tested_once(d, f) {
            let i = choose|i: int| 0 <= i < d.len() && #[trigger] tests_field(d[i], f);
            assert(tests_field(s[i], f));
        }
        if tested_once(s, f) {
            let i = choose|i: int| 0 <= i < s.len() && #[trigger] tests_field(s[i], f);
            if i < last {
                assert(tests_field(d[i], f));
            }
        }
        assert(tests_field(s[last], f) == tests_field(s.last(), f));
    }
}

/// At least two simple conditions on `f` exactly when two are counted.
proof fn lemma_count_twice(s: Seq<ConditionView>, f: Seq<char>)
    ensures
        simple_count_on(s, f) >= 2 <==> tested_twice(s, f),
    decreases s.len(),
{
    if s.len() > 0 {
        let d = s.drop_last();
        let last = s.len() - 1;
        lemma_count_twice(d, f);
        lemma_count_once(d, f);
        assert(tests_field(s[last], f) == tests_field(s.last(), f));
        if tested_twice(d, f) {
            let (i, j) = choose|i: int, j: int| 0 <= i < j < d.len() && #[trigger] tests_field(d[i], f) && #[trigger] tests_field(d[j], f);
            assert(tests_field(s[i], f) && tests_field(s[j], f));
        }
        if tested_once(d, f) && tests_field(s.last(), f) {
            let i = choose|i: int| 0 <= i < d.len() && #[trigger] tests_field(d[i], f);
            assert(tests_field(s[i], f) && tests_field(s[last], f));
        }
        if tested_twice(s, f) {
            let (i, j) = choose|i: int, j: int| 0 <= i < j < s.len() && #[trigger] tests_field(s[i], f) && #[trigger] tests_field(s[j], f);
            if j < last {
                assert(tests_field(d[i], f) && tests_field(d[j], f));
            } else {
                assert(tests_field(d[i], f));
            }
        }
    }
}

/// A pattern is joined on the first of `entity_id`, `id`, `user_id` and
/// `customer_id` that two of its simple conditions test, by one equality
/// join of that field with itself; when none is tested twice, it has no
/// join conditions.
pub proof fn law_pattern_joins_on_first_shared_field(s: Seq<ConditionView>)
    ensures
        forall|k: int| #![trigger join_candidates()[k]]
            0 <= k < 4 && tested_twice(s, join_candidates()[k]) && (forall|m: int|
                0 <= m < k ==> !tested_twice(s, #[trigger] join_candidates()[m])) ==> pattern_joins(s) == seq![
                JoinView { left_field: join_candidates()[k], right_field: join_candidates()[k], operator: Operator::Equal },
            ],
        (forall|k: int| 0 <= k < 4 ==> !tested_twice(s, #[trigger] join_candidates()[k])) ==> pattern_joins(s)
            == Seq::<JoinView>::empty(),
{
    let c = join_candidates();
    lemma_count_twice(s, c[0]);
    lemma_count_twice(s, c[1]);
    lemma_count_twice(s, c[2]);
    lemma_count_twice(s, c[3]);
    assert(c[0] == "entity_id"@ && c[1] == "id"@ && c[2] == "user_id"@ && c[3] == "customer_id"@);
}

/// Alpha entries of a prefix are no more than those of the whole list.
proof fn lemma_alpha_entries_prefix(s: Seq<ConditionView>)
    ensures
        forall|k: int| 0 <= k <= s.len() ==> #[trigger] alpha_entries(s.take(k)).len() <= alpha_entries(s).len(),
    decreases s.len(),
{
    if s.len() > 0 {
        lemma_alpha_entries_prefix(s.drop_last());
        assert forall|k: int| 0 <= k <= s.len() implies #[trigger] alpha_entries(s.take(k)).len() <= alpha_entries(s).len() by {
            if k < s.len() {
                assert(s.take(k) =~= s.drop_last().take(k));
            } else {
                assert(s.take(k) =~= s);
            }
        }
    }
}

/// Simple entries of a prefix are no more than those of the whole list.
proof fn lemma_simple_entries_prefix(s: Seq<ConditionView>)
    ensures
        forall|k: int| 0 <= k <= s.len() ==> #[trigger] simple_entries(s.take(k)).len() <= simple_entries(s).len(),
    decreases s.len(),
{
    if s.len() > 0 {
        lemma_simple_entries_prefix(s.drop_last());
        assert forall|k: int| 0 <= k <= s.len() implies #[trigger] simple_entries(s.take(k)).len() <= simple_entries(s).len() by {
            if k < s.len() {
                assert(s.take(k) =~= s.drop_last().take(k));
            } else {
                assert(s.take(k) =~= s);
            }
        }
    }
}

} // verus!
