//! Core data model: fact values, facts, conditions and rules.

use vstd::prelude::*;
use crate::text::{int_decimal, i64_to_string, str_eq};

verus! {

/// Identifier of a fact.
pub type FactId = u64;

/// Identifier of a rule.
pub type RuleId = u64;

/// Identifier of a RETE network node.
pub type NodeId = u64;

/// A value held in a fact field. Timestamps are milliseconds since the Unix
/// epoch (UTC).
#[derive(Debug, Clone, PartialEq)]
pub enum FactValue {
    String(String),
    Integer(i64),
    Boolean(bool),
    Date(i64),
    Null,
}

/// Mathematical model of a [`FactValue`].
pub enum ValueView {
    Str(Seq<char>),
    Int(i64),
    Bool(bool),
    Date(i64),
    Null,
}

impl View for FactValue {
    type V = ValueView;

    open spec fn view(&self) -> ValueView {
        match self {
            FactValue::String(s) => ValueView::Str(s@),
            FactValue::Integer(i) => ValueView::Int(*i),
            FactValue::Boolean(b) => ValueView::Bool(*b),
            FactValue::Date(d) => ValueView::Date(*d),
            FactValue::Null => ValueView::Null,
        }
    }
}

/// The RFC 3339 rendering that chrono gives of the UTC instant `ms`
/// milliseconds after the Unix epoch; `None` when the instant is outside
/// the range that chrono's `DateTime` holds.
pub uninterp spec fn rfc3339_of_millis(ms: i64) -> Option<Seq<char>>;

/// Calls `chrono::DateTime::<Utc>::from_timestamp_millis` and renders the
/// instant with `DateTime::to_rfc3339`; `None` when chrono refuses the
/// instant as out of range. The contract claims only that the outcome is a
/// function of `ms` (named `rfc3339_of_millis`); what the text is, and
/// which instants chrono refuses, are chrono's business and are not stated.
#[verifier::external_body]
fn millis_to_rfc3339(ms: i64) -> (s: Option<String>)
    ensures
        match s {
            Some(t) => rfc3339_of_millis(ms) == Some(t@),
            None => rfc3339_of_millis(ms) is None,
        },
{
    match chrono::DateTime::from_timestamp_millis(ms) {
        Some(dt) => Some(dt.to_rfc3339()),
        None => None,
    }
}

/// The text of a date: its RFC 3339 rendering, or the empty text for an
/// instant that chrono cannot render.
pub open spec fn date_text(ms: i64) -> Seq<char> {
    match rfc3339_of_millis(ms) {
        Some(t) => t,
        None => Seq::empty(),
    }
}

/// The textual key under which a value is indexed: strings as themselves,
/// integers in decimal, booleans as `true`/`false`, dates in RFC 3339 (see
/// [`date_text`]) and null as `[null]`.
pub open spec fn index_key(v: ValueView) -> Seq<char> {
    match v {
        ValueView::Str(s) => s,
        ValueView::Int(i) => int_decimal(i as int),
        ValueView::Bool(b) => if b { seq!['t', 'r', 'u', 'e'] } else { seq!['f', 'a', 'l', 's', 'e'] },
        ValueView::Date(ms) => date_text(ms),
        ValueView::Null => seq!['[', 'n', 'u', 'l', 'l', ']'],
    }
}

impl FactValue {
    /// A copy of this value.
    pub fn duplicate(&self) -> (r: FactValue)
        ensures
            r@ == self@,
    {
        match self {
            FactValue::String(s) => FactValue::String(s.clone()),
            FactValue::Integer(i) => FactValue::Integer(*i),
            FactValue::Boolean(b) => FactValue::Boolean(*b),
            FactValue::Date(d) => FactValue::Date(*d),
            FactValue::Null => FactValue::Null,
        }
    }

    /// Value equality.
    pub fn equals(&self, other: &FactValue) -> (r: bool)
        ensures
            r == (self@ == other@),
    {
        match (self, other) {
            (FactValue::String(a), FactValue::String(b)) => str_eq(a.as_str(), b.as_str()),
            (FactValue::Integer(a), FactValue::Integer(b)) => *a == *b,
            (FactValue::Boolean(a), FactValue::Boolean(b)) => *a == *b,
            (FactValue::Date(a), FactValue::Date(b)) => *a == *b,
            (FactValue::Null, FactValue::Null) => true,
            _ => false,
        }
    }

    /// The text under which this value is indexed (see [`index_key`]).
    pub fn as_string(&self) -> (s: String)
        ensures
            s@ == index_key(self@),
    {
        match self {
            FactValue::String(s) => s.clone(),
            FactValue::Integer(i) => i64_to_string(*i),
            FactValue::Boolean(b) => {
                proof {
                    reveal_strlit("true");
                    reveal_strlit("false");
                }
                if *b {
                    String::from_str("true")
                } else {
                    String::from_str("false")
                }
            },
            FactValue::Date(d) => match millis_to_rfc3339(*d) {
                Some(t) => t,
                None => String::new(),
            },
            FactValue::Null => {
                proof {
                    reveal_strlit("[null]");
                }
                String::from_str("[null]")
            },
        }
    }
}

/// Looks a field up in an association list: the value of the first entry
/// with that name.
pub open spec fn lookup(fields: Seq<(Seq<char>, ValueView)>, name: Seq<char>) -> Option<ValueView>
    decreases fields.len(),
{
    if fields.len() == 0 {
        None
    } else if fields[0].0 == name {
        Some(fields[0].1)
    } else {
        lookup(fields.drop_first(), name)
    }
}

/// True when no two entries of the list share a name.
pub open spec fn distinct_names(fields: Seq<(Seq<char>, ValueView)>) -> bool {
    forall|i: int, j: int| 0 <= i < j < fields.len() ==> fields[i].0 != fields[j].0
}

/// The fields of a fact: a map from field names to values, kept as two
/// parallel vectors (names and values, in insertion order, no name twice)
/// rather than a `HashMap<String, _>`, because a map keyed by strings has no
/// specification to prove lookups against.
#[derive(Debug)]
pub struct FactData {
    names: Vec<String>,
    values: Vec<FactValue>,
}

impl View for FactData {
    type V = Seq<(Seq<char>, ValueView)>;

    closed spec fn view(&self) -> Seq<(Seq<char>, ValueView)> {
        fields_view(self.names@, self.values@)
    }
}

/// The association list formed by parallel name and value vectors.
pub closed spec fn fields_view(names: Seq<String>, values: Seq<FactValue>) -> Seq<(Seq<char>, ValueView)> {
    Seq::new(names.len(), |i: int| (names[i]@, values[i]@))
}

impl Clone for FactData {
    fn clone(&self) -> (r: Self)
        ensures
            r@ == self@,
    {
        self.duplicate()
    }
}

impl FactData {
    #[verifier::type_invariant]
    closed spec fn inv(self) -> bool {
        &&& self.names@.len() == self.values@.len()
        &&& distinct_names(self@)
    }

    /// Well-formedness that every value of this type has.
    pub open spec fn wf(&self) -> bool {
        distinct_names(self@)
    }

    /// An empty field map.
    pub fn new() -> (r: FactData)
        ensures
            r@ == Seq::<(Seq<char>, ValueView)>::empty(),
    {
        let names: Vec<String> = Vec::new();
        let values: Vec<FactValue> = Vec::new();
        proof {
            assert(fields_view(names@, values@) =~= Seq::<(Seq<char>, ValueView)>::empty());
        }
        FactData { names, values }
    }

    /// Number of fields; also shows that the names are distinct.
    pub fn len(&self) -> (n: usize)
        ensures
            n == self@.len(),
            self.wf(),
    {
        proof {
            use_type_invariant(self);
        }
        self.names.len()
    }

    /// Name of the field at position `i`.
    pub fn name_at(&self, i: usize) -> (s: &String)
        requires
            i < self@.len(),
        ensures
            s@ == self@[i as int].0,
    {
        proof {
            use_type_invariant(self);
        }
        &self.names[i]
    }

    /// Value of the field at position `i`.
    pub fn value_at(&self, i: usize) -> (v: &FactValue)
        requires
            i < self@.len(),
        ensures
            v@ == self@[i as int].1,
    {
        proof {
            use_type_invariant(self);
        }
        &self.values[i]
    }

    /// Position of the field named `name`, if present.
    pub fn position(&self, name: &str) -> (r: Option<usize>)
        ensures
            match r {
                Some(i) => i < self@.len() && self@[i as int].0 == name@,
                None => forall|j: int| 0 <= j < self@.len() ==> self@[j].0 != name@,
            },
    {
        proof {
            use_type_invariant(self);
        }
        let n = self.names.len();
        let mut i: usize = 0;
        while i < n
            invariant
                n == self.names@.len(),
                n == self@.len(),
                i <= n,
                forall|j: int| 0 <= j < i ==> self@[j].0 != name@,
            decreases n - i,
        {
            if str_eq(self.names[i].as_str(), name) {
                return Some(i);
            }
            i = i + 1;
        }
        None
    }

    /// Value of the field named `name`.
    pub fn get(&self, name: &str) -> (r: Option<&FactValue>)
        ensures
            match r {
                Some(v) => lookup(self@, name@) == Some(v@),
                None => lookup(self@, name@) is None,
            },
    {
        proof {
            use_type_invariant(self);
        }
        match self.position(name) {
            Some(i) => {
                proof {
                    lemma_lookup_distinct(self@, i as int);
                }
                Some(&self.values[i])
            },
            None => {
                proof {
                    lemma_lookup_absent(self@, name@);
                }
                None
            },
        }
    }

    /// Sets the field `name` to `value`, replacing an existing value.
    pub fn insert(&mut self, name: String, value: FactValue)
        ensures
            lookup(final(self)@, name@) == Some(value@),
            forall|n: Seq<char>| n != name@ ==> lookup(final(self)@, n) == lookup(old(self)@, n),
            lookup(old(self)@, name@) is Some ==> final(self)@.len() == old(self)@.len(),
            lookup(old(self)@, name@) is None ==> final(self)@.len() == old(self)@.len() + 1,
    {
        proof {
            use_type_invariant(&*self);
        }
        let ghost old_view = self@;
        let pos = self.position(name.as_str());
        let mut taken = FactData::new();
        std::mem::swap(&mut taken, self);
        let FactData { names: mut names, values: mut values } = taken;
        let ghost nm = name@;
        let ghost vv = value@;
        match pos {
            Some(i) => {
                proof {
                    lemma_lookup_present(old_view, nm, i as int);
                }
                values.set(i, value);
                proof {
                    assert(fields_view(names@, values@) =~= old_view.update(i as int, (nm, vv)));
                    assert(distinct_names(fields_view(names@, values@)));
                }
                let r = FactData { names, values };
                proof {
                    lemma_lookup_distinct(r@, i as int);
                    assert forall|n: Seq<char>| n != nm implies lookup(r@, n) == lookup(old_view, n) by {
                        lemma_lookup_update(old_view, i as int, (nm, vv), n);
                    }
                }
                *self = r;
            },
            None => {
                proof {
                    lemma_lookup_absent(old_view, nm);
                }
                names.push(name);
                values.push(value);
                proof {
                    assert(fields_view(names@, values@) =~= old_view.push((nm, vv)));
                    assert(distinct_names(fields_view(names@, values@)));
                }
                let r = FactData { names, values };
                proof {
                    lemma_lookup_push(old_view, (nm, vv));
                }
                *self = r;
            },
        }
    }

    /// Removes every field.
    pub fn clear(&mut self)
        ensures
            final(self)@ == Seq::<(Seq<char>, ValueView)>::empty(),
    {
        *self = FactData::new();
    }

    /// A copy of this field map.
    pub fn duplicate(&self) -> (r: FactData)
        ensures
            r@ == self@,
    {
        proof {
            use_type_invariant(self);
        }
        let n = self.names.len();
        let mut names: Vec<String> = Vec::new();
        let mut values: Vec<FactValue> = Vec::new();
        let mut i: usize = 0;
        while i < n
            invariant
                n == self.names@.len(),
                n == self.values@.len(),
                i <= n,
                names@.len() == i,
                values@.len() == i,
                forall|j: int| 0 <= j < i ==> names@[j]@ == self.names@[j]@,
                forall|j: int| 0 <= j < i ==> values@[j]@ == self.values@[j]@,
            decreases n - i,
        {
            names.push(self.names[i].clone());
            values.push(self.values[i].duplicate());
            i = i + 1;
        }
        proof {
            assert(fields_view(names@, values@) =~= self@);
        }
        FactData { names, values }
    }
}

/// Looking up the name at a position of a list with distinct names finds
/// that position's value.
pub proof fn lemma_lookup_distinct(fields: Seq<(Seq<char>, ValueView)>, i: int)
    requires
        distinct_names(fields),
        0 <= i < fields.len(),
    ensures
        lookup(fields, fields[i].0) == Some(fields[i].1),
    decreases fields.len(),
{
    if i > 0 {
        let rest = fields.drop_first();
        assert(distinct_names(rest));
        assert(rest[i - 1] == fields[i]);
        lemma_lookup_distinct(rest, i - 1);
    }
}

/// A name that no entry carries is not found.
pub proof fn lemma_lookup_absent(fields: Seq<(Seq<char>, ValueView)>, name: Seq<char>)
    requires
        forall|j: int| 0 <= j < fields.len() ==> fields[j].0 != name,
    ensures
        lookup(fields, name) is None,
    decreases fields.len(),
{
    if fields.len() > 0 {
        lemma_lookup_absent(fields.drop_first(), name);
    }
}

/// A name that some entry carries is found.
pub proof fn lemma_lookup_present(fields: Seq<(Seq<char>, ValueView)>, name: Seq<char>, j: int)
    requires
        0 <= j < fields.len(),
        fields[j].0 == name,
    ensures
        lookup(fields, name) is Some,
    decreases fields.len(),
{
    if fields[0].0 != name {
        lemma_lookup_present(fields.drop_first(), name, j - 1);
    }
}

/// The entry found by a lookup is one of the entries.
pub proof fn lemma_lookup_found(fields: Seq<(Seq<char>, ValueView)>, name: Seq<char>)
    requires
        lookup(fields, name) is Some,
    ensures
        exists|j: int| 0 <= j < fields.len() && fields[j].0 == name && Some(fields[j].1) == lookup(fields, name),
    decreases fields.len(),
{
    if fields[0].0 != name {
        lemma_lookup_found(fields.drop_first(), name);
        let j = choose|j: int| 0 <= j < fields.drop_first().len() && fields.drop_first()[j].0 == name
            && Some(fields.drop_first()[j].1) == lookup(fields.drop_first(), name);
        assert(fields[j + 1] == fields.drop_first()[j]);
    } else {
        assert(fields[0].0 == name);
    }
}

/// Replacing an entry with one of the same name leaves other names' lookups.
pub proof fn lemma_lookup_update(
    fields: Seq<(Seq<char>, ValueView)>,
    i: int,
    e: (Seq<char>, ValueView),
    n: Seq<char>,
)
    requires
        0 <= i < fields.len(),
        fields[i].0 == e.0,
        n != e.0,
    ensures
        lookup(fields.update(i, e), n) == lookup(fields, n),
    decreases fields.len(),
{
    if i > 0 {
        lemma_lookup_update(fields.drop_first(), i - 1, e, n);
        assert(fields.update(i, e).drop_first() =~= fields.drop_first().update(i - 1, e));
    } else {
        assert(fields.update(i, e).drop_first() =~= fields.drop_first());
    }
}

/// Appending a fresh name leaves the other lookups and finds the new one.
pub proof fn lemma_lookup_push(fields: Seq<(Seq<char>, ValueView)>, e: (Seq<char>, ValueView))
    requires
        lookup(fields, e.0) is None,
    ensures
        lookup(fields.push(e), e.0) == Some(e.1),
        forall|n: Seq<char>| n != e.0 ==> lookup(fields.push(e), n) == lookup(fields, n),
    decreases fields.len(),
{
    if fields.len() > 0 {
        lemma_lookup_push(fields.drop_first(), e);
        assert(fields.push(e).drop_first() =~= fields.drop_first().push(e));
        assert(fields.push(e)[0] == fields[0]);
        assert forall|n: Seq<char>| n != e.0 implies lookup(fields.push(e), n) == lookup(fields, n) by {
            if fields[0].0 != n {
                assert(lookup(fields.drop_first().push(e), n) == lookup(fields.drop_first(), n));
            }
        }
    } else {
        assert(fields.push(e).drop_first() =~= Seq::<(Seq<char>, ValueView)>::empty());
        assert forall|n: Seq<char>| n != e.0 implies lookup(fields.push(e), n) == lookup(fields, n) by {
            assert(lookup(fields.push(e).drop_first(), n) is None);
        }
    }
}

/// A fact: an identified, timestamped record of named values.
#[derive(Debug, Clone)]
pub struct Fact {
    pub id: FactId,
    pub external_id: Option<String>,
    /// Milliseconds since the Unix epoch (UTC).
    pub timestamp: i64,
    pub data: FactData,
}

/// Mathematical model of a [`Fact`].
pub struct FactView {
    pub id: FactId,
    pub external_id: Option<Seq<char>>,
    pub timestamp: i64,
    pub fields: Seq<(Seq<char>, ValueView)>,
}

/// The model of an optional string.
pub open spec fn opt_str_view(s: Option<String>) -> Option<Seq<char>> {
    match s {
        Some(x) => Some(x@),
        None => None,
    }
}

impl View for Fact {
    type V = FactView;

    open spec fn view(&self) -> FactView {
        FactView {
            id: self.id,
            external_id: opt_str_view(self.external_id),
            timestamp: self.timestamp,
            fields: self.data@,
        }
    }
}

/// A copy of an optional string.
pub fn duplicate_opt_string(s: &Option<String>) -> (r: Option<String>)
    ensures
        opt_str_view(r) == opt_str_view(*s),
{
    match s {
        Some(x) => Some(x.clone()),
        None => None,
    }
}

impl Fact {
    /// A fact with the given id and fields, no external id and timestamp 0.
    pub fn new(id: FactId, data: FactData) -> (r: Fact)
        ensures
            r.id == id,
            r.external_id is None,
            r.timestamp == 0,
            r.data@ == data@,
    {
        Fact { id, external_id: None, timestamp: 0, data }
    }

    /// A copy of this fact.
    pub fn duplicate(&self) -> (r: Fact)
        ensures
            r@ == self@,
    {
        Fact {
            id: self.id,
            external_id: duplicate_opt_string(&self.external_id),
            timestamp: self.timestamp,
            data: self.data.duplicate(),
        }
    }
}

/// Comparison operators of conditions.
#[derive(Debug, Clone, Copy, PartialEq, Eq, Structural)]
pub enum Operator {
    Equal,
    NotEqual,
    GreaterThan,
    LessThan,
    GreaterThanOrEqual,
    LessThanOrEqual,
    Contains,
}

/// The name that `{:?}` gives an operator.
pub open spec fn operator_name(op: Operator) -> Seq<char> {
    match op {
        Operator::Equal => seq!['E', 'q', 'u', 'a', 'l'],
        Operator::NotEqual => seq!['N', 'o', 't', 'E', 'q', 'u', 'a', 'l'],
        Operator::GreaterThan => seq!['G', 'r', 'e', 'a', 't', 'e', 'r', 'T', 'h', 'a', 'n'],
        Operator::LessThan => seq!['L', 'e', 's', 's', 'T', 'h', 'a', 'n'],
        Operator::GreaterThanOrEqual => seq!['G', 'r', 'e', 'a', 't', 'e', 'r', 'T', 'h', 'a', 'n', 'O', 'r', 'E', 'q', 'u', 'a', 'l'],
        Operator::LessThanOrEqual => seq!['L', 'e', 's', 's', 'T', 'h', 'a', 'n', 'O', 'r', 'E', 'q', 'u', 'a', 'l'],
        Operator::Contains => seq!['C', 'o', 'n', 't', 'a', 'i', 'n', 's'],
    }
}

impl Operator {
    /// The variant's name, as `{:?}` prints it.
    pub fn name(&self) -> (s: &'static str)
        ensures
            s@ == operator_name(*self),
    {
        proof {
            reveal_strlit("Equal");
            reveal_strlit("NotEqual");
            reveal_strlit("GreaterThan");
            reveal_strlit("LessThan");
            reveal_strlit("GreaterThanOrEqual");
            reveal_strlit("LessThanOrEqual");
            reveal_strlit("Contains");
        }
        match self {
            Operator::Equal => "Equal",
            Operator::NotEqual => "NotEqual",
            Operator::GreaterThan => "GreaterThan",
            Operator::LessThan => "LessThan",
            Operator::GreaterThanOrEqual => "GreaterThanOrEqual",
            Operator::LessThanOrEqual => "LessThanOrEqual",
            Operator::Contains => "Contains",
        }
    }
}

/// Logical connectives of complex conditions.
#[derive(Debug, Clone, Copy, PartialEq, Eq, Structural)]
pub enum LogicalOperator {
    And,
    Or,
}

/// A rule condition.
#[derive(Debug, PartialEq)]
#[allow(inconsistent_fields)]
pub enum Condition {
    /// `field operator value`
    Simple { field: String, operator: Operator, value: FactValue },
    /// A logical combination of conditions.
    Complex { operator: LogicalOperator, conditions: Vec<Condition> },
    /// An aggregation condition, given by its textual specification.
    Aggregation { spec: String },
    /// A stream-window condition, given by its textual specification.
    Stream { spec: String },
}

/// Mathematical model of a [`Condition`].
#[allow(inconsistent_fields)]
pub enum ConditionView {
    Simple { field: Seq<char>, operator: Operator, value: ValueView },
    Complex { operator: LogicalOperator, conditions: Seq<ConditionView> },
    Aggregation { spec: Seq<char> },
    Stream { spec: Seq<char> },
}

/// Models of a sequence of conditions.
pub open spec fn conditions_view(s: Seq<Condition>) -> Seq<ConditionView>
    decreases s,
{
    if s.len() == 0 {
        Seq::empty()
    } else {
        seq![condition_view(s[0])] + conditions_view(s.subrange(1, s.len() as int))
    }
}

/// Model of a condition.
pub open spec fn condition_view(c: Condition) -> ConditionView
    decreases c,
{
    match c {
        Condition::Simple { field, operator, value } => ConditionView::Simple {
            field: field@,
            operator,
            value: value@,
        },
        Condition::Complex { operator, conditions } => ConditionView::Complex {
            operator,
            conditions: conditions_view(conditions@),
        },
        Condition::Aggregation { spec } => ConditionView::Aggregation { spec: spec@ },
        Condition::Stream { spec } => ConditionView::Stream { spec: spec@ },
    }
}

impl View for Condition {
    type V = ConditionView;

    open spec fn view(&self) -> ConditionView {
        condition_view(*self)
    }
}

/// A copy of a list of conditions.
pub fn duplicate_conditions(v: &Vec<Condition>) -> (r: Vec<Condition>)
    ensures
        conditions_view(r@) == conditions_view(v@),
    decreases v@, 0nat,
{
    let n = v.len();
    let mut r: Vec<Condition> = Vec::new();
    let mut i: usize = 0;
    while i < n
        invariant
            n == v@.len(),
            i <= n,
            r@.len() == i,
            forall|j: int| 0 <= j < i ==> condition_view(#[trigger] r@[j]) == condition_view(v@[j]),
        decreases n - i,
    {
        assert(decreases_to!(v@ => v@[i as int]));
        let c = v[i].duplicate();
        r.push(c);
        i = i + 1;
    }
    proof {
        lemma_conditions_view_pointwise(r@, v@);
    }
    r
}

/// Two lists whose elements have equal models have equal models.
pub proof fn lemma_conditions_view_pointwise(a: Seq<Condition>, b: Seq<Condition>)
    requires
        a.len() == b.len(),
        forall|j: int| 0 <= j < a.len() ==> condition_view(#[trigger] a[j]) == condition_view(b[j]),
    ensures
        conditions_view(a) == conditions_view(b),
    decreases a.len(),
{
    if a.len() > 0 {
        let a1 = a.subrange(1, a.len() as int);
        let b1 = b.subrange(1, b.len() as int);
        assert forall|j: int| 0 <= j < a1.len() implies condition_view(#[trigger] a1[j]) == condition_view(b1[j]) by {
            assert(a1[j] == a[j + 1]);
            assert(b1[j] == b[j + 1]);
        }
        lemma_conditions_view_pointwise(a1, b1);
        assert(condition_view(a[0]) == condition_view(b[0]));
    }
}

impl Condition {
    /// A copy of this condition.
    pub fn duplicate(&self) -> (r: Condition)
        ensures
            r@ == self@,
        decreases *self, 1nat,
    {
        match self {
            Condition::Simple { field, operator, value } => Condition::Simple {
                field: field.clone(),
                operator: *operator,
                value: value.duplicate(),
            },
            Condition::Complex { operator, conditions } => {
                let cs = duplicate_conditions(conditions);
                Condition::Complex { operator: *operator, conditions: cs }
            },
            Condition::Aggregation { spec } => Condition::Aggregation { spec: spec.clone() },
            Condition::Stream { spec } => Condition::Stream { spec: spec.clone() },
        }
    }
}

impl Clone for Condition {
    fn clone(&self) -> (r: Self)
        ensures
            r@ == self@,
    {
        self.duplicate()
    }
}

/// A join test between a field of the left and a field of the right input.
#[derive(Debug, Clone, PartialEq)]
pub struct JoinCondition {
    pub left_field: String,
    pub right_field: String,
    pub operator: Operator,
}

/// Mathematical model of a [`JoinCondition`].
pub struct JoinView {
    pub left_field: Seq<char>,
    pub right_field: Seq<char>,
    pub operator: Operator,
}

impl View for JoinCondition {
    type V = JoinView;

    open spec fn view(&self) -> JoinView {
        JoinView { left_field: self.left_field@, right_field: self.right_field@, operator: self.operator }
    }
}

impl JoinCondition {
    /// A copy of this join condition.
    pub fn duplicate(&self) -> (r: JoinCondition)
        ensures
            r@ == self@,
    {
        JoinCondition {
            left_field: self.left_field.clone(),
            right_field: self.right_field.clone(),
            operator: self.operator,
        }
    }
}

/// Models of a list of join conditions.
pub open spec fn joins_view(s: Seq<JoinCondition>) -> Seq<JoinView> {
    s.map_values(|j: JoinCondition| j@)
}

/// A copy of a list of join conditions.
pub fn duplicate_joins(v: &[JoinCondition]) -> (r: Vec<JoinCondition>)
    ensures
        joins_view(r@) == joins_view(v@),
{
    let n = v.len();
    let mut r: Vec<JoinCondition> = Vec::new();
    let mut i: usize = 0;
    while i < n
        invariant
            n == v@.len(),
            i <= n,
            r@.len() == i,
            forall|j: int| 0 <= j < i ==> (#[trigger] r@[j])@ == v@[j]@,
        decreases n - i,
    {
        r.push(v[i].duplicate());
        i = i + 1;
    }
    assert(joins_view(r@) =~= joins_view(v@));
    r
}

/// What a rule does when it fires.
#[derive(Debug, Clone, PartialEq)]
pub enum ActionType {
    SetField { field: String, value: FactValue },
    Log { message: String },
}

/// An action of a rule.
#[derive(Debug, Clone, PartialEq)]
pub struct Action {
    pub action_type: ActionType,
}

/// A rule: conditions that select facts and actions to run on them.
#[derive(Debug)]
pub struct Rule {
    pub id: RuleId,
    pub name: String,
    pub conditions: Vec<Condition>,
    pub actions: Vec<Action>,
}

/// Lookup in a list extended by one entry: earlier entries win.
pub proof fn lemma_lookup_push_any(fields: Seq<(Seq<char>, ValueView)>, e: (Seq<char>, ValueView), n: Seq<char>)
    ensures
        lookup(fields.push(e), n) == (if lookup(fields, n) is Some {
            lookup(fields, n)
        } else if e.0 == n {
            Some(e.1)
        } else {
            None
        }),
    decreases fields.len(),
{
    if fields.len() > 0 {
        assert(fields.push(e).drop_first() =~= fields.drop_first().push(e));
        assert(fields.push(e)[0] == fields[0]);
        lemma_lookup_push_any(fields.drop_first(), e, n);
        if fields[0].0 != n {
            assert(lookup(fields.push(e), n) == lookup(fields.drop_first().push(e), n));
            assert(lookup(fields, n) == lookup(fields.drop_first(), n));
        }
    } else {
        assert(fields.push(e).drop_first() =~= Seq::<(Seq<char>, ValueView)>::empty());
        assert(fields.push(e)[0] == e);
        assert(lookup(fields.push(e).drop_first(), n) is None);
        assert(lookup(fields, n) is None);
    }
}

/// The outcome of one rule firing on one fact.
#[derive(Debug, Clone, Copy, PartialEq, Eq)]
pub struct RuleExecutionResult {
    pub rule_id: RuleId,
    pub fact_id: FactId,
}

/// Length and elements of the models of a condition list.
pub proof fn lemma_conditions_view_index(s: Seq<Condition>)
    ensures
        conditions_view(s).len() == s.len(),
        forall|i: int| 0 <= i < s.len() ==> #[trigger] conditions_view(s)[i] == condition_view(s[i]),
    decreases s.len(),
{
    if s.len() > 0 {
        let rest = s.subrange(1, s.len() as int);
        lemma_conditions_view_index(rest);
        assert forall|i: int| 0 <= i < s.len() implies #[trigger] conditions_view(s)[i] == condition_view(s[i]) by {
            if i > 0 {
                assert(conditions_view(s)[i] == conditions_view(rest)[i - 1]);
                assert(rest[i - 1] == s[i]);
            }
        }
    }
}

/// Equality of two condition lists by their models.
pub fn conditions_equal(a: &Vec<Condition>, b: &Vec<Condition>) -> (r: bool)
    ensures
        r == (conditions_view(a@) == conditions_view(b@)),
    decreases a@, 0nat,
{
    proof {
        lemma_conditions_view_index(a@);
        lemma_conditions_view_index(b@);
    }
    let n = a.len();
    if n != b.len() {
        return false;
    }
    let mut i: usize = 0;
    while i < n
        invariant
            n == a@.len(),
            n == b@.len(),
            i <= n,
            conditions_view(a@).len() == n,
            conditions_view(b@).len() == n,
            forall|j: int| 0 <= j < n ==> #[trigger] conditions_view(a@)[j] == condition_view(a@[j]),
            forall|j: int| 0 <= j < n ==> #[trigger] conditions_view(b@)[j] == condition_view(b@[j]),
            forall|j: int| 0 <= j < i ==> condition_view(a@[j]) == condition_view(b@[j]),
        decreases n - i,
    {
        assert(decreases_to!(a@ => a@[i as int]));
        if !a[i].equals(&b[i]) {
            assert(conditions_view(a@)[i as int] != conditions_view(b@)[i as int]);
            return false;
        }
        i = i + 1;
    }
    assert(conditions_view(a@) =~= conditions_view(b@));
    true
}

impl Condition {
    /// Equality of conditions by their models.
    pub fn equals(&self, other: &Condition) -> (r: bool)
        ensures
            r == (self@ == other@),
        decreases *self, 1nat,
    {
        match (self, other) {
            (
                Condition::Simple { field: f1, operator: o1, value: v1 },
                Condition::Simple { field: f2, operator: o2, value: v2 },
            ) => crate::text::str_eq(f1.as_str(), f2.as_str()) && *o1 == *o2 && v1.equals(v2),
            (
                Condition::Complex { operator: o1, conditions: c1 },
                Condition::Complex { operator: o2, conditions: c2 },
            ) => *o1 == *o2 && conditions_equal(c1, c2),
            (Condition::Aggregation { spec: s1 }, Condition::Aggregation { spec: s2 }) => crate::text::str_eq(
                s1.as_str(),
                s2.as_str(),
            ),
            (Condition::Stream { spec: s1 }, Condition::Stream { spec: s2 }) => crate::text::str_eq(s1.as_str(), s2.as_str()),
            _ => false,
        }
    }

    /// Whether this is a simple `field operator value` condition.
    pub fn is_simple(&self) -> (b: bool)
        ensures
            b == (self is Simple),
    {
        match self {
            Condition::Simple { .. } => true,
            _ => false,
        }
    }
}

/// Strict ordering of join conditions by left field, then right field, then
/// the operator's name.
pub open spec fn join_lt(a: JoinView, b: JoinView) -> bool {
    ||| crate::text::seq_lt(a.left_field, b.left_field)
    ||| (a.left_field == b.left_field && crate::text::seq_lt(a.right_field, b.right_field))
    ||| (a.left_field == b.left_field && a.right_field == b.right_field
        && crate::text::seq_lt(operator_name(a.operator), operator_name(b.operator)))
}

/// `join_lt` is transitive.
pub proof fn lemma_join_lt_transitive(a: JoinView, b: JoinView, c: JoinView)
    requires
        join_lt(a, b),
        join_lt(b, c),
    ensures
        join_lt(a, c),
{
    if crate::text::seq_lt(a.left_field, b.left_field) && crate::text::seq_lt(b.left_field, c.left_field) {
        crate::text::lemma_seq_lt_transitive(a.left_field, b.left_field, c.left_field);
    }
    if a.left_field == b.left_field && b.left_field == c.left_field {
        if crate::text::seq_lt(a.right_field, b.right_field) && crate::text::seq_lt(b.right_field, c.right_field) {
            crate::text::lemma_seq_lt_transitive(a.right_field, b.right_field, c.right_field);
        }
        if a.right_field == b.right_field && b.right_field == c.right_field {
            if crate::text::seq_lt(operator_name(a.operator), operator_name(b.operator))
                && crate::text::seq_lt(operator_name(b.operator), operator_name(c.operator)) {
                crate::text::lemma_seq_lt_transitive(operator_name(a.operator), operator_name(b.operator), operator_name(c.operator));
            }
        }
    }
}

/// Whether join condition `a` sorts strictly before `b`.
pub fn join_less(a: &JoinCondition, b: &JoinCondition) -> (r: bool)
    ensures
        r == join_lt(a@, b@),
{
    if crate::text::str_lt(a.left_field.as_str(), b.left_field.as_str()) {
        return true;
    }
    if !crate::text::str_eq(a.left_field.as_str(), b.left_field.as_str()) {
        return false;
    }
    if crate::text::str_lt(a.right_field.as_str(), b.right_field.as_str()) {
        return true;
    }
    if !crate::text::str_eq(a.right_field.as_str(), b.right_field.as_str()) {
        return false;
    }
    crate::text::str_lt(a.operator.name(), b.operator.name())
}

/// A join list sorted by `join_lt`: no element sorts before an earlier one.
pub open spec fn joins_sorted(s: Seq<JoinView>) -> bool {
    forall|i: int, j: int| 0 <= i < j < s.len() ==> !join_lt(#[trigger] s[j], #[trigger] s[i])
}

/// Sorts join conditions (stably) by left field, right field and operator
/// name.
pub fn sort_joins(v: Vec<JoinCondition>) -> (r: Vec<JoinCondition>)
    ensures
        joins_sorted(joins_view(r@)),
        joins_view(r@).to_multiset() == joins_view(v@).to_multiset(),
{
    let n = v.len();
    let mut r: Vec<JoinCondition> = Vec::new();
    let mut i: usize = 0;
    assert(joins_view(r@) =~= joins_view(v@.take(0)));
    while i < n
        invariant
            n == v@.len(),
            i <= n,
            joins_sorted(joins_view(r@)),
            joins_view(r@).to_multiset() == joins_view(v@.take(i as int)).to_multiset(),
        decreases n - i,
    {
        let x = v[i].duplicate();
        let m = r.len();
        let mut p: usize = 0;
        while p < m && !join_less(&x, &r[p])
            invariant
                m == r@.len(),
                p <= m,
                forall|t: int| 0 <= t < p ==> !join_lt(x@, #[trigger] r@[t]@),
            decreases m - p,
        {
            p = p + 1;
        }
        let ghost before = joins_view(r@);
        let ghost xv = x@;
        r.insert(p, x);
        proof {
            let after = joins_view(r@);
            assert(after =~= before.insert(p as int, xv));
            assert forall|a: int, b: int| 0 <= a < b < after.len() implies !join_lt(#[trigger] after[b], #[trigger] after[a]) by {
                if a < p && b == p {
                    assert(after[a] == before[a]);
                } else if a == p && b > p {
                    assert(after[b] == before[b - 1]);
                    if p < m {
                        assert(join_lt(xv, before[p as int]));
                        if join_lt(after[b], xv) {
                            lemma_join_lt_transitive(after[b], xv, before[p as int]);
                            if b - 1 > p {
                                assert(!join_lt(before[b - 1], before[p as int]));
                            } else {
                                lemma_join_lt_irreflexive(before[p as int]);
                            }
                        }
                    }
                } else if a < p && b < p {
                    assert(after[a] == before[a] && after[b] == before[b]);
                } else if a < p && b > p {
                    assert(after[a] == before[a] && after[b] == before[b - 1]);
                } else {
                    assert(after[a] == before[a - 1] && after[b] == before[b - 1]);
                }
            }
            assert(after.remove(p as int) =~= before);
            after.to_multiset_ensures();
            assert(after.to_multiset().remove(xv) =~= before.to_multiset());
            assert(after.to_multiset().count(xv) > 0) by {
                assert(after[p as int] == xv);
                assert(after.contains(xv));
            }
            assert(after.to_multiset() =~= before.to_multiset().insert(xv));
            assert(v@.take(i + 1) =~= v@.take(i as int).push(v@[i as int]));
            assert(joins_view(v@.take(i + 1)) =~= joins_view(v@.take(i as int)).push(xv));
            joins_view(v@.take(i as int)).to_multiset_ensures();
        }
        i = i + 1;
    }
    proof {
        assert(v@.take(n as int) =~= v@);
    }
    r
}

/// `join_lt` is irreflexive.
pub proof fn lemma_join_lt_irreflexive(a: JoinView)
    ensures
        !join_lt(a, a),
{
    crate::text::lemma_seq_lt_irreflexive(a.left_field);
    crate::text::lemma_seq_lt_irreflexive(a.right_field);
    crate::text::lemma_seq_lt_irreflexive(operator_name(a.operator));
}

/// An alpha node of the RETE network: a test on single facts.
#[derive(Debug, Clone)]
pub struct AlphaNode {
    pub id: NodeId,
    pub condition: Condition,
}

/// A beta node of the RETE network: a join of two inputs.
#[derive(Debug, Clone)]
pub struct BetaNode {
    pub id: NodeId,
    pub join_conditions: Vec<JoinCondition>,
}

/// Distinct operators have distinct names.
pub proof fn lemma_operator_name_injective(a: Operator, b: Operator)
    requires
        operator_name(a) == operator_name(b),
    ensures
        a == b,
{
    let na = operator_name(a);
    let nb = operator_name(b);
    assert(na.len() == nb.len());
    assert(na[0] == nb[0]);
    if na.len() == 8 {
        assert(na[0] == nb[0]);
    }
}

/// Distinct join conditions are ordered one way or the other.
pub proof fn lemma_join_lt_total(a: JoinView, b: JoinView)
    ensures
        a == b || join_lt(a, b) || join_lt(b, a),
{
    crate::text::lemma_seq_lt_total(a.left_field, b.left_field);
    crate::text::lemma_seq_lt_total(a.right_field, b.right_field);
    crate::text::lemma_seq_lt_total(operator_name(a.operator), operator_name(b.operator));
    if a.left_field == b.left_field && a.right_field == b.right_field && operator_name(a.operator) == operator_name(b.operator) {
        lemma_operator_name_injective(a.operator, b.operator);
    }
}

/// Two sorted lists with the same elements are equal.
pub proof fn lemma_sorted_permutation_unique(a: Seq<JoinView>, b: Seq<JoinView>)
    requires
        joins_sorted(a),
        joins_sorted(b),
        a.to_multiset() == b.to_multiset(),
    ensures
        a == b,
    decreases a.len(),
{
    a.to_multiset_ensures();
    b.to_multiset_ensures();
    assert(a.len() == b.len());
    if a.len() > 0 {
        assert(b.to_multiset().count(a[0]) > 0) by {
            assert(a.contains(a[0]));
        }
        assert(b.contains(a[0]));
        let j = choose|j: int| 0 <= j < b.len() && b[j] == a[0];
        assert(a.to_multiset().count(b[0]) > 0) by {
            assert(b.contains(b[0]));
        }
        assert(a.contains(b[0]));
        let i = choose|i: int| 0 <= i < a.len() && a[i] == b[0];
        if j > 0 {
            assert(!join_lt(b[j], b[0]));
        } else {
            lemma_join_lt_irreflexive(b[0]);
        }
        if i > 0 {
            assert(!join_lt(a[i], a[0]));
        } else {
            lemma_join_lt_irreflexive(a[0]);
        }
        lemma_join_lt_total(a[0], b[0]);
        assert(a[0] == b[0]);
        let a1 = a.drop_first();
        let b1 = b.drop_first();
        assert(a.remove(0) =~= a1);
        assert(b.remove(0) =~= b1);
        assert(a1.to_multiset() =~= b1.to_multiset());
        assert forall|x: int, y: int| 0 <= x < y < a1.len() implies !join_lt(#[trigger] a1[y], #[trigger] a1[x]) by {
            assert(a1[x] == a[x + 1] && a1[y] == a[y + 1]);
        }
        assert forall|x: int, y: int| 0 <= x < y < b1.len() implies !join_lt(#[trigger] b1[y], #[trigger] b1[x]) by {
            assert(b1[x] == b[x + 1] && b1[y] == b[y + 1]);
        }
        lemma_sorted_permutation_unique(a1, b1);
        assert forall|k: int| 0 <= k < a.len() implies a[k] == b[k] by {
            if k > 0 {
                assert(a[k] == a1[k - 1]);
                assert(b[k] == b1[k - 1]);
            }
        }
        assert(a =~= b);
    } else {
        assert(a =~= b);
    }
}

/// The sorted arrangement of a list of join conditions.
pub open spec fn canonical_joins(s: Seq<JoinView>) -> Seq<JoinView> {
    choose|t: Seq<JoinView>| joins_sorted(t) && t.to_multiset() == s.to_multiset()
}

/// A sorted arrangement of a list is its canonical arrangement.
pub proof fn lemma_canonical_joins(s: Seq<JoinView>, t: Seq<JoinView>)
    requires
        joins_sorted(t),
        t.to_multiset() == s.to_multiset(),
    ensures
        canonical_joins(s) == t,
{
    let c = canonical_joins(s);
    assert(joins_sorted(c) && c.to_multiset() == s.to_multiset());
    lemma_sorted_permutation_unique(c, t);
}

/// A percentage kept as an exact ratio: `100 * part / whole` percent, and
/// zero when `whole` is zero.
#[derive(Debug, Clone, Copy, PartialEq, Eq, Structural)]
pub struct Ratio {
    pub part: usize,
    pub whole: usize,
}

/// `acc + count * size`, or `None` where it leaves `usize`.
pub fn add_product(acc: Option<usize>, count: usize, size: usize) -> (r: Option<usize>)
    ensures
        r == (match acc {
            Some(a) => if a + count * size <= usize::MAX { Some((a + count * size) as usize) } else { None },
            None => None,
        }),
{
    match acc {
        Some(a) => match count.checked_mul(size) {
            Some(p) => a.checked_add(p),
            None => {
                assert(count * size <= a + count * size) by (nonlinear_arith)
                    requires a >= 0, count >= 0, size >= 0;
                None
            },
        },
        None => None,
    }
}

} // verus!
