//! The diagnostics manager: it turns errors into diagnostics, keeps the
//! recent ones, counts them by category and over time, runs debugging
//! sessions and reports on what it kept.
//!
//! Times are milliseconds since the Unix epoch (UTC); identifiers of
//! diagnostics and sessions are the 128 bits of a random UUID.

use vstd::prelude::*;
use std::collections::{HashMap, VecDeque};
use crate::assoc::StrMap;
use crate::clock::utc_now_millis;
use crate::error::{
    BingoError, ContextView, ErrorContext, ErrorSeverity, category_spec, context_spec, display_spec, severity_spec,
};
use crate::error_diagnostics::{
    DebugSessionConfig, DocumentationLink, ErrorLocation, ErrorSuggestion, LinkView, SuggestionView, UserContext,
    documentation_spec, duplicate_links, duplicate_suggestions, generate_documentation_links, generate_suggestions,
    links_view, opt_text, suggestions_spec, suggestions_view,
};
use crate::error_diagnostics::similarity::{calculate_message_similarity, is_white_space, lemma_has_word, law_similarity_bounded, word_set};
use crate::tally::{count_each, count_keys, most_frequent, most_frequent_counts, occurrences};
use crate::text::{str_eq, strs_view};
use crate::types::{Ratio, RuleId, duplicate_opt_string};

verus! {

broadcast use vstd::std_specs::hash::group_hash_axioms;

/// `uuid::Uuid::new_v4`, read as its 128 bits with `Uuid::as_u128`: a
/// random UUID of version 4 and of the RFC 4122 variant, as the crate
/// sets those bits; the other bits are random and nothing is stated of
/// them.
#[verifier::external_body]
fn new_uuid() -> (r: u128)
    ensures
        (r >> 76u128) & 0xfu128 == 4u128,
        (r >> 62u128) & 0x3u128 == 2u128,
{
    uuid::Uuid::new_v4().as_u128()
}

/// Model of an error location: file, line, column, function, module.
pub type LocationView = (Seq<char>, Option<u32>, Option<u32>, Option<Seq<char>>, Option<Seq<char>>);

impl View for ErrorLocation {
    type V = LocationView;

    open spec fn view(&self) -> LocationView {
        (self.file@, self.line, self.column, opt_text(self.function), opt_text(self.module))
    }
}

impl ErrorLocation {
    /// A copy with the same content.
    pub fn duplicate(&self) -> (r: ErrorLocation)
        ensures
            r@ == self@,
    {
        ErrorLocation {
            file: self.file.clone(),
            line: self.line,
            column: self.column,
            function: duplicate_opt_string(&self.function),
            module: duplicate_opt_string(&self.module),
        }
    }
}

/// Model of a user context: user, session, operation, parameters, client.
pub type UserContextView = (Option<Seq<char>>, Option<Seq<char>>, Option<Seq<char>>, Map<String, String>, Option<Seq<char>>);

impl View for UserContext {
    type V = UserContextView;

    open spec fn view(&self) -> UserContextView {
        (opt_text(self.user_id), opt_text(self.session_id), opt_text(self.operation), self.parameters@, opt_text(self.client_info))
    }
}

impl UserContext {
    /// A copy with the same content.
    pub fn duplicate(&self) -> (r: UserContext)
        ensures
            r@ == self@,
    {
        UserContext {
            user_id: duplicate_opt_string(&self.user_id),
            session_id: duplicate_opt_string(&self.session_id),
            operation: duplicate_opt_string(&self.operation),
            parameters: self.parameters.clone(),
            client_info: duplicate_opt_string(&self.client_info),
        }
    }
}

/// The state of the system when an error arose.
#[derive(Debug, Clone, Copy, PartialEq, Eq, Structural)]
pub struct SystemState {
    /// CPU use in hundredths of a percent.
    pub cpu_usage: Option<u32>,
    pub memory_usage: Option<usize>,
    pub active_connections: Option<usize>,
    pub rules_loaded: Option<usize>,
    pub facts_in_memory: Option<usize>,
    pub uptime_seconds: Option<u64>,
}

/// An earlier error like the current one.
#[derive(Debug, Clone)]
pub struct SimilarError {
    /// When it arose.
    pub occurred_at: i64,
    pub message: String,
    pub resolution: Option<String>,
    /// Shared words over all words of the two messages.
    pub similarity: Ratio,
}

/// Model of a similar error: time, message, resolution, similarity.
pub type SimilarView = (i64, Seq<char>, Option<Seq<char>>, Ratio);

impl View for SimilarError {
    type V = SimilarView;

    open spec fn view(&self) -> SimilarView {
        (self.occurred_at, self.message@, opt_text(self.resolution), self.similarity)
    }
}

impl SimilarError {
    /// A copy with the same content.
    pub fn duplicate(&self) -> (r: SimilarError)
        ensures
            r@ == self@,
    {
        SimilarError {
            occurred_at: self.occurred_at,
            message: self.message.clone(),
            resolution: duplicate_opt_string(&self.resolution),
            similarity: self.similarity,
        }
    }
}

/// Models of a list of similar errors.
pub open spec fn similars_view(v: Seq<SimilarError>) -> Seq<SimilarView> {
    v.map_values(|s: SimilarError| s@)
}

/// An error with what helps to understand and fix it.
#[derive(Debug, Clone)]
pub struct ErrorDiagnostic {
    pub diagnostic_id: u128,
    /// The error's text.
    pub error: String,
    pub category: String,
    pub severity: ErrorSeverity,
    /// When the diagnostic was made.
    pub timestamp: i64,
    pub context: ErrorContext,
    pub suggestions: Vec<ErrorSuggestion>,
    pub documentation_links: Vec<DocumentationLink>,
    pub location: Option<ErrorLocation>,
    pub stack_trace: Option<String>,
    pub similar_errors: Vec<SimilarError>,
    pub user_context: Option<UserContext>,
    pub system_state: Option<SystemState>,
}

/// Model of a diagnostic.
pub struct DiagnosticView {
    pub id: u128,
    pub error: Seq<char>,
    pub category: Seq<char>,
    pub severity: ErrorSeverity,
    pub timestamp: i64,
    pub context: ContextView,
    pub suggestions: Seq<SuggestionView>,
    pub links: Seq<LinkView>,
    pub location: Option<LocationView>,
    pub stack_trace: Option<Seq<char>>,
    pub similar: Seq<SimilarView>,
    pub user_context: Option<UserContextView>,
    pub system_state: Option<SystemState>,
}

impl View for ErrorDiagnostic {
    type V = DiagnosticView;

    open spec fn view(&self) -> DiagnosticView {
        DiagnosticView {
            id: self.diagnostic_id,
            error: self.error@,
            category: self.category@,
            severity: self.severity,
            timestamp: self.timestamp,
            context: self.context@,
            suggestions: suggestions_view(self.suggestions@),
            links: links_view(self.documentation_links@),
            location: match self.location {
                Some(l) => Some(l@),
                None => None,
            },
            stack_trace: opt_text(self.stack_trace),
            similar: similars_view(self.similar_errors@),
            user_context: match self.user_context {
                Some(u) => Some(u@),
                None => None,
            },
            system_state: self.system_state,
        }
    }
}

/// Models of a list of diagnostics.
pub open spec fn diagnostics_view(v: Seq<ErrorDiagnostic>) -> Seq<DiagnosticView> {
    v.map_values(|d: ErrorDiagnostic| d@)
}

/// A copy of an error context.
fn duplicate_context(c: &ErrorContext) -> (r: ErrorContext)
    ensures
        r@ == c@,
{
    ErrorContext {
        rule_id: c.rule_id,
        rule_name: duplicate_opt_string(&c.rule_name),
        fact_id: c.fact_id,
        field: duplicate_opt_string(&c.field),
        operator: duplicate_opt_string(&c.operator),
        value: duplicate_opt_string(&c.value),
        expression: duplicate_opt_string(&c.expression),
        variable: duplicate_opt_string(&c.variable),
        operation: duplicate_opt_string(&c.operation),
        aggregation_type: duplicate_opt_string(&c.aggregation_type),
    }
}

/// A copy of a list of similar errors.
fn duplicate_similars(v: &Vec<SimilarError>) -> (r: Vec<SimilarError>)
    ensures
        similars_view(r@) == similars_view(v@),
{
    let n = v.len();
    let mut r: Vec<SimilarError> = Vec::new();
    let mut i: usize = 0;
    while i < n
        invariant
            n == v@.len(),
            i <= n,
            similars_view(r@) == similars_view(v@.take(i as int)),
        decreases n - i,
    {
        let ghost before = r@;
        r.push(v[i].duplicate());
        proof {
            assert(similars_view(r@) =~= similars_view(before).push(v@[i as int]@));
            assert(similars_view(v@.take(i + 1)) =~= similars_view(v@.take(i as int)).push(v@[i as int]@));
        }
        i = i + 1;
    }
    proof {
        assert(v@.take(n as int) =~= v@);
    }
    r
}

impl ErrorDiagnostic {
    /// A copy with the same content.
    pub fn duplicate(&self) -> (r: ErrorDiagnostic)
        ensures
            r@ == self@,
    {
        ErrorDiagnostic {
            diagnostic_id: self.diagnostic_id,
            error: self.error.clone(),
            category: self.category.clone(),
            severity: self.severity,
            timestamp: self.timestamp,
            context: duplicate_context(&self.context),
            suggestions: duplicate_suggestions(&self.suggestions),
            documentation_links: duplicate_links(&self.documentation_links),
            location: match &self.location {
                Some(l) => Some(l.duplicate()),
                None => None,
            },
            stack_trace: duplicate_opt_string(&self.stack_trace),
            similar_errors: duplicate_similars(&self.similar_errors),
            user_context: match &self.user_context {
                Some(u) => Some(u.duplicate()),
                None => None,
            },
            system_state: self.system_state,
        }
    }
}

/// Settings of the diagnostics manager.
#[derive(Debug, Clone, Copy)]
pub struct DiagnosticsConfig {
    /// How many diagnostics are kept.
    pub max_diagnostics: usize,
    /// Whether diagnostics are counted by category and over time.
    pub enable_analytics: bool,
    pub auto_documentation_links: bool,
    /// In hundredths: 50 is 0.5.
    pub suggestion_priority_threshold: u32,
}

impl Default for DiagnosticsConfig {
    /// A thousand diagnostics kept, analytics and links on, threshold 0.5.
    fn default() -> (c: DiagnosticsConfig)
        ensures
            c.max_diagnostics == 1000,
            c.enable_analytics,
            c.auto_documentation_links,
            c.suggestion_priority_threshold == 50,
    {
        DiagnosticsConfig {
            max_diagnostics: 1000,
            enable_analytics: true,
            auto_documentation_links: true,
            suggestion_priority_threshold: 50,
        }
    }
}

/// Errors over a stretch of time: when the stretch began, how many errors
/// fell in it, and how many of each category.
#[derive(Debug, Clone)]
pub struct ErrorTrendPoint {
    pub timestamp: i64,
    pub error_count: usize,
    pub category_breakdown: StrMap<usize>,
}

/// Model of a trend point.
pub struct TrendView {
    pub timestamp: i64,
    pub error_count: usize,
    pub breakdown: Map<Seq<char>, usize>,
}

/// The model of a trend point.
pub open spec fn trend_view(t: ErrorTrendPoint) -> TrendView {
    TrendView { timestamp: t.timestamp, error_count: t.error_count, breakdown: t.category_breakdown@ }
}

/// Models of a list of trend points.
pub open spec fn trends_view(v: Seq<ErrorTrendPoint>) -> Seq<TrendView> {
    v.map_values(|t: ErrorTrendPoint| trend_view(t))
}

/// A recurring kind of error.
#[derive(Debug, Clone)]
pub struct ErrorPattern {
    pub description: String,
    pub occurrences: usize,
    pub affected_rules: Vec<RuleId>,
    pub common_resolution: Option<String>,
    /// In hundredths: 90 is a confidence of 0.9.
    pub confidence: u32,
}

/// Where errors come from.
#[derive(Debug, Clone)]
pub struct ErrorSource {
    pub source_id: String,
    pub source_type: String,
    pub error_count: usize,
    /// Errors per execution.
    pub error_rate: Ratio,
}

/// Counts of errors by category and over time.
#[derive(Debug, Clone)]
pub struct ErrorAnalytics {
    pub frequency_by_category: StrMap<usize>,
    pub error_trends: Vec<ErrorTrendPoint>,
    pub common_patterns: Vec<ErrorPattern>,
    pub resolution_rates: StrMap<Ratio>,
    pub top_error_sources: Vec<ErrorSource>,
}

impl ErrorAnalytics {
    /// Every map in it is well formed.
    pub open spec fn wf(&self) -> bool {
        &&& self.frequency_by_category.wf()
        &&& self.resolution_rates.wf()
        &&& forall|i: int| 0 <= i < self.error_trends@.len() ==> (#[trigger] self.error_trends@[i]).category_breakdown.wf()
    }
}

/// What a user said of a suggestion.
#[derive(Debug, Clone)]
pub struct SuggestionFeedback {
    pub suggestion_id: String,
    pub helpful: bool,
    pub implemented: bool,
    pub resolved_issue: bool,
    pub comments: Option<String>,
    pub feedback_time: i64,
}

/// A debugging session: the error at hand, those before it, and the
/// suggestions in play.
#[derive(Debug)]
pub struct InteractiveDebugSession {
    pub session_id: u128,
    pub current_error: Option<ErrorDiagnostic>,
    pub error_history: VecDeque<ErrorDiagnostic>,
    pub active_suggestions: Vec<ErrorSuggestion>,
    pub suggestion_feedback: StrMap<SuggestionFeedback>,
    pub config: DebugSessionConfig,
}

/// Model of a debugging session.
pub struct SessionView {
    pub id: u128,
    pub current: Option<DiagnosticView>,
    pub history: Seq<DiagnosticView>,
    pub active: Seq<SuggestionView>,
    pub feedback: Map<Seq<char>, SuggestionFeedback>,
    pub config: DebugSessionConfig,
}

impl View for InteractiveDebugSession {
    type V = SessionView;

    open spec fn view(&self) -> SessionView {
        SessionView {
            id: self.session_id,
            current: match self.current_error {
                Some(d) => Some(d@),
                None => None,
            },
            history: diagnostics_view(self.error_history@),
            active: suggestions_view(self.active_suggestions@),
            feedback: self.suggestion_feedback@,
            config: self.config,
        }
    }
}

/// A session as it starts: nothing seen yet.
pub open spec fn fresh_session(id: u128, config: DebugSessionConfig) -> SessionView {
    SessionView {
        id,
        current: None,
        history: Seq::empty(),
        active: Seq::empty(),
        feedback: Map::empty(),
        config,
    }
}

/// The last `max` entries of a list that has at most one entry too many:
/// the first entry goes when the list is longer than `max`.
pub open spec fn keep_last<A>(s: Seq<A>, max: usize) -> Seq<A> {
    if s.len() > max { s.drop_first() } else { s }
}

/// A session after an error was added to it: the error is current and
/// ends the history, and its suggestions are the active ones.
pub open spec fn session_after(s: SessionView, d: DiagnosticView) -> SessionView {
    SessionView {
        current: Some(d),
        history: keep_last(s.history.push(d), s.config.max_error_history),
        active: d.suggestions,
        ..s
    }
}

/// One more, unless the count is already the largest `usize`.
pub open spec fn bumped(x: usize) -> usize {
    if x < usize::MAX { (x + 1) as usize } else { x }
}

/// A count map with one more for `key`.
pub open spec fn count_one(m: Map<Seq<char>, usize>, key: Seq<char>) -> Map<Seq<char>, usize> {
    m.insert(key, bumped(if m.contains_key(key) { m[key] } else { 0 }))
}

/// Five minutes: errors this close to the start of the last trend point
/// fall in it.
pub open spec fn trend_span() -> int {
    300_000
}

/// A day: older trend points are dropped.
pub open spec fn trend_retention() -> int {
    86_400_000
}

/// The trend points that began after `cutoff`, in order.
pub open spec fn trends_after(ts: Seq<TrendView>, cutoff: int) -> Seq<TrendView>
    decreases ts.len(),
{
    if ts.len() == 0 {
        Seq::empty()
    } else {
        let rest = trends_after(ts.drop_last(), cutoff);
        if ts.last().timestamp > cutoff { rest.push(ts.last()) } else { rest }
    }
}

/// The trend after an error of category `cat` at time `now`: it joins the
/// last point when that began less than five minutes before, or starts a
/// new point; then points older than a day are dropped.
pub open spec fn trend_step(ts: Seq<TrendView>, cat: Seq<char>, now: i64) -> Seq<TrendView> {
    let grown = if ts.len() > 0 && now - ts.last().timestamp < trend_span() {
        let last = ts.last();
        ts.update(ts.len() - 1, TrendView {
            error_count: bumped(last.error_count),
            breakdown: count_one(last.breakdown, cat),
            ..last
        })
    } else {
        ts.push(TrendView { timestamp: now, error_count: 1, breakdown: Map::empty().insert(cat, 1) })
    };
    trends_after(grown, now - trend_retention())
}

/// Whether a stored diagnostic counts as like an error of category `cat`
/// with text `msg`: same category, and more than seven tenths of the
/// words of the two texts shared. Texts whose lengths together leave
/// `usize` are not compared.
pub open spec fn is_similar(d: DiagnosticView, cat: Seq<char>, msg: Seq<char>) -> bool {
    &&& d.category == cat
    &&& msg.len() + d.error.len() <= usize::MAX
    &&& 10 * word_set(msg).intersect(word_set(d.error)).len() > 7 * word_set(msg).union(word_set(d.error)).len()
}

/// The stored diagnostics like the error, in order.
pub open spec fn similar_candidates(ds: Seq<DiagnosticView>, cat: Seq<char>, msg: Seq<char>) -> Seq<DiagnosticView>
    decreases ds.len(),
{
    if ds.len() == 0 {
        Seq::empty()
    } else {
        let rest = similar_candidates(ds.drop_last(), cat, msg);
        if is_similar(ds.last(), cat, msg) { rest.push(ds.last()) } else { rest }
    }
}

/// The record of a like diagnostic.
pub open spec fn similar_entry(d: DiagnosticView, msg: Seq<char>) -> SimilarView {
    (d.timestamp, d.error, None, Ratio {
        part: word_set(msg).intersect(word_set(d.error)).len() as usize,
        whole: word_set(msg).union(word_set(d.error)).len() as usize,
    })
}

/// The like errors reported: the first five like diagnostics.
pub open spec fn similar_spec(ds: Seq<DiagnosticView>, cat: Seq<char>, msg: Seq<char>) -> Seq<SimilarView> {
    let c = similar_candidates(ds, cat, msg);
    c.take(if c.len() < 5 { c.len() as int } else { 5 }).map_values(|d: DiagnosticView| similar_entry(d, msg))
}

/// The like diagnostics among the first `k` are the first of all like ones.
proof fn lemma_candidates_prefix(ds: Seq<DiagnosticView>, cat: Seq<char>, msg: Seq<char>, k: int)
    requires
        0 <= k <= ds.len(),
    ensures
        similar_candidates(ds.take(k), cat, msg).len() <= similar_candidates(ds, cat, msg).len(),
        forall|i: int| 0 <= i < similar_candidates(ds.take(k), cat, msg).len()
            ==> #[trigger] similar_candidates(ds, cat, msg)[i] == similar_candidates(ds.take(k), cat, msg)[i],
    decreases ds.len(),
{
    if k == ds.len() {
        assert(ds.take(k) =~= ds);
    } else {
        lemma_candidates_prefix(ds.drop_last(), cat, msg, k);
        assert(ds.drop_last().take(k) =~= ds.take(k));
    }
}

/// The diagnostic made for `error` with identifier `id` at time `now`,
/// given the diagnostics stored before.
pub open spec fn diagnostic_spec(stored: Seq<DiagnosticView>, error: BingoError, id: u128, now: i64) -> DiagnosticView {
    DiagnosticView {
        id,
        error: display_spec(error),
        category: category_spec(error),
        severity: severity_spec(error),
        timestamp: now,
        context: context_spec(error),
        suggestions: suggestions_spec(error),
        links: documentation_spec(error),
        location: None,
        stack_trace: None,
        similar: similar_spec(stored, category_spec(error), display_spec(error)),
        user_context: None,
        system_state: None,
    }
}

/// Keeps recent diagnostics, counts them, and runs debugging sessions.
#[derive(Debug)]
pub struct ErrorDiagnosticsManager {
    diagnostics: VecDeque<ErrorDiagnostic>,
    analytics: ErrorAnalytics,
    debug_sessions: HashMap<u128, InteractiveDebugSession>,
    config: DiagnosticsConfig,
    suggestion_templates: StrMap<Vec<ErrorSuggestion>>,
}

impl ErrorDiagnosticsManager {
    /// Well-formedness: the maps are well formed, and the analytics the
    /// manager never fills (patterns, resolution rates, sources) are empty.
    pub closed spec fn wf(&self) -> bool {
        &&& self.analytics.wf()
        &&& self.analytics.common_patterns@.len() == 0
        &&& self.analytics.resolution_rates@ == Map::<Seq<char>, Ratio>::empty()
        &&& self.analytics.top_error_sources@.len() == 0
        &&& self.suggestion_templates.wf()
        &&& forall|k: u128| #[trigger] self.debug_sessions@.contains_key(k) ==> self.debug_sessions@[k].suggestion_feedback.wf()
    }

    /// The stored diagnostics, oldest first.
    pub closed spec fn stored(&self) -> Seq<DiagnosticView> {
        diagnostics_view(self.diagnostics@)
    }

    /// How many diagnostics of each category were counted.
    pub closed spec fn frequency(&self) -> Map<Seq<char>, usize> {
        self.analytics.frequency_by_category@
    }

    /// The error trend, oldest point first.
    pub closed spec fn trends(&self) -> Seq<TrendView> {
        trends_view(self.analytics.error_trends@)
    }

    /// The debugging sessions by identifier.
    pub closed spec fn sessions(&self) -> Map<u128, SessionView> {
        Map::new(|k: u128| self.debug_sessions@.contains_key(k), |k: u128| self.debug_sessions@[k]@)
    }

    /// The settings.
    pub closed spec fn settings(&self) -> DiagnosticsConfig {
        self.config
    }

    /// The suggestion templates by category.
    pub closed spec fn templates(&self) -> Map<Seq<char>, Seq<SuggestionView>> {
        Map::new(
            |k: Seq<char>| self.suggestion_templates@.contains_key(k),
            |k: Seq<char>| suggestions_view(self.suggestion_templates@[k]@),
        )
    }

    /// A manager with nothing stored, and empty suggestion templates for
    /// rules, conditions and the fact store.
    pub fn new(config: DiagnosticsConfig) -> (m: ErrorDiagnosticsManager)
        ensures
            m.wf(),
            m.stored() == Seq::<DiagnosticView>::empty(),
            m.frequency() == Map::<Seq<char>, usize>::empty(),
            m.trends() == Seq::<TrendView>::empty(),
            m.sessions() == Map::<u128, SessionView>::empty(),
            m.settings() == config,
            m.templates() == Map::<Seq<char>, Seq<SuggestionView>>::empty()
                .insert("rule"@, Seq::empty())
                .insert("condition"@, Seq::empty())
                .insert("fact_store"@, Seq::empty()),
    {
        let mut templates: StrMap<Vec<ErrorSuggestion>> = StrMap::new();
        templates.insert(String::from_str("rule"), Vec::new());
        templates.insert(String::from_str("condition"), Vec::new());
        templates.insert(String::from_str("fact_store"), Vec::new());
        let m = ErrorDiagnosticsManager {
            diagnostics: VecDeque::new(),
            analytics: ErrorAnalytics {
                frequency_by_category: StrMap::new(),
                error_trends: Vec::new(),
                common_patterns: Vec::new(),
                resolution_rates: StrMap::new(),
                top_error_sources: Vec::new(),
            },
            debug_sessions: HashMap::new(),
            config,
            suggestion_templates: templates,
        };
        proof {
            assert(m.stored() =~= Seq::<DiagnosticView>::empty());
            assert(m.trends() =~= Seq::<TrendView>::empty());
            assert(m.sessions() =~= Map::<u128, SessionView>::empty());
            assert(suggestions_view(Seq::<ErrorSuggestion>::empty()) =~= Seq::<SuggestionView>::empty());
            assert(m.templates() =~= Map::<Seq<char>, Seq<SuggestionView>>::empty()
                .insert("rule"@, Seq::empty())
                .insert("condition"@, Seq::empty())
                .insert("fact_store"@, Seq::empty()));
        }
        m
    }

    /// The stored diagnostics like `error`: of its category and sharing
    /// more than seven tenths of the words, at most five, oldest first.
    pub fn find_similar_errors(&self, error: &BingoError) -> (r: Vec<SimilarError>)
        ensures
            similars_view(r@) == similar_spec(self.stored(), category_spec(*error), display_spec(*error)),
    {
        let category = error.category();
        let message = error.to_display_string();
        let ghost cat = category_spec(*error);
        let ghost msg = display_spec(*error);
        let ghost ds = self.stored();
        let n = self.diagnostics.len();
        let mut found: Vec<SimilarError> = Vec::new();
        let mut k: usize = 0;
        proof {
            assert(ds.take(0) =~= Seq::<DiagnosticView>::empty());
            assert(similars_view(found@) =~= similar_candidates(ds.take(0), cat, msg).map_values(|d: DiagnosticView| similar_entry(d, msg)));
        }
        while k < n && found.len() < 5
            invariant
                n == self.diagnostics@.len(),
                ds == self.stored(),
                cat == category@,
                msg == message@,
                k <= n,
                found@.len() <= 5,
                similars_view(found@) == similar_candidates(ds.take(k as int), cat, msg).map_values(|d: DiagnosticView| similar_entry(d, msg)),
            decreases n - k,
        {
            let d = &self.diagnostics[k];
            let ghost dv = d@;
            let ghost before = similars_view(found@);
            proof {
                assert(ds[k as int] == dv);
                assert(ds.take(k + 1).drop_last() =~= ds.take(k as int));
                assert(ds.take(k + 1).last() == dv);
            }
            if str_eq(d.category.as_str(), category) {
                let l1 = message.as_str().unicode_len();
                let l2 = d.error.as_str().unicode_len();
                if l1 <= usize::MAX - l2 {
                    let sim = calculate_message_similarity(message.as_str(), d.error.as_str());
                    if 10 * (sim.part as u128) > 7 * (sim.whole as u128) {
                        found.push(SimilarError { occurred_at: d.timestamp, message: d.error.clone(), resolution: None, similarity: sim });
                        proof {
                            assert(is_similar(dv, cat, msg));
                            assert(similars_view(found@) =~= before.push(similar_entry(dv, msg)));
                        }
                    } else {
                        proof {
                            assert(!is_similar(dv, cat, msg));
                        }
                    }
                }
            }
            k = k + 1;
        }
        proof {
            let c = similar_candidates(ds, cat, msg);
            let ck = similar_candidates(ds.take(k as int), cat, msg);
            lemma_candidates_prefix(ds, cat, msg, k as int);
            if k == n {
                assert(ds.take(k as int) =~= ds);
                assert(c.take(c.len() as int) =~= c);
            } else {
                assert(ck.len() == 5);
                assert(c.take(5) =~= ck);
            }
        }
        found
    }
}

/// One more, unless the count is already the largest `usize`.
fn bump(x: usize) -> (r: usize)
    ensures
        r == bumped(x),
{
    if x < usize::MAX { x + 1 } else { x }
}

/// Adds one to the count of `key`.
fn count_in(m: &mut StrMap<usize>, key: &str)
    requires
        old(m).wf(),
    ensures
        final(m).wf(),
        final(m)@ == count_one(old(m)@, key@),
{
    let cur: usize = match m.get(key) {
        Some(c) => *c,
        None => 0,
    };
    m.insert(String::from_str(key), bump(cur));
}

/// Records an error of category `category` at time `now` in a trend.
pub fn record_trend(trends: &mut Vec<ErrorTrendPoint>, category: &str, now: i64)
    requires
        forall|i: int| 0 <= i < old(trends)@.len() ==> (#[trigger] old(trends)@[i]).category_breakdown.wf(),
    ensures
        forall|i: int| 0 <= i < final(trends)@.len() ==> (#[trigger] final(trends)@[i]).category_breakdown.wf(),
        trends_view(final(trends)@) == trend_step(trends_view(old(trends)@), category@, now),
{
    let ghost ts = trends_view(trends@);
    let n = trends.len();
    if n > 0 && (now as i128) - (trends[n - 1].timestamp as i128) < 300_000 {
        let mut last = trends.pop().unwrap();
        proof {
            assert(trends_view(trends@) =~= ts.drop_last());
        }
        last.error_count = bump(last.error_count);
        count_in(&mut last.category_breakdown, category);
        trends.push(last);
        proof {
            assert(trends_view(trends@) =~= ts.update(ts.len() - 1, TrendView {
                error_count: bumped(ts.last().error_count),
                breakdown: count_one(ts.last().breakdown, category@),
                ..ts.last()
            }));
        }
    } else {
        let mut breakdown: StrMap<usize> = StrMap::new();
        breakdown.insert(String::from_str(category), 1);
        trends.push(ErrorTrendPoint { timestamp: now, error_count: 1, category_breakdown: breakdown });
        proof {
            assert(breakdown@ =~= Map::<Seq<char>, usize>::empty().insert(category@, 1));
            assert(trends_view(trends@) =~= ts.push(TrendView {
                timestamp: now,
                error_count: 1,
                breakdown: Map::empty().insert(category@, 1),
            }));
        }
    }
    let ghost grown = trends_view(trends@);
    let cutoff: i128 = (now as i128) - 86_400_000;
    let mut rest: Vec<ErrorTrendPoint> = Vec::new();
    std::mem::swap(&mut rest, trends);
    let ghost all = rest@;
    let mut consumed: usize = 0;
    let total = rest.len();
    proof {
        assert(all.take(0) =~= Seq::<ErrorTrendPoint>::empty());
        assert(trends_view(trends@) =~= trends_after(trends_view(all.take(0)), cutoff as int));
        assert(rest@ =~= all.skip(0));
    }
    while rest.len() > 0
        invariant
            total == all.len(),
            grown == trends_view(all),
            consumed + rest@.len() == total,
            rest@ == all.skip(consumed as int),
            forall|i: int| 0 <= i < all.len() ==> (#[trigger] all[i]).category_breakdown.wf(),
            forall|i: int| 0 <= i < trends@.len() ==> (#[trigger] trends@[i]).category_breakdown.wf(),
            trends_view(trends@) == trends_after(trends_view(all.take(consumed as int)), cutoff as int),
        decreases rest@.len(),
    {
        let point = rest.remove(0);
        let ghost before = trends_view(trends@);
        proof {
            assert(point == all[consumed as int]);
            assert(rest@ =~= all.skip(consumed + 1));
            assert(trends_view(all.take(consumed + 1)).drop_last() =~= trends_view(all.take(consumed as int)));
            assert(trends_view(all.take(consumed + 1)).last() == trend_view(point));
        }
        if (point.timestamp as i128) > cutoff {
            trends.push(point);
            proof {
                assert(trends_view(trends@) =~= before.push(trend_view(point)));
            }
        }
        consumed = consumed + 1;
    }
    proof {
        assert(all.take(total as int) =~= all);
    }
}

impl ErrorDiagnosticsManager {
    /// Counts an error of category `category` at time `now`: one more for
    /// the category, and the trend brought up to date.
    pub fn update_analytics_at(&mut self, category: &str, now: i64)
        requires
            old(self).wf(),
        ensures
            final(self).wf(),
            final(self).frequency() == count_one(old(self).frequency(), category@),
            final(self).trends() == trend_step(old(self).trends(), category@, now),
            final(self).stored() == old(self).stored(),
            final(self).sessions() == old(self).sessions(),
            final(self).settings() == old(self).settings(),
            final(self).templates() == old(self).templates(),
    {
        count_in(&mut self.analytics.frequency_by_category, category);
        record_trend(&mut self.analytics.error_trends, category, now);
    }

    /// Makes the diagnostic for `error` with identifier `id` at time `now`:
    /// its text, category, severity, context, suggested fixes,
    /// documentation links and the like stored errors. When analytics are
    /// on, it is counted; then it is stored, and the oldest stored one goes
    /// when more than the maximum are kept.
    pub fn create_diagnostic_at(&mut self, error: &BingoError, id: u128, now: i64) -> (d: ErrorDiagnostic)
        requires
            old(self).wf(),
        ensures
            final(self).wf(),
            d@ == diagnostic_spec(old(self).stored(), *error, id, now),
            final(self).stored() == keep_last(old(self).stored().push(d@), old(self).settings().max_diagnostics),
            final(self).frequency() == if old(self).settings().enable_analytics {
                count_one(old(self).frequency(), category_spec(*error))
            } else {
                old(self).frequency()
            },
            final(self).trends() == if old(self).settings().enable_analytics {
                trend_step(old(self).trends(), category_spec(*error), now)
            } else {
                old(self).trends()
            },
            final(self).sessions() == old(self).sessions(),
            final(self).settings() == old(self).settings(),
            final(self).templates() == old(self).templates(),
    {
        let category = error.category();
        let suggestions = generate_suggestions(error);
        let documentation_links = generate_documentation_links(error);
        let similar_errors = self.find_similar_errors(error);
        let diagnostic = ErrorDiagnostic {
            diagnostic_id: id,
            error: error.to_display_string(),
            category: String::from_str(category),
            severity: error.severity(),
            timestamp: now,
            context: error.context(),
            suggestions,
            documentation_links,
            location: None,
            stack_trace: None,
            similar_errors,
            user_context: None,
            system_state: None,
        };
        proof {
            assert(suggestions_view(diagnostic.suggestions@) =~= suggestions_spec(*error));
            assert(links_view(diagnostic.documentation_links@) =~= documentation_spec(*error));
        }
        if self.config.enable_analytics {
            self.update_analytics_at(category, now);
        }
        let ghost before = self.stored();
        self.diagnostics.push_back(diagnostic.duplicate());
        proof {
            assert(self.stored() =~= before.push(diagnostic@));
        }
        if self.diagnostics.len() > self.config.max_diagnostics {
            let _ = self.diagnostics.pop_front();
            proof {
                assert(self.stored() =~= before.push(diagnostic@).drop_first());
            }
        }
        diagnostic
    }

    /// Makes the diagnostic for `error`, with a fresh random identifier and
    /// the current time, as `create_diagnostic_at` does with those.
    pub(crate) fn create_diagnostic_for(&mut self, error: &BingoError) -> (d: ErrorDiagnostic)
        requires
            old(self).wf(),
        ensures
            final(self).wf(),
            d@ == diagnostic_spec(old(self).stored(), *error, d.diagnostic_id, d.timestamp),
            final(self).stored() == keep_last(old(self).stored().push(d@), old(self).settings().max_diagnostics),
            final(self).frequency() == if old(self).settings().enable_analytics {
                count_one(old(self).frequency(), category_spec(*error))
            } else {
                old(self).frequency()
            },
            final(self).trends() == if old(self).settings().enable_analytics {
                trend_step(old(self).trends(), category_spec(*error), d.timestamp)
            } else {
                old(self).trends()
            },
            final(self).sessions() == old(self).sessions(),
            final(self).settings() == old(self).settings(),
            final(self).templates() == old(self).templates(),
    {
        let id = new_uuid();
        let now = utc_now_millis();
        self.create_diagnostic_at(error, id, now)
    }

    /// Makes the diagnostic for `error`, with a fresh random identifier and
    /// the current time, as `create_diagnostic_at` does with those.
    pub fn create_diagnostic(&mut self, error: BingoError) -> (d: ErrorDiagnostic)
        requires
            old(self).wf(),
        ensures
            final(self).wf(),
            d@ == diagnostic_spec(old(self).stored(), error, d.diagnostic_id, d.timestamp),
            final(self).stored() == keep_last(old(self).stored().push(d@), old(self).settings().max_diagnostics),
            final(self).frequency() == if old(self).settings().enable_analytics {
                count_one(old(self).frequency(), category_spec(error))
            } else {
                old(self).frequency()
            },
            final(self).trends() == if old(self).settings().enable_analytics {
                trend_step(old(self).trends(), category_spec(error), d.timestamp)
            } else {
                old(self).trends()
            },
            final(self).sessions() == old(self).sessions(),
            final(self).settings() == old(self).settings(),
            final(self).templates() == old(self).templates(),
    {
        self.create_diagnostic_for(&error)
    }
}

impl ErrorDiagnosticsManager {
    /// Starts a debugging session under the given identifier, replacing
    /// any session it had.
    pub fn start_debug_session_with_id(&mut self, session_id: u128, config: DebugSessionConfig)
        requires
            old(self).wf(),
        ensures
            final(self).wf(),
            final(self).sessions() == old(self).sessions().insert(session_id, fresh_session(session_id, config)),
            final(self).stored() == old(self).stored(),
            final(self).frequency() == old(self).frequency(),
            final(self).trends() == old(self).trends(),
            final(self).settings() == old(self).settings(),
            final(self).templates() == old(self).templates(),
    {
        let session = InteractiveDebugSession {
            session_id,
            current_error: None,
            error_history: VecDeque::new(),
            active_suggestions: Vec::new(),
            suggestion_feedback: StrMap::new(),
            config,
        };
        proof {
            assert(session@.history =~= Seq::<DiagnosticView>::empty());
            assert(session@.active =~= Seq::<SuggestionView>::empty());
        }
        let ghost before = self.sessions();
        self.debug_sessions.insert(session_id, session);
        proof {
            assert(self.sessions() =~= before.insert(session_id, fresh_session(session_id, config)));
        }
    }

    /// Starts a debugging session under a fresh random identifier, which it
    /// returns.
    pub fn start_debug_session(&mut self, config: DebugSessionConfig) -> (id: u128)
        requires
            old(self).wf(),
        ensures
            final(self).wf(),
            final(self).sessions() == old(self).sessions().insert(id, fresh_session(id, config)),
            final(self).stored() == old(self).stored(),
            final(self).frequency() == old(self).frequency(),
            final(self).trends() == old(self).trends(),
            final(self).settings() == old(self).settings(),
            final(self).templates() == old(self).templates(),
    {
        let id = new_uuid();
        self.start_debug_session_with_id(id, config);
        id
    }

    /// Adds a diagnostic to a session: it becomes the current error, ends
    /// the history (the oldest entry goes when the history grows past its
    /// maximum), and its suggestions become the active ones. Nothing
    /// happens when there is no such session.
    pub fn add_error_to_session(&mut self, session_id: u128, diagnostic: ErrorDiagnostic)
        requires
            old(self).wf(),
        ensures
            final(self).wf(),
            final(self).sessions() == if old(self).sessions().contains_key(session_id) {
                old(self).sessions().insert(session_id, session_after(old(self).sessions()[session_id], diagnostic@))
            } else {
                old(self).sessions()
            },
            final(self).stored() == old(self).stored(),
            final(self).frequency() == old(self).frequency(),
            final(self).trends() == old(self).trends(),
            final(self).settings() == old(self).settings(),
            final(self).templates() == old(self).templates(),
    {
        let ghost before = self.sessions();
        let ghost raw = self.debug_sessions@;
        match self.debug_sessions.remove(&session_id) {
            Some(mut session) => {
                let ghost s0 = session@;
                proof {
                    assert(raw.contains_key(session_id) && raw[session_id] == session);
                    assert(before[session_id] == s0);
                }
                session.current_error = Some(diagnostic.duplicate());
                let ghost h0 = session@.history;
                session.error_history.push_back(diagnostic.duplicate());
                proof {
                    assert(session@.history =~= h0.push(diagnostic@));
                }
                let ghost dv = diagnostic@;
                session.active_suggestions = diagnostic.suggestions;
                if session.error_history.len() > session.config.max_error_history {
                    let _ = session.error_history.pop_front();
                    proof {
                        assert(session@.history =~= h0.push(dv).drop_first());
                    }
                }
                proof {
                    assert(session@ == session_after(s0, dv));
                }
                self.debug_sessions.insert(session_id, session);
                proof {
                    assert(self.debug_sessions@ =~= raw.insert(session_id, session));
                    assert(self.sessions() =~= before.insert(session_id, session_after(s0, dv)));
                }
            },
            None => {
                proof {
                    assert(!raw.contains_key(session_id));
                    assert(self.debug_sessions@ =~= raw);
                    assert(self.sessions() =~= before);
                }
            },
        }
    }

    /// The session with this identifier, if there is one.
    pub fn get_debug_session(&self, session_id: u128) -> (r: Option<&InteractiveDebugSession>)
        ensures
            match r {
                Some(s) => self.sessions().contains_key(session_id) && s@ == self.sessions()[session_id],
                None => !self.sessions().contains_key(session_id),
            },
    {
        self.debug_sessions.get(&session_id)
    }

    /// The error analytics: counts by category and the trend; the kinds of
    /// analytics the manager does not fill are empty.
    pub fn get_analytics(&self) -> (r: &ErrorAnalytics)
        requires
            self.wf(),
        ensures
            r.wf(),
            r.frequency_by_category@ == self.frequency(),
            trends_view(r.error_trends@) == self.trends(),
            r.common_patterns@.len() == 0,
            r.resolution_rates@ == Map::<Seq<char>, Ratio>::empty(),
            r.top_error_sources@.len() == 0,
    {
        &self.analytics
    }
}

/// Turns an error into a diagnostic kept by a manager.
pub trait ErrorToDiagnostic: Sized {
    /// The diagnostic for this error, made and kept by `manager`.
    fn to_diagnostic(self, manager: &mut ErrorDiagnosticsManager) -> (d: ErrorDiagnostic)
        requires
            old(manager).wf(),
        ensures
            final(manager).wf(),
    ;
}

impl ErrorToDiagnostic for BingoError {
    /// As `ErrorDiagnosticsManager::create_diagnostic`.
    fn to_diagnostic(self, manager: &mut ErrorDiagnosticsManager) -> (d: ErrorDiagnostic)
        ensures
            d@ == diagnostic_spec(old(manager).stored(), self, d.diagnostic_id, d.timestamp),
            final(manager).stored() == keep_last(old(manager).stored().push(d@), old(manager).settings().max_diagnostics),
    {
        manager.create_diagnostic(self)
    }
}

/// Turns the error of a result into a diagnostic kept by a manager.
pub trait ResultDiagnosticExt<T>: Sized {
    /// The value of a success; for a failure, its diagnostic, made and kept
    /// by `manager`.
    fn with_diagnostics(self, manager: &mut ErrorDiagnosticsManager) -> (r: Result<T, Box<ErrorDiagnostic>>)
        requires
            old(manager).wf(),
        ensures
            final(manager).wf(),
    ;
}

impl<T> ResultDiagnosticExt<T> for Result<T, BingoError> {
    /// A success passes through and leaves the manager as it was; a
    /// failure becomes its diagnostic, as `create_diagnostic` makes it.
    fn with_diagnostics(self, manager: &mut ErrorDiagnosticsManager) -> (r: Result<T, Box<ErrorDiagnostic>>)
        ensures
            match self {
                Ok(v) => r == Ok::<T, Box<ErrorDiagnostic>>(v) && *final(manager) == *old(manager),
                Err(e) => r matches Err(d) && d@ == diagnostic_spec(old(manager).stored(), e, d.diagnostic_id, d.timestamp)
                    && final(manager).stored() == keep_last(old(manager).stored().push(d@), old(manager).settings().max_diagnostics),
            },
    {
        match self {
            Ok(v) => Ok(v),
            Err(e) => Err(Box::new(manager.create_diagnostic(e))),
        }
    }
}

/// The name a severity prints as with `{:?}`.
pub open spec fn severity_text(s: ErrorSeverity) -> Seq<char> {
    match s {
        ErrorSeverity::Low => "Low"@,
        ErrorSeverity::Medium => "Medium"@,
        ErrorSeverity::High => "High"@,
        ErrorSeverity::Critical => "Critical"@,
    }
}

/// The name a severity prints as with `{:?}`.
pub fn severity_name(s: ErrorSeverity) -> (r: String)
    ensures
        r@ == severity_text(s),
{
    match s {
        ErrorSeverity::Low => String::from_str("Low"),
        ErrorSeverity::Medium => String::from_str("Medium"),
        ErrorSeverity::High => String::from_str("High"),
        ErrorSeverity::Critical => String::from_str("Critical"),
    }
}

/// The diagnostics made after `cutoff`, in order.
pub open spec fn made_after(ds: Seq<DiagnosticView>, cutoff: int) -> Seq<DiagnosticView>
    decreases ds.len(),
{
    if ds.len() == 0 {
        Seq::empty()
    } else {
        let rest = made_after(ds.drop_last(), cutoff);
        if ds.last().timestamp > cutoff { rest.push(ds.last()) } else { rest }
    }
}

/// The suggestions of the diagnostics, in order.
pub open spec fn all_suggestions(ds: Seq<DiagnosticView>) -> Seq<SuggestionView>
    decreases ds.len(),
{
    if ds.len() == 0 { Seq::empty() } else { all_suggestions(ds.drop_last()) + ds.last().suggestions }
}

/// Where a suggestion of priority `p` goes in a list ordered from highest
/// priority down: after every entry of priority `p` or more.
pub open spec fn priority_slot(sorted: Seq<SuggestionView>, p: u32) -> int
    decreases sorted.len(),
{
    if sorted.len() == 0 || sorted[0].priority < p { 0 } else { 1 + priority_slot(sorted.drop_first(), p) }
}

/// The suggestions ordered from highest priority down, those of equal
/// priority in the order they came: the stable sort that `sort_by` does.
pub open spec fn by_priority(s: Seq<SuggestionView>) -> Seq<SuggestionView>
    decreases s.len(),
{
    if s.len() == 0 {
        Seq::empty()
    } else {
        let r = by_priority(s.drop_last());
        r.insert(priority_slot(r, s.last().priority), s.last())
    }
}

/// A map from each entry of the list to how often it occurs.
pub open spec fn counts_of(keys: Seq<Seq<char>>) -> Map<Seq<char>, usize> {
    Map::new(|k: Seq<char>| keys.contains(k), |k: Seq<char>| occurrences(keys, k) as usize)
}

/// A day, the span a report covers unless told otherwise.
pub open spec fn report_range(time_range: Option<i64>) -> i64 {
    match time_range {
        Some(d) => d,
        None => 86_400_000,
    }
}

/// A summary of the errors of a stretch of time.
#[derive(Debug, Clone)]
pub struct ErrorReport {
    /// The length of the stretch, in milliseconds.
    pub time_range: i64,
    pub total_errors: usize,
    pub errors_by_category: StrMap<usize>,
    pub errors_by_severity: StrMap<usize>,
    /// The most frequent error texts with how often each occurred.
    pub most_common_errors: Vec<(String, usize)>,
    /// The suggestions of highest priority.
    pub resolution_suggestions: Vec<ErrorSuggestion>,
}

/// Whether `r` reports on the stored diagnostics `ds` at time `now`: it
/// covers those made within the range before `now` (a day unless given),
/// counts them in all, by category and by severity, lists the ten most
/// frequent error texts, and the five suggestions of highest priority.
pub open spec fn report_matches(ds: Seq<DiagnosticView>, now: i64, time_range: Option<i64>, r: ErrorReport) -> bool {
    let rel = made_after(ds, now - report_range(time_range));
    let texts = rel.map_values(|d: DiagnosticView| d.error);
    let sorted = by_priority(all_suggestions(rel));
    &&& r.time_range == report_range(time_range)
    &&& r.total_errors == rel.len()
    &&& r.errors_by_category.wf()
    &&& r.errors_by_category@ == counts_of(rel.map_values(|d: DiagnosticView| d.category))
    &&& r.errors_by_severity.wf()
    &&& r.errors_by_severity@ == counts_of(rel.map_values(|d: DiagnosticView| severity_text(d.severity)))
    &&& most_frequent(texts, count_keys(r.most_common_errors@), 10)
    &&& forall|i: int| 0 <= i < r.most_common_errors@.len()
        ==> #[trigger] r.most_common_errors@[i].1 == occurrences(texts, r.most_common_errors@[i].0@)
    &&& suggestions_view(r.resolution_suggestions@) == sorted.take(if sorted.len() < 5 { sorted.len() as int } else { 5 })
}

/// Each distinct entry of the list with how often it occurs, as a map.
fn counts_map(all: &Vec<String>) -> (m: StrMap<usize>)
    ensures
        m.wf(),
        m@ == counts_of(strs_view(all@)),
{
    let ghost a = strs_view(all@);
    let pairs = count_each(all);
    proof {
        assert(a == all@.map_values(|x: String| x@));
    }
    let mut m: StrMap<usize> = StrMap::new();
    let n = pairs.len();
    let mut i: usize = 0;
    proof {
        assert(m@ =~= Map::new(|k: Seq<char>| count_keys(pairs@.take(0)).contains(k), |k: Seq<char>| occurrences(a, k) as usize));
    }
    while i < n
        invariant
            n == pairs@.len(),
            i <= n,
            a == all@.map_values(|x: String| x@),
            forall|t: int| 0 <= t < pairs@.len() ==> #[trigger] pairs@[t].1 == occurrences(a, pairs@[t].0@),
            m.wf(),
            m@ == Map::new(|k: Seq<char>| count_keys(pairs@.take(i as int)).contains(k), |k: Seq<char>| occurrences(a, k) as usize),
        decreases n - i,
    {
        let ghost before = m@;
        let key = pairs[i].0.clone();
        let cnt = pairs[i].1;
        proof {
            assert(pairs@[i as int].1 == occurrences(a, pairs@[i as int].0@));
            assert(key@ == pairs@[i as int].0@);
        }
        m.insert(key, cnt);
        proof {
            assert(m@ == before.insert(pairs@[i as int].0@, occurrences(a, pairs@[i as int].0@) as usize));
            broadcast use vstd::seq_lib::group_seq_properties;
            assert(count_keys(pairs@.take(i + 1)) =~= count_keys(pairs@.take(i as int)).push(pairs@[i as int].0@));
            assert(m@ =~= Map::new(|k: Seq<char>| count_keys(pairs@.take(i + 1)).contains(k), |k: Seq<char>| occurrences(a, k) as usize));
        }
        i = i + 1;
    }
    proof {
        assert(pairs@.take(n as int) =~= pairs@);
        assert forall|k: Seq<char>| count_keys(pairs@).contains(k) <==> a.contains(k) by {
            assert(count_keys(pairs@).to_set().contains(k) == a.to_set().contains(k));
        }
        assert(m@ =~= counts_of(a));
    }
    m
}

/// The suggestions ordered from highest priority down, ties in the order
/// they came.
fn sort_by_priority(v: Vec<ErrorSuggestion>) -> (r: Vec<ErrorSuggestion>)
    ensures
        suggestions_view(r@) == by_priority(suggestions_view(v@)),
{
    let ghost all = suggestions_view(v@);
    let total = v.len();
    let mut rest = v;
    let mut sorted: Vec<ErrorSuggestion> = Vec::new();
    let mut taken: usize = 0;
    proof {
        assert(all.take(0) =~= Seq::<SuggestionView>::empty());
        assert(suggestions_view(sorted@) =~= by_priority(all.take(0)));
        assert(suggestions_view(rest@) =~= all.skip(0));
    }
    while rest.len() > 0
        invariant
            total == all.len(),
            taken + rest@.len() == total,
            suggestions_view(rest@) == all.skip(taken as int),
            suggestions_view(sorted@) == by_priority(all.take(taken as int)),
        decreases rest@.len(),
    {
        let ghost rv = suggestions_view(rest@);
        let ghost raw = rest@;
        let x = rest.remove(0);
        let p = x.priority;
        let ghost sv = suggestions_view(sorted@);
        proof {
            assert(rv[0] == x@);
            assert(all[taken as int] == x@);
            assert(rest@ == raw.remove(0));
            assert(suggestions_view(rest@) =~= rv.drop_first());
            assert(rv.drop_first() =~= all.skip(taken + 1));
            assert(sv.skip(0) =~= sv);
        }
        let m = sorted.len();
        let mut i: usize = 0;
        while i < m && sorted[i].priority >= p
            invariant
                m == sorted@.len(),
                sv == suggestions_view(sorted@),
                i <= m,
                priority_slot(sv, p) == i + priority_slot(sv.skip(i as int), p),
            decreases m - i,
        {
            proof {
                assert(sv.skip(i as int)[0] == sv[i as int]);
                assert(sv.skip(i as int).drop_first() =~= sv.skip(i + 1));
            }
            i = i + 1;
        }
        proof {
            if i < m {
                assert(sv.skip(i as int)[0] == sv[i as int]);
            } else {
                assert(sv.skip(i as int).len() == 0);
            }
            assert(priority_slot(sv, p) == i);
        }
        sorted.insert(i, x);
        proof {
            assert(suggestions_view(sorted@) =~= sv.insert(i as int, x@));
            assert(all.take(taken + 1).drop_last() =~= all.take(taken as int));
            assert(all.take(taken + 1).last() == x@);
        }
        taken = taken + 1;
    }
    proof {
        assert(all.take(total as int) =~= all);
    }
    sorted
}

impl ErrorDiagnosticsManager {
    /// The report on the stored diagnostics at time `now` over the given
    /// range (a day unless given).
    pub fn report_at(&self, now: i64, time_range: Option<i64>) -> (r: ErrorReport)
        ensures
            report_matches(self.stored(), now, time_range, r),
    {
        let range: i64 = match time_range {
            Some(d) => d,
            None => 86_400_000,
        };
        let cutoff: i128 = (now as i128) - (range as i128);
        let ghost ds = self.stored();
        let n = self.diagnostics.len();
        let mut categories: Vec<String> = Vec::new();
        let mut severities: Vec<String> = Vec::new();
        let mut texts: Vec<String> = Vec::new();
        let mut suggestions: Vec<ErrorSuggestion> = Vec::new();
        let mut total: usize = 0;
        let ghost mut rel: Seq<DiagnosticView> = Seq::empty();
        let mut k: usize = 0;
        proof {
            assert(ds.take(0) =~= Seq::<DiagnosticView>::empty());
        }
        while k < n
            invariant
                n == self.diagnostics@.len(),
                ds == self.stored(),
                k <= n,
                rel == made_after(ds.take(k as int), cutoff as int),
                total == rel.len(),
                total <= k,
                strs_view(categories@) == rel.map_values(|d: DiagnosticView| d.category),
                strs_view(severities@) == rel.map_values(|d: DiagnosticView| severity_text(d.severity)),
                strs_view(texts@) == rel.map_values(|d: DiagnosticView| d.error),
                suggestions_view(suggestions@) == all_suggestions(rel),
            decreases n - k,
        {
            let d = &self.diagnostics[k];
            let ghost dv = d@;
            proof {
                assert(ds[k as int] == dv);
                assert(ds.take(k + 1).drop_last() =~= ds.take(k as int));
                assert(ds.take(k + 1).last() == dv);
            }
            if (d.timestamp as i128) > cutoff {
                let ghost c0 = strs_view(categories@);
                let ghost s0 = strs_view(severities@);
                let ghost t0 = strs_view(texts@);
                let ghost g0 = suggestions_view(suggestions@);
                categories.push(d.category.clone());
                severities.push(severity_name(d.severity));
                texts.push(d.error.clone());
                let mut copies = duplicate_suggestions(&d.suggestions);
                suggestions.append(&mut copies);
                total = total + 1;
                proof {
                    let old_rel = rel;
                    rel = rel.push(dv);
                    assert(strs_view(categories@) =~= c0.push(dv.category));
                    assert(rel.map_values(|e: DiagnosticView| e.category) =~= old_rel.map_values(|e: DiagnosticView| e.category).push(dv.category));
                    assert(strs_view(severities@) =~= s0.push(severity_text(dv.severity)));
                    assert(rel.map_values(|e: DiagnosticView| severity_text(e.severity))
                        =~= old_rel.map_values(|e: DiagnosticView| severity_text(e.severity)).push(severity_text(dv.severity)));
                    assert(strs_view(texts@) =~= t0.push(dv.error));
                    assert(rel.map_values(|e: DiagnosticView| e.error) =~= old_rel.map_values(|e: DiagnosticView| e.error).push(dv.error));
                    assert(suggestions_view(suggestions@) =~= g0 + dv.suggestions);
                    assert(rel.drop_last() =~= old_rel);
                }
            }
            k = k + 1;
        }
        proof {
            assert(ds.take(n as int) =~= ds);
        }
        let errors_by_category = counts_map(&categories);
        let errors_by_severity = counts_map(&severities);
        let most_common_errors = most_frequent_counts(&texts, 10);
        let mut resolution_suggestions = sort_by_priority(suggestions);
        let ghost sorted = suggestions_view(resolution_suggestions@);
        resolution_suggestions.truncate(5);
        proof {
            assert(suggestions_view(resolution_suggestions@)
                =~= sorted.take(if sorted.len() < 5 { sorted.len() as int } else { 5 }));
        }
        ErrorReport {
            time_range: range,
            total_errors: total,
            errors_by_category,
            errors_by_severity,
            most_common_errors,
            resolution_suggestions,
        }
    }

    /// The report on the stored diagnostics now, over the given range (a
    /// day unless given).
    pub fn generate_error_report(&self, time_range: Option<i64>) -> (r: ErrorReport)
        ensures
            exists|now: i64| report_matches(self.stored(), now, time_range, r),
    {
        let now = utc_now_millis();
        self.report_at(now, time_range)
    }
}

/// The manager keeps no more diagnostics than its maximum, and keeps the
/// newest one whenever it may keep any.
pub proof fn law_diagnostics_bounded(before: Seq<DiagnosticView>, d: DiagnosticView, max: usize)
    requires
        before.len() <= max,
    ensures
        keep_last(before.push(d), max).len() <= max,
        max > 0 ==> keep_last(before.push(d), max).last() == d,
{
}

/// A session's history holds no more errors than its maximum and ends
/// with the error added last, which is the current one.
pub proof fn law_session_history_bounded(s: SessionView, d: DiagnosticView)
    requires
        s.history.len() <= s.config.max_error_history,
    ensures
        session_after(s, d).history.len() <= s.config.max_error_history,
        s.config.max_error_history > 0 ==> session_after(s, d).history.last() == d,
        session_after(s, d).current == Some(d),
        session_after(s, d).active == d.suggestions,
{
}

/// The text of every error starts with a letter, so it has a word.
proof fn lemma_display_has_word(error: BingoError)
    ensures
        word_set(display_spec(error)).len() > 0,
{
    let msg = display_spec(error);
    assert(msg.len() > 0 && !is_white_space(msg[0]));
    lemma_has_word(msg);
}

/// An error made into a diagnostic again is found like the earlier one:
/// once the diagnostic of an error is kept, the next diagnostic for the
/// same error counts it among the like errors, and reports at least one.
pub proof fn law_repeated_error_is_similar(ds: Seq<DiagnosticView>, error: BingoError, id: u128, now: i64, max: usize)
    requires
        max > 0,
        2 * display_spec(error).len() <= usize::MAX,
    ensures
        ({
            let d = diagnostic_spec(ds, error, id, now);
            let kept = keep_last(ds.push(d), max);
            &&& similar_candidates(kept, category_spec(error), display_spec(error)).contains(d)
            &&& similar_spec(kept, category_spec(error), display_spec(error)).len() > 0
        }),
{
    let d = diagnostic_spec(ds, error, id, now);
    let kept = keep_last(ds.push(d), max);
    let cat = category_spec(error);
    let msg = display_spec(error);
    assert(kept.len() > 0 && kept.last() == d);
    lemma_display_has_word(error);
    law_similarity_bounded(msg, msg);
    assert(is_similar(d, cat, msg));
    let c = similar_candidates(kept, cat, msg);
    assert(c == similar_candidates(kept.drop_last(), cat, msg).push(d));
    assert(c[c.len() - 1] == d);
}

} // verus!
