//! Diagnostics for errors: suggested fixes and documentation links chosen
//! by the kind of error, and the records they are made of.
//!
//! Priorities and relevances are kept in hundredths (90 is 0.9).

pub mod manager;
pub mod similarity;

pub use manager::{
    DiagnosticsConfig, ErrorAnalytics, ErrorDiagnostic, ErrorDiagnosticsManager, ErrorPattern, ErrorReport, ErrorSource,
    ErrorToDiagnostic, ErrorTrendPoint, InteractiveDebugSession, ResultDiagnosticExt, SimilarError, SuggestionFeedback,
    SystemState,
};
pub use similarity::calculate_message_similarity;

use vstd::prelude::*;
use std::collections::HashMap;
use crate::error::BingoError;
use crate::text::{nat_decimal, u64_to_string};

verus! {

/// One step of a fix.
#[derive(Debug, Clone)]
pub struct FixStep {
    pub step_number: usize,
    pub description: String,
    pub command: Option<String>,
    pub expected_outcome: String,
}

/// A code example for a suggestion.
#[derive(Debug, Clone)]
pub struct CodeExample {
    pub language: String,
    pub code: String,
    pub explanation: String,
}

/// Where in the code an error arose.
#[derive(Debug, Clone)]
pub struct ErrorLocation {
    pub file: String,
    pub line: Option<u32>,
    pub column: Option<u32>,
    pub function: Option<String>,
    pub module: Option<String>,
}

/// What the user was doing when an error arose.
#[derive(Debug, Clone)]
pub struct UserContext {
    pub user_id: Option<String>,
    pub session_id: Option<String>,
    pub operation: Option<String>,
    pub parameters: HashMap<String, String>,
    pub client_info: Option<String>,
}

/// How much work a fix takes.
#[derive(Debug, Clone, Copy, PartialEq, Eq, Structural)]
pub enum EffortLevel {
    /// Under five minutes.
    Quick,
    /// Under half an hour.
    Low,
    /// Under two hours.
    Medium,
    /// Under a day.
    High,
    /// More than a day.
    Major,
}

/// How risky a fix is.
#[derive(Debug, Clone, Copy, PartialEq, Eq, Structural)]
pub enum RiskLevel {
    VeryLow,
    Low,
    Medium,
    High,
    Critical,
}

/// How much a debugging session reports.
#[derive(Debug, Clone, Copy, PartialEq, Eq, Structural)]
pub enum VerbosityLevel {
    Minimal,
    Basic,
    Detailed,
    Verbose,
}

/// Settings of a debugging session.
#[derive(Debug, Clone, Copy)]
pub struct DebugSessionConfig {
    pub max_error_history: usize,
    pub auto_suggestions: bool,
    pub include_system_state: bool,
    pub verbosity: VerbosityLevel,
}

impl Default for DebugSessionConfig {
    /// Fifty errors of history, suggestions and system state on, detailed.
    fn default() -> (c: DebugSessionConfig)
        ensures
            c.max_error_history == 50,
            c.auto_suggestions,
            c.include_system_state,
            c.verbosity == VerbosityLevel::Detailed,
    {
        DebugSessionConfig {
            max_error_history: 50,
            auto_suggestions: true,
            include_system_state: true,
            verbosity: VerbosityLevel::Detailed,
        }
    }
}

/// A suggested fix.
#[derive(Debug, Clone)]
pub struct ErrorSuggestion {
    pub id: String,
    /// In hundredths: 90 is a priority of 0.9.
    pub priority: u32,
    pub title: String,
    pub description: String,
    pub steps: Vec<FixStep>,
    pub code_examples: Vec<CodeExample>,
    pub effort: EffortLevel,
    pub risk: RiskLevel,
}

/// A link to documentation.
#[derive(Debug, Clone)]
pub struct DocumentationLink {
    pub title: String,
    pub url: String,
    pub description: String,
    /// In hundredths: 90 is a relevance of 0.9.
    pub relevance: u32,
}

/// Model of a fix step: number, description, command, expected outcome.
pub type StepView = (usize, Seq<char>, Option<Seq<char>>, Seq<char>);

/// Model of a code example: language, code, explanation.
pub type ExampleView = (Seq<char>, Seq<char>, Seq<char>);

/// Model of a suggestion.
pub struct SuggestionView {
    pub id: Seq<char>,
    pub priority: u32,
    pub title: Seq<char>,
    pub description: Seq<char>,
    pub steps: Seq<StepView>,
    pub code_examples: Seq<ExampleView>,
    pub effort: EffortLevel,
    pub risk: RiskLevel,
}

/// Model of a documentation link: title, url, description, relevance.
pub type LinkView = (Seq<char>, Seq<char>, Seq<char>, u32);

/// The model of an optional string.
pub open spec fn opt_text(s: Option<String>) -> Option<Seq<char>> {
    match s {
        Some(t) => Some(t@),
        None => None,
    }
}

impl View for FixStep {
    type V = StepView;

    open spec fn view(&self) -> StepView {
        (self.step_number, self.description@, opt_text(self.command), self.expected_outcome@)
    }
}

impl View for CodeExample {
    type V = ExampleView;

    open spec fn view(&self) -> ExampleView {
        (self.language@, self.code@, self.explanation@)
    }
}

impl View for ErrorSuggestion {
    type V = SuggestionView;

    open spec fn view(&self) -> SuggestionView {
        SuggestionView {
            id: self.id@,
            priority: self.priority,
            title: self.title@,
            description: self.description@,
            steps: self.steps@.map_values(|s: FixStep| s@),
            code_examples: self.code_examples@.map_values(|c: CodeExample| c@),
            effort: self.effort,
            risk: self.risk,
        }
    }
}

impl View for DocumentationLink {
    type V = LinkView;

    open spec fn view(&self) -> LinkView {
        (self.title@, self.url@, self.description@, self.relevance)
    }
}

/// A copy of an optional string.
fn copy_text(s: &Option<String>) -> (r: Option<String>)
    ensures
        opt_text(r) == opt_text(*s),
{
    match s {
        Some(t) => Some(t.clone()),
        None => None,
    }
}

impl FixStep {
    /// A copy with the same content.
    pub fn duplicate(&self) -> (r: FixStep)
        ensures
            r@ == self@,
    {
        FixStep {
            step_number: self.step_number,
            description: self.description.clone(),
            command: copy_text(&self.command),
            expected_outcome: self.expected_outcome.clone(),
        }
    }
}

impl CodeExample {
    /// A copy with the same content.
    pub fn duplicate(&self) -> (r: CodeExample)
        ensures
            r@ == self@,
    {
        CodeExample { language: self.language.clone(), code: self.code.clone(), explanation: self.explanation.clone() }
    }
}

impl DocumentationLink {
    /// A copy with the same content.
    pub fn duplicate(&self) -> (r: DocumentationLink)
        ensures
            r@ == self@,
    {
        DocumentationLink {
            title: self.title.clone(),
            url: self.url.clone(),
            description: self.description.clone(),
            relevance: self.relevance,
        }
    }
}

impl ErrorSuggestion {
    /// A copy with the same content.
    pub fn duplicate(&self) -> (r: ErrorSuggestion)
        ensures
            r@ == self@,
    {
        let n = self.steps.len();
        let mut steps: Vec<FixStep> = Vec::new();
        let mut i: usize = 0;
        while i < n
            invariant
                n == self.steps@.len(),
                i <= n,
                steps@.map_values(|s: FixStep| s@) == self.steps@.take(i as int).map_values(|s: FixStep| s@),
            decreases n - i,
        {
            let ghost before = steps@;
            steps.push(self.steps[i].duplicate());
            proof {
                assert(steps@.map_values(|s: FixStep| s@) =~= before.map_values(|s: FixStep| s@).push(self.steps@[i as int]@));
                assert(self.steps@.take(i + 1).map_values(|s: FixStep| s@)
                    =~= self.steps@.take(i as int).map_values(|s: FixStep| s@).push(self.steps@[i as int]@));
            }
            i = i + 1;
        }
        let m = self.code_examples.len();
        let mut examples: Vec<CodeExample> = Vec::new();
        let mut j: usize = 0;
        while j < m
            invariant
                m == self.code_examples@.len(),
                j <= m,
                examples@.map_values(|c: CodeExample| c@) == self.code_examples@.take(j as int).map_values(|c: CodeExample| c@),
            decreases m - j,
        {
            let ghost before = examples@;
            examples.push(self.code_examples[j].duplicate());
            proof {
                assert(examples@.map_values(|c: CodeExample| c@)
                    =~= before.map_values(|c: CodeExample| c@).push(self.code_examples@[j as int]@));
                assert(self.code_examples@.take(j + 1).map_values(|c: CodeExample| c@)
                    =~= self.code_examples@.take(j as int).map_values(|c: CodeExample| c@).push(self.code_examples@[j as int]@));
            }
            j = j + 1;
        }
        proof {
            assert(self.steps@.take(n as int) =~= self.steps@);
            assert(self.code_examples@.take(m as int) =~= self.code_examples@);
        }
        ErrorSuggestion {
            id: self.id.clone(),
            priority: self.priority,
            title: self.title.clone(),
            description: self.description.clone(),
            steps,
            code_examples: examples,
            effort: self.effort,
            risk: self.risk,
        }
    }
}

/// Models of a list of suggestions.
pub open spec fn suggestions_view(v: Seq<ErrorSuggestion>) -> Seq<SuggestionView> {
    v.map_values(|s: ErrorSuggestion| s@)
}

/// Models of a list of documentation links.
pub open spec fn links_view(v: Seq<DocumentationLink>) -> Seq<LinkView> {
    v.map_values(|l: DocumentationLink| l@)
}

/// A copy of a list of suggestions.
pub fn duplicate_suggestions(v: &Vec<ErrorSuggestion>) -> (r: Vec<ErrorSuggestion>)
    ensures
        suggestions_view(r@) == suggestions_view(v@),
{
    let n = v.len();
    let mut r: Vec<ErrorSuggestion> = Vec::new();
    let mut i: usize = 0;
    while i < n
        invariant
            n == v@.len(),
            i <= n,
            suggestions_view(r@) == suggestions_view(v@.take(i as int)),
        decreases n - i,
    {
        let ghost before = r@;
        r.push(v[i].duplicate());
        proof {
            assert(suggestions_view(r@) =~= suggestions_view(before).push(v@[i as int]@));
            assert(suggestions_view(v@.take(i + 1)) =~= suggestions_view(v@.take(i as int)).push(v@[i as int]@));
        }
        i = i + 1;
    }
    proof {
        assert(v@.take(n as int) =~= v@);
    }
    r
}

/// A copy of a list of documentation links.
pub fn duplicate_links(v: &Vec<DocumentationLink>) -> (r: Vec<DocumentationLink>)
    ensures
        links_view(r@) == links_view(v@),
{
    let n = v.len();
    let mut r: Vec<DocumentationLink> = Vec::new();
    let mut i: usize = 0;
    while i < n
        invariant
            n == v@.len(),
            i <= n,
            links_view(r@) == links_view(v@.take(i as int)),
        decreases n - i,
    {
        let ghost before = r@;
        r.push(v[i].duplicate());
        proof {
            assert(links_view(r@) =~= links_view(before).push(v@[i as int]@));
            assert(links_view(v@.take(i + 1)) =~= links_view(v@.take(i as int)).push(v@[i as int]@));
        }
        i = i + 1;
    }
    proof {
        assert(v@.take(n as int) =~= v@);
    }
    r
}

/// The text of an optional name, or `unknown`.
pub open spec fn or_unknown(s: Option<String>) -> Seq<char> {
    match s {
        Some(t) => t@,
        None => "unknown"@,
    }
}

/// The example of a well-formed rule.
pub open spec fn rule_example() -> Seq<char> {
    "{\n  \"id\": 1,\n  \"name\": \"example_rule\",\n  \"conditions\": [\n    {\"field\": \"amount\", \"operator\": \"greater_than\", \"value\": 1000}\n  ],\n  \"actions\": [\n    {\"type\": \"set_field\", \"field\": \"category\", \"value\": \"high_value\"}\n  ]\n}"@
}

/// The list of supported condition operators.
pub open spec fn operators_example() -> Seq<char> {
    "// Supported operators:\n\"equals\", \"not_equals\", \"greater_than\", \"less_than\", \n\"greater_than_or_equal\", \"less_than_or_equal\", \n\"contains\", \"starts_with\", \"ends_with\", \"regex\""@
}

/// Validating the rule's syntax.
pub open spec fn rule_validation_spec() -> SuggestionView {
    SuggestionView {
        id: "rule_validation"@,
        priority: 90,
        title: "Validate Rule Syntax"@,
        description: "Check rule syntax for common errors and validate against schema"@,
        steps: seq![
            (1usize, "Review rule syntax"@, None, "Identify syntax errors"@),
            (2usize, "Validate field names exist"@, None, "Confirm all referenced fields are valid"@),
        ],
        code_examples: seq![("json"@, rule_example(), "Example of correct rule syntax"@)],
        effort: EffortLevel::Quick,
        risk: RiskLevel::VeryLow,
    }
}

/// Debugging the named rule (id 0 when it has none).
pub open spec fn rule_debugger_spec(name: Seq<char>, rule_id: Option<u64>) -> SuggestionView {
    SuggestionView {
        id: "rule_debugger"@,
        priority: 80,
        title: "Use Rule Debugger"@,
        description: "Debug rule '"@ + name + "' step by step"@,
        steps: seq![(
            1usize,
            "Start debugging session"@,
            Some("debug_rule "@ + nat_decimal(match rule_id { Some(id) => id as nat, None => 0 })),
            "Interactive debugging session started"@,
        )],
        code_examples: Seq::empty(),
        effort: EffortLevel::Low,
        risk: RiskLevel::VeryLow,
    }
}

/// Fixing a condition on the given field and operator.
pub open spec fn condition_fix_spec(field: Seq<char>, operator: Seq<char>) -> SuggestionView {
    SuggestionView {
        id: "condition_fix"@,
        priority: 90,
        title: "Fix Condition Syntax"@,
        description: "Correct the rule condition syntax"@,
        steps: seq![
            (1usize, "Check field '"@ + field + "' exists"@, None, "Field validation passes"@),
            (2usize, "Verify operator '"@ + operator + "' is valid"@, None, "Operator is supported"@),
        ],
        code_examples: seq![("json"@, operators_example(), "List of supported condition operators"@)],
        effort: EffortLevel::Quick,
        risk: RiskLevel::VeryLow,
    }
}

/// Recovering the fact store.
pub open spec fn fact_store_recovery_spec() -> SuggestionView {
    SuggestionView {
        id: "fact_store_recovery"@,
        priority: 80,
        title: "Recover Fact Store"@,
        description: "Attempt to recover from fact store corruption"@,
        steps: seq![
            (1usize, "Check fact store integrity"@, Some("check_fact_store_integrity"@), "Integrity status reported"@),
            (2usize, "Backup current state"@, Some("backup_fact_store"@), "Backup created successfully"@),
            (3usize, "Attempt repair"@, Some("repair_fact_store"@), "Fact store repaired"@),
        ],
        code_examples: Seq::empty(),
        effort: EffortLevel::Medium,
        risk: RiskLevel::Medium,
    }
}

/// Optimizing an operation that took `duration` ms against a `limit`.
pub open spec fn performance_spec(operation: Seq<char>, duration: u64, limit: u64) -> SuggestionView {
    SuggestionView {
        id: "performance_optimization"@,
        priority: 70,
        title: "Optimize Performance"@,
        description: "Operation '"@ + operation + "' took "@ + nat_decimal(duration as nat)
            + "ms, exceeding limit of "@ + nat_decimal(limit as nat) + "ms"@,
        steps: seq![
            (1usize, "Profile the operation"@, Some("profile_operation"@), "Performance profile generated"@),
            (2usize, "Identify bottlenecks"@, None, "Bottlenecks identified"@),
            (3usize, "Apply optimizations"@, None, "Performance improved"@),
        ],
        code_examples: Seq::empty(),
        effort: EffortLevel::High,
        risk: RiskLevel::Medium,
    }
}

/// Enabling debug logging.
pub open spec fn generic_debug_spec() -> SuggestionView {
    SuggestionView {
        id: "generic_debug"@,
        priority: 50,
        title: "Enable Debug Logging"@,
        description: "Enable detailed logging to get more information"@,
        steps: seq![(1usize, "Set log level to debug"@, Some("set_log_level debug"@), "Debug logging enabled"@)],
        code_examples: Seq::empty(),
        effort: EffortLevel::Quick,
        risk: RiskLevel::VeryLow,
    }
}

/// The suggestions for an error: syntax validation (and, with a rule name,
/// the rule debugger) for rule errors; a condition fix naming the field and
/// operator for condition errors; recovery for fact store errors; profiling
/// for performance errors that carry both a duration and a limit; debug
/// logging for any other error.
pub open spec fn suggestions_spec(e: BingoError) -> Seq<SuggestionView> {
    match e {
        BingoError::Rule { rule_id, rule_name, .. } => match rule_name {
            Some(name) => seq![rule_validation_spec(), rule_debugger_spec(name@, rule_id)],
            None => seq![rule_validation_spec()],
        },
        BingoError::Condition { field, operator, .. } => seq![condition_fix_spec(or_unknown(field), or_unknown(operator))],
        BingoError::FactStore { .. } => seq![fact_store_recovery_spec()],
        BingoError::Performance { operation, duration_ms, limit_ms, .. } => match (duration_ms, limit_ms) {
            (Some(duration), Some(limit)) => seq![performance_spec(or_unknown(operation), duration, limit)],
            _ => Seq::empty(),
        },
        _ => seq![generic_debug_spec()],
    }
}

/// The documentation links for an error.
pub open spec fn documentation_spec(e: BingoError) -> Seq<LinkView> {
    match e {
        BingoError::Rule { .. } => seq![
            ("Rule Definition Guide"@, "https://docs.bingo-engine.com/rules/definition"@, "Complete guide to defining rules"@, 90u32),
            ("Rule Troubleshooting"@, "https://docs.bingo-engine.com/troubleshooting/rules"@, "Common rule issues and solutions"@, 80u32),
        ],
        BingoError::Condition { .. } => seq![
            ("Condition Syntax Reference"@, "https://docs.bingo-engine.com/conditions/syntax"@, "Complete reference for condition syntax"@, 90u32),
        ],
        BingoError::Performance { .. } => seq![
            ("Performance Optimization Guide"@, "https://docs.bingo-engine.com/performance/optimization"@, "Guide to optimizing rule engine performance"@, 90u32),
        ],
        _ => seq![
            ("General Troubleshooting"@, "https://docs.bingo-engine.com/troubleshooting/general"@, "General troubleshooting guide"@, 60u32),
        ],
    }
}

fn text(s: &str) -> (r: String)
    ensures
        r@ == s@,
{
    String::from_str(s)
}

fn step(step_number: usize, description: String, command: Option<String>, expected_outcome: &str) -> (s: FixStep)
    ensures
        s@ == (step_number, description@, opt_text(command), expected_outcome@),
{
    FixStep { step_number, description, command, expected_outcome: text(expected_outcome) }
}

fn example(code: String, explanation: &str) -> (c: CodeExample)
    ensures
        c@ == ("json"@, code@, explanation@),
{
    CodeExample { language: text("json"), code, explanation: text(explanation) }
}

fn name_or_unknown(s: &Option<String>) -> (r: String)
    ensures
        r@ == or_unknown(*s),
{
    match s {
        Some(t) => t.clone(),
        None => text("unknown"),
    }
}

fn link(title: &str, url: &str, description: &str, relevance: u32) -> (l: DocumentationLink)
    ensures
        l@ == (title@, url@, description@, relevance),
{
    DocumentationLink { title: text(title), url: text(url), description: text(description), relevance }
}

fn suggestion(
    id: &str,
    priority: u32,
    title: &str,
    description: String,
    steps: Vec<FixStep>,
    code_examples: Vec<CodeExample>,
    effort: EffortLevel,
    risk: RiskLevel,
) -> (s: ErrorSuggestion)
    ensures
        s@ == (SuggestionView {
            id: id@,
            priority,
            title: title@,
            description: description@,
            steps: steps@.map_values(|x: FixStep| x@),
            code_examples: code_examples@.map_values(|x: CodeExample| x@),
            effort,
            risk,
        }),
{
    ErrorSuggestion { id: text(id), priority, title: text(title), description, steps, code_examples, effort, risk }
}

/// The suggested fixes for an error.
pub fn generate_suggestions(error: &BingoError) -> (r: Vec<ErrorSuggestion>)
    ensures
        r@.map_values(|s: ErrorSuggestion| s@) == suggestions_spec(*error),
{
    let mut suggestions: Vec<ErrorSuggestion> = Vec::new();
    match error {
        BingoError::Rule { rule_id, rule_name, .. } => {
            let steps = vec![
                step(1, text("Review rule syntax"), None, "Identify syntax errors"),
                step(2, text("Validate field names exist"), None, "Confirm all referenced fields are valid"),
            ];
            let examples = vec![example(
                text("{\n  \"id\": 1,\n  \"name\": \"example_rule\",\n  \"conditions\": [\n    {\"field\": \"amount\", \"operator\": \"greater_than\", \"value\": 1000}\n  ],\n  \"actions\": [\n    {\"type\": \"set_field\", \"field\": \"category\", \"value\": \"high_value\"}\n  ]\n}"),
                "Example of correct rule syntax",
            )];
            suggestions.push(suggestion(
                "rule_validation",
                90,
                "Validate Rule Syntax",
                text("Check rule syntax for common errors and validate against schema"),
                steps,
                examples,
                EffortLevel::Quick,
                RiskLevel::VeryLow,
            ));
            proof {
                let v = suggestions@[0]@;
                assert(v.steps =~= rule_validation_spec().steps);
                assert(v.code_examples =~= rule_validation_spec().code_examples);
                assert(v == rule_validation_spec());
            }
            match rule_name {
                Some(name) => {
                    let mut description = text("Debug rule '");
                    description.append(name.as_str());
                    description.append("' step by step");
                    let id: u64 = match rule_id {
                        Some(id) => *id,
                        None => 0,
                    };
                    let mut command = text("debug_rule ");
                    let digits = u64_to_string(id);
                    command.append(digits.as_str());
                    let steps = vec![step(1, text("Start debugging session"), Some(command), "Interactive debugging session started")];
                    suggestions.push(suggestion(
                        "rule_debugger",
                        80,
                        "Use Rule Debugger",
                        description,
                        steps,
                        Vec::new(),
                        EffortLevel::Low,
                        RiskLevel::VeryLow,
                    ));
                    proof {
                        let v = suggestions@[1]@;
                        let w = rule_debugger_spec(name@, *rule_id);
                        assert(v.description =~= w.description);
                        assert(v.steps =~= w.steps);
                        assert(v.code_examples =~= w.code_examples);
                        assert(v == w);
                    }
                },
                None => {},
            }
        },
        BingoError::Condition { field, operator, .. } => {
            let mut first = text("Check field '");
            first.append(name_or_unknown(field).as_str());
            first.append("' exists");
            let mut second = text("Verify operator '");
            second.append(name_or_unknown(operator).as_str());
            second.append("' is valid");
            let steps = vec![
                step(1, first, None, "Field validation passes"),
                step(2, second, None, "Operator is supported"),
            ];
            let examples = vec![example(
                text("// Supported operators:\n\"equals\", \"not_equals\", \"greater_than\", \"less_than\", \n\"greater_than_or_equal\", \"less_than_or_equal\", \n\"contains\", \"starts_with\", \"ends_with\", \"regex\""),
                "List of supported condition operators",
            )];
            suggestions.push(suggestion(
                "condition_fix",
                90,
                "Fix Condition Syntax",
                text("Correct the rule condition syntax"),
                steps,
                examples,
                EffortLevel::Quick,
                RiskLevel::VeryLow,
            ));
            proof {
                let v = suggestions@[0]@;
                let w = condition_fix_spec(or_unknown(*field), or_unknown(*operator));
                assert(v.steps[0].1 =~= w.steps[0].1);
                assert(v.steps[1].1 =~= w.steps[1].1);
                assert(v.steps =~= w.steps);
                assert(v.code_examples =~= w.code_examples);
                assert(v == w);
            }
        },
        BingoError::FactStore { .. } => {
            let steps = vec![
                step(1, text("Check fact store integrity"), Some(text("check_fact_store_integrity")), "Integrity status reported"),
                step(2, text("Backup current state"), Some(text("backup_fact_store")), "Backup created successfully"),
                step(3, text("Attempt repair"), Some(text("repair_fact_store")), "Fact store repaired"),
            ];
            suggestions.push(suggestion(
                "fact_store_recovery",
                80,
                "Recover Fact Store",
                text("Attempt to recover from fact store corruption"),
                steps,
                Vec::new(),
                EffortLevel::Medium,
                RiskLevel::Medium,
            ));
            proof {
                let v = suggestions@[0]@;
                assert(v.steps =~= fact_store_recovery_spec().steps);
                assert(v.code_examples =~= fact_store_recovery_spec().code_examples);
                assert(v == fact_store_recovery_spec());
            }
        },
        BingoError::Performance { operation, duration_ms, limit_ms, .. } => {
            match (duration_ms, limit_ms) {
                (Some(duration), Some(limit)) => {
                    let mut description = text("Operation '");
                    description.append(name_or_unknown(operation).as_str());
                    description.append("' took ");
                    description.append(u64_to_string(*duration).as_str());
                    description.append("ms, exceeding limit of ");
                    description.append(u64_to_string(*limit).as_str());
                    description.append("ms");
                    let steps = vec![
                        step(1, text("Profile the operation"), Some(text("profile_operation")), "Performance profile generated"),
                        step(2, text("Identify bottlenecks"), None, "Bottlenecks identified"),
                        step(3, text("Apply optimizations"), None, "Performance improved"),
                    ];
                    suggestions.push(suggestion(
                        "performance_optimization",
                        70,
                        "Optimize Performance",
                        description,
                        steps,
                        Vec::new(),
                        EffortLevel::High,
                        RiskLevel::Medium,
                    ));
                    proof {
                        let v = suggestions@[0]@;
                        let w = performance_spec(or_unknown(*operation), *duration, *limit);
                        assert(v.description =~= w.description);
                        assert(v.steps =~= w.steps);
                        assert(v.code_examples =~= w.code_examples);
                        assert(v == w);
                    }
                },
                _ => {},
            }
        },
        _ => {
            let steps = vec![step(1, text("Set log level to debug"), Some(text("set_log_level debug")), "Debug logging enabled")];
            suggestions.push(suggestion(
                "generic_debug",
                50,
                "Enable Debug Logging",
                text("Enable detailed logging to get more information"),
                steps,
                Vec::new(),
                EffortLevel::Quick,
                RiskLevel::VeryLow,
            ));
            proof {
                let v = suggestions@[0]@;
                assert(v.steps =~= generic_debug_spec().steps);
                assert(v.code_examples =~= generic_debug_spec().code_examples);
                assert(v == generic_debug_spec());
            }
        },
    }
    proof {
        assert(suggestions@.map_values(|s: ErrorSuggestion| s@) =~= suggestions_spec(*error));
    }
    suggestions
}

/// The documentation links for an error.
pub fn generate_documentation_links(error: &BingoError) -> (r: Vec<DocumentationLink>)
    ensures
        r@.map_values(|l: DocumentationLink| l@) == documentation_spec(*error),
{
    let mut links: Vec<DocumentationLink> = Vec::new();
    match error {
        BingoError::Rule { .. } => {
            links.push(link("Rule Definition Guide", "https://docs.bingo-engine.com/rules/definition", "Complete guide to defining rules", 90));
            links.push(link("Rule Troubleshooting", "https://docs.bingo-engine.com/troubleshooting/rules", "Common rule issues and solutions", 80));
        },
        BingoError::Condition { .. } => {
            links.push(link("Condition Syntax Reference", "https://docs.bingo-engine.com/conditions/syntax", "Complete reference for condition syntax", 90));
        },
        BingoError::Performance { .. } => {
            links.push(link("Performance Optimization Guide", "https://docs.bingo-engine.com/performance/optimization", "Guide to optimizing rule engine performance", 90));
        },
        _ => {
            links.push(link("General Troubleshooting", "https://docs.bingo-engine.com/troubleshooting/general", "General troubleshooting guide", 60));
        },
    }
    proof {
        assert(links@.map_values(|l: DocumentationLink| l@) =~= documentation_spec(*error));
    }
    links
}

} // verus!
