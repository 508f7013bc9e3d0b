//! Checks of error handling: scenarios that pair an error with the
//! properties it should have, a grader of error messages, a validator of
//! suggested fixes, and the scoring of each scenario.
//!
//! Scores, weights and thresholds are kept in hundredths (70 is 0.7).

use vstd::prelude::*;
use crate::error::{BingoError, BingoResult, ErrorSeverity, category_spec, display_spec, severity_spec};
use crate::error_diagnostics::{
    ErrorSuggestion, SuggestionView, documentation_spec, links_view, suggestions_spec, suggestions_view,
};
use crate::error_diagnostics::manager::{DiagnosticsConfig, ErrorDiagnostic, ErrorDiagnosticsManager, keep_last, diagnostic_spec, trend_step, count_one};
use crate::assoc::StrMap;
use crate::text::{contains_text, has_substring, hundredths_decimal, hundredths_to_string, nat_decimal, str_eq, u64_to_string};
use crate::types::Ratio;
use crate::tally::{count_keys, most_frequent, most_frequent_counts};

verus! {

/// What a scenario exercises.
#[derive(Debug, Clone, Copy, PartialEq, Eq, Structural)]
pub enum ErrorTestType {
    Basic,
    Diagnostics,
    Suggestions,
    MessageClarity,
    ContextExtraction,
    SimilarErrorDetection,
}

/// Which checks run, and the priority from which a suggestion counts as
/// high.
#[derive(Debug, Clone)]
pub struct ErrorTestConfig {
    pub test_message_quality: bool,
    pub test_suggestions: bool,
    pub test_documentation: bool,
    pub test_categorization: bool,
    pub test_severity: bool,
    /// In hundredths.
    pub min_suggestion_priority: u32,
}

impl Default for ErrorTestConfig {
    /// Every check on, high priority from 0.5.
    fn default() -> (c: ErrorTestConfig)
        ensures
            c.test_message_quality && c.test_suggestions && c.test_documentation,
            c.test_categorization && c.test_severity,
            c.min_suggestion_priority == 50,
    {
        ErrorTestConfig {
            test_message_quality: true,
            test_suggestions: true,
            test_documentation: true,
            test_categorization: true,
            test_severity: true,
            min_suggestion_priority: 50,
        }
    }
}

/// What an error is expected to be like.
#[derive(Debug, Clone)]
pub struct ExpectedErrorProperties {
    pub category: String,
    pub severity: ErrorSeverity,
    /// In hundredths.
    pub min_message_quality: u32,
    pub min_suggestions: usize,
    pub is_recoverable: bool,
    pub min_documentation_links: usize,
}

/// An error and what it is expected to be like.
#[derive(Debug, Clone)]
pub struct ErrorTestScenario {
    pub id: String,
    pub description: String,
    pub error: BingoError,
    pub expected: ExpectedErrorProperties,
    pub test_type: ErrorTestType,
}

/// The outcome of one scenario.
#[derive(Debug, Clone)]
pub struct ErrorTestResult {
    pub scenario_id: String,
    pub passed: bool,
    /// The mean of the check scores, as a fraction of one.
    pub score: Ratio,
    /// Each check's score in hundredths, by name.
    pub details: Vec<(String, u32)>,
    pub issues: Vec<String>,
    pub improvements: Vec<String>,
}

/// The outcome of validating one suggestion.
#[derive(Debug, Clone)]
pub struct ValidationResult {
    pub passed: bool,
    /// In hundredths, rounded down.
    pub score: u32,
    pub issues: Vec<String>,
}

/// The criteria an error message is graded on.
#[derive(Debug, Clone, Copy, PartialEq, Eq, Structural)]
pub enum QualityCriterion {
    /// Names specifics (a field, a value, a rule) without jargon.
    Clarity,
    /// Says what to do.
    Actionability,
    /// Says where or when.
    Context,
    /// Helps rather than blames.
    Tone,
}

/// A criterion with its name and weight (in hundredths).
#[derive(Debug, Clone)]
pub struct MessageQualityCriterion {
    pub name: String,
    pub weight: u32,
    pub criterion: QualityCriterion,
}

/// Whether the message contains the text.
pub open spec fn mentions(m: Seq<char>, t: &str) -> bool {
    has_substring(m, t@)
}

/// A criterion's grade of a message, in hundredths.
pub open spec fn criterion_score(c: QualityCriterion, m: Seq<char>) -> u32 {
    match c {
        QualityCriterion::Clarity => {
            let specific = mentions(m, "field") || mentions(m, "value") || mentions(m, "rule");
            let plain = !mentions(m, "null pointer") && !mentions(m, "segfault");
            if specific && plain { 100 } else if specific || plain { 50 } else { 0 }
        },
        QualityCriterion::Actionability => if mentions(m, "check") || mentions(m, "ensure") || mentions(m, "verify")
            || mentions(m, "correct") || mentions(m, "fix") || mentions(m, "update") { 100 } else { 0 },
        QualityCriterion::Context => if mentions(m, "in") || mentions(m, "when") || mentions(m, "for") || mentions(m, "during") {
            100
        } else {
            50
        },
        QualityCriterion::Tone => {
            let helpful = !mentions(m, "invalid") || mentions(m, "please");
            let non_blaming = !mentions(m, "you") || !mentions(m, "your mistake");
            if helpful && non_blaming { 100 } else if helpful || non_blaming { 70 } else { 30 }
        },
    }
}

/// The grade of a message, in hundredths: the weighted mean of clarity
/// (0.3), actionability (0.3), context (0.2) and tone (0.2).
pub open spec fn message_quality(m: Seq<char>) -> u32 {
    ((criterion_score(QualityCriterion::Clarity, m) * 30 + criterion_score(QualityCriterion::Actionability, m) * 30
        + criterion_score(QualityCriterion::Context, m) * 20 + criterion_score(QualityCriterion::Tone, m) * 20) / 100) as u32
}

fn grade(c: QualityCriterion, m: &str) -> (s: u32)
    ensures
        s == criterion_score(c, m@),
{
    match c {
        QualityCriterion::Clarity => {
            let specific = contains_text(m, "field") || contains_text(m, "value") || contains_text(m, "rule");
            let plain = !contains_text(m, "null pointer") && !contains_text(m, "segfault");
            if specific && plain { 100 } else if specific || plain { 50 } else { 0 }
        },
        QualityCriterion::Actionability => {
            if contains_text(m, "check") || contains_text(m, "ensure") || contains_text(m, "verify")
                || contains_text(m, "correct") || contains_text(m, "fix") || contains_text(m, "update") {
                100
            } else {
                0
            }
        },
        QualityCriterion::Context => {
            if contains_text(m, "in") || contains_text(m, "when") || contains_text(m, "for") || contains_text(m, "during") {
                100
            } else {
                50
            }
        },
        QualityCriterion::Tone => {
            let helpful = !contains_text(m, "invalid") || contains_text(m, "please");
            let non_blaming = !contains_text(m, "you") || !contains_text(m, "your mistake");
            if helpful && non_blaming { 100 } else if helpful || non_blaming { 70 } else { 30 }
        },
    }
}

/// Grades error messages.
#[derive(Debug)]
pub struct ErrorMessageAnalyzer {
    criteria: Vec<MessageQualityCriterion>,
}

impl ErrorMessageAnalyzer {
    /// The analyzer holds the four default criteria.
    pub closed spec fn wf(&self) -> bool {
        &&& self.criteria@.len() == 4
        &&& self.criteria@[0].criterion == QualityCriterion::Clarity && self.criteria@[0].weight == 30
        &&& self.criteria@[1].criterion == QualityCriterion::Actionability && self.criteria@[1].weight == 30
        &&& self.criteria@[2].criterion == QualityCriterion::Context && self.criteria@[2].weight == 20
        &&& self.criteria@[3].criterion == QualityCriterion::Tone && self.criteria@[3].weight == 20
    }

    /// The criteria: each name, weight and kind, in order.
    pub closed spec fn criteria_view(&self) -> Seq<(Seq<char>, u32, QualityCriterion)> {
        self.criteria@.map_values(|c: MessageQualityCriterion| (c.name@, c.weight, c.criterion))
    }

    /// An analyzer with the default criteria: clarity and actionability
    /// weighing 30 each, context and tone 20 each.
    pub fn new() -> (a: ErrorMessageAnalyzer)
        ensures
            a.wf(),
            a.criteria_view() == seq![
                ("clarity"@, 30u32, QualityCriterion::Clarity),
                ("actionability"@, 30u32, QualityCriterion::Actionability),
                ("context"@, 20u32, QualityCriterion::Context),
                ("tone"@, 20u32, QualityCriterion::Tone),
            ],
    {
        let mut a = ErrorMessageAnalyzer { criteria: Vec::new() };
        a.add_default_criteria();
        a
    }

    fn add_default_criteria(&mut self)
        requires
            old(self).criteria@.len() == 0,
        ensures
            final(self).wf(),
            final(self).criteria_view() == seq![
                ("clarity"@, 30u32, QualityCriterion::Clarity),
                ("actionability"@, 30u32, QualityCriterion::Actionability),
                ("context"@, 20u32, QualityCriterion::Context),
                ("tone"@, 20u32, QualityCriterion::Tone),
            ],
    {
        self.criteria.push(MessageQualityCriterion {
            name: String::from_str("clarity"),
            weight: 30,
            criterion: QualityCriterion::Clarity,
        });
        self.criteria.push(MessageQualityCriterion {
            name: String::from_str("actionability"),
            weight: 30,
            criterion: QualityCriterion::Actionability,
        });
        self.criteria.push(MessageQualityCriterion {
            name: String::from_str("context"),
            weight: 20,
            criterion: QualityCriterion::Context,
        });
        self.criteria.push(MessageQualityCriterion {
            name: String::from_str("tone"),
            weight: 20,
            criterion: QualityCriterion::Tone,
        });
        assert(self.criteria_view() =~= seq![
            ("clarity"@, 30u32, QualityCriterion::Clarity),
            ("actionability"@, 30u32, QualityCriterion::Actionability),
            ("context"@, 20u32, QualityCriterion::Context),
            ("tone"@, 20u32, QualityCriterion::Tone),
        ]);
    }

    /// The weighted mean grade of a message, in hundredths.
    pub fn analyze_message(&self, message: &str) -> (score: u32)
        requires
            self.wf(),
        ensures
            score == message_quality(message@),
    {
        let mut total: u32 = 0;
        let mut weights: u32 = 0;
        let mut i: usize = 0;
        while i < self.criteria.len()
            invariant
                self.wf(),
                i <= 4,
                weights == (if i >= 1 { 30u32 } else { 0 }) + (if i >= 2 { 30u32 } else { 0 }) + (if i >= 3 { 20u32 } else { 0 })
                    + (if i >= 4 { 20u32 } else { 0 }),
                total == (if i >= 1 { criterion_score(QualityCriterion::Clarity, message@) * 30 } else { 0 })
                    + (if i >= 2 { criterion_score(QualityCriterion::Actionability, message@) * 30 } else { 0 })
                    + (if i >= 3 { criterion_score(QualityCriterion::Context, message@) * 20 } else { 0 })
                    + (if i >= 4 { criterion_score(QualityCriterion::Tone, message@) * 20 } else { 0 }),
                total <= 100 * weights,
            decreases 4 - i,
        {
            let c = &self.criteria[i];
            let s = grade(c.criterion, message);
            proof {
                assert(s <= 100);
            }
            total = total + s * c.weight;
            weights = weights + c.weight;
            i = i + 1;
        }
        total / weights
    }
}

impl Default for ErrorMessageAnalyzer {
    fn default() -> (a: ErrorMessageAnalyzer)
        ensures
            a.wf(),
    {
        ErrorMessageAnalyzer::new()
    }
}

/// The rules a suggestion is validated against.
#[derive(Debug, Clone, Copy, PartialEq, Eq, Structural)]
pub enum SuggestionRule {
    /// A title of 5 to 100 bytes.
    HasClearTitle,
    /// At least one step.
    HasActionableSteps,
    /// A priority of at most 1.0.
    ReasonablePriority,
}

/// A validation rule with its name.
#[derive(Debug, Clone)]
pub struct SuggestionValidationRule {
    pub name: String,
    pub rule: SuggestionRule,
}

/// Whether a suggestion passes a rule, and the issues it raises.
pub open spec fn rule_check(r: SuggestionRule, s: SuggestionView) -> (bool, Seq<Seq<char>>) {
    match r {
        SuggestionRule::HasClearTitle => {
            let len = vstd::utf8::encode_utf8(s.title).len();
            if len < 5 {
                (false, seq!["Suggestion title too short"@])
            } else if len > 100 {
                (false, seq!["Suggestion title too long"@])
            } else {
                (true, Seq::empty())
            }
        },
        SuggestionRule::HasActionableSteps => if s.steps.len() > 0 {
            (true, Seq::empty())
        } else {
            (false, seq!["Suggestion has no actionable steps"@])
        },
        SuggestionRule::ReasonablePriority => if s.priority <= 100 {
            (true, Seq::empty())
        } else {
            (false, seq!["Suggestion priority out of range [0.0, 1.0]"@])
        },
    }
}

/// The validation of a suggestion against the three default rules: passed
/// when all pass, scored as the share of rules passed (rounded down), with
/// the issues of each rule in order.
pub open spec fn validation_spec(s: SuggestionView) -> (bool, u32, Seq<Seq<char>>) {
    let a = rule_check(SuggestionRule::HasClearTitle, s);
    let b = rule_check(SuggestionRule::HasActionableSteps, s);
    let c = rule_check(SuggestionRule::ReasonablePriority, s);
    let passed_count = (if a.0 { 1nat } else { 0nat }) + (if b.0 { 1nat } else { 0nat }) + (if c.0 { 1nat } else { 0nat });
    (a.0 && b.0 && c.0, (passed_count * 100 / 3) as u32, a.1 + b.1 + c.1)
}

/// A suggestion passes validation exactly when no rule raises an issue;
/// that is, when its title is 5 to 100 bytes long, it has at least one step
/// and its priority is at most 1.0. A suggestion without steps never passes,
/// and its issues name the missing steps. The score is 100 exactly when the
/// suggestion passes.
pub proof fn law_validation_passes_iff_no_issues(s: SuggestionView)
    ensures
        validation_spec(s).0 <==> validation_spec(s).2.len() == 0,
        validation_spec(s).0 <==> (5 <= vstd::utf8::encode_utf8(s.title).len() <= 100 && s.steps.len() > 0
            && s.priority <= 100),
        s.steps.len() == 0 ==> !validation_spec(s).0 && validation_spec(s).2.contains(
            "Suggestion has no actionable steps"@,
        ),
        validation_spec(s).1 == 100 <==> validation_spec(s).0,
        validation_spec(s).1 <= 100,
{
    let a = rule_check(SuggestionRule::HasClearTitle, s);
    let b = rule_check(SuggestionRule::HasActionableSteps, s);
    let c = rule_check(SuggestionRule::ReasonablePriority, s);
    assert(a.0 <==> a.1.len() == 0);
    assert(b.0 <==> b.1.len() == 0);
    assert(c.0 <==> c.1.len() == 0);
    assert((a.1 + b.1 + c.1).len() == a.1.len() + b.1.len() + c.1.len());
    if s.steps.len() == 0 {
        assert((a.1 + b.1 + c.1)[a.1.len() as int] == "Suggestion has no actionable steps"@);
    }
}

fn check_rule(r: SuggestionRule, s: &ErrorSuggestion) -> (out: (bool, Vec<String>))
    ensures
        out.0 == rule_check(r, s@).0,
        out.1@.map_values(|t: String| t@) == rule_check(r, s@).1,
{
    let mut issues: Vec<String> = Vec::new();
    let passed = match r {
        SuggestionRule::HasClearTitle => {
            let len = s.title.as_str().as_bytes().len();
            if len < 5 {
                issues.push(String::from_str("Suggestion title too short"));
                false
            } else if len > 100 {
                issues.push(String::from_str("Suggestion title too long"));
                false
            } else {
                true
            }
        },
        SuggestionRule::HasActionableSteps => {
            if s.steps.len() > 0 {
                true
            } else {
                issues.push(String::from_str("Suggestion has no actionable steps"));
                false
            }
        },
        SuggestionRule::ReasonablePriority => {
            if s.priority <= 100 {
                true
            } else {
                issues.push(String::from_str("Suggestion priority out of range [0.0, 1.0]"));
                false
            }
        },
    };
    proof {
        assert(issues@.map_values(|t: String| t@) =~= rule_check(r, s@).1);
    }
    (passed, issues)
}

/// Validates suggested fixes.
#[derive(Debug)]
pub struct ErrorSuggestionValidator {
    rules: Vec<SuggestionValidationRule>,
}

impl ErrorSuggestionValidator {
    /// The validator holds the three default rules.
    pub closed spec fn wf(&self) -> bool {
        &&& self.rules@.len() == 3
        &&& self.rules@[0].rule == SuggestionRule::HasClearTitle
        &&& self.rules@[1].rule == SuggestionRule::HasActionableSteps
        &&& self.rules@[2].rule == SuggestionRule::ReasonablePriority
    }

    /// The rules: each name and kind, in order.
    pub closed spec fn rules_view(&self) -> Seq<(Seq<char>, SuggestionRule)> {
        self.rules@.map_values(|r: SuggestionValidationRule| (r.name@, r.rule))
    }

    /// A validator with the default rules: a clear title, actionable steps
    /// and a reasonable priority.
    pub fn new() -> (v: ErrorSuggestionValidator)
        ensures
            v.wf(),
            v.rules_view() == seq![
                ("has_clear_title"@, SuggestionRule::HasClearTitle),
                ("has_actionable_steps"@, SuggestionRule::HasActionableSteps),
                ("reasonable_priority"@, SuggestionRule::ReasonablePriority),
            ],
    {
        let mut v = ErrorSuggestionValidator { rules: Vec::new() };
        v.add_default_rules();
        v
    }

    fn add_default_rules(&mut self)
        requires
            old(self).rules@.len() == 0,
        ensures
            final(self).wf(),
            final(self).rules_view() == seq![
                ("has_clear_title"@, SuggestionRule::HasClearTitle),
                ("has_actionable_steps"@, SuggestionRule::HasActionableSteps),
                ("reasonable_priority"@, SuggestionRule::ReasonablePriority),
            ],
    {
        self.rules.push(SuggestionValidationRule {
            name: String::from_str("has_clear_title"),
            rule: SuggestionRule::HasClearTitle,
        });
        self.rules.push(SuggestionValidationRule {
            name: String::from_str("has_actionable_steps"),
            rule: SuggestionRule::HasActionableSteps,
        });
        self.rules.push(SuggestionValidationRule {
            name: String::from_str("reasonable_priority"),
            rule: SuggestionRule::ReasonablePriority,
        });
        assert(self.rules_view() =~= seq![
            ("has_clear_title"@, SuggestionRule::HasClearTitle),
            ("has_actionable_steps"@, SuggestionRule::HasActionableSteps),
            ("reasonable_priority"@, SuggestionRule::ReasonablePriority),
        ]);
    }

    /// Validates a suggestion against every rule.
    pub fn validate_suggestion(&self, suggestion: &ErrorSuggestion) -> (r: ValidationResult)
        requires
            self.wf(),
        ensures
            r.passed == validation_spec(suggestion@).0,
            r.score == validation_spec(suggestion@).1,
            r.issues@.map_values(|t: String| t@) == validation_spec(suggestion@).2,
            r.passed == (r.issues@.len() == 0),
            suggestion@.steps.len() == 0 ==> !r.passed,
    {
        proof {
            law_validation_passes_iff_no_issues(suggestion@);
        }
        let (pa, ia) = check_rule(self.rules[0].rule, suggestion);
        let (pb, ib) = check_rule(self.rules[1].rule, suggestion);
        let (pc, ic) = check_rule(self.rules[2].rule, suggestion);
        let passed_count: u32 = (if pa { 1u32 } else { 0 }) + (if pb { 1u32 } else { 0 }) + (if pc { 1u32 } else { 0 });
        let mut issues = ia;
        let mut more = ib;
        issues.append(&mut more);
        let mut rest = ic;
        issues.append(&mut rest);
        proof {
            assert(issues@.map_values(|t: String| t@) =~= validation_spec(suggestion@).2);
        }
        ValidationResult { passed: pa && pb && pc, score: passed_count * 100 / 3, issues }
    }
}

impl Default for ErrorSuggestionValidator {
    fn default() -> (v: ErrorSuggestionValidator)
        ensures
            v.wf(),
    {
        ErrorSuggestionValidator::new()
    }
}

/// The name `{:?}` prints for a severity.
pub open spec fn severity_name(s: ErrorSeverity) -> Seq<char> {
    match s {
        ErrorSeverity::Low => "Low"@,
        ErrorSeverity::Medium => "Medium"@,
        ErrorSeverity::High => "High"@,
        ErrorSeverity::Critical => "Critical"@,
    }
}

fn severity_name_str(s: ErrorSeverity) -> (r: &'static str)
    ensures
        r@ == severity_name(s),
{
    match s {
        ErrorSeverity::Low => "Low",
        ErrorSeverity::Medium => "Medium",
        ErrorSeverity::High => "High",
        ErrorSeverity::Critical => "Critical",
    }
}

/// How many suggestions have at least the given priority.
pub open spec fn high_priority_count(s: Seq<SuggestionView>, min: u32) -> nat
    decreases s.len(),
{
    if s.len() == 0 {
        0
    } else {
        high_priority_count(s.drop_last(), min) + if s.last().priority >= min { 1nat } else { 0nat }
    }
}

/// The issues validation raises over a list of suggestions, in order.
pub open spec fn validation_issues(s: Seq<SuggestionView>) -> Seq<Seq<char>>
    decreases s.len(),
{
    if s.len() == 0 {
        Seq::empty()
    } else {
        validation_issues(s.drop_last()) + if validation_spec(s.last()).0 {
            Seq::empty()
        } else {
            validation_spec(s.last()).2
        }
    }
}

/// The scoring of a scenario: each enabled check gives a score in
/// hundredths and may raise issues.
pub struct ScenarioOutcome {
    pub scores: Seq<u32>,
    pub names: Seq<Seq<char>>,
    pub issues: Seq<Seq<char>>,
    pub improvements: Seq<Seq<char>>,
}

/// The outcome after the categorization check.
pub open spec fn after_category(o: ScenarioOutcome, e: BingoError, expected: Seq<char>) -> ScenarioOutcome {
    if category_spec(e) == expected {
        ScenarioOutcome { scores: o.scores.push(100), names: o.names.push("category_score"@), ..o }
    } else {
        ScenarioOutcome {
            scores: o.scores.push(0),
            names: o.names.push("category_score"@),
            issues: o.issues.push("Expected category '"@ + expected + "', got '"@ + category_spec(e) + "'"@),
            ..o
        }
    }
}

/// The outcome after the severity check.
pub open spec fn after_severity(o: ScenarioOutcome, e: BingoError, expected: ErrorSeverity) -> ScenarioOutcome {
    if severity_spec(e) == expected {
        ScenarioOutcome { scores: o.scores.push(100), names: o.names.push("severity_score"@), ..o }
    } else {
        ScenarioOutcome {
            scores: o.scores.push(0),
            names: o.names.push("severity_score"@),
            issues: o.issues.push("Expected severity '"@ + severity_name(expected) + "', got '"@
                + severity_name(severity_spec(e)) + "'"@),
            ..o
        }
    }
}

/// The outcome after grading the message.
pub open spec fn after_message(o: ScenarioOutcome, e: BingoError, min_quality: u32) -> ScenarioOutcome {
    let q = message_quality(display_spec(e));
    let o = ScenarioOutcome { scores: o.scores.push(q), names: o.names.push("message_quality_score"@), ..o };
    if q < min_quality {
        ScenarioOutcome {
            issues: o.issues.push("Message quality score "@ + hundredths_decimal(q as nat) + " below expected "@
                + hundredths_decimal(min_quality as nat)),
            improvements: o.improvements.push("Improve error message clarity and specificity"@),
            ..o
        }
    } else {
        o
    }
}

/// The outcome after checking the suggestions.
pub open spec fn after_suggestions(o: ScenarioOutcome, e: BingoError, min_count: usize, min_priority: u32) -> ScenarioOutcome {
    let s = suggestions_spec(e);
    let count_ok = s.len() >= min_count;
    let high_ok = high_priority_count(s, min_priority) > 0;
    let score = ((if count_ok { 50int } else { 0int }) + (if high_ok { 50int } else { 0int })) as u32;
    let i1: Seq<Seq<char>> = if count_ok {
        Seq::empty()
    } else {
        seq!["Expected at least "@ + nat_decimal(min_count as nat) + " suggestions, got "@ + nat_decimal(s.len())]
    };
    let i2: Seq<Seq<char>> = if high_ok { Seq::empty() } else { seq!["No high-priority suggestions found"@] };
    ScenarioOutcome {
        scores: o.scores.push(score),
        names: o.names.push("suggestions_score"@),
        issues: o.issues + i1 + i2 + validation_issues(s),
        ..o
    }
}

/// The outcome after checking the documentation links; short of the
/// expected number, the score is the share found, rounded down.
pub open spec fn after_documentation(o: ScenarioOutcome, e: BingoError, min_links: usize) -> ScenarioOutcome {
    let n = documentation_spec(e).len();
    if n >= min_links {
        ScenarioOutcome { scores: o.scores.push(100), names: o.names.push("documentation_score"@), ..o }
    } else {
        ScenarioOutcome {
            scores: o.scores.push(((n as int) * 100 / (min_links as int)) as u32),
            names: o.names.push("documentation_score"@),
            issues: o.issues.push("Expected at least "@ + nat_decimal(min_links as nat) + " documentation links, got "@
                + nat_decimal(n)),
            ..o
        }
    }
}

/// The full scoring of a scenario under a configuration.
pub open spec fn scenario_outcome(config: ErrorTestConfig, sc: ErrorTestScenario) -> ScenarioOutcome {
    let o0 = ScenarioOutcome { scores: Seq::empty(), names: Seq::empty(), issues: Seq::empty(), improvements: Seq::empty() };
    let o1 = if config.test_categorization { after_category(o0, sc.error, sc.expected.category@) } else { o0 };
    let o2 = if config.test_severity { after_severity(o1, sc.error, sc.expected.severity) } else { o1 };
    let o3 = if config.test_message_quality { after_message(o2, sc.error, sc.expected.min_message_quality) } else { o2 };
    let o4 = if config.test_suggestions {
        after_suggestions(o3, sc.error, sc.expected.min_suggestions, config.min_suggestion_priority)
    } else {
        o3
    };
    if config.test_documentation { after_documentation(o4, sc.error, sc.expected.min_documentation_links) } else { o4 }
}

/// Whether `r` is the result of scoring scenario `sc` under `config`: its
/// check scores, names, issues and improvements are the scenario's outcome,
/// its score the mean of the check scores, and it passes when that mean is
/// at least 70 percent and no issue was found.
pub open spec fn result_matches(config: ErrorTestConfig, sc: ErrorTestScenario, r: ErrorTestResult) -> bool {
    let o = scenario_outcome(config, sc);
    &&& r.scenario_id@ == sc.id@
    &&& r.details@.map_values(|d: (String, u32)| d.1) == o.scores
    &&& r.details@.map_values(|d: (String, u32)| d.0@) == o.names
    &&& r.issues@.map_values(|t: String| t@) == o.issues
    &&& r.improvements@.map_values(|t: String| t@) == o.improvements
    &&& r.score == (Ratio { part: score_sum(o.scores) as usize, whole: (o.scores.len() * 100) as usize })
    &&& r.passed == (o.scores.len() > 0 && score_sum(o.scores) >= 70 * o.scores.len() && o.issues.len() == 0)
    &&& r.score.part <= r.score.whole
    &&& r.score.whole <= 500
}

/// The sum of the scores.
pub open spec fn score_sum(s: Seq<u32>) -> nat
    decreases s.len(),
{
    if s.len() == 0 { 0 } else { score_sum(s.drop_last()) + s.last() as nat }
}

fn owned(s: &str) -> (r: String)
    ensures
        r@ == s@,
{
    String::from_str(s)
}

fn push_text(v: &mut Vec<String>, t: String)
    ensures
        final(v)@.map_values(|x: String| x@) == old(v)@.map_values(|x: String| x@).push(t@),
{
    let ghost before = v@;
    v.push(t);
    proof {
        assert(v@.map_values(|x: String| x@) =~= before.map_values(|x: String| x@).push(t@));
    }
}

/// Scenarios and their results.
#[derive(Debug)]
pub struct ErrorTestSuite {
    scenarios: Vec<ErrorTestScenario>,
    config: ErrorTestConfig,
    results: Vec<ErrorTestResult>,
}

/// The default scenario at position `k`: its id, the error's category and
/// display text, and what is expected of it.
pub open spec fn default_scenario(k: int, s: ErrorTestScenario) -> bool {
    let e = s.error;
    let x = s.expected;
    if k == 0 {
        &&& s.id@ == "rule_validation_basic"@ && s.description@ == "Basic rule validation error"@
        &&& e matches BingoError::Rule { message, rule_id, rule_name, details }
            && message@ == "Missing required field 'conditions'"@ && rule_id is None && rule_name is None && details is None
        &&& x.category@ == "rule"@ && x.severity == ErrorSeverity::Medium && x.min_message_quality == 70
        &&& x.min_suggestions == 1 && x.is_recoverable && x.min_documentation_links == 1
        &&& s.test_type == ErrorTestType::Basic
    } else if k == 1 {
        &&& s.id@ == "rule_compilation_context"@ && s.description@ == "Rule compilation error with context"@
        &&& e matches BingoError::Rule { message, rule_id, rule_name, details }
            && message@ == "Invalid condition operator 'xyz'"@ && rule_id == Some(123u64)
            && crate::types::opt_str_view(rule_name) == Some("customer_tier_rule"@) && details is None
        &&& x.category@ == "rule"@ && x.severity == ErrorSeverity::Medium && x.min_message_quality == 80
        &&& x.min_suggestions == 2 && x.is_recoverable && x.min_documentation_links == 1
        &&& s.test_type == ErrorTestType::ContextExtraction
    } else if k == 2 {
        &&& s.id@ == "condition_parse_error"@ && s.description@ == "Condition parsing error"@
        &&& e matches BingoError::Condition { message, field, operator, value }
            && message@ == "Cannot parse value as number"@ && crate::types::opt_str_view(field) == Some("amount"@)
            && crate::types::opt_str_view(operator) == Some("greater_than"@)
            && crate::types::opt_str_view(value) == Some("invalid_number"@)
        &&& x.category@ == "condition"@ && x.severity == ErrorSeverity::Medium && x.min_message_quality == 80
        &&& x.min_suggestions == 1 && x.is_recoverable && x.min_documentation_links == 1
        &&& s.test_type == ErrorTestType::Diagnostics
    } else if k == 3 {
        &&& s.id@ == "fact_store_corruption"@ && s.description@ == "Fact store corruption error"@
        &&& e matches BingoError::FactStore { message, fact_id, operation, details }
            && message@ == "Index corruption detected in fact store"@ && fact_id is None
            && crate::types::opt_str_view(operation) == Some("index_lookup"@) && details is None
        &&& x.category@ == "fact_store"@ && x.severity == ErrorSeverity::High && x.min_message_quality == 60
        &&& x.min_suggestions == 1 && !x.is_recoverable && x.min_documentation_links == 1
        &&& s.test_type == ErrorTestType::Basic
    } else if k == 4 {
        &&& s.id@ == "performance_timeout"@ && s.description@ == "Performance timeout error"@
        &&& e matches BingoError::Performance { message, operation, duration_ms, limit_ms }
            && message@ == "Rule evaluation exceeded timeout"@
            && crate::types::opt_str_view(operation) == Some("rule_evaluation"@)
            && duration_ms == Some(5000u64) && limit_ms == Some(1000u64)
        &&& x.category@ == "performance"@ && x.severity == ErrorSeverity::High && x.min_message_quality == 70
        &&& x.min_suggestions == 2 && x.is_recoverable && x.min_documentation_links == 1
        &&& s.test_type == ErrorTestType::Suggestions
    } else if k == 5 {
        &&& s.id@ == "memory_exhaustion"@ && s.description@ == "Memory allocation error"@
        &&& e matches BingoError::Memory { message, pool_type, requested_size, available_size }
            && message@ == "Insufficient memory for fact allocation"@
            && crate::types::opt_str_view(pool_type) == Some("fact_pool"@)
            && requested_size == Some(1024000usize) && available_size == Some(512000usize)
        &&& x.category@ == "memory"@ && x.severity == ErrorSeverity::Critical && x.min_message_quality == 60
        &&& x.min_suggestions == 1 && !x.is_recoverable && x.min_documentation_links == 1
        &&& s.test_type == ErrorTestType::Basic
    } else if k == 6 {
        &&& s.id@ == "calculator_expression"@ && s.description@ == "Calculator expression error"@
        &&& e matches BingoError::Calculator { message, expression, variable, operation }
            && message@ == "Division by zero in expression"@
            && crate::types::opt_str_view(expression) == Some("amount * tax_rate"@) && variable is None && operation is None
        &&& x.category@ == "calculator"@ && x.severity == ErrorSeverity::Medium && x.min_message_quality == 80
        &&& x.min_suggestions == 1 && x.is_recoverable && x.min_documentation_links == 1
        &&& s.test_type == ErrorTestType::MessageClarity
    } else {
        &&& s.id@ == "configuration_invalid"@ && s.description@ == "Configuration validation error"@
        &&& e matches BingoError::Configuration { message, setting, expected, actual }
            && message@ == "Configuration value must be positive"@
            && crate::types::opt_str_view(setting) == Some("max_rules"@)
            && crate::types::opt_str_view(expected) == Some("positive_integer"@)
            && crate::types::opt_str_view(actual) == Some("-5"@)
        &&& x.category@ == "configuration"@ && x.severity == ErrorSeverity::Critical && x.min_message_quality == 70
        &&& x.min_suggestions == 1 && !x.is_recoverable && x.min_documentation_links == 1
        &&& s.test_type == ErrorTestType::Basic
    }
}

fn scenario(
    id: &str,
    description: &str,
    error: BingoError,
    category: &str,
    severity: ErrorSeverity,
    min_message_quality: u32,
    min_suggestions: usize,
    is_recoverable: bool,
    test_type: ErrorTestType,
) -> (s: ErrorTestScenario)
    ensures
        s.id@ == id@,
        s.description@ == description@,
        s.error == error,
        s.expected.category@ == category@,
        s.expected.severity == severity,
        s.expected.min_message_quality == min_message_quality,
        s.expected.min_suggestions == min_suggestions,
        s.expected.is_recoverable == is_recoverable,
        s.expected.min_documentation_links == 1,
        s.test_type == test_type,
{
    ErrorTestScenario {
        id: owned(id),
        description: owned(description),
        error,
        expected: ExpectedErrorProperties {
            category: owned(category),
            severity,
            min_message_quality,
            min_suggestions,
            is_recoverable,
            min_documentation_links: 1,
        },
        test_type,
    }
}

impl ErrorTestSuite {
    /// The scenarios.
    pub closed spec fn scenarios_view(&self) -> Seq<ErrorTestScenario> {
        self.scenarios@
    }

    /// The configuration.
    pub closed spec fn config_view(&self) -> ErrorTestConfig {
        self.config
    }

    /// The results of the last run.
    pub closed spec fn results_view(&self) -> Seq<ErrorTestResult> {
        self.results@
    }

    /// An empty suite with the given configuration.
    pub fn new(config: ErrorTestConfig) -> (s: ErrorTestSuite)
        ensures
            s.scenarios_view().len() == 0,
            s.results_view().len() == 0,
            s.config_view() == config,
    {
        ErrorTestSuite { scenarios: Vec::new(), config, results: Vec::new() }
    }

    /// The scenarios, in the order they were added.
    pub fn scenarios(&self) -> (r: &Vec<ErrorTestScenario>)
        ensures
            r@ == self.scenarios_view(),
    {
        &self.scenarios
    }

    /// Adds a scenario.
    pub fn add_scenario(&mut self, scenario: ErrorTestScenario)
        ensures
            final(self).scenarios_view() == old(self).scenarios_view().push(scenario),
            final(self).config_view() == old(self).config_view(),
            final(self).results_view() == old(self).results_view(),
    {
        self.scenarios.push(scenario);
    }

    /// Adds the eight default scenarios: rule validation and compilation,
    /// condition parsing, fact store corruption, a performance timeout,
    /// memory exhaustion, a calculator error and a configuration error.
    pub fn with_default_scenarios(self) -> (s: ErrorTestSuite)
        ensures
            s.scenarios_view().len() == self.scenarios_view().len() + 8,
            s.scenarios_view().subrange(0, self.scenarios_view().len() as int) == self.scenarios_view(),
            forall|k: int| 0 <= k < 8 ==> default_scenario(k, #[trigger] s.scenarios_view()[self.scenarios_view().len() + k]),
            s.config_view() == self.config_view(),
            s.results_view() == self.results_view(),
    {
        let mut suite = self;
        let ghost start = suite.scenarios@;
        suite.add_scenario(scenario(
            "rule_validation_basic",
            "Basic rule validation error",
            BingoError::rule_validation("Missing required field 'conditions'"),
            "rule",
            ErrorSeverity::Medium,
            70,
            1,
            true,
            ErrorTestType::Basic,
        ));
        suite.add_scenario(scenario(
            "rule_compilation_context",
            "Rule compilation error with context",
            BingoError::rule_compilation(123, "customer_tier_rule", "Invalid condition operator 'xyz'"),
            "rule",
            ErrorSeverity::Medium,
            80,
            2,
            true,
            ErrorTestType::ContextExtraction,
        ));
        suite.add_scenario(scenario(
            "condition_parse_error",
            "Condition parsing error",
            BingoError::condition_parse("amount", "greater_than", "invalid_number", "Cannot parse value as number"),
            "condition",
            ErrorSeverity::Medium,
            80,
            1,
            true,
            ErrorTestType::Diagnostics,
        ));
        suite.add_scenario(scenario(
            "fact_store_corruption",
            "Fact store corruption error",
            BingoError::fact_store("index_lookup", "Index corruption detected in fact store"),
            "fact_store",
            ErrorSeverity::High,
            60,
            1,
            false,
            ErrorTestType::Basic,
        ));
        suite.add_scenario(scenario(
            "performance_timeout",
            "Performance timeout error",
            BingoError::performance_timeout("rule_evaluation", 5000, 1000, "Rule evaluation exceeded timeout"),
            "performance",
            ErrorSeverity::High,
            70,
            2,
            true,
            ErrorTestType::Suggestions,
        ));
        suite.add_scenario(scenario(
            "memory_exhaustion",
            "Memory allocation error",
            BingoError::memory_allocation("fact_pool", 1024000, 512000, "Insufficient memory for fact allocation"),
            "memory",
            ErrorSeverity::Critical,
            60,
            1,
            false,
            ErrorTestType::Basic,
        ));
        suite.add_scenario(scenario(
            "calculator_expression",
            "Calculator expression error",
            BingoError::calculator("amount * tax_rate", "Division by zero in expression"),
            "calculator",
            ErrorSeverity::Medium,
            80,
            1,
            true,
            ErrorTestType::MessageClarity,
        ));
        suite.add_scenario(scenario(
            "configuration_invalid",
            "Configuration validation error",
            BingoError::configuration("max_rules", "positive_integer", "-5", "Configuration value must be positive"),
            "configuration",
            ErrorSeverity::Critical,
            70,
            1,
            false,
            ErrorTestType::Basic,
        ));
        proof {
            let n = start.len();
            assert(suite.scenarios@.subrange(0, n as int) =~= start);
            assert forall|k: int| 0 <= k < 8 implies default_scenario(k, #[trigger] suite.scenarios@[n + k]) by {
            }
        }
        suite
    }

    /// Scores one scenario: category, severity, message quality,
    /// suggestions and documentation, as the configuration enables them.
    #[verifier::rlimit(40)]
    pub fn run_scenario(
        &self,
        scenario: &ErrorTestScenario,
        diagnostics_manager: &mut ErrorDiagnosticsManager,
        message_analyzer: &ErrorMessageAnalyzer,
        suggestion_validator: &ErrorSuggestionValidator,
    ) -> (r: ErrorTestResult)
        requires
            old(diagnostics_manager).wf(),
            message_analyzer.wf(),
            suggestion_validator.wf(),
        ensures
            final(diagnostics_manager).wf(),
            result_matches(self.config_view(), *scenario, r),
            exists|id: u128, ts: i64| {
                &&& #[trigger] final(diagnostics_manager).stored() == keep_last(
                    old(diagnostics_manager).stored().push(diagnostic_spec(old(diagnostics_manager).stored(), scenario.error, id, ts)),
                    old(diagnostics_manager).settings().max_diagnostics,
                )
                &&& final(diagnostics_manager).trends() == if old(diagnostics_manager).settings().enable_analytics {
                    trend_step(old(diagnostics_manager).trends(), category_spec(scenario.error), ts)
                } else {
                    old(diagnostics_manager).trends()
                }
            },
            final(diagnostics_manager).frequency() == if old(diagnostics_manager).settings().enable_analytics {
                count_one(old(diagnostics_manager).frequency(), category_spec(scenario.error))
            } else {
                old(diagnostics_manager).frequency()
            },
            final(diagnostics_manager).sessions() == old(diagnostics_manager).sessions(),
            final(diagnostics_manager).settings() == old(diagnostics_manager).settings(),
            final(diagnostics_manager).templates() == old(diagnostics_manager).templates(),
    {
        let mut acc = Tally { details: Vec::new(), issues: Vec::new(), improvements: Vec::new(), total: 0 };
        let ghost o0 = ScenarioOutcome { scores: Seq::empty(), names: Seq::empty(), issues: Seq::empty(), improvements: Seq::empty() };
        proof {
            assert(acc.details@.map_values(|d: (String, u32)| d.1) =~= o0.scores);
            assert(acc.details@.map_values(|d: (String, u32)| d.0@) =~= o0.names);
            assert(acc.issues@.map_values(|t: String| t@) =~= o0.issues);
            assert(acc.improvements@.map_values(|t: String| t@) =~= o0.improvements);
        }
        let error = &scenario.error;
        let expected = &scenario.expected;
        let ghost o1 = if self.config.test_categorization { after_category(o0, *error, expected.category@) } else { o0 };
        if self.config.test_categorization {
            acc.check_category(error, &expected.category, Ghost(o0));
        }
        let ghost o2 = if self.config.test_severity { after_severity(o1, *error, expected.severity) } else { o1 };
        if self.config.test_severity {
            acc.check_severity(error, expected.severity, Ghost(o1));
        }
        let diagnostic = diagnostics_manager.create_diagnostic_for(error);
        let ghost did = diagnostic.diagnostic_id;
        let ghost dts = diagnostic.timestamp;
        let ghost o3 = if self.config.test_message_quality { after_message(o2, *error, expected.min_message_quality) } else { o2 };
        if self.config.test_message_quality {
            acc.check_message(error, &diagnostic, expected.min_message_quality, message_analyzer, Ghost(o2));
        }
        let ghost o4 = if self.config.test_suggestions {
            after_suggestions(o3, *error, expected.min_suggestions, self.config.min_suggestion_priority)
        } else {
            o3
        };
        if self.config.test_suggestions {
            acc.check_suggestions(error, &diagnostic, expected.min_suggestions, self.config.min_suggestion_priority, suggestion_validator, Ghost(o3));
        }
        if self.config.test_documentation {
            acc.check_documentation(error, &diagnostic, expected.min_documentation_links, Ghost(o4));
        }
        let count = acc.details.len();
        let passed = count > 0 && acc.total as usize >= 70 * count && acc.issues.len() == 0;
        assert(diagnostics_manager.stored() == keep_last(
            old(diagnostics_manager).stored().push(diagnostic_spec(old(diagnostics_manager).stored(), scenario.error, did, dts)),
            old(diagnostics_manager).settings().max_diagnostics,
        ));
        ErrorTestResult {
            scenario_id: scenario.id.clone(),
            passed,
            score: Ratio { part: acc.total as usize, whole: count * 100 },
            details: acc.details,
            issues: acc.issues,
            improvements: acc.improvements,
        }
    }
}

/// The scores, issues and improvements gathered while checking a scenario.
struct Tally {
    details: Vec<(String, u32)>,
    issues: Vec<String>,
    improvements: Vec<String>,
    total: u32,
}

impl Tally {
    /// The tally holds the outcome `o`, with at most `n` scores.
    spec fn holds(&self, o: ScenarioOutcome, n: nat) -> bool {
        &&& self.details@.map_values(|d: (String, u32)| d.1) == o.scores
        &&& self.details@.map_values(|d: (String, u32)| d.0@) == o.names
        &&& self.issues@.map_values(|t: String| t@) == o.issues
        &&& self.improvements@.map_values(|t: String| t@) == o.improvements
        &&& self.total == score_sum(o.scores)
        &&& o.scores.len() <= n
        &&& score_sum(o.scores) <= 100 * o.scores.len()
    }

    fn add_score(&mut self, score: u32, name: &str, Ghost(o): Ghost<ScenarioOutcome>, Ghost(n): Ghost<nat>)
        requires
            old(self).holds(o, n),
            score <= 100,
            n < 5,
        ensures
            final(self).holds(ScenarioOutcome { scores: o.scores.push(score), names: o.names.push(name@), ..o }, n + 1),
    {
        let ghost before = self.details@;
        self.details.push((owned(name), score));
        self.total = self.total + score;
        proof {
            assert(self.details@.map_values(|d: (String, u32)| d.1) =~= before.map_values(|d: (String, u32)| d.1).push(score));
            assert(self.details@.map_values(|d: (String, u32)| d.0@) =~= before.map_values(|d: (String, u32)| d.0@).push(name@));
            assert(o.scores.push(score).drop_last() =~= o.scores);
        }
    }

    fn check_category(&mut self, error: &BingoError, expected: &String, Ghost(o): Ghost<ScenarioOutcome>)
        requires
            old(self).holds(o, 0),
        ensures
            final(self).holds(after_category(o, *error, expected@), 1),
    {
        let actual = error.category();
        if str_eq(actual, expected.as_str()) {
            self.add_score(100, "category_score", Ghost(o), Ghost(0));
        } else {
            self.add_score(0, "category_score", Ghost(o), Ghost(0));
            let mut t = owned("Expected category '");
            t.append(expected.as_str());
            t.append("', got '");
            t.append(actual);
            t.append("'");
            push_text(&mut self.issues, t);
        }
    }

    fn check_severity(&mut self, error: &BingoError, expected: ErrorSeverity, Ghost(o): Ghost<ScenarioOutcome>)
        requires
            old(self).holds(o, 1),
        ensures
            final(self).holds(after_severity(o, *error, expected), 2),
    {
        let actual = error.severity();
        if actual == expected {
            self.add_score(100, "severity_score", Ghost(o), Ghost(1));
        } else {
            self.add_score(0, "severity_score", Ghost(o), Ghost(1));
            let mut t = owned("Expected severity '");
            t.append(severity_name_str(expected));
            t.append("', got '");
            t.append(severity_name_str(actual));
            t.append("'");
            push_text(&mut self.issues, t);
        }
    }

    fn check_message(
        &mut self,
        error: &BingoError,
        diagnostic: &ErrorDiagnostic,
        min_quality: u32,
        analyzer: &ErrorMessageAnalyzer,
        Ghost(o): Ghost<ScenarioOutcome>,
    )
        requires
            old(self).holds(o, 2),
            analyzer.wf(),
            diagnostic.error@ == display_spec(*error),
        ensures
            final(self).holds(after_message(o, *error, min_quality), 3),
    {
        let message = &diagnostic.error;
        let q = analyzer.analyze_message(message.as_str());
        proof {
            let m = display_spec(*error);
            assert(criterion_score(QualityCriterion::Clarity, m) <= 100);
            assert(criterion_score(QualityCriterion::Actionability, m) <= 100);
            assert(criterion_score(QualityCriterion::Context, m) <= 100);
            assert(criterion_score(QualityCriterion::Tone, m) <= 100);
        }
        self.add_score(q, "message_quality_score", Ghost(o), Ghost(2));
        if q < min_quality {
            let mut t = owned("Message quality score ");
            t.append(hundredths_to_string(q as u64).as_str());
            t.append(" below expected ");
            t.append(hundredths_to_string(min_quality as u64).as_str());
            push_text(&mut self.issues, t);
            push_text(&mut self.improvements, owned("Improve error message clarity and specificity"));
        }
    }

    fn check_suggestions(
        &mut self,
        error: &BingoError,
        diagnostic: &ErrorDiagnostic,
        min_count: usize,
        min_priority: u32,
        validator: &ErrorSuggestionValidator,
        Ghost(o): Ghost<ScenarioOutcome>,
    )
        requires
            old(self).holds(o, 3),
            validator.wf(),
            suggestions_view(diagnostic.suggestions@) == suggestions_spec(*error),
        ensures
            final(self).holds(after_suggestions(o, *error, min_count, min_priority), 4),
    {
        let suggestions = &diagnostic.suggestions;
        let ghost sv = suggestions@.map_values(|x: ErrorSuggestion| x@);
        let count = suggestions.len();
        let mut high: usize = 0;
        let mut i: usize = 0;
        proof {
            assert(sv.take(0) =~= Seq::<SuggestionView>::empty());
        }
        while i < count
            invariant
                count == suggestions@.len(),
                sv == suggestions@.map_values(|x: ErrorSuggestion| x@),
                i <= count,
                high <= i,
                high == high_priority_count(sv.take(i as int), min_priority),
            decreases count - i,
        {
            if suggestions[i].priority >= min_priority {
                high = high + 1;
            }
            proof {
                assert(sv.take(i + 1).drop_last() =~= sv.take(i as int));
            }
            i = i + 1;
        }
        proof {
            assert(sv.take(count as int) =~= sv);
        }
        let count_ok = count >= min_count;
        let high_ok = high > 0;
        let score: u32 = (if count_ok { 50u32 } else { 0u32 }) + (if high_ok { 50u32 } else { 0u32 });
        self.add_score(score, "suggestions_score", Ghost(o), Ghost(3));
        if !count_ok {
            let mut t = owned("Expected at least ");
            t.append(u64_to_string(min_count as u64).as_str());
            t.append(" suggestions, got ");
            t.append(u64_to_string(count as u64).as_str());
            push_text(&mut self.issues, t);
        }
        if !high_ok {
            push_text(&mut self.issues, owned("No high-priority suggestions found"));
        }
        let ghost mid = self.issues@.map_values(|t: String| t@);
        let ghost dd = self.details@;
        let ghost ii = self.improvements@;
        let ghost tt = self.total;
        let mut j: usize = 0;
        proof {
            assert(mid + validation_issues(sv.take(0)) =~= mid);
            let i1: Seq<Seq<char>> = if count_ok {
                Seq::empty()
            } else {
                seq!["Expected at least "@ + nat_decimal(min_count as nat) + " suggestions, got "@ + nat_decimal(sv.len())]
            };
            let i2: Seq<Seq<char>> = if high_ok { Seq::empty() } else { seq!["No high-priority suggestions found"@] };
            assert(mid =~= o.issues + i1 + i2);
        }
        while j < count
            invariant
                count == suggestions@.len(),
                sv == suggestions@.map_values(|x: ErrorSuggestion| x@),
                validator.wf(),
                j <= count,
                self.details@ == dd,
                self.improvements@ == ii,
                self.total == tt,
                self.issues@.map_values(|t: String| t@) == mid + validation_issues(sv.take(j as int)),
            decreases count - j,
        {
            let validation = validator.validate_suggestion(&suggestions[j]);
            let ghost before = self.issues@.map_values(|t: String| t@);
            if !validation.passed {
                let mut extra = validation.issues;
                let ghost ev = extra@.map_values(|t: String| t@);
                self.issues.append(&mut extra);
                proof {
                    assert(self.issues@.map_values(|t: String| t@) =~= before + ev);
                }
            }
            proof {
                let t = sv.take(j + 1);
                assert(t.drop_last() =~= sv.take(j as int));
                assert(t.last() == suggestions@[j as int]@);
                assert(self.issues@.map_values(|t: String| t@) =~= mid + validation_issues(t));
            }
            j = j + 1;
        }
        proof {
            assert(sv.take(count as int) =~= sv);
            let r = after_suggestions(o, *error, min_count, min_priority);
            assert(self.issues@.map_values(|t: String| t@) =~= r.issues);
        }
    }

    fn check_documentation(
        &mut self,
        error: &BingoError,
        diagnostic: &ErrorDiagnostic,
        min_links: usize,
        Ghost(o): Ghost<ScenarioOutcome>,
    )
        requires
            old(self).holds(o, 4),
            links_view(diagnostic.documentation_links@) == documentation_spec(*error),
        ensures
            final(self).holds(after_documentation(o, *error, min_links), 5),
    {
        let links = &diagnostic.documentation_links;
        let n = links.len();
        proof {
            assert(n == documentation_spec(*error).len());
        }
        if n >= min_links {
            self.add_score(100, "documentation_score", Ghost(o), Ghost(4));
        } else {
            let score: u32 = (n * 100 / min_links) as u32;
            proof {
                assert((n as int) * 100 / (min_links as int) <= 100) by (nonlinear_arith)
                    requires n < min_links, min_links > 0;
            }
            self.add_score(score, "documentation_score", Ghost(o), Ghost(4));
            let mut t = owned("Expected at least ");
            t.append(u64_to_string(min_links as u64).as_str());
            t.append(" documentation links, got ");
            t.append(u64_to_string(n as u64).as_str());
            push_text(&mut self.issues, t);
        }
    }
}


/// Mathematical model of an [`ErrorTestResult`].
pub struct ResultView {
    pub scenario_id: Seq<char>,
    pub passed: bool,
    pub score: Ratio,
    pub details: Seq<(Seq<char>, u32)>,
    pub issues: Seq<Seq<char>>,
    pub improvements: Seq<Seq<char>>,
}

impl View for ErrorTestResult {
    type V = ResultView;

    open spec fn view(&self) -> ResultView {
        ResultView {
            scenario_id: self.scenario_id@,
            passed: self.passed,
            score: self.score,
            details: self.details@.map_values(|d: (String, u32)| (d.0@, d.1)),
            issues: self.issues@.map_values(|t: String| t@),
            improvements: self.improvements@.map_values(|t: String| t@),
        }
    }
}

/// The models of a list of results.
pub open spec fn results_model(rs: Seq<ErrorTestResult>) -> Seq<ResultView> {
    rs.map_values(|r: ErrorTestResult| r@)
}

/// A copy of a list of strings.
fn copy_strings(v: &Vec<String>) -> (r: Vec<String>)
    ensures
        r@.map_values(|t: String| t@) == v@.map_values(|t: String| t@),
{
    let mut r: Vec<String> = Vec::new();
    let n = v.len();
    let mut i: usize = 0;
    while i < n
        invariant
            n == v@.len(),
            i <= n,
            r@.map_values(|t: String| t@) == v@.take(i as int).map_values(|t: String| t@),
        decreases n - i,
    {
        let ghost before = r@;
        r.push(v[i].clone());
        proof {
            assert(r@.map_values(|t: String| t@) =~= before.map_values(|t: String| t@).push(v@[i as int]@));
            assert(v@.take(i + 1).map_values(|t: String| t@) =~= v@.take(i as int).map_values(|t: String| t@).push(v@[i as int]@));
        }
        i = i + 1;
    }
    proof {
        assert(v@.take(n as int) =~= v@);
    }
    r
}

impl ErrorTestResult {
    /// A copy of this result.
    pub fn duplicate(&self) -> (r: ErrorTestResult)
        ensures
            r@ == self@,
    {
        let mut details: Vec<(String, u32)> = Vec::new();
        let n = self.details.len();
        let mut i: usize = 0;
        while i < n
            invariant
                n == self.details@.len(),
                i <= n,
                details@.map_values(|d: (String, u32)| (d.0@, d.1))
                    == self.details@.take(i as int).map_values(|d: (String, u32)| (d.0@, d.1)),
            decreases n - i,
        {
            let ghost before = details@;
            let (name, score) = &self.details[i];
            details.push((name.clone(), *score));
            proof {
                assert(details@.map_values(|d: (String, u32)| (d.0@, d.1))
                    =~= before.map_values(|d: (String, u32)| (d.0@, d.1)).push((name@, *score)));
                assert(self.details@.take(i + 1).map_values(|d: (String, u32)| (d.0@, d.1))
                    =~= self.details@.take(i as int).map_values(|d: (String, u32)| (d.0@, d.1)).push((name@, *score)));
            }
            i = i + 1;
        }
        proof {
            assert(self.details@.take(n as int) =~= self.details@);
        }
        ErrorTestResult {
            scenario_id: self.scenario_id.clone(),
            passed: self.passed,
            score: self.score,
            details,
            issues: copy_strings(&self.issues),
            improvements: copy_strings(&self.improvements),
        }
    }
}

/// A copy of a list of results.
fn duplicate_results(rs: &Vec<ErrorTestResult>) -> (r: Vec<ErrorTestResult>)
    ensures
        results_model(r@) == results_model(rs@),
{
    let mut r: Vec<ErrorTestResult> = Vec::new();
    let n = rs.len();
    let mut i: usize = 0;
    while i < n
        invariant
            n == rs@.len(),
            i <= n,
            results_model(r@) == results_model(rs@.take(i as int)),
        decreases n - i,
    {
        let ghost before = r@;
        r.push(rs[i].duplicate());
        proof {
            assert(results_model(r@) =~= results_model(before).push(rs@[i as int]@));
            assert(results_model(rs@.take(i + 1)) =~= results_model(rs@.take(i as int)).push(rs@[i as int]@));
        }
        i = i + 1;
    }
    proof {
        assert(rs@.take(n as int) =~= rs@);
    }
    r
}

/// The number of results that passed.
pub open spec fn passed_count(rs: Seq<ResultView>) -> nat
    decreases rs.len(),
{
    if rs.len() == 0 { 0 } else { passed_count(rs.drop_last()) + if rs.last().passed { 1nat } else { 0nat } }
}

/// The score numerators of the results, summed.
pub open spec fn score_parts(rs: Seq<ResultView>) -> nat
    decreases rs.len(),
{
    if rs.len() == 0 { 0 } else { score_parts(rs.drop_last()) + rs.last().score.part as nat }
}

/// The score denominators of the results, summed.
pub open spec fn score_wholes(rs: Seq<ResultView>) -> nat
    decreases rs.len(),
{
    if rs.len() == 0 { 0 } else { score_wholes(rs.drop_last()) + rs.last().score.whole as nat }
}

/// Where the first `_` of an id is, or its length.
pub open spec fn underscore_at(id: Seq<char>) -> nat
    decreases id.len(),
{
    if id.len() == 0 {
        0
    } else if id[0] == '_' {
        0
    } else {
        1 + underscore_at(id.drop_first())
    }
}

/// The category of a scenario id: the part before its first `_`.
pub open spec fn id_category(id: Seq<char>) -> Seq<char> {
    id.take(underscore_at(id) as int)
}

/// The score numerators of the results of a category, summed.
pub open spec fn category_parts(rs: Seq<ResultView>, c: Seq<char>) -> nat
    decreases rs.len(),
{
    if rs.len() == 0 {
        0
    } else {
        category_parts(rs.drop_last(), c) + if id_category(rs.last().scenario_id) == c { rs.last().score.part as nat } else { 0nat }
    }
}

/// The score denominators of the results of a category, summed.
pub open spec fn category_wholes(rs: Seq<ResultView>, c: Seq<char>) -> nat
    decreases rs.len(),
{
    if rs.len() == 0 {
        0
    } else {
        category_wholes(rs.drop_last(), c) + if id_category(rs.last().scenario_id) == c { rs.last().score.whole as nat } else { 0nat }
    }
}

/// The categories of the results.
pub open spec fn categories(rs: Seq<ResultView>) -> Set<Seq<char>> {
    rs.map_values(|r: ResultView| id_category(r.scenario_id)).to_set()
}

/// A category's sums are at most the sums over all results.
pub proof fn lemma_category_bounded(rs: Seq<ResultView>, c: Seq<char>)
    ensures
        category_parts(rs, c) <= score_parts(rs),
        category_wholes(rs, c) <= score_wholes(rs),
    decreases rs.len(),
{
    if rs.len() > 0 {
        lemma_category_bounded(rs.drop_last(), c);
    }
}

/// Sums over a prefix are at most the sums over the whole list.
pub proof fn lemma_score_prefix(rs: Seq<ResultView>, i: int)
    requires
        0 <= i <= rs.len(),
    ensures
        score_parts(rs.take(i)) <= score_parts(rs),
        score_wholes(rs.take(i)) <= score_wholes(rs),
        passed_count(rs.take(i)) <= i,
    decreases rs.len(),
{
    if i < rs.len() {
        assert(rs.take(i) =~= rs.drop_last().take(i));
        lemma_score_prefix(rs.drop_last(), i);
    } else {
        assert(rs.take(i) =~= rs);
        lemma_passed_bounded(rs);
    }
}

/// At most every result passed.
pub proof fn lemma_passed_bounded(rs: Seq<ResultView>)
    ensures
        passed_count(rs) <= rs.len(),
    decreases rs.len(),
{
    if rs.len() > 0 {
        lemma_passed_bounded(rs.drop_last());
    }
}

/// The category of a scenario id.
fn category_of(id: &str) -> (c: String)
    ensures
        c@ == id_category(id@),
{
    let n = id.unicode_len();
    let mut i: usize = 0;
    while i < n
        invariant
            n == id@.len(),
            i <= n,
            forall|j: int| 0 <= j < i ==> id@[j] != '_',
        ensures
            i <= n,
            forall|j: int| 0 <= j < i ==> id@[j] != '_',
            i == n || id@[i as int] == '_',
        decreases n - i,
    {
        if id.get_char(i) == '_' {
            break;
        }
        i = i + 1;
    }
    proof {
        lemma_underscore_at(id@, i as int);
    }
    String::from_str(id.substring_char(0, i))
}

/// The first `_` is at `i` when none comes before and `i` holds one or is
/// the end.
proof fn lemma_underscore_at(id: Seq<char>, i: int)
    requires
        0 <= i <= id.len(),
        forall|j: int| 0 <= j < i ==> id[j] != '_',
        i == id.len() || id[i] == '_',
    ensures
        underscore_at(id) == i,
    decreases id.len(),
{
    if id.len() > 0 && id[0] != '_' {
        assert forall|j: int| 0 <= j < i - 1 implies id.drop_first()[j] != '_' by {
            assert(id.drop_first()[j] == id[j + 1]);
        }
        if i < id.len() {
            assert(id.drop_first()[i - 1] == id[i]);
        }
        lemma_underscore_at(id.drop_first(), i - 1);
    }
}

/// The passed count and the score sums of the results.
fn tally_results(rs: &Vec<ErrorTestResult>) -> (r: (usize, Ratio))
    requires
        score_parts(results_model(rs@)) <= usize::MAX,
        score_wholes(results_model(rs@)) <= usize::MAX,
    ensures
        r.0 == passed_count(results_model(rs@)),
        r.1 == (Ratio {
            part: score_parts(results_model(rs@)) as usize,
            whole: score_wholes(results_model(rs@)) as usize,
        }),
{
    let ghost m = results_model(rs@);
    let n = rs.len();
    let mut passed: usize = 0;
    let mut part: usize = 0;
    let mut whole: usize = 0;
    let mut i: usize = 0;
    while i < n
        invariant
            n == rs@.len(),
            m == results_model(rs@),
            m.len() == n,
            i <= n,
            passed == passed_count(m.take(i as int)),
            part == score_parts(m.take(i as int)),
            whole == score_wholes(m.take(i as int)),
            score_parts(m) <= usize::MAX,
            score_wholes(m) <= usize::MAX,
        decreases n - i,
    {
        proof {
            assert(m.take(i + 1).drop_last() =~= m.take(i as int));
            assert(m.take(i + 1).last() == rs@[i as int]@);
            lemma_score_prefix(m, i + 1);
        }
        if rs[i].passed {
            passed = passed + 1;
        }
        part = part + rs[i].score.part;
        whole = whole + rs[i].score.whole;
        i = i + 1;
    }
    proof {
        assert(m.take(n as int) =~= m);
    }
    (passed, Ratio { part, whole })
}

/// The mean score of each category: its results' score numerators over
/// their denominators.
fn category_scores(rs: &Vec<ErrorTestResult>) -> (r: StrMap<Ratio>)
    requires
        score_parts(results_model(rs@)) <= usize::MAX,
        score_wholes(results_model(rs@)) <= usize::MAX,
    ensures
        r.wf(),
        r.view().dom() == categories(results_model(rs@)),
        forall|c: Seq<char>| #[trigger] r.view().contains_key(c) ==> r.view()[c] == (Ratio {
            part: category_parts(results_model(rs@), c) as usize,
            whole: category_wholes(results_model(rs@), c) as usize,
        }),
{
    let ghost m = results_model(rs@);
    let mut map: StrMap<Ratio> = StrMap::new();
    let n = rs.len();
    let mut i: usize = 0;
    proof {
        assert(m.take(0).map_values(|r: ResultView| id_category(r.scenario_id)).to_set() =~= Set::<Seq<char>>::empty());
    }
    while i < n
        invariant
            n == rs@.len(),
            m == results_model(rs@),
            m.len() == n,
            i <= n,
            map.wf(),
            map.view().dom() == categories(m.take(i as int)),
            forall|c: Seq<char>| #[trigger] map.view().contains_key(c) ==> map.view()[c] == (Ratio {
                part: category_parts(m.take(i as int), c) as usize,
                whole: category_wholes(m.take(i as int), c) as usize,
            }),
            score_parts(m) <= usize::MAX,
            score_wholes(m) <= usize::MAX,
        decreases n - i,
    {
        let c = category_of(rs[i].scenario_id.as_str());
        let ghost t = m.take(i + 1);
        let ghost cv = c@;
        proof {
            assert(t.drop_last() =~= m.take(i as int));
            assert(t.last() == rs@[i as int]@);
            lemma_score_prefix(m, i + 1);
            lemma_category_bounded(t, cv);
            assert(t.map_values(|r: ResultView| id_category(r.scenario_id))
                =~= m.take(i as int).map_values(|r: ResultView| id_category(r.scenario_id)).push(cv));
            m.take(i as int).map_values(|r: ResultView| id_category(r.scenario_id)).lemma_push_to_set_commute(cv);
        }
        let score = rs[i].score;
        let ghost before = map.view();
        let existing: Option<Ratio> = match map.get(c.as_str()) {
            Some(r) => Some(*r),
            None => None,
        };
        match existing {
            Some(acc) => {
                proof {
                    assert(before.contains_key(cv));
                }
                map.insert(c, Ratio { part: acc.part + score.part, whole: acc.whole + score.whole });
            },
            None => {
                proof {
                    assert(!before.contains_key(cv));
                    if category_parts(m.take(i as int), cv) > 0 || category_wholes(m.take(i as int), cv) > 0 {
                        lemma_category_present(m.take(i as int), cv);
                    }
                }
                map.insert(c, score);
            },
        }
        i = i + 1;
    }
    proof {
        assert(m.take(n as int) =~= m);
    }
    map
}

/// A category with a non-zero sum has a result.
proof fn lemma_category_present(rs: Seq<ResultView>, c: Seq<char>)
    requires
        category_parts(rs, c) > 0 || category_wholes(rs, c) > 0,
    ensures
        categories(rs).contains(c),
    decreases rs.len(),
{
    let cats = rs.map_values(|r: ResultView| id_category(r.scenario_id));
    if id_category(rs.last().scenario_id) == c {
        assert(cats[rs.len() - 1] == c);
    } else {
        lemma_category_present(rs.drop_last(), c);
        let pre = rs.drop_last().map_values(|r: ResultView| id_category(r.scenario_id));
        let j = choose|j: int| 0 <= j < pre.len() && pre[j] == c;
        assert(cats[j] == pre[j]);
    }
}


/// All issues of the results, in order.
pub open spec fn all_issues(rs: Seq<ResultView>) -> Seq<Seq<char>>
    decreases rs.len(),
{
    if rs.len() == 0 { Seq::empty() } else { all_issues(rs.drop_last()) + rs.last().issues }
}


/// The issues of all results, in order.
fn flatten_issues(rs: &Vec<ErrorTestResult>) -> (r: Vec<String>)
    ensures
        r@.map_values(|t: String| t@) == all_issues(results_model(rs@)),
{
    let ghost m = results_model(rs@);
    let mut r: Vec<String> = Vec::new();
    let n = rs.len();
    let mut i: usize = 0;
    while i < n
        invariant
            n == rs@.len(),
            m == results_model(rs@),
            i <= n,
            r@.map_values(|t: String| t@) == all_issues(m.take(i as int)),
        decreases n - i,
    {
        let issues = &rs[i].issues;
        let k = issues.len();
        let mut j: usize = 0;
        let ghost start = r@.map_values(|t: String| t@);
        while j < k
            invariant
                k == issues@.len(),
                j <= k,
                r@.map_values(|t: String| t@) == start + issues@.take(j as int).map_values(|t: String| t@),
            decreases k - j,
        {
            let ghost before = r@;
            r.push(issues[j].clone());
            proof {
                assert(r@.map_values(|t: String| t@) =~= before.map_values(|t: String| t@).push(issues@[j as int]@));
                assert(issues@.take(j + 1).map_values(|t: String| t@)
                    =~= issues@.take(j as int).map_values(|t: String| t@).push(issues@[j as int]@));
            }
            j = j + 1;
        }
        proof {
            assert(issues@.take(k as int) =~= issues@);
            assert(m.take(i + 1).drop_last() =~= m.take(i as int));
            assert(m.take(i + 1).last() == rs@[i as int]@);
        }
        i = i + 1;
    }
    proof {
        assert(m.take(n as int) =~= m);
    }
    r
}


/// The most frequent issues, at most `limit`, most frequent first.
fn most_frequent_issues(all: &Vec<String>, limit: usize) -> (t: Vec<String>)
    ensures
        most_frequent(all@.map_values(|x: String| x@), t@.map_values(|x: String| x@), limit as nat),
{
    let counted = most_frequent_counts(all, limit);
    let mut t: Vec<String> = Vec::new();
    let n = counted.len();
    let mut i: usize = 0;
    while i < n
        invariant
            n == counted@.len(),
            i <= n,
            t@.map_values(|x: String| x@) == count_keys(counted@).take(i as int),
        decreases n - i,
    {
        let ghost before = t@;
        t.push(counted[i].0.clone());
        proof {
            assert(t@.map_values(|x: String| x@) =~= before.map_values(|x: String| x@).push(counted@[i as int].0@));
            assert(count_keys(counted@).take(i + 1) =~= count_keys(counted@).take(i as int).push(counted@[i as int].0@));
        }
        i = i + 1;
    }
    proof {
        assert(count_keys(counted@).take(n as int) =~= count_keys(counted@));
    }
    t
}

/// Whether some failed result has a check of this name.
pub open spec fn failed_with(rs: Seq<ResultView>, name: Seq<char>) -> bool {
    exists|i: int, j: int| 0 <= i < rs.len() && !rs[i].passed && 0 <= j < rs[i].details.len() && #[trigger] rs[i].details[j].0 == name
}

/// The recommendations for failed results: clearer messages when a failed
/// result checked its message, better suggestions when it checked
/// suggestions, more documentation when it checked documentation.
pub open spec fn recommendations_spec(rs: Seq<ResultView>) -> Seq<Seq<char>> {
    let a: Seq<Seq<char>> = if failed_with(rs, "message_quality_score"@) {
        seq!["Improve error message clarity and user-friendliness"@]
    } else {
        Seq::empty()
    };
    let b: Seq<Seq<char>> = if failed_with(rs, "suggestions_score"@) {
        seq!["Enhance error suggestion generation and relevance"@]
    } else {
        Seq::empty()
    };
    let c: Seq<Seq<char>> = if failed_with(rs, "documentation_score"@) {
        seq!["Add more comprehensive documentation links"@]
    } else {
        Seq::empty()
    };
    a + b + c
}

/// Whether some failed result has a check of this name.
fn any_failed_with(rs: &Vec<ErrorTestResult>, name: &str) -> (b: bool)
    ensures
        b == failed_with(results_model(rs@), name@),
{
    let ghost m = results_model(rs@);
    let n = rs.len();
    let mut i: usize = 0;
    while i < n
        invariant
            n == rs@.len(),
            m == results_model(rs@),
            i <= n,
            forall|a: int, j: int| 0 <= a < i && !m[a].passed && 0 <= j < m[a].details.len() ==> #[trigger] m[a].details[j].0 != name@,
        decreases n - i,
    {
        if !rs[i].passed {
            let details = &rs[i].details;
            let k = details.len();
            let mut j: usize = 0;
            while j < k
                invariant
                    k == details@.len(),
                    m == results_model(rs@),
                    details@ == rs@[i as int].details@,
                    !rs@[i as int].passed,
                    i < n,
                    n == rs@.len(),
                    j <= k,
                    forall|t: int| 0 <= t < j ==> details@[t].0@ != name@,
                decreases k - j,
            {
                if str_eq(details[j].0.as_str(), name) {
                    proof {
                        assert(m[i as int] == rs@[i as int]@);
                        assert(m[i as int].details.len() == details@.len());
                        assert(m[i as int].details[j as int] == (details@[j as int].0@, details@[j as int].1));
                        assert(!m[i as int].passed);
                        assert(m[i as int].details[j as int].0 == name@);
                    }
                    return true;
                }
                j = j + 1;
            }
            proof {
                assert forall|t: int| 0 <= t < m[i as int].details.len() implies #[trigger] m[i as int].details[t].0 != name@ by {
                    assert(m[i as int].details[t].0 == details@[t].0@);
                }
            }
        }
        i = i + 1;
    }
    false
}

/// Recommendations for the failed results.
fn improvement_recommendations(rs: &Vec<ErrorTestResult>) -> (r: Vec<String>)
    ensures
        r@.map_values(|t: String| t@) == recommendations_spec(results_model(rs@)),
{
    let mut r: Vec<String> = Vec::new();
    let m = any_failed_with(rs, "message_quality_score");
    let s = any_failed_with(rs, "suggestions_score");
    let d = any_failed_with(rs, "documentation_score");
    proof {
        reveal_strlit("message_quality_score");
        reveal_strlit("suggestions_score");
        reveal_strlit("documentation_score");
    }
    if m {
        push_text(&mut r, owned("Improve error message clarity and user-friendliness"));
    }
    if s {
        push_text(&mut r, owned("Enhance error suggestion generation and relevance"));
    }
    if d {
        push_text(&mut r, owned("Add more comprehensive documentation links"));
    }
    proof {
        assert(r@.map_values(|t: String| t@) =~= recommendations_spec(results_model(rs@)));
    }
    r
}

/// Summary of a test run.
#[derive(Debug)]
pub struct ErrorTestSummary {
    pub total_tests: usize,
    pub passed_tests: usize,
    pub failed_tests: usize,
    /// The mean score over all tests.
    pub average_score: Ratio,
    /// The mean score of each category (the part of a scenario id before
    /// its first `_`).
    pub category_scores: StrMap<Ratio>,
    /// The most common issues, at most five, most common first.
    pub top_issues: Vec<String>,
    pub improvement_recommendations: Vec<String>,
    pub test_results: Vec<ErrorTestResult>,
}

/// Whether `s` summarizes the results `rs`.
pub open spec fn summarizes(s: ErrorTestSummary, rs: Seq<ErrorTestResult>) -> bool {
    let m = results_model(rs);
    &&& s.total_tests == rs.len()
    &&& s.passed_tests == passed_count(m)
    &&& s.failed_tests == rs.len() - passed_count(m)
    &&& s.average_score == (Ratio { part: score_parts(m) as usize, whole: score_wholes(m) as usize })
    &&& s.category_scores.wf()
    &&& s.category_scores.view().dom() == categories(m)
    &&& forall|c: Seq<char>| #[trigger] s.category_scores.view().contains_key(c) ==> s.category_scores.view()[c] == (Ratio {
        part: category_parts(m, c) as usize,
        whole: category_wholes(m, c) as usize,
    })
    &&& most_frequent(all_issues(m), s.top_issues@.map_values(|t: String| t@), 5)
    &&& s.improvement_recommendations@.map_values(|t: String| t@) == recommendations_spec(m)
    &&& results_model(s.test_results@) == m
}

/// Summarizes results.
fn summarize(rs: &Vec<ErrorTestResult>) -> (s: ErrorTestSummary)
    requires
        score_parts(results_model(rs@)) <= usize::MAX,
        score_wholes(results_model(rs@)) <= usize::MAX,
    ensures
        summarizes(s, rs@),
{
    let (passed, average) = tally_results(rs);
    proof {
        lemma_passed_bounded(results_model(rs@));
    }
    let all = flatten_issues(rs);
    ErrorTestSummary {
        total_tests: rs.len(),
        passed_tests: passed,
        failed_tests: rs.len() - passed,
        average_score: average,
        category_scores: category_scores(rs),
        top_issues: most_frequent_issues(&all, 5),
        improvement_recommendations: improvement_recommendations(rs),
        test_results: duplicate_results(rs),
    }
}

/// Score sums of results that each score at most 500 in hundredths.
proof fn lemma_bounded_scores(rs: Seq<ResultView>)
    requires
        forall|i: int| 0 <= i < rs.len() ==> (#[trigger] rs[i]).score.part <= rs[i].score.whole && rs[i].score.whole <= 500,
    ensures
        score_parts(rs) <= score_wholes(rs),
        score_wholes(rs) <= 500 * rs.len(),
    decreases rs.len(),
{
    if rs.len() > 0 {
        assert forall|i: int| 0 <= i < rs.drop_last().len() implies (#[trigger] rs.drop_last()[i]).score.part <= rs.drop_last()[i].score.whole
            && rs.drop_last()[i].score.whole <= 500 by {
            assert(rs.drop_last()[i] == rs[i]);
        }
        lemma_bounded_scores(rs.drop_last());
    }
}

impl ErrorTestSuite {
    /// The summary of the results of the last run.
    pub fn generate_summary(&self) -> (s: ErrorTestSummary)
        requires
            score_parts(results_model(self.results_view())) <= usize::MAX,
            score_wholes(results_model(self.results_view())) <= usize::MAX,
        ensures
            summarizes(s, self.results_view()),
    {
        summarize(&self.results)
    }

    /// Runs every scenario in order, keeps the results, and summarizes
    /// them.
    pub fn run_tests(&mut self) -> (r: BingoResult<ErrorTestSummary>)
        requires
            old(self).scenarios_view().len() * 500 <= usize::MAX,
        ensures
            final(self).scenarios_view() == old(self).scenarios_view(),
            final(self).config_view() == old(self).config_view(),
            final(self).results_view().len() == old(self).scenarios_view().len(),
            forall|i: int| 0 <= i < final(self).results_view().len() ==> result_matches(
                old(self).config_view(),
                old(self).scenarios_view()[i],
                #[trigger] final(self).results_view()[i],
            ),
            r matches Ok(s) && summarizes(s, final(self).results_view()),
    {
        let mut diagnostics_manager = ErrorDiagnosticsManager::new(DiagnosticsConfig::default());
        let message_analyzer = ErrorMessageAnalyzer::new();
        let suggestion_validator = ErrorSuggestionValidator::new();
        self.results.clear();
        let n = self.scenarios.len();
        let mut i: usize = 0;
        while i < n
            invariant
                diagnostics_manager.wf(),
                message_analyzer.wf(),
                suggestion_validator.wf(),
                n == self.scenarios@.len(),
                self.scenarios@ == old(self).scenarios_view(),
                self.config == old(self).config_view(),
                i <= n,
                self.results@.len() == i,
                forall|t: int| 0 <= t < i ==> result_matches(self.config, self.scenarios@[t], #[trigger] self.results@[t]),
            decreases n - i,
        {
            let result = self.run_scenario(&self.scenarios[i], &mut diagnostics_manager, &message_analyzer, &suggestion_validator);
            self.results.push(result);
            i = i + 1;
        }
        proof {
            let m = results_model(self.results@);
            assert forall|t: int| 0 <= t < m.len() implies (#[trigger] m[t]).score.part <= m[t].score.whole && m[t].score.whole <= 500 by {
                assert(result_matches(self.config, self.scenarios@[t], self.results@[t]));
            }
            lemma_bounded_scores(m);
        }
        Ok(self.generate_summary())
    }
}

/// Runs the default scenarios under the default configuration.
pub fn run_error_tests() -> (r: BingoResult<ErrorTestSummary>)
    ensures
        r matches Ok(s) && s.total_tests == 8,
{
    let config = ErrorTestConfig::default();
    let mut suite = ErrorTestSuite::new(config).with_default_scenarios();
    suite.run_tests()
}

} // verus!
