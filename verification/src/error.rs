//! Structured errors of the engine: categories, severities, context and the
//! constructors for common failures.

use vstd::prelude::*;
use crate::types::opt_str_view;

verus! {

/// Error type of engine operations.
#[derive(Debug, Clone)]
pub enum BingoError {
    /// Rule compilation and validation errors
    Rule { message: String, rule_id: Option<u64>, rule_name: Option<String>, details: Option<String> },
    /// Rule condition parsing and validation errors
    Condition { message: String, field: Option<String>, operator: Option<String>, value: Option<String> },
    /// Fact store operation errors
    FactStore { message: String, fact_id: Option<u64>, operation: Option<String>, details: Option<String> },
    /// RETE network compilation and processing errors
    ReteNetwork { message: String, node_type: Option<String>, network_state: Option<String>, details: Option<String> },
    /// Calculator and expression evaluation errors
    Calculator { message: String, expression: Option<String>, variable: Option<String>, operation: Option<String> },
    /// Aggregation processing errors
    Aggregation {
        message: String,
        aggregation_type: Option<String>,
        source_field: Option<String>,
        group_by: Option<Vec<String>>,
        details: Option<String>,
    },
    /// Memory and resource management errors
    Memory { message: String, pool_type: Option<String>, requested_size: Option<usize>, available_size: Option<usize> },
    /// Serialization and deserialization errors
    Serialization { message: String, data_type: Option<String>, operation: Option<String> },
    /// Configuration and initialization errors
    Configuration { message: String, setting: Option<String>, expected: Option<String>, actual: Option<String> },
    /// Performance and timeout errors
    Performance { message: String, operation: Option<String>, duration_ms: Option<u64>, limit_ms: Option<u64> },
    /// External dependency errors (I/O, network, etc.)
    External { message: String, service: Option<String>, source_details: Option<String> },
    /// Generic internal errors
    Internal { message: String, component: Option<String>, source_details: Option<String> },
}

/// Result type of engine operations.
pub type BingoResult<T> = Result<T, BingoError>;

/// Error severity levels for logging and alerting.
#[derive(Debug, Clone, Copy, PartialEq, Eq, Structural)]
pub enum ErrorSeverity {
    Low,
    Medium,
    High,
    Critical,
}

/// The category name of an error.
pub open spec fn category_spec(e: BingoError) -> Seq<char> {
    match e {
        BingoError::Rule { .. } => seq!['r', 'u', 'l', 'e'],
        BingoError::Condition { .. } => seq!['c', 'o', 'n', 'd', 'i', 't', 'i', 'o', 'n'],
        BingoError::FactStore { .. } => seq!['f', 'a', 'c', 't', '_', 's', 't', 'o', 'r', 'e'],
        BingoError::ReteNetwork { .. } => seq!['r', 'e', 't', 'e', '_', 'n', 'e', 't', 'w', 'o', 'r', 'k'],
        BingoError::Calculator { .. } => seq!['c', 'a', 'l', 'c', 'u', 'l', 'a', 't', 'o', 'r'],
        BingoError::Aggregation { .. } => seq!['a', 'g', 'g', 'r', 'e', 'g', 'a', 't', 'i', 'o', 'n'],
        BingoError::Memory { .. } => seq!['m', 'e', 'm', 'o', 'r', 'y'],
        BingoError::Serialization { .. } => seq!['s', 'e', 'r', 'i', 'a', 'l', 'i', 'z', 'a', 't', 'i', 'o', 'n'],
        BingoError::Configuration { .. } => seq!['c', 'o', 'n', 'f', 'i', 'g', 'u', 'r', 'a', 't', 'i', 'o', 'n'],
        BingoError::Performance { .. } => seq!['p', 'e', 'r', 'f', 'o', 'r', 'm', 'a', 'n', 'c', 'e'],
        BingoError::External { .. } => seq!['e', 'x', 't', 'e', 'r', 'n', 'a', 'l'],
        BingoError::Internal { .. } => seq!['i', 'n', 't', 'e', 'r', 'n', 'a', 'l'],
    }
}

/// The severity of an error.
pub open spec fn severity_spec(e: BingoError) -> ErrorSeverity {
    match e {
        BingoError::Rule { .. } => ErrorSeverity::Medium,
        BingoError::Condition { .. } => ErrorSeverity::Medium,
        BingoError::FactStore { .. } => ErrorSeverity::High,
        BingoError::ReteNetwork { .. } => ErrorSeverity::High,
        BingoError::Calculator { .. } => ErrorSeverity::Medium,
        BingoError::Aggregation { .. } => ErrorSeverity::Medium,
        BingoError::Memory { .. } => ErrorSeverity::Critical,
        BingoError::Serialization { .. } => ErrorSeverity::Low,
        BingoError::Configuration { .. } => ErrorSeverity::Critical,
        BingoError::Performance { .. } => ErrorSeverity::High,
        BingoError::External { .. } => ErrorSeverity::Medium,
        BingoError::Internal { .. } => ErrorSeverity::Critical,
    }
}

/// Whether an error is recoverable.
pub open spec fn recoverable_spec(e: BingoError) -> bool {
    match e {
        BingoError::Rule { .. } => true,
        BingoError::Condition { .. } => true,
        BingoError::FactStore { .. } => false,
        BingoError::ReteNetwork { .. } => false,
        BingoError::Calculator { .. } => true,
        BingoError::Aggregation { .. } => true,
        BingoError::Memory { .. } => false,
        BingoError::Serialization { .. } => true,
        BingoError::Configuration { .. } => false,
        BingoError::Performance { .. } => true,
        BingoError::External { .. } => true,
        BingoError::Internal { .. } => false,
    }
}

/// Structured error context for debugging and telemetry.
#[derive(Debug, Clone)]
pub struct ErrorContext {
    pub rule_id: Option<u64>,
    pub rule_name: Option<String>,
    pub fact_id: Option<u64>,
    pub field: Option<String>,
    pub operator: Option<String>,
    pub value: Option<String>,
    pub expression: Option<String>,
    pub variable: Option<String>,
    pub operation: Option<String>,
    pub aggregation_type: Option<String>,
}

/// Mathematical model of an [`ErrorContext`].
pub struct ContextView {
    pub rule_id: Option<u64>,
    pub rule_name: Option<Seq<char>>,
    pub fact_id: Option<u64>,
    pub field: Option<Seq<char>>,
    pub operator: Option<Seq<char>>,
    pub value: Option<Seq<char>>,
    pub expression: Option<Seq<char>>,
    pub variable: Option<Seq<char>>,
    pub operation: Option<Seq<char>>,
    pub aggregation_type: Option<Seq<char>>,
}

impl View for ErrorContext {
    type V = ContextView;

    open spec fn view(&self) -> ContextView {
        ContextView {
            rule_id: self.rule_id,
            rule_name: opt_str_view(self.rule_name),
            fact_id: self.fact_id,
            field: opt_str_view(self.field),
            operator: opt_str_view(self.operator),
            value: opt_str_view(self.value),
            expression: opt_str_view(self.expression),
            variable: opt_str_view(self.variable),
            operation: opt_str_view(self.operation),
            aggregation_type: opt_str_view(self.aggregation_type),
        }
    }
}

/// The context with every entry absent.
pub open spec fn empty_context() -> ContextView {
    ContextView {
        rule_id: None,
        rule_name: None,
        fact_id: None,
        field: None,
        operator: None,
        value: None,
        expression: None,
        variable: None,
        operation: None,
        aggregation_type: None,
    }
}

/// The context that an error carries.
pub open spec fn context_spec(e: BingoError) -> ContextView {
    match e {
        BingoError::Rule { rule_id, rule_name, .. } => ContextView {
            rule_id,
            rule_name: opt_str_view(rule_name),
            ..empty_context()
        },
        BingoError::Condition { field, operator, value, .. } => ContextView {
            field: opt_str_view(field),
            operator: opt_str_view(operator),
            value: opt_str_view(value),
            ..empty_context()
        },
        BingoError::FactStore { fact_id, operation, .. } => ContextView {
            fact_id,
            operation: opt_str_view(operation),
            ..empty_context()
        },
        BingoError::Calculator { expression, variable, operation, .. } => ContextView {
            expression: opt_str_view(expression),
            variable: opt_str_view(variable),
            operation: opt_str_view(operation),
            ..empty_context()
        },
        BingoError::Aggregation { aggregation_type, source_field, .. } => ContextView {
            aggregation_type: opt_str_view(aggregation_type),
            field: opt_str_view(source_field),
            ..empty_context()
        },
        _ => empty_context(),
    }
}

impl ErrorContext {
    /// The context with every entry absent.
    pub fn empty() -> (c: ErrorContext)
        ensures
            c@ == empty_context(),
    {
        ErrorContext {
            rule_id: None,
            rule_name: None,
            fact_id: None,
            field: None,
            operator: None,
            value: None,
            expression: None,
            variable: None,
            operation: None,
            aggregation_type: None,
        }
    }
}

impl Default for ErrorContext {
    fn default() -> (c: ErrorContext)
        ensures
            c@ == empty_context(),
    {
        ErrorContext::empty()
    }
}

/// A copy of an optional string.
fn copy_opt(s: &Option<String>) -> (r: Option<String>)
    ensures
        opt_str_view(r) == opt_str_view(*s),
{
    match s {
        Some(x) => Some(x.clone()),
        None => None,
    }
}

impl BingoError {
    /// The error category, for logging and metrics.
    pub fn category(&self) -> (s: &'static str)
        ensures
            s@ == category_spec(*self),
    {
        proof {
            reveal_strlit("rule");
            reveal_strlit("condition");
            reveal_strlit("fact_store");
            reveal_strlit("rete_network");
            reveal_strlit("calculator");
            reveal_strlit("aggregation");
            reveal_strlit("memory");
            reveal_strlit("serialization");
            reveal_strlit("configuration");
            reveal_strlit("performance");
            reveal_strlit("external");
            reveal_strlit("internal");
        }
        let s = match self {
            BingoError::Rule { .. } => "rule",
            BingoError::Condition { .. } => "condition",
            BingoError::FactStore { .. } => "fact_store",
            BingoError::ReteNetwork { .. } => "rete_network",
            BingoError::Calculator { .. } => "calculator",
            BingoError::Aggregation { .. } => "aggregation",
            BingoError::Memory { .. } => "memory",
            BingoError::Serialization { .. } => "serialization",
            BingoError::Configuration { .. } => "configuration",
            BingoError::Performance { .. } => "performance",
            BingoError::External { .. } => "external",
            BingoError::Internal { .. } => "internal",
        };
        proof {
            assert(s@ =~= category_spec(*self));
        }
        s
    }

    /// The error severity.
    pub fn severity(&self) -> (s: ErrorSeverity)
        ensures
            s == severity_spec(*self),
    {
        match self {
            BingoError::Rule { .. } => ErrorSeverity::Medium,
            BingoError::Condition { .. } => ErrorSeverity::Medium,
            BingoError::FactStore { .. } => ErrorSeverity::High,
            BingoError::ReteNetwork { .. } => ErrorSeverity::High,
            BingoError::Calculator { .. } => ErrorSeverity::Medium,
            BingoError::Aggregation { .. } => ErrorSeverity::Medium,
            BingoError::Memory { .. } => ErrorSeverity::Critical,
            BingoError::Serialization { .. } => ErrorSeverity::Low,
            BingoError::Configuration { .. } => ErrorSeverity::Critical,
            BingoError::Performance { .. } => ErrorSeverity::High,
            BingoError::External { .. } => ErrorSeverity::Medium,
            BingoError::Internal { .. } => ErrorSeverity::Critical,
        }
    }

    /// The structured context that the error carries.
    pub fn context(&self) -> (c: ErrorContext)
        ensures
            c@ == context_spec(*self),
    {
        match self {
            BingoError::Rule { rule_id, rule_name, .. } => ErrorContext {
                rule_id: *rule_id,
                rule_name: copy_opt(rule_name),
                ..ErrorContext::empty()
            },
            BingoError::Condition { field, operator, value, .. } => ErrorContext {
                field: copy_opt(field),
                operator: copy_opt(operator),
                value: copy_opt(value),
                ..ErrorContext::empty()
            },
            BingoError::FactStore { fact_id, operation, .. } => ErrorContext {
                fact_id: *fact_id,
                operation: copy_opt(operation),
                ..ErrorContext::empty()
            },
            BingoError::Calculator { expression, variable, operation, .. } => ErrorContext {
                expression: copy_opt(expression),
                variable: copy_opt(variable),
                operation: copy_opt(operation),
                ..ErrorContext::empty()
            },
            BingoError::Aggregation { aggregation_type, source_field, .. } => ErrorContext {
                aggregation_type: copy_opt(aggregation_type),
                field: copy_opt(source_field),
                ..ErrorContext::empty()
            },
            _ => ErrorContext::empty(),
        }
    }

    /// Whether the engine can continue after this error.
    pub fn is_recoverable(&self) -> (b: bool)
        ensures
            b == recoverable_spec(*self),
    {
        match self {
            BingoError::Rule { .. } => true,
            BingoError::Condition { .. } => true,
            BingoError::FactStore { .. } => false,
            BingoError::ReteNetwork { .. } => false,
            BingoError::Calculator { .. } => true,
            BingoError::Aggregation { .. } => true,
            BingoError::Memory { .. } => false,
            BingoError::Serialization { .. } => true,
            BingoError::Configuration { .. } => false,
            BingoError::Performance { .. } => true,
            BingoError::External { .. } => true,
            BingoError::Internal { .. } => false,
        }
    }
}

/// The text `{prefix}: {message}` that the error displays as.
pub open spec fn display_spec(e: BingoError) -> Seq<char> {
    match e {
        BingoError::Rule { message, .. } => seq!['R', 'u', 'l', 'e', ' ', 'e', 'r', 'r', 'o', 'r', ':', ' '] + message@,
        BingoError::Condition { message, .. } => seq!['C', 'o', 'n', 'd', 'i', 't', 'i', 'o', 'n', ' ', 'e', 'r', 'r', 'o', 'r', ':', ' '] + message@,
        BingoError::FactStore { message, .. } => seq!['F', 'a', 'c', 't', ' ', 's', 't', 'o', 'r', 'e', ' ', 'e', 'r', 'r', 'o', 'r', ':', ' '] + message@,
        BingoError::ReteNetwork { message, .. } => seq!['R', 'E', 'T', 'E', ' ', 'n', 'e', 't', 'w', 'o', 'r', 'k', ' ', 'e', 'r', 'r', 'o', 'r', ':', ' '] + message@,
        BingoError::Calculator { message, .. } => seq!['C', 'a', 'l', 'c', 'u', 'l', 'a', 't', 'o', 'r', ' ', 'e', 'r', 'r', 'o', 'r', ':', ' '] + message@,
        BingoError::Aggregation { message, .. } => seq!['A', 'g', 'g', 'r', 'e', 'g', 'a', 't', 'i', 'o', 'n', ' ', 'e', 'r', 'r', 'o', 'r', ':', ' '] + message@,
        BingoError::Memory { message, .. } => seq!['M', 'e', 'm', 'o', 'r', 'y', ' ', 'e', 'r', 'r', 'o', 'r', ':', ' '] + message@,
        BingoError::Serialization { message, .. } => seq!['S', 'e', 'r', 'i', 'a', 'l', 'i', 'z', 'a', 't', 'i', 'o', 'n', ' ', 'e', 'r', 'r', 'o', 'r', ':', ' '] + message@,
        BingoError::Configuration { message, .. } => seq!['C', 'o', 'n', 'f', 'i', 'g', 'u', 'r', 'a', 't', 'i', 'o', 'n', ' ', 'e', 'r', 'r', 'o', 'r', ':', ' '] + message@,
        BingoError::Performance { message, .. } => seq!['P', 'e', 'r', 'f', 'o', 'r', 'm', 'a', 'n', 'c', 'e', ' ', 'e', 'r', 'r', 'o', 'r', ':', ' '] + message@,
        BingoError::External { message, .. } => seq!['E', 'x', 't', 'e', 'r', 'n', 'a', 'l', ' ', 'e', 'r', 'r', 'o', 'r', ':', ' '] + message@,
        BingoError::Internal { message, .. } => seq!['I', 'n', 't', 'e', 'r', 'n', 'a', 'l', ' ', 'e', 'r', 'r', 'o', 'r', ':', ' '] + message@,
    }
}

/// A string with the given text.
fn owned(s: &str) -> (r: String)
    ensures
        r@ == s@,
{
    String::from_str(s)
}

impl BingoError {
    /// The text the error displays as, such as `Rule error: <message>`.
    pub fn to_display_string(&self) -> (s: String)
        ensures
            s@ == display_spec(*self),
    {
        proof {
            reveal_strlit("Rule error: ");
            reveal_strlit("Condition error: ");
            reveal_strlit("Fact store error: ");
            reveal_strlit("RETE network error: ");
            reveal_strlit("Calculator error: ");
            reveal_strlit("Aggregation error: ");
            reveal_strlit("Memory error: ");
            reveal_strlit("Serialization error: ");
            reveal_strlit("Configuration error: ");
            reveal_strlit("Performance error: ");
            reveal_strlit("External error: ");
            reveal_strlit("Internal error: ");
        }
        let (prefix, message) = match self {
            BingoError::Rule { message, .. } => ("Rule error: ", message),
            BingoError::Condition { message, .. } => ("Condition error: ", message),
            BingoError::FactStore { message, .. } => ("Fact store error: ", message),
            BingoError::ReteNetwork { message, .. } => ("RETE network error: ", message),
            BingoError::Calculator { message, .. } => ("Calculator error: ", message),
            BingoError::Aggregation { message, .. } => ("Aggregation error: ", message),
            BingoError::Memory { message, .. } => ("Memory error: ", message),
            BingoError::Serialization { message, .. } => ("Serialization error: ", message),
            BingoError::Configuration { message, .. } => ("Configuration error: ", message),
            BingoError::Performance { message, .. } => ("Performance error: ", message),
            BingoError::External { message, .. } => ("External error: ", message),
            BingoError::Internal { message, .. } => ("Internal error: ", message),
        };
        let s = owned(prefix).concat(message.as_str());
        proof {
            assert(s@ =~= display_spec(*self));
        }
        s
    }

    /// A rule compilation error for the given rule.
    pub fn rule_compilation(rule_id: u64, rule_name: &str, message: &str) -> (e: BingoError)
        ensures
            e matches BingoError::Rule { message: m, rule_id: id, rule_name: n, details }
                && m@ == message@ && id == Some(rule_id) && opt_str_view(n) == Some(rule_name@) && details is None,
    {
        BingoError::Rule { message: owned(message), rule_id: Some(rule_id), rule_name: Some(owned(rule_name)), details: None }
    }

    /// A rule validation error.
    pub fn rule_validation(message: &str) -> (e: BingoError)
        ensures
            e matches BingoError::Rule { message: m, rule_id, rule_name, details }
                && m@ == message@ && rule_id is None && rule_name is None && details is None,
    {
        BingoError::Rule { message: owned(message), rule_id: None, rule_name: None, details: None }
    }

    /// A condition parsing error.
    pub fn condition_parse(field: &str, operator: &str, value: &str, message: &str) -> (e: BingoError)
        ensures
            e matches BingoError::Condition { message: m, field: f, operator: o, value: v }
                && m@ == message@ && opt_str_view(f) == Some(field@) && opt_str_view(o) == Some(operator@)
                && opt_str_view(v) == Some(value@),
    {
        BingoError::Condition {
            message: owned(message),
            field: Some(owned(field)),
            operator: Some(owned(operator)),
            value: Some(owned(value)),
        }
    }

    /// A fact store operation error.
    pub fn fact_store(operation: &str, message: &str) -> (e: BingoError)
        ensures
            e matches BingoError::FactStore { message: m, fact_id, operation: o, details }
                && m@ == message@ && fact_id is None && opt_str_view(o) == Some(operation@) && details is None,
    {
        BingoError::FactStore { message: owned(message), fact_id: None, operation: Some(owned(operation)), details: None }
    }

    /// A fact store operation error about a given fact.
    pub fn fact_store_with_id(fact_id: u64, operation: &str, message: &str) -> (e: BingoError)
        ensures
            e matches BingoError::FactStore { message: m, fact_id: id, operation: o, details }
                && m@ == message@ && id == Some(fact_id) && opt_str_view(o) == Some(operation@) && details is None,
    {
        BingoError::FactStore {
            message: owned(message),
            fact_id: Some(fact_id),
            operation: Some(owned(operation)),
            details: None,
        }
    }

    /// A RETE network error.
    pub fn rete_network(node_type: &str, message: &str) -> (e: BingoError)
        ensures
            e matches BingoError::ReteNetwork { message: m, node_type: t, network_state, details }
                && m@ == message@ && opt_str_view(t) == Some(node_type@) && network_state is None && details is None,
    {
        BingoError::ReteNetwork { message: owned(message), node_type: Some(owned(node_type)), network_state: None, details: None }
    }

    /// A calculator error.
    pub fn calculator(expression: &str, message: &str) -> (e: BingoError)
        ensures
            e matches BingoError::Calculator { message: m, expression: x, variable, operation }
                && m@ == message@ && opt_str_view(x) == Some(expression@) && variable is None && operation is None,
    {
        BingoError::Calculator { message: owned(message), expression: Some(owned(expression)), variable: None, operation: None }
    }

    /// An aggregation error.
    pub fn aggregation(aggregation_type: &str, source_field: &str, message: &str) -> (e: BingoError)
        ensures
            e matches BingoError::Aggregation { message: m, aggregation_type: a, source_field: f, group_by, details }
                && m@ == message@ && opt_str_view(a) == Some(aggregation_type@) && opt_str_view(f) == Some(source_field@)
                && group_by is None && details is None,
    {
        BingoError::Aggregation {
            message: owned(message),
            aggregation_type: Some(owned(aggregation_type)),
            source_field: Some(owned(source_field)),
            group_by: None,
            details: None,
        }
    }

    /// A memory allocation error.
    pub fn memory_allocation(pool_type: &str, requested: usize, available: usize, message: &str) -> (e: BingoError)
        ensures
            e matches BingoError::Memory { message: m, pool_type: p, requested_size, available_size }
                && m@ == message@ && opt_str_view(p) == Some(pool_type@) && requested_size == Some(requested)
                && available_size == Some(available),
    {
        BingoError::Memory {
            message: owned(message),
            pool_type: Some(owned(pool_type)),
            requested_size: Some(requested),
            available_size: Some(available),
        }
    }

    /// A serialization error.
    pub fn serialization(data_type: &str, operation: &str, message: &str) -> (e: BingoError)
        ensures
            e matches BingoError::Serialization { message: m, data_type: d, operation: o }
                && m@ == message@ && opt_str_view(d) == Some(data_type@) && opt_str_view(o) == Some(operation@),
    {
        BingoError::Serialization { message: owned(message), data_type: Some(owned(data_type)), operation: Some(owned(operation)) }
    }

    /// A configuration error.
    pub fn configuration(setting: &str, expected: &str, actual: &str, message: &str) -> (e: BingoError)
        ensures
            e matches BingoError::Configuration { message: m, setting: s, expected: x, actual: a }
                && m@ == message@ && opt_str_view(s) == Some(setting@) && opt_str_view(x) == Some(expected@)
                && opt_str_view(a) == Some(actual@),
    {
        BingoError::Configuration {
            message: owned(message),
            setting: Some(owned(setting)),
            expected: Some(owned(expected)),
            actual: Some(owned(actual)),
        }
    }

    /// A performance timeout error.
    pub fn performance_timeout(operation: &str, duration_ms: u64, limit_ms: u64, message: &str) -> (e: BingoError)
        ensures
            e matches BingoError::Performance { message: m, operation: o, duration_ms: d, limit_ms: l }
                && m@ == message@ && opt_str_view(o) == Some(operation@) && d == Some(duration_ms) && l == Some(limit_ms),
    {
        BingoError::Performance {
            message: owned(message),
            operation: Some(owned(operation)),
            duration_ms: Some(duration_ms),
            limit_ms: Some(limit_ms),
        }
    }

    /// An external dependency error.
    pub fn external_service(service: &str, message: &str) -> (e: BingoError)
        ensures
            e matches BingoError::External { message: m, service: s, source_details }
                && m@ == message@ && opt_str_view(s) == Some(service@) && source_details is None,
    {
        BingoError::External { message: owned(message), service: Some(owned(service)), source_details: None }
    }

    /// An internal error of a named component.
    pub fn internal_component(component: &str, message: &str) -> (e: BingoError)
        ensures
            e matches BingoError::Internal { message: m, component: c, source_details }
                && m@ == message@ && opt_str_view(c) == Some(component@) && source_details is None,
    {
        BingoError::Internal { message: owned(message), component: Some(owned(component)), source_details: None }
    }

    /// A generic internal error.
    pub fn internal(message: &str) -> (e: BingoError)
        ensures
            e matches BingoError::Internal { message: m, component, source_details }
                && m@ == message@ && component is None && source_details is None,
    {
        BingoError::Internal { message: owned(message), component: None, source_details: None }
    }
}

/// Adds context to the error of a result.
pub trait ResultExt<T>: Sized {
    /// Records the rule in a rule error.
    fn with_rule_context(self, rule_id: u64, rule_name: &str) -> BingoResult<T>;

    /// Records the fact in a fact store error.
    fn with_fact_context(self, fact_id: u64) -> BingoResult<T>;

    /// Records the operation in a fact store or calculator error.
    fn with_operation_context(self, operation: &str) -> BingoResult<T>;
}

impl<T> ResultExt<T> for BingoResult<T> {
    fn with_rule_context(self, rule_id: u64, rule_name: &str) -> (r: BingoResult<T>)
        ensures
            match self {
                Ok(v) => r == Ok::<T, BingoError>(v),
                Err(BingoError::Rule { message, details, .. }) => r matches Err(BingoError::Rule { message: m, rule_id: id, rule_name: n, details: d })
                    && m == message && id == Some(rule_id) && opt_str_view(n) == Some(rule_name@) && d == details,
                Err(e) => r == Err::<T, BingoError>(e),
            },
    {
        match self {
            Ok(v) => Ok(v),
            Err(BingoError::Rule { message, details, .. }) => Err(BingoError::Rule {
                message,
                rule_id: Some(rule_id),
                rule_name: Some(owned(rule_name)),
                details,
            }),
            Err(e) => Err(e),
        }
    }

    fn with_fact_context(self, fact_id: u64) -> (r: BingoResult<T>)
        ensures
            match self {
                Ok(v) => r == Ok::<T, BingoError>(v),
                Err(BingoError::FactStore { message, operation, details, .. }) => r == Err::<T, BingoError>(BingoError::FactStore {
                    message,
                    fact_id: Some(fact_id),
                    operation,
                    details,
                }),
                Err(e) => r == Err::<T, BingoError>(e),
            },
    {
        match self {
            Ok(v) => Ok(v),
            Err(BingoError::FactStore { message, operation, details, .. }) => Err(BingoError::FactStore {
                message,
                fact_id: Some(fact_id),
                operation,
                details,
            }),
            Err(e) => Err(e),
        }
    }

    fn with_operation_context(self, operation: &str) -> (r: BingoResult<T>)
        ensures
            match self {
                Ok(v) => r == Ok::<T, BingoError>(v),
                Err(BingoError::FactStore { message, fact_id, details, .. }) => r matches Err(BingoError::FactStore { message: m, fact_id: f, operation: o, details: d })
                    && m == message && f == fact_id && opt_str_view(o) == Some(operation@) && d == details,
                Err(BingoError::Calculator { message, expression, variable, .. }) => r matches Err(BingoError::Calculator { message: m, expression: x, variable: v, operation: o })
                    && m == message && x == expression && v == variable && opt_str_view(o) == Some(operation@),
                Err(e) => r == Err::<T, BingoError>(e),
            },
    {
        match self {
            Ok(v) => Ok(v),
            Err(BingoError::FactStore { message, fact_id, details, .. }) => Err(BingoError::FactStore {
                message,
                fact_id,
                operation: Some(owned(operation)),
                details,
            }),
            Err(BingoError::Calculator { message, expression, variable, .. }) => Err(BingoError::Calculator {
                message,
                expression,
                variable,
                operation: Some(owned(operation)),
            }),
            Err(e) => Err(e),
        }
    }
}

} // verus!
