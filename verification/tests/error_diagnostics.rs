use bingo_core::error::BingoError;
use bingo_core::error_diagnostics::manager::{record_trend, severity_name};
use bingo_core::error_diagnostics::similarity::{distinct_words, white_space};
use bingo_core::error_diagnostics::{
    calculate_message_similarity, DebugSessionConfig, DiagnosticsConfig, ErrorDiagnosticsManager, ErrorToDiagnostic,
    ErrorTrendPoint, ResultDiagnosticExt, VerbosityLevel,
};
use bingo_core::ErrorSeverity;

const T0: i64 = 1_700_000_000_000;

fn config(max: usize) -> DiagnosticsConfig {
    DiagnosticsConfig {
        max_diagnostics: max,
        enable_analytics: true,
        auto_documentation_links: true,
        suggestion_priority_threshold: 50,
    }
}

#[test]
fn test_error_diagnostics_creation() {
    let mut manager = ErrorDiagnosticsManager::new(DiagnosticsConfig::default());
    let error = BingoError::rule_validation("Test rule error");
    let diagnostic = manager.create_diagnostic(error);

    assert!(!diagnostic.suggestions.is_empty());
    assert_eq!(diagnostic.category, "rule");
}

#[test]
fn test_message_similarity() {
    let msg1 = "Rule compilation failed due to invalid syntax";
    let msg2 = "Rule compilation failed due to missing field";
    let similarity = calculate_message_similarity(msg1, msg2);

    assert!(similarity.part as f64 / similarity.whole as f64 > 0.5);
}

#[test]
fn test_similarity_exact_counts() {
    let r = calculate_message_similarity(
        "Rule compilation failed due to invalid syntax",
        "Rule compilation failed due to missing field",
    );
    assert_eq!((r.part, r.whole), (5, 9));
}

#[test]
fn test_similarity_of_word_sets() {
    // Repeated words count once; runs of white space of any kind separate words.
    let r = calculate_message_similarity("a a  b\tc", "c\u{3000}b\n\nd");
    assert_eq!((r.part, r.whole), (2, 4));
    let empty = calculate_message_similarity("", "   ");
    assert_eq!((empty.part, empty.whole), (0, 0));
    let same = calculate_message_similarity("x y", "y x");
    assert_eq!((same.part, same.whole), (2, 2));
}

#[test]
fn test_distinct_words_and_white_space() {
    let words = distinct_words("  alpha beta\u{2003}alpha\r\ngamma ");
    assert_eq!(words, vec!["alpha", "beta", "gamma"]);
    assert!(white_space('\u{85}'));
    assert!(white_space('\u{205F}'));
    assert!(!white_space('\u{200B}'));
    assert!(!white_space('x'));
}

#[test]
fn test_diagnostic_contents() {
    let mut manager = ErrorDiagnosticsManager::new(config(10));
    let error = BingoError::performance_timeout("match", 120, 100, "too slow");
    let d = manager.create_diagnostic_at(&error, 7, T0);
    assert_eq!(d.diagnostic_id, 7);
    assert_eq!(d.timestamp, T0);
    assert_eq!(d.error, "Performance error: too slow");
    assert_eq!(d.category, "performance");
    assert_eq!(d.suggestions.len(), 1);
    assert_eq!(d.suggestions[0].id, "performance_optimization");
    assert_eq!(d.documentation_links.len(), 1);
    assert_eq!(d.documentation_links[0].title, "Performance Optimization Guide");
    assert!(d.similar_errors.is_empty());
    assert!(d.location.is_none() && d.stack_trace.is_none());
    assert!(d.user_context.is_none() && d.system_state.is_none());
}

#[test]
fn test_repeated_error_is_similar() {
    let mut manager = ErrorDiagnosticsManager::new(config(10));
    manager.create_diagnostic_at(&BingoError::rule_validation("bad field amount"), 1, T0);
    manager.create_diagnostic_at(&BingoError::fact_store("insert", "bad field amount"), 2, T0 + 1);
    let again = manager.create_diagnostic_at(&BingoError::rule_validation("bad field amount"), 3, T0 + 2);
    assert_eq!(again.similar_errors.len(), 1);
    let s = &again.similar_errors[0];
    assert_eq!(s.occurred_at, T0);
    assert_eq!(s.message, "Rule error: bad field amount");
    assert!(s.resolution.is_none());
    assert_eq!((s.similarity.part, s.similarity.whole), (5, 5));
    // Sharing four of six words is not enough (0.67 <= 0.7).
    let other = manager.create_diagnostic_at(&BingoError::rule_validation("bad field total"), 4, T0 + 3);
    assert!(other.similar_errors.is_empty());
}

#[test]
fn test_similar_errors_at_most_five() {
    let mut manager = ErrorDiagnosticsManager::new(config(100));
    for i in 0..8 {
        manager.create_diagnostic_at(&BingoError::internal("lost connection"), i, T0 + i as i64);
    }
    let d = manager.create_diagnostic_at(&BingoError::internal("lost connection"), 99, T0 + 100);
    assert_eq!(d.similar_errors.len(), 5);
    let times: Vec<i64> = d.similar_errors.iter().map(|s| s.occurred_at).collect();
    assert_eq!(times, vec![T0, T0 + 1, T0 + 2, T0 + 3, T0 + 4]);
}

#[test]
fn test_oldest_diagnostic_dropped() {
    let mut manager = ErrorDiagnosticsManager::new(config(2));
    manager.create_diagnostic_at(&BingoError::internal("one two three"), 1, T0);
    manager.create_diagnostic_at(&BingoError::internal("four five six"), 2, T0 + 1);
    manager.create_diagnostic_at(&BingoError::internal("seven eight nine"), 3, T0 + 2);
    // The first was dropped, so a repeat of it finds nothing like it.
    let d = manager.create_diagnostic_at(&BingoError::internal("one two three"), 4, T0 + 3);
    assert!(d.similar_errors.is_empty());
    let report = manager.report_at(T0 + 10, None);
    assert_eq!(report.total_errors, 2);
}

#[test]
fn test_analytics_counts_and_trend() {
    let mut manager = ErrorDiagnosticsManager::new(config(100));
    manager.create_diagnostic_at(&BingoError::rule_validation("a"), 1, T0);
    manager.create_diagnostic_at(&BingoError::rule_validation("b"), 2, T0 + 60_000);
    manager.create_diagnostic_at(&BingoError::internal("c"), 3, T0 + 120_000);
    manager.create_diagnostic_at(&BingoError::internal("d"), 4, T0 + 400_000);
    let analytics = manager.get_analytics();
    assert_eq!(analytics.frequency_by_category.get("rule"), Some(&2));
    assert_eq!(analytics.frequency_by_category.get("internal"), Some(&2));
    assert_eq!(analytics.error_trends.len(), 2);
    assert_eq!(analytics.error_trends[0].timestamp, T0);
    assert_eq!(analytics.error_trends[0].error_count, 3);
    assert_eq!(analytics.error_trends[0].category_breakdown.get("rule"), Some(&2));
    assert_eq!(analytics.error_trends[0].category_breakdown.get("internal"), Some(&1));
    assert_eq!(analytics.error_trends[1].timestamp, T0 + 400_000);
    assert_eq!(analytics.error_trends[1].error_count, 1);
    assert!(analytics.common_patterns.is_empty());
    assert!(analytics.top_error_sources.is_empty());

    // A day later the first point is gone.
    manager.update_analytics_at("rule", T0 + 86_400_000 + 1);
    let analytics = manager.get_analytics();
    assert_eq!(analytics.error_trends.len(), 2);
    assert_eq!(analytics.error_trends[0].timestamp, T0 + 400_000);
    assert_eq!(analytics.error_trends[1].timestamp, T0 + 86_400_000 + 1);
    assert_eq!(analytics.frequency_by_category.get("rule"), Some(&3));
}

#[test]
fn test_analytics_off() {
    let mut c = config(100);
    c.enable_analytics = false;
    let mut manager = ErrorDiagnosticsManager::new(c);
    manager.create_diagnostic_at(&BingoError::rule_validation("a"), 1, T0);
    let analytics = manager.get_analytics();
    assert_eq!(analytics.frequency_by_category.len(), 0);
    assert!(analytics.error_trends.is_empty());
}

#[test]
fn test_trend_boundary() {
    let mut trends: Vec<ErrorTrendPoint> = Vec::new();
    record_trend(&mut trends, "x", T0);
    record_trend(&mut trends, "x", T0 + 299_999);
    assert_eq!(trends.len(), 1);
    record_trend(&mut trends, "x", T0 + 300_000);
    assert_eq!(trends.len(), 2);
    assert_eq!(trends[0].error_count, 2);
}

#[test]
fn test_debug_sessions() {
    let mut manager = ErrorDiagnosticsManager::new(config(100));
    let session_config = DebugSessionConfig {
        max_error_history: 2,
        auto_suggestions: true,
        include_system_state: false,
        verbosity: VerbosityLevel::Basic,
    };
    let id = manager.start_debug_session(session_config);
    assert!(manager.get_debug_session(id).is_some());
    assert!(manager.get_debug_session(id ^ 1).is_none());
    assert_eq!((id >> 76) & 0xf, 4);

    for (k, msg) in ["first", "second", "third"].iter().enumerate() {
        let d = manager.create_diagnostic_at(&BingoError::rule_validation(msg), k as u128, T0);
        manager.add_error_to_session(id, d);
    }
    let session = manager.get_debug_session(id).unwrap();
    assert_eq!(session.session_id, id);
    assert_eq!(session.error_history.len(), 2);
    assert_eq!(session.error_history[0].error, "Rule error: second");
    assert_eq!(session.current_error.as_ref().unwrap().error, "Rule error: third");
    assert_eq!(session.active_suggestions.len(), 1);
    assert_eq!(session.active_suggestions[0].id, "rule_validation");

    // Adding to an unknown session changes nothing.
    let d = manager.create_diagnostic_at(&BingoError::internal("x"), 9, T0);
    manager.add_error_to_session(id ^ 1, d);
    assert!(manager.get_debug_session(id ^ 1).is_none());
    assert_eq!(manager.get_debug_session(id).unwrap().error_history.len(), 2);
}

#[test]
fn test_default_configs() {
    let c = DiagnosticsConfig::default();
    assert_eq!(c.max_diagnostics, 1000);
    assert!(c.enable_analytics && c.auto_documentation_links);
    assert_eq!(c.suggestion_priority_threshold, 50);
    let s = DebugSessionConfig::default();
    assert_eq!(s.max_error_history, 50);
    assert!(s.auto_suggestions && s.include_system_state);
    assert_eq!(s.verbosity, VerbosityLevel::Detailed);
}

#[test]
fn test_error_report() {
    let mut manager = ErrorDiagnosticsManager::new(config(100));
    manager.create_diagnostic_at(&BingoError::internal("old"), 1, T0 - 90_000_000);
    manager.create_diagnostic_at(&BingoError::rule_validation("x"), 2, T0 - 1000);
    manager.create_diagnostic_at(&BingoError::rule_validation("x"), 3, T0 - 900);
    manager.create_diagnostic_at(&BingoError::performance_timeout("op", 5, 1, "slow"), 4, T0 - 800);
    manager.create_diagnostic_at(&BingoError::fact_store("insert", "disk"), 5, T0 - 700);
    let report = manager.report_at(T0, None);
    assert_eq!(report.time_range, 86_400_000);
    assert_eq!(report.total_errors, 4);
    assert_eq!(report.errors_by_category.get("rule"), Some(&2));
    assert_eq!(report.errors_by_category.get("performance"), Some(&1));
    assert_eq!(report.errors_by_category.get("fact_store"), Some(&1));
    assert_eq!(report.errors_by_category.get("internal"), None);
    assert_eq!(report.errors_by_severity.get("Medium"), Some(&2));
    assert_eq!(report.errors_by_severity.get("High"), Some(&2));
    assert_eq!(report.errors_by_severity.get("Critical"), None);
    assert_eq!(report.most_common_errors[0], ("Rule error: x".to_string(), 2));
    assert_eq!(report.most_common_errors.len(), 3);
    let ids: Vec<&str> = report.resolution_suggestions.iter().map(|s| s.id.as_str()).collect();
    assert_eq!(ids, vec!["rule_validation", "rule_validation", "fact_store_recovery", "performance_optimization"]);

    let narrow = manager.report_at(T0, Some(750));
    assert_eq!(narrow.total_errors, 1);
    assert_eq!(narrow.time_range, 750);
    let now = manager.generate_error_report(None);
    assert_eq!(now.time_range, 86_400_000);
}

#[test]
fn test_report_top_five_suggestions() {
    let mut manager = ErrorDiagnosticsManager::new(config(100));
    for i in 0..4 {
        manager.create_diagnostic_at(&BingoError::internal("x"), i, T0);
    }
    manager.create_diagnostic_at(&BingoError::rule_compilation(1, "r", "bad"), 10, T0);
    let report = manager.report_at(T0, None);
    let got: Vec<(&str, u32)> = report.resolution_suggestions.iter().map(|s| (s.id.as_str(), s.priority)).collect();
    assert_eq!(
        got,
        vec![("rule_validation", 90), ("rule_debugger", 80), ("generic_debug", 50), ("generic_debug", 50), ("generic_debug", 50)]
    );
}

#[test]
fn test_severity_names() {
    assert_eq!(severity_name(ErrorSeverity::Low), format!("{:?}", ErrorSeverity::Low));
    assert_eq!(severity_name(ErrorSeverity::Critical), "Critical");
}

#[test]
fn test_result_extension_and_conversion() {
    let mut manager = ErrorDiagnosticsManager::new(config(100));
    let ok: Result<u32, BingoError> = Ok(5);
    assert_eq!(ok.with_diagnostics(&mut manager).unwrap(), 5);
    assert_eq!(manager.report_at(i64::MAX, Some(i64::MAX)).total_errors, 0);
    let err: Result<u32, BingoError> = Err(BingoError::rule_validation("broken"));
    let d = err.with_diagnostics(&mut manager).unwrap_err();
    assert_eq!(d.category, "rule");
    let d2 = BingoError::internal("boom").to_diagnostic(&mut manager);
    assert_eq!(d2.error, "Internal error: boom");
    assert_eq!(manager.get_analytics().frequency_by_category.len(), 2);
}
