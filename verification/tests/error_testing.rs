use bingo_core::error_diagnostics::{EffortLevel, ErrorSuggestion, RiskLevel};
use bingo_core::error_testing::{ErrorMessageAnalyzer, ErrorSuggestionValidator, ErrorTestConfig, ErrorTestSuite};

#[test]
fn test_error_test_suite_creation() {
    let config = ErrorTestConfig::default();
    let test_suite = ErrorTestSuite::new(config);
    assert!(test_suite.scenarios().is_empty());
}

#[test]
fn test_default_scenarios() {
    let test_suite = ErrorTestSuite::new(ErrorTestConfig::default()).with_default_scenarios();
    assert!(!test_suite.scenarios().is_empty());
}

#[test]
fn test_message_analyzer() {
    let analyzer = ErrorMessageAnalyzer::new();

    let good_message = "Invalid field 'amount' in rule condition. Please check that the field exists and has the correct type.";
    let poor_message = "Error occurred";

    let good_score = analyzer.analyze_message(good_message);
    let poor_score = analyzer.analyze_message(poor_message);

    assert!(good_score > poor_score);
    assert!(good_score > 50);
}

#[test]
fn test_suggestion_validator() {
    let validator = ErrorSuggestionValidator::new();

    let good_suggestion = ErrorSuggestion {
        id: "test".to_string(),
        priority: 80,
        title: "Fix rule syntax".to_string(),
        description: "Correct the syntax error".to_string(),
        steps: vec![],
        code_examples: vec![],
        effort: EffortLevel::Quick,
        risk: RiskLevel::VeryLow,
    };

    let result = validator.validate_suggestion(&good_suggestion);
    assert!(result.score > 0);
}

// Own tests.

#[test]
fn default_scenarios_count_is_eight() {
    let suite = ErrorTestSuite::new(ErrorTestConfig::default()).with_default_scenarios();
    assert_eq!(suite.scenarios().len(), 8);
}

#[test]
fn empty_message_scores_low() {
    let analyzer = ErrorMessageAnalyzer::new();
    let empty = analyzer.analyze_message("");
    let some = analyzer.analyze_message("Field 'x' is missing; add it to the fact.");
    assert!(empty <= some);
    assert!(some <= 100);
}

#[test]
fn run_error_tests_summarizes_default_scenarios() {
    let summary = bingo_core::error_testing::run_error_tests().unwrap();
    assert_eq!(summary.total_tests, 8);
    assert_eq!(summary.passed_tests + summary.failed_tests, 8);
    assert_eq!(summary.test_results.len(), 8);
    assert!(summary.top_issues.len() <= 5);
    assert!(summary.category_scores.contains_key("rule"));
    assert!(summary.average_score.part <= summary.average_score.whole);
}

#[test]
fn empty_suite_summary_is_zero() {
    let mut suite = ErrorTestSuite::new(ErrorTestConfig::default());
    let summary = suite.run_tests().unwrap();
    assert_eq!(summary.total_tests, 0);
    assert_eq!(summary.average_score.part, 0);
    assert_eq!(summary.average_score.whole, 0);
    assert!(summary.top_issues.is_empty());
    assert!(summary.improvement_recommendations.is_empty());
}
