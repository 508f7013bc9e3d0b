use bingo_core::payroll_expressions::{compile_expression, tokenize, ExpressionNode, ParseError, Token};

fn texts(tokens: &[Token]) -> Vec<String> {
    tokens
        .iter()
        .map(|t| match t {
            Token::Number(s) => format!("num:{}", s),
            Token::Field(s) => format!("field:{}", s),
            Token::Function(s) => format!("fn:{}", s),
            Token::Operator(c) => format!("op:{}", c),
            Token::LeftParen => "(".to_string(),
            Token::RightParen => ")".to_string(),
        })
        .collect()
}

fn show(n: &ExpressionNode) -> String {
    match n {
        ExpressionNode::Number(s) => s.clone(),
        ExpressionNode::Field(s) => format!("${}", s),
        ExpressionNode::BinaryOp { left, operator, right } => format!("({} {} {})", show(left), operator, show(right)),
        ExpressionNode::FunctionCall { name, args } => {
            format!("{}[{}]", name, args.iter().map(show).collect::<Vec<_>>().join(", "))
        }
    }
}

fn parsed(e: &str) -> String {
    match compile_expression(e) {
        Ok(n) => show(&n),
        Err(err) => format!("error: {:?}", err),
    }
}

#[test]
fn test_tokenize_arithmetic() {
    assert_eq!(texts(&tokenize("10 + 5")), vec!["num:10", "op:+", "num:5"]);
    assert_eq!(texts(&tokenize("20*1.5")), vec!["num:20", "op:*", "num:1.5"]);
    assert!(tokenize("  \t\n").is_empty());
}

#[test]
fn test_tokenize_functions_and_fields() {
    assert_eq!(
        texts(&tokenize("hours_between(start_datetime, finish_datetime)")),
        vec!["fn:hours_between", "op:(", "field:start_datetime", "op:,", "field:finish_datetime", "op:)"]
    );
    assert_eq!(texts(&tokenize("multiply minutes_to_hours")), vec!["fn:multiply", "fn:minutes_to_hours"]);
}

#[test]
fn test_number_texts() {
    assert_eq!(texts(&tokenize("1e5 .5 5. 1E-3 nan INF Infinity")), vec![
        "num:1e5", "num:.5", "num:5.", "field:1E", "op:-", "num:3", "num:nan", "num:INF", "num:Infinity"
    ]);
    assert_eq!(texts(&tokenize("1e . e5 1.2.3 1_000 infinit")), vec![
        "field:1e", "field:.", "field:e5", "field:1.2.3", "field:1_000", "field:infinit"
    ]);
}

#[test]
fn test_parse_precedence() {
    assert_eq!(parsed("10 + 5"), "(10 + 5)");
    assert_eq!(parsed("a + b * c"), "($a + ($b * $c))");
    assert_eq!(parsed("a - b - c"), "(($a - $b) - $c)");
    assert_eq!(parsed("(a + b) / 2"), "(($a + $b) / 2)");
    assert_eq!(parsed("base_rate * multiplier"), "($base_rate * $multiplier)");
}

#[test]
fn test_parse_calls() {
    assert_eq!(
        parsed("hours_between(start_datetime, finish_datetime)"),
        "hours_between[$start_datetime, $finish_datetime]"
    );
    assert_eq!(parsed("multiply(2 3)"), "multiply[2, 3]");
    assert_eq!(parsed("minutes_to_hours()"), "minutes_to_hours[]");
    assert_eq!(parsed("multiply(minutes_to_hours(90), 2) + 1"), "(multiply[minutes_to_hours[90], 2] + 1)");
}

#[test]
fn test_parse_ignores_trailing_tokens() {
    assert_eq!(parsed("10 5"), "10");
    assert_eq!(parsed("1 )"), "1");
}

#[test]
fn test_parse_errors() {
    assert!(matches!(compile_expression(""), Err(ParseError::UnexpectedEnd)));
    assert!(matches!(compile_expression("1 +"), Err(ParseError::UnexpectedEnd)));
    assert!(matches!(compile_expression("(1 + 2"), Err(ParseError::ExpectedClose)));
    assert!(matches!(compile_expression("multiply 2"), Err(ParseError::ExpectedOpenParen)));
    assert!(matches!(compile_expression("multiply(2, 3"), Err(ParseError::ExpectedCloseAfterArguments)));
    assert!(matches!(compile_expression("* 2"), Err(ParseError::UnexpectedToken(Token::Operator('*')))));
    assert!(matches!(compile_expression(", 2"), Err(ParseError::UnexpectedToken(Token::Operator(',')))));
}
