use hacklangc::ast::Program;
use hacklangc::ast::Statement;
use hacklangc::evaluator::Evaluator;
use hacklangc::evaluator::RuntimeError;
use hacklangc::evaluator::Value;
use hacklangc::lexer::LexError;
use hacklangc::lexer::Lexer;
use hacklangc::lexer::Number;
use hacklangc::lexer::Token;
use hacklangc::lexer::render_tokens;
use hacklangc::parser::ParseError;
use hacklangc::parser::Parser;

fn scan(source: &str) -> Result<Vec<Token>, LexError> {
    let mut lexer = Lexer::new(source.to_string());
    lexer.tokenize()
}

fn parse(source: &str) -> Result<Program, ParseError> {
    let tokens = scan(source).expect("scanning should succeed");
    let mut parser = Parser::new(tokens);
    parser.parse_program()
}

fn run(source: &str) -> Result<Vec<Value>, RuntimeError> {
    let program = parse(source).expect("parsing should succeed");
    let mut evaluator = Evaluator::new();
    evaluator.evaluate(&program)?;
    Ok(evaluator.output().clone())
}

fn bits(x: f64) -> u64 {
    x.to_bits()
}

#[test]
fn empty_input_scans_to_eof_only() {
    assert_eq!(scan("").unwrap(), vec![Token::Eof]);
}

#[test]
fn scanning_produces_expected_tokens() {
    let tokens = scan("let x = 1 + 2.5 ; print x").unwrap();
    assert_eq!(
        tokens,
        vec![
            Token::Let,
            Token::Identifier("x".to_string()),
            Token::Equals,
            Token::Number(Number(bits(1.0))),
            Token::Plus,
            Token::Number(Number(bits(2.5))),
            Token::Semicolon,
            Token::Print,
            Token::Identifier("x".to_string()),
            Token::Eof,
        ]
    );
}

#[test]
fn no_print_program_evaluates_to_empty_output() {
    let output = run("let a = 1; let b = a + 2; let a = b * b;").unwrap();
    assert!(output.is_empty());
}

#[test]
fn rescanning_rendered_tokens_is_identity() {
    let tokens = scan("let x = 12 + 7 ; print x * 3").unwrap();
    let rendered = render_tokens(&tokens);
    let rescanned = scan(&rendered).unwrap();
    assert_eq!(rescanned, tokens);
}

#[test]
fn rescanning_rendered_fractional_literal_keeps_its_value() {
    let tokens = scan("print 2.5 + 0.125").unwrap();
    let rendered = render_tokens(&tokens);
    let rescanned = scan(&rendered).unwrap();
    assert_eq!(rescanned, tokens);
}

#[test]
fn product_binds_tighter_than_sum() {
    let program = parse("let x = 2 + 3 * 4;").expect("should parse");
    assert_eq!(program.statements.len(), 1);
    let mut evaluator = Evaluator::new();
    evaluator.evaluate(&program).unwrap();
    assert!(evaluator.output().is_empty());
    let follow_up = parse("print x;").unwrap();
    evaluator.evaluate(&follow_up).unwrap();
    assert_eq!(evaluator.output(), &vec![Value::Number(bits(14.0))]);
}

#[test]
fn division_by_zero_fails_with_no_output() {
    let program = parse("print 10 / 0;").unwrap();
    let mut evaluator = Evaluator::new();
    let result = evaluator.evaluate(&program);
    assert_eq!(result, Err(RuntimeError::DivisionByZero));
    assert!(evaluator.output().is_empty());
}

#[test]
fn division_by_fractional_zero_fails_too() {
    let result = run("print 1 / 0.0;");
    assert_eq!(result, Err(RuntimeError::DivisionByZero));
}

#[test]
fn undefined_variable_names_the_identifier() {
    let result = run("print y;");
    assert_eq!(
        result,
        Err(RuntimeError::UndefinedVariable { name: "y".to_string() })
    );
}

#[test]
fn subtraction_is_left_associative() {
    let output = run("print 10 - 2 - 3;").unwrap();
    assert_eq!(output, vec![Value::Number(bits(5.0))]);
}

#[test]
fn two_decimal_points_are_a_lexical_error() {
    let result = scan("1.2.3");
    assert_eq!(
        result,
        Err(LexError::InvalidNumber { lexeme: "1.2.3".to_string(), pos: 0 })
    );
}

#[test]
fn unexpected_character_reports_char_and_position() {
    let result = scan("let @ = 1");
    assert_eq!(result, Err(LexError::UnexpectedChar { ch: '@', pos: 4 }));
}

#[test]
fn missing_trailing_semicolon_is_accepted() {
    let program = parse("let x = 1").expect("should parse");
    assert_eq!(program.statements.len(), 1);
    match &program.statements[0] {
        Statement::Let(ls) => assert_eq!(ls.name, "x"),
        other => panic!("expected a let statement, got {:?}", other),
    }
}

#[test]
fn missing_identifier_after_let_is_a_syntax_error() {
    let result = parse("let = 1;");
    assert_eq!(
        result.unwrap_err(),
        ParseError::ExpectedIdentifier { found: Token::Equals }
    );
}

#[test]
fn missing_equals_after_name_is_a_syntax_error() {
    let result = parse("let x 1;");
    assert_eq!(
        result.unwrap_err(),
        ParseError::ExpectedEquals { found: Token::Number(Number(bits(1.0))) }
    );
}

#[test]
fn statement_must_start_with_a_keyword() {
    let result = parse("x = 1;");
    assert_eq!(
        result.unwrap_err(),
        ParseError::ExpectedStatement { found: Token::Identifier("x".to_string()) }
    );
}

#[test]
fn expression_must_start_with_number_or_identifier() {
    let result = parse("print ;");
    assert_eq!(
        result.unwrap_err(),
        ParseError::ExpectedExpression { found: Token::Semicolon }
    );
}

#[test]
fn arithmetic_matches_ieee_binary64() {
    let output = run("print 0.1 + 0.2; print 7 / 2; print 1.5 * 4; print 10 - 2.25;").unwrap();
    assert_eq!(
        output,
        vec![
            Value::Number(bits(0.1f64 + 0.2f64)),
            Value::Number(bits(3.5)),
            Value::Number(bits(6.0)),
            Value::Number(bits(7.75)),
        ]
    );
}

#[test]
fn later_binding_wins() {
    let output = run("let x = 1; let x = 2; print x;").unwrap();
    assert_eq!(output, vec![Value::Number(bits(2.0))]);
}

#[test]
fn output_before_a_failure_is_kept() {
    let program = parse("print 1; print 2 / 0;").unwrap();
    let mut evaluator = Evaluator::new();
    let result = evaluator.evaluate(&program);
    assert_eq!(result, Err(RuntimeError::DivisionByZero));
    assert_eq!(evaluator.output(), &vec![Value::Number(bits(1.0))]);
}

#[test]
fn keywords_need_exact_case() {
    let result = parse("Let x = 1;");
    assert_eq!(
        result.unwrap_err(),
        ParseError::ExpectedStatement { found: Token::Identifier("Let".to_string()) }
    );
}

#[test]
fn underscore_starts_an_identifier() {
    let output = run("let _a1 = 3; print _a1 * _a1;").unwrap();
    assert_eq!(output, vec![Value::Number(bits(9.0))]);
}

#[test]
fn statements_separated_only_by_keyword_are_accepted() {
    let output = run("let x = 1 print x").unwrap();
    assert_eq!(output, vec![Value::Number(bits(1.0))]);
}

#[test]
fn empty_program_evaluates_to_nothing() {
    let output = run("").unwrap();
    assert!(output.is_empty());
}

#[test]
fn trailing_dot_literal_parses_like_its_integer_part() {
    let output = run("print 2. + 1;").unwrap();
    assert_eq!(output, vec![Value::Number(bits(3.0))]);
}

#[test]
fn every_token_kind_survives_a_render_round_trip() {
    let tokens = scan("let a = 1 - 2 / 4 * 3 + 0.5 ; print a").unwrap();
    let rendered = render_tokens(&tokens);
    let rescanned = scan(&rendered).unwrap();
    assert_eq!(rescanned, tokens);
}

#[test]
fn unicode_whitespace_separates_tokens() {
    let output = run("let\u{00A0}x\u{000C}=\u{2003}1;\u{2028}print x").unwrap();
    assert_eq!(output, vec![Value::Number(bits(1.0))]);
}
