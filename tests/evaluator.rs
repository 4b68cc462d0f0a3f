use lox::driver::{evaluate_source, parse_source, Outcome};
use lox::evaluator::Interpreter;
use lox::number::Number;
use lox::parser::{Expr, ParseErrorKind};
use lox::scanner::{Literal, ScanError, Token, TokenType};

fn value_of(source: &str) -> String {
    match evaluate_source(source) {
        Outcome::Success(s) => s,
        other => panic!("{:?} for {}", other, source),
    }
}

fn runtime_error_of(source: &str) -> (String, String, i32) {
    let outcome = evaluate_source(source);
    let code = outcome.exit_code();
    match outcome {
        Outcome::Runtime(e) => (e.message, e.token.lexeme, code),
        other => panic!("{:?} for {}", other, source),
    }
}

#[test]
fn multiplication_before_addition() {
    assert_eq!(value_of("2 + 3 * 4"), "14");
}

#[test]
fn grouping_overrides_precedence() {
    assert_eq!(value_of("(1 + 2) * 3"), "9");
}

#[test]
fn equality_never_coerces() {
    assert_eq!(value_of("\"1\" == 1"), "false");
    assert_eq!(value_of("1 == 1"), "true");
    assert_eq!(value_of("nil == nil"), "true");
    assert_eq!(value_of("1 != 2"), "true");
    assert_eq!(value_of("true == nil"), "false");
    assert_eq!(value_of("\"a\" == \"a\""), "true");
}

#[test]
fn plus_on_strings_and_mixed_operands() {
    assert_eq!(value_of("\"foo\" + \"bar\""), "foobar");
    let (message, lexeme, code) = runtime_error_of("1 + \"bar\"");
    assert_eq!(message, "Operands must be two numbers or strings.");
    assert_eq!(lexeme, "+");
    assert_eq!(code, 70);
}

#[test]
fn division_by_zero() {
    let (message, lexeme, code) = runtime_error_of("10 / 0");
    assert_eq!(message, "Division by zero");
    assert_eq!(lexeme, "/");
    assert_eq!(code, 70);
}

#[test]
fn only_false_and_nil_are_falsy() {
    assert_eq!(value_of("!nil"), "true");
    assert_eq!(value_of("!0"), "false");
    assert_eq!(value_of("!\"\""), "false");
    assert_eq!(value_of("!false"), "true");
    assert_eq!(value_of("!true"), "false");
}

#[test]
fn comparisons() {
    assert_eq!(value_of("1 < 2"), "true");
    assert_eq!(value_of("2 <= 2"), "true");
    assert_eq!(value_of("3 > 4"), "false");
    assert_eq!(value_of("3 >= 3"), "true");
    let (message, _, code) = runtime_error_of("1 < \"a\"");
    assert_eq!(message, "Operands must be numbers.");
    assert_eq!(code, 70);
}

#[test]
fn negation() {
    assert_eq!(value_of("-3"), "-3");
    assert_eq!(value_of("- -3"), "3");
    let (message, lexeme, code) = runtime_error_of("-\"a\"");
    assert_eq!(message, "Operand must be a number.");
    assert_eq!(lexeme, "-");
    assert_eq!(code, 70);
}

#[test]
fn fractions_are_exact() {
    assert_eq!(value_of("1 / 4"), "0.25");
    assert_eq!(value_of("1 / 3"), "0.3333333333333333");
    assert_eq!(value_of("0.1 + 0.2"), "0.3");
    assert_eq!(value_of("0.5 == 1 / 2"), "true");
    assert_eq!(value_of("2.5 * 2"), "5");
    assert_eq!(value_of("7 - 10"), "-3");
}

#[test]
fn large_numbers_never_overflow() {
    assert_eq!(value_of("9223372036854775807 + 1"), "9223372036854775808");
    assert_eq!(value_of("-(-9223372036854775807 - 1)"), "9223372036854775808");
    assert_eq!(
        value_of("99999999999999999999 * 99999999999999999999"),
        "9999999999999999999800000000000000000001"
    );
    assert_eq!(value_of("100000000000000000000 / 8"), "12500000000000000000");
    assert_eq!(evaluate_source("123456789012345678901234567890 - 1").exit_code(), 0);
}

#[test]
fn lexical_and_parse_errors_exit_65() {
    let outcome = evaluate_source("1 + @");
    assert_eq!(outcome.exit_code(), 65);
    match outcome {
        Outcome::Lexical(errors) => {
            assert_eq!(errors, vec![ScanError::UnexpectedCharacter { line: 1, ch: '@' }])
        }
        other => panic!("{:?}", other),
    }
    let outcome = evaluate_source("\"abc");
    assert_eq!(outcome.exit_code(), 65);
    let outcome = evaluate_source("1 +");
    assert_eq!(outcome.exit_code(), 65);
    match outcome {
        Outcome::Parse(e) => assert_eq!(e.kind, ParseErrorKind::ExpectExpression),
        other => panic!("{:?}", other),
    }
}

#[test]
fn string_results_print_verbatim() {
    assert_eq!(value_of("\"hello world\""), "hello world");
    assert_eq!(value_of("nil"), "nil");
    assert_eq!(value_of("(true)"), "true");
}

#[test]
fn parse_mode_prints_the_tree() {
    match parse_source("1 + (2 * -3)") {
        Outcome::Success(s) => assert_eq!(s, "(+ 1.0 (group (* 2.0 (- 3.0))))"),
        other => panic!("{:?}", other),
    }
    assert_eq!(parse_source("(1").exit_code(), 65);
}

#[test]
fn interpreter_on_a_tree_built_by_hand() {
    let star = Token { token_type: TokenType::Star, lexeme: "*".to_string(), literal: None, line: 3 };
    let e = Expr::new_binary(
        Expr::new_literal(Literal::Number(Number { negative: false, digits: vec![5, 1], scale: 1 })),
        star,
        Expr::new_literal(Literal::Number(Number { negative: false, digits: vec![4], scale: 0 })),
    );
    let interpreter = Interpreter::new();
    assert_eq!(interpreter.interpret(&e).unwrap(), "6");
    let bang = Token { token_type: TokenType::Dot, lexeme: ".".to_string(), literal: None, line: 1 };
    let e = Expr::new_unary(bang, Expr::new_literal(Literal::Nil));
    let err = interpreter.evaluate(&e).unwrap_err();
    assert_eq!(err.message, "Invalid unary operator.");
    let comma = Token { token_type: TokenType::Comma, lexeme: ",".to_string(), literal: None, line: 4 };
    let e = Expr::new_binary(Expr::new_literal(Literal::Nil), comma, Expr::new_literal(Literal::Nil));
    let err = interpreter.evaluate(&e).unwrap_err();
    assert_eq!(err.message, "Unknown binary operator");
    assert_eq!(err.token.line, 4);
}

#[test]
fn stringify_and_truthiness() {
    let interpreter = Interpreter::new();
    assert_eq!(interpreter.stringify(&None), "nil");
    let ten = Number { negative: false, digits: vec![0, 1], scale: 0 };
    assert_eq!(interpreter.stringify(&Some(Literal::Number(ten))), "10");
    let zero = Number { negative: false, digits: vec![0], scale: 0 };
    assert!(interpreter.is_truthy(&Literal::Number(zero)));
    assert!(!interpreter.is_truthy(&Literal::Nil));
    assert!(interpreter.is_equal(
        &Literal::Number(Number { negative: false, digits: vec![5], scale: 1 }),
        &Literal::Number(Number { negative: false, digits: vec![0, 5, 0], scale: 2 })
    ));
    assert!(!interpreter.is_equal(
        &Literal::String("1".to_string()),
        &Literal::Number(Number { negative: false, digits: vec![1], scale: 0 })
    ));
}
