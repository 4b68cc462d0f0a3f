use lox::parser::{Expr, ParseError, ParseErrorKind, Parser};
use lox::scanner::{Literal, Scanner, Token, TokenType};

fn tokens_of(input: &str) -> Vec<Token> {
    let mut scanner = Scanner::new();
    scanner.scan_and_tokenize(input);
    scanner.tokens
}

fn tree_of(input: &str) -> Result<String, ParseError> {
    let mut parser = Parser::new(tokens_of(input));
    parser.parse().map(|e| e.to_text())
}

#[test]
fn multiplication_binds_tighter() {
    assert_eq!(tree_of("1 + 2 * 3").unwrap(), "(+ 1.0 (* 2.0 3.0))");
}

#[test]
fn same_level_operators_fold_left() {
    assert_eq!(tree_of("1 - 2 - 3").unwrap(), "(- (- 1.0 2.0) 3.0)");
    assert_eq!(tree_of("8 / 4 * 2").unwrap(), "(* (/ 8.0 4.0) 2.0)");
}

#[test]
fn unary_nests_to_the_right() {
    assert_eq!(tree_of("!!true").unwrap(), "(! (! true))");
    assert_eq!(tree_of("-3").unwrap(), "(- 3.0)");
}

#[test]
fn grouping_and_literals() {
    assert_eq!(tree_of("(1)").unwrap(), "(group 1.0)");
    assert_eq!(
        tree_of("(\"a\" == nil) != false").unwrap(),
        "(!= (group (== a nil)) false)"
    );
    assert_eq!(tree_of("1 < 2 == 3 >= 4").unwrap(), "(== (< 1.0 2.0) (>= 3.0 4.0))");
}

#[test]
fn missing_right_paren() {
    let err = tree_of("(1").unwrap_err();
    assert_eq!(err, ParseError { at: 2, line: 1, kind: ParseErrorKind::ExpectRightParen });
    assert_eq!(err.message(), "Expect ')' after expression.");
}

#[test]
fn missing_expression() {
    let err = tree_of("+").unwrap_err();
    assert_eq!(err, ParseError { at: 0, line: 1, kind: ParseErrorKind::ExpectExpression });
    assert_eq!(err.message(), "Expect expression.");
    let err = tree_of("1 +").unwrap_err();
    assert_eq!(err, ParseError { at: 2, line: 1, kind: ParseErrorKind::ExpectExpression });
}

#[test]
fn tokens_left_after_expression() {
    let err = tree_of("1 2").unwrap_err();
    assert_eq!(err, ParseError { at: 1, line: 1, kind: ParseErrorKind::ExpectEnd });
}

#[test]
fn no_tokens_at_all() {
    let mut parser = Parser::new(Vec::new());
    let err = parser.parse().unwrap_err();
    assert_eq!(err, ParseError { at: 0, line: 0, kind: ParseErrorKind::ExpectExpression });
}

#[test]
fn parse_error_gives_the_line_of_the_token() {
    let err = tree_of("(1 +

)").unwrap_err();
    assert_eq!(err, ParseError { at: 3, line: 3, kind: ParseErrorKind::ExpectExpression });
}

#[test]
fn expression_moves_the_cursor() {
    let mut parser = Parser::new(tokens_of("1 2"));
    let e = parser.expression().unwrap();
    assert_eq!(e.to_text(), "1.0");
    assert_eq!(parser.current, 1);
    let e = parser.expression().unwrap();
    assert_eq!(e.to_text(), "2.0");
    assert_eq!(parser.current, 2);
}

#[test]
fn string_token_without_literal_is_no_expression() {
    let tokens = vec![
        Token { token_type: TokenType::String, lexeme: "x".to_string(), literal: None, line: 1 },
        Token { token_type: TokenType::Eof, lexeme: String::new(), literal: None, line: 1 },
    ];
    let mut parser = Parser::new(tokens);
    let err = parser.parse().unwrap_err();
    assert_eq!(err, ParseError { at: 0, line: 1, kind: ParseErrorKind::ExpectExpression });
}

#[test]
fn trees_built_by_hand() {
    let plus = Token { token_type: TokenType::Plus, lexeme: "+".to_string(), literal: None, line: 1 };
    let e = Expr::new_binary(
        Expr::new_literal(Literal::Bool(true)),
        plus,
        Expr::new_grouping(Expr::new_literal(Literal::Nil)),
    );
    assert_eq!(e.to_text(), "(+ true (group nil))");
}
