use lox::scanner::{Literal, ScanError, Scanner, Token, TokenType};

fn scan(input: &str) -> (Vec<Token>, Vec<ScanError>, i32) {
    let mut scanner = Scanner::new();
    let code = scanner.scan_and_tokenize(input);
    (scanner.tokens, scanner.errors, code)
}

fn kinds(tokens: &[Token]) -> Vec<TokenType> {
    tokens.iter().map(|t| t.token_type).collect()
}

fn lines(tokens: &[Token]) -> Vec<String> {
    tokens.iter().map(|t| t.to_text()).collect()
}

#[test]
fn single_punctuation_gives_one_token_then_eof() {
    let cases = [
        ("(", TokenType::LeftParen),
        (")", TokenType::RightParen),
        ("{", TokenType::LeftBrace),
        ("}", TokenType::RightBrace),
        (",", TokenType::Comma),
        (".", TokenType::Dot),
        ("-", TokenType::Minus),
        ("+", TokenType::Plus),
        (";", TokenType::SemiColon),
        ("*", TokenType::Star),
        ("=", TokenType::Equal),
        ("!", TokenType::Bang),
        ("<", TokenType::Less),
        (">", TokenType::Greater),
        ("/", TokenType::Slash),
    ];
    for (text, kind) in cases {
        let (tokens, errors, code) = scan(text);
        assert_eq!(kinds(&tokens), vec![kind, TokenType::Eof], "input {}", text);
        assert_eq!(tokens[0].lexeme, text);
        assert!(tokens[0].literal.is_none());
        assert_eq!(tokens[1].lexeme, "");
        assert!(errors.is_empty());
        assert_eq!(code, 0);
    }
}

#[test]
fn scans_one_plus_two() {
    let (tokens, errors, code) = scan("1+2");
    assert_eq!(
        kinds(&tokens),
        vec![TokenType::Number, TokenType::Plus, TokenType::Number, TokenType::Eof]
    );
    match (&tokens[0].literal, &tokens[2].literal) {
        (Some(Literal::Number(a)), Some(Literal::Number(b))) => {
            assert_eq!(a.to_text(), "1.0");
            assert_eq!(b.to_text(), "2.0");
        }
        _ => panic!("number literals expected"),
    }
    assert_eq!(
        lines(&tokens),
        vec!["NUMBER 1 1.0", "PLUS + null", "NUMBER 2 2.0", "EOF  null"]
    );
    assert!(errors.is_empty());
    assert_eq!(code, 0);
}

#[test]
fn two_character_operators() {
    let (tokens, _, code) = scan("!= == <= >= < > = !");
    assert_eq!(
        kinds(&tokens),
        vec![
            TokenType::BangEqual,
            TokenType::EqualEqual,
            TokenType::LessEqual,
            TokenType::GreaterEqual,
            TokenType::Less,
            TokenType::Greater,
            TokenType::Equal,
            TokenType::Bang,
            TokenType::Eof
        ]
    );
    assert_eq!(tokens[0].lexeme, "!=");
    assert_eq!(code, 0);
}

#[test]
fn comment_runs_to_end_of_line() {
    let (tokens, errors, _) = scan("// a comment ( \"\n+ / 2");
    assert_eq!(
        kinds(&tokens),
        vec![TokenType::Plus, TokenType::Slash, TokenType::Number, TokenType::Eof]
    );
    assert_eq!(tokens[0].line, 2);
    assert!(errors.is_empty());
}

#[test]
fn string_literal_excludes_quotes() {
    let (tokens, errors, code) = scan("\"hi there\"");
    assert_eq!(kinds(&tokens), vec![TokenType::String, TokenType::Eof]);
    assert_eq!(tokens[0].lexeme, "hi there");
    match &tokens[0].literal {
        Some(Literal::String(s)) => assert_eq!(s, "hi there"),
        _ => panic!("string literal expected"),
    }
    assert_eq!(tokens[0].to_text(), "STRING hi there hi there");
    assert!(errors.is_empty());
    assert_eq!(code, 0);
}

#[test]
fn number_literals_and_points() {
    let (tokens, _, _) = scan("123.45");
    assert_eq!(tokens[0].lexeme, "123.45");
    match &tokens[0].literal {
        Some(Literal::Number(n)) => assert_eq!((n.digits.clone(), n.scale), (vec![5, 4, 3, 2, 1], 2)),
        _ => panic!("number literal expected"),
    }
    assert_eq!(tokens[0].to_text(), "NUMBER 123.45 123.45");

    let (tokens, _, _) = scan("123.");
    assert_eq!(kinds(&tokens), vec![TokenType::Number, TokenType::Dot, TokenType::Eof]);
    assert_eq!(tokens[0].lexeme, "123");
    assert_eq!(tokens[0].to_text(), "NUMBER 123 123.0");

    let (tokens, _, _) = scan("1.2.3");
    assert_eq!(
        kinds(&tokens),
        vec![TokenType::Number, TokenType::Dot, TokenType::Number, TokenType::Eof]
    );
    assert_eq!(tokens[0].lexeme, "1.2");
    assert_eq!(tokens[2].lexeme, "3");
}

#[test]
fn identifiers_and_reserved_words() {
    let (tokens, _, code) = scan("and foo_bar while x1 _y nil class café");
    assert_eq!(
        kinds(&tokens),
        vec![
            TokenType::And,
            TokenType::Identifier,
            TokenType::While,
            TokenType::Identifier,
            TokenType::Identifier,
            TokenType::Nil,
            TokenType::Class,
            TokenType::Identifier,
            TokenType::Eof
        ]
    );
    assert_eq!(tokens[1].lexeme, "foo_bar");
    assert_eq!(tokens[7].lexeme, "café");
    assert_eq!(tokens[0].to_text(), "AND and null");
    assert_eq!(code, 0);
}

#[test]
fn unterminated_string_is_reported_and_other_tokens_kept() {
    let (tokens, errors, code) = scan("1 + \"abc");
    assert_eq!(kinds(&tokens), vec![TokenType::Number, TokenType::Plus, TokenType::Eof]);
    assert_eq!(errors, vec![ScanError::UnterminatedString { line: 1 }]);
    assert_eq!(code, 65);

    let (tokens, errors, code) = scan("(\n\"abc");
    assert_eq!(kinds(&tokens), vec![TokenType::LeftParen, TokenType::Eof]);
    assert_eq!(tokens[1].line, 2);
    assert_eq!(errors, vec![ScanError::UnterminatedString { line: 2 }]);
    assert_eq!(code, 65);
}

#[test]
fn newline_ends_an_unterminated_string() {
    let (tokens, errors, code) = scan("\"ab\n+");
    assert_eq!(kinds(&tokens), vec![TokenType::Plus, TokenType::Eof]);
    assert_eq!(tokens[0].line, 2);
    assert_eq!(errors, vec![ScanError::UnterminatedString { line: 1 }]);
    assert_eq!(code, 65);
}

#[test]
fn unexpected_character_does_not_stop_scanning() {
    let (tokens, errors, code) = scan("@ +\n#");
    assert_eq!(kinds(&tokens), vec![TokenType::Plus, TokenType::Eof]);
    assert_eq!(
        errors,
        vec![
            ScanError::UnexpectedCharacter { line: 1, ch: '@' },
            ScanError::UnexpectedCharacter { line: 2, ch: '#' }
        ]
    );
    assert_eq!(code, 65);
}

#[test]
fn long_number_literals_are_exact() {
    let (tokens, errors, code) = scan("99999999999999999999 1.0000000000000000000001");
    assert_eq!(kinds(&tokens), vec![TokenType::Number, TokenType::Number, TokenType::Eof]);
    assert_eq!(tokens[0].to_text(), "NUMBER 99999999999999999999 99999999999999999999.0");
    assert_eq!(
        tokens[1].to_text(),
        "NUMBER 1.0000000000000000000001 1.0000000000000000000001"
    );
    assert!(errors.is_empty());
    assert_eq!(code, 0);
}

#[test]
fn rescanning_gives_the_same_tokens() {
    let input = "(1 + 2.5) * \"x\" // done\n!= nil";
    let (a, ea, ca) = scan(input);
    let (b, eb, cb) = scan(input);
    assert_eq!(lines(&a), lines(&b));
    assert_eq!(ea, eb);
    assert_eq!(ca, cb);

    let mut scanner = Scanner::new();
    scanner.scan_and_tokenize(input);
    scanner.scan_and_tokenize(input);
    let all = lines(&scanner.tokens);
    assert_eq!(all.len(), 2 * a.len());
    assert_eq!(all[..a.len()].to_vec(), lines(&a));
    assert_eq!(all[a.len()..].to_vec(), lines(&a));
}

#[test]
fn eof_is_on_the_last_line() {
    let (tokens, _, _) = scan("1\n2\n");
    assert_eq!(tokens.len(), 3);
    assert_eq!(tokens[2].token_type, TokenType::Eof);
    assert_eq!(tokens[2].line, 3);
    assert_eq!(tokens[1].line, 2);
}

#[test]
fn empty_source_gives_only_eof() {
    let (tokens, errors, code) = scan("");
    assert_eq!(lines(&tokens), vec!["EOF  null"]);
    assert_eq!(tokens[0].line, 1);
    assert!(errors.is_empty());
    assert_eq!(code, 0);
}

#[test]
fn kind_names() {
    assert_eq!(TokenType::LeftParen.name(), "LEFT_PAREN");
    assert_eq!(TokenType::SemiColon.name(), "SEMICOLON");
    assert_eq!(TokenType::GreaterEqual.name(), "GREATER_EQUAL");
    assert_eq!(TokenType::Eof.name(), "EOF");
}
