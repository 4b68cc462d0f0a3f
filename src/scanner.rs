//! Lexical analysis: source text to a sequence of tokens.
use vstd::prelude::*;
use crate::number::{Decimal, Number, is_digit, decimal_number, number_text};

verus! {

/// The lexical categories of the language.
#[derive(Clone, Copy, Debug, PartialEq, Eq, Structural)]
pub enum TokenType {
    LeftParen,
    RightParen,
    LeftBrace,
    RightBrace,
    Star,
    Dot,
    Comma,
    Plus,
    Minus,
    EqualEqual,
    Equal,
    BangEqual,
    Bang,
    LessEqual,
    Less,
    GreaterEqual,
    Greater,
    SemiColon,
    Slash,
    String,
    Number,
    Identifier,
    And,
    Class,
    Else,
    False,
    For,
    Fun,
    If,
    Nil,
    Or,
    Print,
    Return,
    Super,
    This,
    True,
    Var,
    While,
    Eof,
}

/// Upper-snake-case name of a token kind, as the token display line shows it.
pub open spec fn kind_name(k: TokenType) -> Seq<char> {
    match k {
        TokenType::LeftParen => "LEFT_PAREN"@,
        TokenType::RightParen => "RIGHT_PAREN"@,
        TokenType::LeftBrace => "LEFT_BRACE"@,
        TokenType::RightBrace => "RIGHT_BRACE"@,
        TokenType::Star => "STAR"@,
        TokenType::Dot => "DOT"@,
        TokenType::Comma => "COMMA"@,
        TokenType::Plus => "PLUS"@,
        TokenType::Minus => "MINUS"@,
        TokenType::EqualEqual => "EQUAL_EQUAL"@,
        TokenType::Equal => "EQUAL"@,
        TokenType::BangEqual => "BANG_EQUAL"@,
        TokenType::Bang => "BANG"@,
        TokenType::LessEqual => "LESS_EQUAL"@,
        TokenType::Less => "LESS"@,
        TokenType::GreaterEqual => "GREATER_EQUAL"@,
        TokenType::Greater => "GREATER"@,
        TokenType::SemiColon => "SEMICOLON"@,
        TokenType::Slash => "SLASH"@,
        TokenType::String => "STRING"@,
        TokenType::Number => "NUMBER"@,
        TokenType::Identifier => "IDENTIFIER"@,
        TokenType::And => "AND"@,
        TokenType::Class => "CLASS"@,
        TokenType::Else => "ELSE"@,
        TokenType::False => "FALSE"@,
        TokenType::For => "FOR"@,
        TokenType::Fun => "FUN"@,
        TokenType::If => "IF"@,
        TokenType::Nil => "NIL"@,
        TokenType::Or => "OR"@,
        TokenType::Print => "PRINT"@,
        TokenType::Return => "RETURN"@,
        TokenType::Super => "SUPER"@,
        TokenType::This => "THIS"@,
        TokenType::True => "TRUE"@,
        TokenType::Var => "VAR"@,
        TokenType::While => "WHILE"@,
        TokenType::Eof => "EOF"@,
    }
}

impl TokenType {
    /// Upper-snake-case name of the kind (`LEFT_PAREN`, `EOF`).
    pub fn name(&self) -> (r: &'static str)
        ensures
            r@ == kind_name(*self),
    {
        match self {
            TokenType::LeftParen => "LEFT_PAREN",
            TokenType::RightParen => "RIGHT_PAREN",
            TokenType::LeftBrace => "LEFT_BRACE",
            TokenType::RightBrace => "RIGHT_BRACE",
            TokenType::Star => "STAR",
            TokenType::Dot => "DOT",
            TokenType::Comma => "COMMA",
            TokenType::Plus => "PLUS",
            TokenType::Minus => "MINUS",
            TokenType::EqualEqual => "EQUAL_EQUAL",
            TokenType::Equal => "EQUAL",
            TokenType::BangEqual => "BANG_EQUAL",
            TokenType::Bang => "BANG",
            TokenType::LessEqual => "LESS_EQUAL",
            TokenType::Less => "LESS",
            TokenType::GreaterEqual => "GREATER_EQUAL",
            TokenType::Greater => "GREATER",
            TokenType::SemiColon => "SEMICOLON",
            TokenType::Slash => "SLASH",
            TokenType::String => "STRING",
            TokenType::Number => "NUMBER",
            TokenType::Identifier => "IDENTIFIER",
            TokenType::And => "AND",
            TokenType::Class => "CLASS",
            TokenType::Else => "ELSE",
            TokenType::False => "FALSE",
            TokenType::For => "FOR",
            TokenType::Fun => "FUN",
            TokenType::If => "IF",
            TokenType::Nil => "NIL",
            TokenType::Or => "OR",
            TokenType::Print => "PRINT",
            TokenType::Return => "RETURN",
            TokenType::Super => "SUPER",
            TokenType::This => "THIS",
            TokenType::True => "TRUE",
            TokenType::Var => "VAR",
            TokenType::While => "WHILE",
            TokenType::Eof => "EOF",
        }
    }
}

/// A scalar value: carried by `NUMBER` and `STRING` tokens, and produced by evaluation.
#[derive(Debug)]
pub enum Literal {
    Number(Number),
    String(String),
    Bool(bool),
    Nil,
}

/// What a `Literal` denotes.
pub enum Value {
    Number(Decimal),
    Str(Seq<char>),
    Bool(bool),
    Nil,
}

impl View for Literal {
    type V = Value;

    open spec fn view(&self) -> Value {
        match self {
            Literal::Number(n) => Value::Number(n@),
            Literal::String(s) => Value::Str(s@),
            Literal::Bool(b) => Value::Bool(*b),
            Literal::Nil => Value::Nil,
        }
    }
}

impl Literal {
    pub open spec fn wf(&self) -> bool {
        match self {
            Literal::Number(n) => n.wf(),
            _ => true,
        }
    }

    /// A copy of this literal.
    pub fn duplicate(&self) -> (r: Literal)
        ensures
            r@ == self@,
            r.wf() == self.wf(),
    {
        match self {
            Literal::Number(n) => Literal::Number(n.duplicate()),
            Literal::String(s) => Literal::String(s.clone()),
            Literal::Bool(b) => Literal::Bool(*b),
            Literal::Nil => Literal::Nil,
        }
    }

    /// The literal field of a token's display line.
    pub fn to_text(&self) -> (r: String)
        requires
            self.wf(),
        ensures
            r@ == literal_text(self@),
    {
        match self {
            Literal::Number(n) => n.to_text(),
            Literal::String(s) => s.clone(),
            Literal::Bool(b) => if *b {
                String::from_str("true")
            } else {
                String::from_str("false")
            },
            Literal::Nil => String::from_str("nil"),
        }
    }
}

pub open spec fn literal_text(v: Value) -> Seq<char> {
    match v {
        Value::Number(n) => number_text(n),
        Value::Str(s) => s,
        Value::Bool(b) => if b {
            "true"@
        } else {
            "false"@
        },
        Value::Nil => "nil"@,
    }
}

/// A classified lexical unit with the line it starts on.
#[derive(Debug)]
pub struct Token {
    pub token_type: TokenType,
    pub lexeme: String,
    pub literal: Option<Literal>,
    pub line: usize,
}

/// What a `Token` holds.
pub struct TokenView {
    pub kind: TokenType,
    pub lexeme: Seq<char>,
    pub literal: Option<Value>,
    pub line: nat,
}

pub open spec fn literal_view(l: Option<Literal>) -> Option<Value> {
    match l {
        Some(v) => Some(v@),
        None => None,
    }
}

impl View for Token {
    type V = TokenView;

    open spec fn view(&self) -> TokenView {
        TokenView {
            kind: self.token_type,
            lexeme: self.lexeme@,
            literal: literal_view(self.literal),
            line: self.line as nat,
        }
    }
}

impl Token {
    pub open spec fn wf(&self) -> bool {
        match self.literal {
            Some(l) => l.wf(),
            None => true,
        }
    }

    /// A copy of this token.
    pub fn duplicate(&self) -> (r: Token)
        ensures
            r@ == self@,
            r.wf() == self.wf(),
    {
        let literal = match &self.literal {
            Some(l) => Some(l.duplicate()),
            None => None,
        };
        let r = Token {
            token_type: self.token_type,
            lexeme: self.lexeme.clone(),
            literal,
            line: self.line,
        };
        r
    }

    /// The display line of the token: `KIND lexeme literal`, with `null` for a
    /// token without a literal.
    pub fn to_text(&self) -> (r: String)
        requires
            self.wf(),
        ensures
            r@ == token_text(self@),
    {
        let mut out = String::from_str(self.token_type.name());
        out.append(" ");
        out.append(self.lexeme.as_str());
        out.append(" ");
        match &self.literal {
            Some(l) => {
                let t = l.to_text();
                out.append(t.as_str());
            },
            None => out.append("null"),
        }
        out
    }
}

pub open spec fn token_text(t: TokenView) -> Seq<char> {
    kind_name(t.kind) + " "@ + t.lexeme + " "@ + match t.literal {
        Some(v) => literal_text(v),
        None => "null"@,
    }
}

/// The reserved words and the kinds they scan as.
pub open spec fn keyword(w: Seq<char>) -> Option<TokenType> {
    if w == "and"@ {
        Some(TokenType::And)
    } else if w == "class"@ {
        Some(TokenType::Class)
    } else if w == "else"@ {
        Some(TokenType::Else)
    } else if w == "false"@ {
        Some(TokenType::False)
    } else if w == "for"@ {
        Some(TokenType::For)
    } else if w == "fun"@ {
        Some(TokenType::Fun)
    } else if w == "if"@ {
        Some(TokenType::If)
    } else if w == "nil"@ {
        Some(TokenType::Nil)
    } else if w == "or"@ {
        Some(TokenType::Or)
    } else if w == "print"@ {
        Some(TokenType::Print)
    } else if w == "return"@ {
        Some(TokenType::Return)
    } else if w == "super"@ {
        Some(TokenType::Super)
    } else if w == "this"@ {
        Some(TokenType::This)
    } else if w == "true"@ {
        Some(TokenType::True)
    } else if w == "var"@ {
        Some(TokenType::Var)
    } else if w == "while"@ {
        Some(TokenType::While)
    } else {
        None
    }
}

fn is_word(w: &String, k: &str) -> (r: bool)
    ensures
        r == (w@ == k@),
{
    *w == String::from_str(k)
}

/// Looks a word up in the table of reserved words.
pub fn keyword_type(w: &String) -> (r: Option<TokenType>)
    ensures
        r == keyword(w@),
{
    if is_word(w, "and") {
        Some(TokenType::And)
    } else if is_word(w, "class") {
        Some(TokenType::Class)
    } else if is_word(w, "else") {
        Some(TokenType::Else)
    } else if is_word(w, "false") {
        Some(TokenType::False)
    } else if is_word(w, "for") {
        Some(TokenType::For)
    } else if is_word(w, "fun") {
        Some(TokenType::Fun)
    } else if is_word(w, "if") {
        Some(TokenType::If)
    } else if is_word(w, "nil") {
        Some(TokenType::Nil)
    } else if is_word(w, "or") {
        Some(TokenType::Or)
    } else if is_word(w, "print") {
        Some(TokenType::Print)
    } else if is_word(w, "return") {
        Some(TokenType::Return)
    } else if is_word(w, "super") {
        Some(TokenType::Super)
    } else if is_word(w, "this") {
        Some(TokenType::This)
    } else if is_word(w, "true") {
        Some(TokenType::True)
    } else if is_word(w, "var") {
        Some(TokenType::Var)
    } else if is_word(w, "while") {
        Some(TokenType::While)
    } else {
        None
    }
}

/// A lexical error, with the line it was found on.
#[derive(Clone, Copy, Debug, PartialEq, Eq, Structural)]
pub enum ScanError {
    /// A character that starts no token.
    UnexpectedCharacter { line: usize, ch: char },
    /// A string literal with no closing quote before the end of its line.
    UnterminatedString { line: usize },
}

pub uninterp spec fn alphanumeric(c: char) -> bool;

/// Relies on `char::is_alphanumeric`: whether a character is alphabetic or
/// numeric in Unicode's sense, which depends on the character alone.
#[verifier::external_body]
fn is_alphanumeric(c: char) -> (r: bool)
    ensures
        r == alphanumeric(c),
{
    c.is_alphanumeric()
}

pub open spec fn is_ascii_alphanumeric(c: char) -> bool {
    'a' <= c <= 'z' || 'A' <= c <= 'Z' || '0' <= c <= '9'
}

/// Characters that continue an identifier or a reserved word: the underscore,
/// and the letters and digits (beyond ASCII, as Unicode classifies them).
pub open spec fn is_word_char(c: char) -> bool {
    c == '_' || if (c as u32) < 128 {
        is_ascii_alphanumeric(c)
    } else {
        alphanumeric(c)
    }
}

/// Kinds of the tokens that are always one character long.
pub open spec fn single_kind(c: char) -> Option<TokenType> {
    if c == '(' {
        Some(TokenType::LeftParen)
    } else if c == ')' {
        Some(TokenType::RightParen)
    } else if c == '{' {
        Some(TokenType::LeftBrace)
    } else if c == '}' {
        Some(TokenType::RightBrace)
    } else if c == ',' {
        Some(TokenType::Comma)
    } else if c == '.' {
        Some(TokenType::Dot)
    } else if c == '-' {
        Some(TokenType::Minus)
    } else if c == '+' {
        Some(TokenType::Plus)
    } else if c == ';' {
        Some(TokenType::SemiColon)
    } else if c == '*' {
        Some(TokenType::Star)
    } else {
        None
    }
}

/// Kinds of the operators that may be followed by `=`: the one-character kind,
/// and the kind of the operator with `=`.
pub open spec fn pair_kinds(c: char) -> Option<(TokenType, TokenType)> {
    if c == '=' {
        Some((TokenType::Equal, TokenType::EqualEqual))
    } else if c == '!' {
        Some((TokenType::Bang, TokenType::BangEqual))
    } else if c == '<' {
        Some((TokenType::Less, TokenType::LessEqual))
    } else if c == '>' {
        Some((TokenType::Greater, TokenType::GreaterEqual))
    } else {
        None
    }
}

/// First index at or after `j` that is the end of `s` or holds a non-digit.
pub open spec fn digits_end(s: Seq<char>, j: int) -> int
    decreases s.len() - j,
{
    if j < 0 || j >= s.len() || !is_digit(s[j]) {
        j
    } else {
        digits_end(s, j + 1)
    }
}

/// First index at or after `j` that is the end of `s` or holds no word character.
pub open spec fn word_end(s: Seq<char>, j: int) -> int
    decreases s.len() - j,
{
    if j < 0 || j >= s.len() || !is_word_char(s[j]) {
        j
    } else {
        word_end(s, j + 1)
    }
}

/// First index at or after `j` that is the end of `s` or holds a newline.
pub open spec fn line_end(s: Seq<char>, j: int) -> int
    decreases s.len() - j,
{
    if j < 0 || j >= s.len() || s[j] == '\n' {
        j
    } else {
        line_end(s, j + 1)
    }
}

/// First index at or after `j` that is the end of `s` or holds a quote or a newline.
pub open spec fn string_end(s: Seq<char>, j: int) -> int
    decreases s.len() - j,
{
    if j < 0 || j >= s.len() || s[j] == '"' || s[j] == '\n' {
        j
    } else {
        string_end(s, j + 1)
    }
}

/// The outcome of scanning one lexeme (or one skipped stretch) at an index.
pub struct Step {
    pub next: int,
    pub line: nat,
    pub token: Option<TokenView>,
    pub error: Option<ScanError>,
}

pub open spec fn emit(next: int, line: nat, kind: TokenType, lexeme: Seq<char>, literal: Option<Value>) -> Step {
    Step { next, line, token: Some(TokenView { kind, lexeme, literal, line }), error: None }
}

pub open spec fn fail(next: int, line: nat, error: ScanError) -> Step {
    Step { next, line, token: None, error: Some(error) }
}

pub open spec fn skip(next: int, line: nat) -> Step {
    Step { next, line, token: None, error: None }
}

/// Whether a number starting at `i` has a fraction: its digits are followed by a
/// point and another digit.
pub open spec fn has_fraction(s: Seq<char>, i: int) -> bool {
    let p = digits_end(s, i);
    p + 1 < s.len() && s[p] == '.' && is_digit(s[p + 1])
}

/// End of the number literal that starts at `i`.
pub open spec fn number_end(s: Seq<char>, i: int) -> int {
    let p = digits_end(s, i);
    if has_fraction(s, i) {
        digits_end(s, p + 1)
    } else {
        p
    }
}

/// The digits of the number literal that starts at `i`, without its point.
pub open spec fn number_digits(s: Seq<char>, i: int) -> Seq<char> {
    let p = digits_end(s, i);
    if has_fraction(s, i) {
        s.subrange(i, p) + s.subrange(p + 1, number_end(s, i))
    } else {
        s.subrange(i, p)
    }
}

pub open spec fn number_fraction_len(s: Seq<char>, i: int) -> nat {
    if has_fraction(s, i) {
        (number_end(s, i) - digits_end(s, i) - 1) as nat
    } else {
        0
    }
}

/// Scans the lexeme that starts at index `i` (`0 <= i < s.len()`) on line `line`.
pub open spec fn scan_step(s: Seq<char>, i: int, line: nat) -> Step {
    let c = s[i];
    if single_kind(c) is Some {
        emit(i + 1, line, single_kind(c).unwrap(), s.subrange(i, i + 1), None)
    } else if pair_kinds(c) is Some {
        let (one, two) = pair_kinds(c).unwrap();
        if i + 1 < s.len() && s[i + 1] == '=' {
            emit(i + 2, line, two, s.subrange(i, i + 2), None)
        } else {
            emit(i + 1, line, one, s.subrange(i, i + 1), None)
        }
    } else if c == '/' {
        if i + 1 < s.len() && s[i + 1] == '/' {
            skip(line_end(s, i + 2), line)
        } else {
            emit(i + 1, line, TokenType::Slash, s.subrange(i, i + 1), None)
        }
    } else if c == '"' {
        let j = string_end(s, i + 1);
        if j < s.len() && s[j] == '"' {
            let text = s.subrange(i + 1, j);
            emit(j + 1, line, TokenType::String, text, Some(Value::Str(text)))
        } else if j < s.len() {
            fail(j + 1, line + 1, ScanError::UnterminatedString { line: line as usize })
        } else {
            fail(j, line, ScanError::UnterminatedString { line: line as usize })
        }
    } else if c == ' ' || c == '\t' || c == '\r' {
        skip(i + 1, line)
    } else if c == '\n' {
        skip(i + 1, line + 1)
    } else if is_digit(c) {
        let e = number_end(s, i);
        let n = decimal_number(number_digits(s, i), number_fraction_len(s, i));
        emit(e, line, TokenType::Number, s.subrange(i, e), Some(Value::Number(n)))
    } else if is_word_char(c) {
        let e = word_end(s, i);
        let w = s.subrange(i, e);
        let kind = match keyword(w) {
            Some(k) => k,
            None => TokenType::Identifier,
        };
        emit(e, line, kind, w, None)
    } else {
        fail(i + 1, line, ScanError::UnexpectedCharacter { line: line as usize, ch: c })
    }
}

pub open spec fn eof_token(line: nat) -> TokenView {
    TokenView { kind: TokenType::Eof, lexeme: Seq::empty(), literal: None, line }
}

pub open spec fn option_seq<T>(o: Option<T>) -> Seq<T> {
    match o {
        Some(x) => seq![x],
        None => Seq::empty(),
    }
}

/// Tokens and lexical errors of `s` from index `i` on, starting on line `line`;
/// the tokens end with one `EOF`.
pub open spec fn scan_from(s: Seq<char>, i: int, line: nat) -> (Seq<TokenView>, Seq<ScanError>)
    decreases s.len() - i,
{
    if i < 0 || i >= s.len() {
        (seq![eof_token(line)], Seq::empty())
    } else {
        let st = scan_step(s, i, line);
        if st.next <= i || st.next > s.len() {
            (seq![eof_token(line)], Seq::empty())
        } else {
            let rest = scan_from(s, st.next, st.line);
            (option_seq(st.token) + rest.0, option_seq(st.error) + rest.1)
        }
    }
}

/// The tokens of a source text, ending with one `EOF` token.
pub open spec fn scan_tokens(s: Seq<char>) -> Seq<TokenView> {
    scan_from(s, 0, 1).0
}

/// The lexical errors of a source text, in the order they occur.
pub open spec fn scan_errors(s: Seq<char>) -> Seq<ScanError> {
    scan_from(s, 0, 1).1
}

pub open spec fn token_views(t: Seq<Token>) -> Seq<TokenView> {
    t.map_values(|x: Token| x@)
}

pub open spec fn token_option_view(t: Option<Token>) -> Option<TokenView> {
    match t {
        Some(x) => Some(x@),
        None => None,
    }
}

fn is_digit_char(c: char) -> (r: bool)
    ensures
        r == is_digit(c),
{
    '0' <= c && c <= '9'
}

fn is_word_character(c: char) -> (r: bool)
    ensures
        r == is_word_char(c),
{
    if c == '_' {
        true
    } else if (c as u32) < 128 {
        ('a' <= c && c <= 'z') || ('A' <= c && c <= 'Z') || ('0' <= c && c <= '9')
    } else {
        is_alphanumeric(c)
    }
}

fn find_digits_end(s: &Vec<char>, j: usize) -> (r: usize)
    requires
        j <= s@.len(),
    ensures
        r == digits_end(s@, j as int),
        j <= r <= s@.len(),
        j < s@.len() && is_digit(s@[j as int]) ==> j < r,
        forall|k: int| j <= k < r ==> is_digit(#[trigger] s@[k]),
{
    let mut k = j;
    while k < s.len() && is_digit_char(s[k])
        invariant
            j <= k <= s@.len(),
            digits_end(s@, k as int) == digits_end(s@, j as int),
            forall|m: int| j <= m < k ==> is_digit(#[trigger] s@[m]),
        decreases s@.len() - k,
    {
        k = k + 1;
    }
    k
}

fn find_word_end(s: &Vec<char>, j: usize) -> (r: usize)
    requires
        j <= s@.len(),
    ensures
        r == word_end(s@, j as int),
        j <= r <= s@.len(),
        j < s@.len() && is_word_char(s@[j as int]) ==> j < r,
{
    let mut k = j;
    while k < s.len() && is_word_character(s[k])
        invariant
            j <= k <= s@.len(),
            word_end(s@, k as int) == word_end(s@, j as int),
        decreases s@.len() - k,
    {
        k = k + 1;
    }
    k
}

fn find_line_end(s: &Vec<char>, j: usize) -> (r: usize)
    requires
        j <= s@.len(),
    ensures
        r == line_end(s@, j as int),
        j <= r <= s@.len(),
{
    let mut k = j;
    while k < s.len() && s[k] != '\n'
        invariant
            j <= k <= s@.len(),
            line_end(s@, k as int) == line_end(s@, j as int),
        decreases s@.len() - k,
    {
        k = k + 1;
    }
    k
}

fn find_string_end(s: &Vec<char>, j: usize) -> (r: usize)
    requires
        j <= s@.len(),
    ensures
        r == string_end(s@, j as int),
        j <= r <= s@.len(),
{
    let mut k = j;
    while k < s.len() && s[k] != '"' && s[k] != '\n'
        invariant
            j <= k <= s@.len(),
            string_end(s@, k as int) == string_end(s@, j as int),
        decreases s@.len() - k,
    {
        k = k + 1;
    }
    k
}

fn chars_of(input: &str) -> (r: Vec<char>)
    ensures
        r@ == input@,
{
    broadcast use vstd::string::axiom_spec_iter;
    let mut r: Vec<char> = Vec::new();
    for c in it: input.chars()
        invariant
            it.seq() == input@,
            r@ == input@.take(it.index() as int),
    {
        r.push(c);
        assert(r@ =~= input@.take(it.index() as int + 1));
    }
    assert(r@ =~= input@);
    r
}

/// Relies on `String::push`, which appends one character to the string.
#[verifier::external_body]
fn push_char(out: &mut String, c: char)
    ensures
        final(out)@ == old(out)@.push(c),
{
    out.push(c);
}

fn text_of(s: &Vec<char>, lo: usize, hi: usize) -> (r: String)
    requires
        lo <= hi <= s@.len(),
    ensures
        r@ == s@.subrange(lo as int, hi as int),
{
    let mut r = String::new();
    let mut k = lo;
    while k < hi
        invariant
            lo <= k <= hi <= s@.len(),
            r@ == s@.subrange(lo as int, k as int),
        decreases hi - k,
    {
        push_char(&mut r, s[k]);
        k = k + 1;
        assert(r@ =~= s@.subrange(lo as int, k as int));
    }
    r
}

/// The digits of `s[lo..p]`, followed, where `frac`, by those of `s[p + 1..hi]`.
fn collect_digits(s: &Vec<char>, lo: usize, p: usize, hi: usize, frac: bool) -> (r: Vec<char>)
    requires
        lo <= p <= s@.len(),
        frac ==> p < hi <= s@.len(),
        forall|k: int| lo <= k < p ==> is_digit(#[trigger] s@[k]),
        frac ==> forall|k: int| p + 1 <= k < hi ==> is_digit(#[trigger] s@[k]),
    ensures
        r@ == if frac {
            s@.subrange(lo as int, p as int) + s@.subrange(p + 1, hi as int)
        } else {
            s@.subrange(lo as int, p as int)
        },
        forall|k: int| 0 <= k < r@.len() ==> is_digit(#[trigger] r@[k]),
{
    let mut r: Vec<char> = Vec::new();
    let mut k = lo;
    while k < p
        invariant
            lo <= k <= p <= s@.len(),
            r@ == s@.subrange(lo as int, k as int),
            forall|m: int| lo <= m < p ==> is_digit(#[trigger] s@[m]),
        decreases p - k,
    {
        r.push(s[k]);
        k = k + 1;
        assert(r@ =~= s@.subrange(lo as int, k as int));
    }
    if frac {
        let ghost head = r@;
        let mut k = p + 1;
        while k < hi
            invariant
                p + 1 <= k <= hi <= s@.len(),
                r@ == head + s@.subrange(p + 1, k as int),
            decreases hi - k,
        {
            r.push(s[k]);
            k = k + 1;
            assert(r@ =~= head + s@.subrange(p + 1, k as int));
        }
    }
    r
}

fn token(kind: TokenType, lexeme: String, literal: Option<Literal>, line: usize) -> (r: Option<Token>)
    ensures
        r == Some(Token { token_type: kind, lexeme, literal, line }),
{
    Some(Token { token_type: kind, lexeme, literal, line })
}

/// Scans the lexeme that starts at index `i`: the index after it, the line after
/// it, and the token or error it gives.
fn scan_one(s: &Vec<char>, i: usize, line: usize) -> (r: (usize, usize, Option<Token>, Option<ScanError>))
    requires
        i < s@.len() < usize::MAX,
        1 <= line <= i + 1,
    ensures
        ({
            let st = scan_step(s@, i as int, line as nat);
            &&& r.0 == st.next
            &&& r.1 == st.line
            &&& token_option_view(r.2) == st.token
            &&& r.3 == st.error
        }),
        i < r.0 <= s@.len(),
        line <= r.1 <= r.0 + 1,
        r.2 matches Some(t) ==> t.wf(),
{
    let c = s[i];
    if c == '(' || c == ')' || c == '{' || c == '}' || c == ',' || c == '.' || c == '-' || c == '+'
        || c == ';' || c == '*' {
        let kind = if c == '(' {
            TokenType::LeftParen
        } else if c == ')' {
            TokenType::RightParen
        } else if c == '{' {
            TokenType::LeftBrace
        } else if c == '}' {
            TokenType::RightBrace
        } else if c == ',' {
            TokenType::Comma
        } else if c == '.' {
            TokenType::Dot
        } else if c == '-' {
            TokenType::Minus
        } else if c == '+' {
            TokenType::Plus
        } else if c == ';' {
            TokenType::SemiColon
        } else {
            TokenType::Star
        };
        (i + 1, line, token(kind, text_of(s, i, i + 1), None, line), None)
    } else if c == '=' || c == '!' || c == '<' || c == '>' {
        let (one, two) = if c == '=' {
            (TokenType::Equal, TokenType::EqualEqual)
        } else if c == '!' {
            (TokenType::Bang, TokenType::BangEqual)
        } else if c == '<' {
            (TokenType::Less, TokenType::LessEqual)
        } else {
            (TokenType::Greater, TokenType::GreaterEqual)
        };
        if i + 1 < s.len() && s[i + 1] == '=' {
            (i + 2, line, token(two, text_of(s, i, i + 2), None, line), None)
        } else {
            (i + 1, line, token(one, text_of(s, i, i + 1), None, line), None)
        }
    } else if c == '/' {
        if i + 1 < s.len() && s[i + 1] == '/' {
            (find_line_end(s, i + 2), line, None, None)
        } else {
            (i + 1, line, token(TokenType::Slash, text_of(s, i, i + 1), None, line), None)
        }
    } else if c == '"' {
        let j = find_string_end(s, i + 1);
        if j < s.len() && s[j] == '"' {
            let text = text_of(s, i + 1, j);
            let value = text_of(s, i + 1, j);
            (j + 1, line, token(TokenType::String, text, Some(Literal::String(value)), line), None)
        } else if j < s.len() {
            (j + 1, line + 1, None, Some(ScanError::UnterminatedString { line }))
        } else {
            (j, line, None, Some(ScanError::UnterminatedString { line }))
        }
    } else if c == ' ' || c == '\t' || c == '\r' {
        (i + 1, line, None, None)
    } else if c == '\n' {
        (i + 1, line + 1, None, None)
    } else if is_digit_char(c) {
        let p = find_digits_end(s, i);
        let frac = p + 1 < s.len() && s[p] == '.' && is_digit_char(s[p + 1]);
        let e = if frac {
            find_digits_end(s, p + 1)
        } else {
            p
        };
        let digits = collect_digits(s, i, p, e, frac);
        let frac_len = if frac {
            e - p - 1
        } else {
            0
        };
        assert(has_fraction(s@, i as int) == frac);
        assert(number_end(s@, i as int) == e);
        assert(digits@ == number_digits(s@, i as int));
        let n = Number::from_digits(&digits, frac_len);
        (e, line, token(TokenType::Number, text_of(s, i, e), Some(Literal::Number(n)), line), None)
    } else if is_word_character(c) {
        let e = find_word_end(s, i);
        let w = text_of(s, i, e);
        let kind = match keyword_type(&w) {
            Some(k) => k,
            None => TokenType::Identifier,
        };
        (e, line, token(kind, w, None, line), None)
    } else {
        (i + 1, line, None, Some(ScanError::UnexpectedCharacter { line, ch: c }))
    }
}

/// Turns source text into tokens.
pub struct Scanner {
    pub tokens: Vec<Token>,
    pub errors: Vec<ScanError>,
}

impl Scanner {
    pub open spec fn wf(&self) -> bool {
        forall|k: int| 0 <= k < self.tokens@.len() ==> (#[trigger] self.tokens@[k]).wf()
    }

    /// A scanner with no tokens and no errors.
    pub fn new() -> (r: Scanner)
        ensures
            r.tokens@.len() == 0,
            r.errors@.len() == 0,
            r.wf(),
    {
        Scanner { tokens: Vec::new(), errors: Vec::new() }
    }

    /// Scans `input`, appending its tokens (the last one `EOF`) and its lexical
    /// errors; returns `65` where there was a lexical error, else `0`.
    pub fn scan_and_tokenize(&mut self, input: &str) -> (r: i32)
        requires
            old(self).wf(),
            input@.len() < usize::MAX,
        ensures
            final(self).wf(),
            token_views(final(self).tokens@) == token_views(old(self).tokens@) + scan_tokens(input@),
            final(self).errors@ == old(self).errors@ + scan_errors(input@),
            r == if scan_errors(input@).len() == 0 {
                0i32
            } else {
                65i32
            },
    {
        let s = chars_of(input);
        let ghost s0 = s@;
        let ghost old_tokens = token_views(self.tokens@);
        let ghost old_errors = self.errors@;
        let error_count = self.errors.len();
        let mut i: usize = 0;
        let mut line: usize = 1;
        while i < s.len()
            invariant
                s@ == input@,
                s@.len() < usize::MAX,
                i <= s@.len(),
                1 <= line <= i + 1,
                self.wf(),
                error_count == old_errors.len(),
                token_views(self.tokens@) + scan_from(s@, i as int, line as nat).0 == old_tokens
                    + scan_tokens(s@),
                self.errors@ + scan_from(s@, i as int, line as nat).1 == old_errors + scan_errors(s@),
            decreases s@.len() - i,
        {
            let ghost before_tokens = token_views(self.tokens@);
            let ghost before_errors = self.errors@;
            let (next, next_line, tok, err) = scan_one(&s, i, line);
            let ghost st = scan_step(s@, i as int, line as nat);
            let ghost rest = scan_from(s@, next as int, next_line as nat);
            assert(scan_from(s@, i as int, line as nat) == (option_seq(st.token) + rest.0, option_seq(st.error) + rest.1));
            match tok {
                Some(t) => {
                    self.tokens.push(t);
                },
                None => {},
            }
            match err {
                Some(e) => {
                    self.errors.push(e);
                },
                None => {},
            }
            assert(token_views(self.tokens@) =~= before_tokens + option_seq(st.token));
            assert(self.errors@ =~= before_errors + option_seq(st.error));
            assert(token_views(self.tokens@) + rest.0 =~= before_tokens + (option_seq(st.token) + rest.0));
            assert(self.errors@ + rest.1 =~= before_errors + (option_seq(st.error) + rest.1));
            i = next;
            line = next_line;
        }
        let ghost before_tokens = token_views(self.tokens@);
        self.tokens.push(Token { token_type: TokenType::Eof, lexeme: String::new(), literal: None, line });
        assert(token_views(self.tokens@) =~= before_tokens + scan_from(s@, i as int, line as nat).0);
        assert(self.errors@ =~= old_errors + scan_errors(s@));
        if self.errors.len() > error_count {
            65
        } else {
            0
        }
    }
}

/// Kind of the token that a punctuation or operator character gives when it
/// stands alone.
pub open spec fn punctuation_kind(c: char) -> Option<TokenType> {
    if single_kind(c) is Some {
        single_kind(c)
    } else if pair_kinds(c) is Some {
        Some(pair_kinds(c).unwrap().0)
    } else if c == '/' {
        Some(TokenType::Slash)
    } else {
        None
    }
}

/// A text of one punctuation or operator character scans as one token of its
/// kind followed by `EOF`, with no error.
pub proof fn lemma_single_punctuation(c: char)
    requires
        punctuation_kind(c) is Some,
    ensures
        scan_tokens(seq![c]) == seq![
            TokenView { kind: punctuation_kind(c).unwrap(), lexeme: seq![c], literal: None, line: 1 },
            eof_token(1),
        ],
        scan_errors(seq![c]).len() == 0,
{
    let s = seq![c];
    assert(s.subrange(0, 1) =~= s);
    let st = scan_step(s, 0, 1);
    assert(st == emit(1, 1, punctuation_kind(c).unwrap(), s, None));
    assert(scan_from(s, 1, 1) == (seq![eof_token(1)], Seq::<ScanError>::empty()));
    assert(scan_tokens(s) =~= seq![
        TokenView { kind: punctuation_kind(c).unwrap(), lexeme: seq![c], literal: None, line: 1 },
        eof_token(1),
    ]);
    assert(scan_errors(s) =~= Seq::<ScanError>::empty());
}

proof fn lemma_string_end_at_end(s: Seq<char>, j: int)
    requires
        0 <= j <= s.len(),
        forall|k: int| j <= k < s.len() ==> s[k] != '"' && s[k] != '\n',
    ensures
        string_end(s, j) == s.len(),
    decreases s.len() - j,
{
    if j < s.len() {
        lemma_string_end_at_end(s, j + 1);
    }
}

/// A quote with no closing quote and no newline after it is an unterminated
/// string on its own line: the scan from the quote on gives only that error and
/// `EOF`, so the tokens before the quote are all that precede `EOF`.
pub proof fn lemma_unterminated_string(s: Seq<char>, i: int, line: nat)
    requires
        0 <= i < s.len(),
        s[i] == '"',
        forall|k: int| i < k < s.len() ==> s[k] != '"' && s[k] != '\n',
    ensures
        scan_from(s, i, line) == (
            seq![eof_token(line)],
            seq![ScanError::UnterminatedString { line: line as usize }],
        ),
{
    lemma_string_end_at_end(s, i + 1);
    let st = scan_step(s, i, line);
    assert(st == fail(s.len() as int, line, ScanError::UnterminatedString { line: line as usize }));
    assert(scan_from(s, s.len() as int, line) == (seq![eof_token(line)], Seq::<ScanError>::empty()));
    assert(scan_from(s, i, line).0 =~= seq![eof_token(line)]);
    assert(scan_from(s, i, line).1 =~= seq![ScanError::UnterminatedString { line: line as usize }]);
}

/// Scanning is a function of the text alone: equal texts give equal tokens and
/// equal errors, however often they are scanned.
pub proof fn lemma_scan_deterministic(a: Seq<char>, b: Seq<char>)
    requires
        a == b,
    ensures
        scan_tokens(a) == scan_tokens(b),
        scan_errors(a) == scan_errors(b),
{
}

/// A `STRING` or `NUMBER` token carries its literal.
pub open spec fn literal_present(t: TokenView) -> bool {
    (t.kind == TokenType::String || t.kind == TokenType::Number) ==> t.literal is Some
}

proof fn lemma_step_token_not_eof(s: Seq<char>, i: int, line: nat)
    requires
        0 <= i < s.len(),
    ensures
        scan_step(s, i, line).token matches Some(t) ==> t.kind != TokenType::Eof && literal_present(t),
        i < scan_step(s, i, line).next <= s.len(),
{
    let c = s[i];
    if c == '/' && i + 1 < s.len() && s[i + 1] == '/' {
        lemma_line_end_bounds(s, i + 2);
    } else if c == '"' {
        lemma_string_end_bounds(s, i + 1);
    } else if is_digit(c) && single_kind(c) is None {
        lemma_digits_end_bounds(s, i);
        let p = digits_end(s, i);
        if p + 1 < s.len() {
            lemma_digits_end_bounds(s, p + 1);
        }
    } else if is_word_char(c) {
        lemma_word_end_bounds(s, i);
    }
}

proof fn lemma_digits_end_bounds(s: Seq<char>, j: int)
    requires
        0 <= j <= s.len(),
    ensures
        j <= digits_end(s, j) <= s.len(),
        j < s.len() && is_digit(s[j]) ==> j < digits_end(s, j),
    decreases s.len() - j,
{
    if j < s.len() && is_digit(s[j]) {
        lemma_digits_end_bounds(s, j + 1);
    }
}

proof fn lemma_word_end_bounds(s: Seq<char>, j: int)
    requires
        0 <= j <= s.len(),
    ensures
        j <= word_end(s, j) <= s.len(),
        j < s.len() && is_word_char(s[j]) ==> j < word_end(s, j),
    decreases s.len() - j,
{
    if j < s.len() && is_word_char(s[j]) {
        lemma_word_end_bounds(s, j + 1);
    }
}

proof fn lemma_line_end_bounds(s: Seq<char>, j: int)
    requires
        0 <= j <= s.len(),
    ensures
        j <= line_end(s, j) <= s.len(),
    decreases s.len() - j,
{
    if j < s.len() && s[j] != '\n' {
        lemma_line_end_bounds(s, j + 1);
    }
}

proof fn lemma_string_end_bounds(s: Seq<char>, j: int)
    requires
        0 <= j <= s.len(),
    ensures
        j <= string_end(s, j) <= s.len(),
    decreases s.len() - j,
{
    if j < s.len() && s[j] != '"' && s[j] != '\n' {
        lemma_string_end_bounds(s, j + 1);
    }
}

/// The tokens of a scan end with one `EOF` token, no other token is `EOF`, and
/// every `STRING` or `NUMBER` token carries its literal.
pub proof fn lemma_token_stream_shape(s: Seq<char>, i: int, line: nat)
    requires
        0 <= i <= s.len(),
    ensures
        scan_from(s, i, line).0.len() >= 1,
        scan_from(s, i, line).0.last().kind == TokenType::Eof,
        forall|k: int|
            0 <= k < scan_from(s, i, line).0.len() - 1 ==> (#[trigger] scan_from(s, i, line).0[k]).kind
                != TokenType::Eof,
        forall|k: int|
            0 <= k < scan_from(s, i, line).0.len() ==> literal_present(
                #[trigger] scan_from(s, i, line).0[k],
            ),
    decreases s.len() - i,
{
    if i < s.len() {
        let st = scan_step(s, i, line);
        lemma_step_token_not_eof(s, i, line);
        lemma_token_stream_shape(s, st.next, st.line);
        let rest = scan_from(s, st.next, st.line).0;
        let all = scan_from(s, i, line).0;
        assert(all == option_seq(st.token) + rest);
        assert forall|k: int| 0 <= k < all.len() implies (k < all.len() - 1 ==> (#[trigger] all[k]).kind
            != TokenType::Eof) && literal_present(all[k]) by {
            if st.token is Some {
                if k > 0 {
                    assert(all[k] == rest[k - 1]);
                }
            } else {
                assert(all[k] == rest[k]);
            }
        }
    }
}

/// A digit starts one `NUMBER` token, whatever the length of the literal: its
/// lexeme is the digits read and its literal their exact value; no error comes
/// of it.
pub proof fn lemma_number_literal(s: Seq<char>, i: int, line: nat)
    requires
        0 <= i < s.len(),
        is_digit(s[i]),
    ensures
        scan_step(s, i, line).error is None,
        scan_step(s, i, line).token == Some(
            TokenView {
                kind: TokenType::Number,
                lexeme: s.subrange(i, number_end(s, i)),
                literal: Some(
                    Value::Number(decimal_number(number_digits(s, i), number_fraction_len(s, i))),
                ),
                line,
            },
        ),
{
}

} // verus!
