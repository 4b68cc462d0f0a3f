//! Recursive-descent parsing: tokens to an expression tree.
//!
//! ```text
//! expression → equality
//! equality   → comparison ( ( "!=" | "==" ) comparison )*
//! comparison → term ( ( ">" | ">=" | "<" | "<=" ) term )*
//! term       → factor ( ( "-" | "+" ) factor )*
//! factor     → unary ( ( "/" | "*" ) unary )*
//! unary      → ( "!" | "-" ) unary | primary
//! primary    → NUMBER | STRING | "true" | "false" | "nil" | "(" expression ")"
//! ```
use vstd::prelude::*;
use crate::scanner::{Literal, Token, TokenType, TokenView, Value, token_views, literal_text};

verus! {

/// An expression tree; each node owns its children.
#[derive(Debug)]
pub enum Expr {
    Binary { left: Box<Expr>, operator: Token, right: Box<Expr> },
    Grouping { expression: Box<Expr> },
    Literal { value: Literal },
    Unary { operator: Token, right: Box<Expr> },
}

/// What an `Expr` denotes.
pub enum Tree {
    Binary(Box<Tree>, TokenView, Box<Tree>),
    Grouping(Box<Tree>),
    Literal(Value),
    Unary(TokenView, Box<Tree>),
}

impl Expr {
    pub open spec fn tree(&self) -> Tree
        decreases self,
    {
        match self {
            Expr::Binary { left, operator, right } => Tree::Binary(
                Box::new(left.tree()),
                operator@,
                Box::new(right.tree()),
            ),
            Expr::Grouping { expression } => Tree::Grouping(Box::new(expression.tree())),
            Expr::Literal { value } => Tree::Literal(value@),
            Expr::Unary { operator, right } => Tree::Unary(operator@, Box::new(right.tree())),
        }
    }

    /// Every number in the tree has a positive denominator.
    pub open spec fn wf(&self) -> bool
        decreases self,
    {
        match self {
            Expr::Binary { left, operator, right } => left.wf() && operator.wf() && right.wf(),
            Expr::Grouping { expression } => expression.wf(),
            Expr::Literal { value } => value.wf(),
            Expr::Unary { operator, right } => operator.wf() && right.wf(),
        }
    }

    pub fn new_binary(left: Expr, operator: Token, right: Expr) -> (r: Expr)
        ensures
            r.tree() == Tree::Binary(Box::new(left.tree()), operator@, Box::new(right.tree())),
            r.wf() == (left.wf() && operator.wf() && right.wf()),
    {
        Expr::Binary { left: Box::new(left), operator, right: Box::new(right) }
    }

    pub fn new_unary(operator: Token, right: Expr) -> (r: Expr)
        ensures
            r.tree() == Tree::Unary(operator@, Box::new(right.tree())),
            r.wf() == (operator.wf() && right.wf()),
    {
        Expr::Unary { operator, right: Box::new(right) }
    }

    pub fn new_literal(value: Literal) -> (r: Expr)
        ensures
            r.tree() == Tree::Literal(value@),
            r.wf() == value.wf(),
    {
        Expr::Literal { value }
    }

    pub fn new_grouping(expression: Expr) -> (r: Expr)
        ensures
            r.tree() == Tree::Grouping(Box::new(expression.tree())),
            r.wf() == expression.wf(),
    {
        Expr::Grouping { expression: Box::new(expression) }
    }

    /// Fully parenthesised prefix form: `(+ 1.0 2.0)`, `(group 1.0)`, `(- 3.0)`.
    pub fn to_text(&self) -> (r: String)
        requires
            self.wf(),
        ensures
            r@ == tree_text(self.tree()),
        decreases self,
    {
        match self {
            Expr::Binary { left, operator, right } => {
                let mut out = String::from_str("(");
                out.append(operator.lexeme.as_str());
                out.append(" ");
                let l = left.to_text();
                out.append(l.as_str());
                out.append(" ");
                let r = right.to_text();
                out.append(r.as_str());
                out.append(")");
                out
            },
            Expr::Grouping { expression } => {
                let mut out = String::from_str("(group ");
                let e = expression.to_text();
                out.append(e.as_str());
                out.append(")");
                out
            },
            Expr::Literal { value } => value.to_text(),
            Expr::Unary { operator, right } => {
                let mut out = String::from_str("(");
                out.append(operator.lexeme.as_str());
                out.append(" ");
                let r = right.to_text();
                out.append(r.as_str());
                out.append(")");
                out
            },
        }
    }
}

pub open spec fn tree_text(t: Tree) -> Seq<char>
    decreases t,
{
    match t {
        Tree::Binary(l, op, r) => "("@ + op.lexeme + " "@ + tree_text(*l) + " "@ + tree_text(*r) + ")"@,
        Tree::Grouping(e) => "(group "@ + tree_text(*e) + ")"@,
        Tree::Literal(v) => literal_text(v),
        Tree::Unary(op, r) => "("@ + op.lexeme + " "@ + tree_text(*r) + ")"@,
    }
}

/// Why parsing stopped.
#[derive(Clone, Copy, Debug, PartialEq, Eq, Structural)]
pub enum ParseErrorKind {
    /// No expression starts at the token.
    ExpectExpression,
    /// A parenthesised expression is not closed by `)`.
    ExpectRightParen,
    /// Tokens are left after a complete expression.
    ExpectEnd,
}

/// The first grammar violation: its kind, and the index and line of the
/// offending token (line `0` where the tokens ran out before it).
#[derive(Clone, Copy, Debug, PartialEq, Eq, Structural)]
pub struct ParseError {
    pub at: usize,
    pub line: usize,
    pub kind: ParseErrorKind,
}

impl ParseError {
    /// The diagnostic text of the error.
    pub fn message(&self) -> (r: &'static str)
        ensures
            r@ == parse_message(self.kind),
    {
        match self.kind {
            ParseErrorKind::ExpectExpression => "Expect expression.",
            ParseErrorKind::ExpectRightParen => "Expect ')' after expression.",
            ParseErrorKind::ExpectEnd => "Expect end of expression.",
        }
    }
}

pub open spec fn parse_message(k: ParseErrorKind) -> Seq<char> {
    match k {
        ParseErrorKind::ExpectExpression => "Expect expression."@,
        ParseErrorKind::ExpectRightParen => "Expect ')' after expression."@,
        ParseErrorKind::ExpectEnd => "Expect end of expression."@,
    }
}

pub open spec fn error_at(ts: Seq<TokenView>, p: int, kind: ParseErrorKind) -> ParseError {
    ParseError {
        at: p as usize,
        line: if 0 <= p < ts.len() {
            ts[p].line as usize
        } else {
            0
        },
        kind,
    }
}

/// A parse of a prefix: the tree and the index of the first token after it.
pub type Parsed = Result<(Tree, int), ParseError>;

/// The cursor has reached the end: past the last token or at `EOF`.
pub open spec fn at_end(ts: Seq<TokenView>, p: int) -> bool {
    p < 0 || p >= ts.len() || ts[p].kind == TokenType::Eof
}

/// The token at `p` is not at the end and has kind `k`.
pub open spec fn check(ts: Seq<TokenView>, p: int, k: TokenType) -> bool {
    !at_end(ts, p) && ts[p].kind == k
}

pub open spec fn advanced(ts: Seq<TokenView>, p: int, q: int) -> bool {
    p < q <= ts.len()
}

pub open spec fn parse_expression(ts: Seq<TokenView>, p: int) -> Parsed
    decreases ts.len() - p, 12int,
{
    parse_equality(ts, p)
}

pub open spec fn parse_equality(ts: Seq<TokenView>, p: int) -> Parsed
    decreases ts.len() - p, 11int,
{
    match parse_comparison(ts, p) {
        Ok((l, q)) => if advanced(ts, p, q) {
            equality_rest(ts, q, l)
        } else {
            Err(error_at(ts, p, ParseErrorKind::ExpectExpression))
        },
        Err(e) => Err(e),
    }
}

pub open spec fn equality_rest(ts: Seq<TokenView>, q: int, left: Tree) -> Parsed
    decreases ts.len() - q, 10int,
{
    if check(ts, q, TokenType::BangEqual) || check(ts, q, TokenType::EqualEqual) {
        match parse_comparison(ts, q + 1) {
            Ok((r, q2)) => if advanced(ts, q + 1, q2) {
                equality_rest(ts, q2, Tree::Binary(Box::new(left), ts[q], Box::new(r)))
            } else {
                Err(error_at(ts, q + 1, ParseErrorKind::ExpectExpression))
            },
            Err(e) => Err(e),
        }
    } else {
        Ok((left, q))
    }
}

pub open spec fn parse_comparison(ts: Seq<TokenView>, p: int) -> Parsed
    decreases ts.len() - p, 9int,
{
    match parse_term(ts, p) {
        Ok((l, q)) => if advanced(ts, p, q) {
            comparison_rest(ts, q, l)
        } else {
            Err(error_at(ts, p, ParseErrorKind::ExpectExpression))
        },
        Err(e) => Err(e),
    }
}

pub open spec fn comparison_rest(ts: Seq<TokenView>, q: int, left: Tree) -> Parsed
    decreases ts.len() - q, 8int,
{
    if check(ts, q, TokenType::Greater) || check(ts, q, TokenType::GreaterEqual) || check(
        ts,
        q,
        TokenType::Less,
    ) || check(ts, q, TokenType::LessEqual) {
        match parse_term(ts, q + 1) {
            Ok((r, q2)) => if advanced(ts, q + 1, q2) {
                comparison_rest(ts, q2, Tree::Binary(Box::new(left), ts[q], Box::new(r)))
            } else {
                Err(error_at(ts, q + 1, ParseErrorKind::ExpectExpression))
            },
            Err(e) => Err(e),
        }
    } else {
        Ok((left, q))
    }
}

pub open spec fn parse_term(ts: Seq<TokenView>, p: int) -> Parsed
    decreases ts.len() - p, 7int,
{
    match parse_factor(ts, p) {
        Ok((l, q)) => if advanced(ts, p, q) {
            term_rest(ts, q, l)
        } else {
            Err(error_at(ts, p, ParseErrorKind::ExpectExpression))
        },
        Err(e) => Err(e),
    }
}

pub open spec fn term_rest(ts: Seq<TokenView>, q: int, left: Tree) -> Parsed
    decreases ts.len() - q, 6int,
{
    if check(ts, q, TokenType::Minus) || check(ts, q, TokenType::Plus) {
        match parse_factor(ts, q + 1) {
            Ok((r, q2)) => if advanced(ts, q + 1, q2) {
                term_rest(ts, q2, Tree::Binary(Box::new(left), ts[q], Box::new(r)))
            } else {
                Err(error_at(ts, q + 1, ParseErrorKind::ExpectExpression))
            },
            Err(e) => Err(e),
        }
    } else {
        Ok((left, q))
    }
}

pub open spec fn parse_factor(ts: Seq<TokenView>, p: int) -> Parsed
    decreases ts.len() - p, 5int,
{
    match parse_unary(ts, p) {
        Ok((l, q)) => if advanced(ts, p, q) {
            factor_rest(ts, q, l)
        } else {
            Err(error_at(ts, p, ParseErrorKind::ExpectExpression))
        },
        Err(e) => Err(e),
    }
}

pub open spec fn factor_rest(ts: Seq<TokenView>, q: int, left: Tree) -> Parsed
    decreases ts.len() - q, 4int,
{
    if check(ts, q, TokenType::Slash) || check(ts, q, TokenType::Star) {
        match parse_unary(ts, q + 1) {
            Ok((r, q2)) => if advanced(ts, q + 1, q2) {
                factor_rest(ts, q2, Tree::Binary(Box::new(left), ts[q], Box::new(r)))
            } else {
                Err(error_at(ts, q + 1, ParseErrorKind::ExpectExpression))
            },
            Err(e) => Err(e),
        }
    } else {
        Ok((left, q))
    }
}

pub open spec fn parse_unary(ts: Seq<TokenView>, p: int) -> Parsed
    decreases ts.len() - p, 3int,
{
    if check(ts, p, TokenType::Minus) || check(ts, p, TokenType::Bang) {
        match parse_unary(ts, p + 1) {
            Ok((r, q)) => Ok((Tree::Unary(ts[p], Box::new(r)), q)),
            Err(e) => Err(e),
        }
    } else {
        parse_primary(ts, p)
    }
}

pub open spec fn parse_primary(ts: Seq<TokenView>, p: int) -> Parsed
    decreases ts.len() - p, 2int,
{
    if check(ts, p, TokenType::True) {
        Ok((Tree::Literal(Value::Bool(true)), p + 1))
    } else if check(ts, p, TokenType::False) {
        Ok((Tree::Literal(Value::Bool(false)), p + 1))
    } else if check(ts, p, TokenType::Nil) {
        Ok((Tree::Literal(Value::Nil), p + 1))
    } else if check(ts, p, TokenType::Number) || check(ts, p, TokenType::String) {
        match ts[p].literal {
            Some(v) => Ok((Tree::Literal(v), p + 1)),
            None => Err(error_at(ts, p, ParseErrorKind::ExpectExpression)),
        }
    } else if check(ts, p, TokenType::LeftParen) {
        match parse_expression(ts, p + 1) {
            Ok((e, q)) => if !advanced(ts, p + 1, q) {
                Err(error_at(ts, p + 1, ParseErrorKind::ExpectExpression))
            } else if check(ts, q, TokenType::RightParen) {
                Ok((Tree::Grouping(Box::new(e)), q + 1))
            } else {
                Err(error_at(ts, q, ParseErrorKind::ExpectRightParen))
            },
            Err(e) => Err(e),
        }
    } else {
        Err(error_at(ts, p, ParseErrorKind::ExpectExpression))
    }
}

/// The tokens from `p` on read as one expression followed by the end.
pub open spec fn parse_from(ts: Seq<TokenView>, p: int) -> Result<Tree, ParseError> {
    match parse_expression(ts, p) {
        Ok((t, q)) => if at_end(ts, q) {
            Ok(t)
        } else {
            Err(error_at(ts, q, ParseErrorKind::ExpectEnd))
        },
        Err(e) => Err(e),
    }
}

/// The whole token sequence read as one expression followed by the end.
pub open spec fn parse_tokens(ts: Seq<TokenView>) -> Result<Tree, ParseError> {
    parse_from(ts, 0)
}

/// `r` is what the spec parse `s` gives, with positions as indices.
pub open spec fn parsed_as(r: Result<(Expr, usize), ParseError>, s: Parsed, ts: Seq<TokenView>, p: int) -> bool {
    match s {
        Ok((t, q)) => r matches Ok((e, q1)) && e.tree() == t && q1 == q && e.wf() && p < q <= ts.len(),
        Err(err) => r == Err::<(Expr, usize), ParseError>(err),
    }
}

pub open spec fn all_wf(ts: Seq<Token>) -> bool {
    forall|k: int| 0 <= k < ts.len() ==> (#[trigger] ts[k]).wf()
}

fn error_exec(ts: &Vec<Token>, p: usize, kind: ParseErrorKind) -> (r: ParseError)
    ensures
        r == error_at(token_views(ts@), p as int, kind),
{
    let line = if p < ts.len() {
        ts[p].line
    } else {
        0
    };
    ParseError { at: p, line, kind }
}

fn check_at(ts: &Vec<Token>, p: usize, k: TokenType) -> (r: bool)
    ensures
        r == check(token_views(ts@), p as int, k),
        r ==> p < ts@.len() <= usize::MAX,
{
    p < ts.len() && ts[p].token_type != TokenType::Eof && ts[p].token_type == k
}

fn is_end(ts: &Vec<Token>, p: usize) -> (r: bool)
    ensures
        r == at_end(token_views(ts@), p as int),
{
    p >= ts.len() || ts[p].token_type == TokenType::Eof
}

fn expression(ts: &Vec<Token>, p: usize) -> (r: Result<(Expr, usize), ParseError>)
    requires
        all_wf(ts@),
        p <= ts@.len(),
    ensures
        parsed_as(r, parse_expression(token_views(ts@), p as int), token_views(ts@), p as int),
    decreases ts@.len() - p, 12int,
{
    equality(ts, p)
}

fn equality(ts: &Vec<Token>, p: usize) -> (r: Result<(Expr, usize), ParseError>)
    requires
        all_wf(ts@),
        p <= ts@.len(),
    ensures
        parsed_as(r, parse_equality(token_views(ts@), p as int), token_views(ts@), p as int),
    decreases ts@.len() - p, 11int,
{
    let ghost tv = token_views(ts@);
    let (mut expr, mut q) = match comparison(ts, p) {
        Ok(x) => x,
        Err(e) => return Err(e),
    };
    while check_at(ts, q, TokenType::BangEqual) || check_at(ts, q, TokenType::EqualEqual)
        invariant
            tv == token_views(ts@),
            all_wf(ts@),
            p < q <= ts@.len(),
            expr.wf(),
            equality_rest(tv, q as int, expr.tree()) == parse_equality(tv, p as int),
        decreases ts@.len() - q,
    {
        let op = ts[q].duplicate();
        assert(ts@[q as int].wf());
        let (right, q2) = match comparison(ts, q + 1) {
            Ok(x) => x,
            Err(e) => return Err(e),
        };
        expr = Expr::new_binary(expr, op, right);
        q = q2;
    }
    Ok((expr, q))
}

fn comparison(ts: &Vec<Token>, p: usize) -> (r: Result<(Expr, usize), ParseError>)
    requires
        all_wf(ts@),
        p <= ts@.len(),
    ensures
        parsed_as(r, parse_comparison(token_views(ts@), p as int), token_views(ts@), p as int),
    decreases ts@.len() - p, 9int,
{
    let ghost tv = token_views(ts@);
    let (mut expr, mut q) = match term(ts, p) {
        Ok(x) => x,
        Err(e) => return Err(e),
    };
    while check_at(ts, q, TokenType::Greater) || check_at(ts, q, TokenType::GreaterEqual)
        || check_at(ts, q, TokenType::Less) || check_at(ts, q, TokenType::LessEqual)
        invariant
            tv == token_views(ts@),
            all_wf(ts@),
            p < q <= ts@.len(),
            expr.wf(),
            comparison_rest(tv, q as int, expr.tree()) == parse_comparison(tv, p as int),
        decreases ts@.len() - q,
    {
        let op = ts[q].duplicate();
        assert(ts@[q as int].wf());
        let (right, q2) = match term(ts, q + 1) {
            Ok(x) => x,
            Err(e) => return Err(e),
        };
        expr = Expr::new_binary(expr, op, right);
        q = q2;
    }
    Ok((expr, q))
}

fn term(ts: &Vec<Token>, p: usize) -> (r: Result<(Expr, usize), ParseError>)
    requires
        all_wf(ts@),
        p <= ts@.len(),
    ensures
        parsed_as(r, parse_term(token_views(ts@), p as int), token_views(ts@), p as int),
    decreases ts@.len() - p, 7int,
{
    let ghost tv = token_views(ts@);
    let (mut expr, mut q) = match factor(ts, p) {
        Ok(x) => x,
        Err(e) => return Err(e),
    };
    while check_at(ts, q, TokenType::Minus) || check_at(ts, q, TokenType::Plus)
        invariant
            tv == token_views(ts@),
            all_wf(ts@),
            p < q <= ts@.len(),
            expr.wf(),
            term_rest(tv, q as int, expr.tree()) == parse_term(tv, p as int),
        decreases ts@.len() - q,
    {
        let op = ts[q].duplicate();
        assert(ts@[q as int].wf());
        let (right, q2) = match factor(ts, q + 1) {
            Ok(x) => x,
            Err(e) => return Err(e),
        };
        expr = Expr::new_binary(expr, op, right);
        q = q2;
    }
    Ok((expr, q))
}

fn factor(ts: &Vec<Token>, p: usize) -> (r: Result<(Expr, usize), ParseError>)
    requires
        all_wf(ts@),
        p <= ts@.len(),
    ensures
        parsed_as(r, parse_factor(token_views(ts@), p as int), token_views(ts@), p as int),
    decreases ts@.len() - p, 5int,
{
    let ghost tv = token_views(ts@);
    let (mut expr, mut q) = match unary(ts, p) {
        Ok(x) => x,
        Err(e) => return Err(e),
    };
    while check_at(ts, q, TokenType::Slash) || check_at(ts, q, TokenType::Star)
        invariant
            tv == token_views(ts@),
            all_wf(ts@),
            p < q <= ts@.len(),
            expr.wf(),
            factor_rest(tv, q as int, expr.tree()) == parse_factor(tv, p as int),
        decreases ts@.len() - q,
    {
        let op = ts[q].duplicate();
        assert(ts@[q as int].wf());
        let (right, q2) = match unary(ts, q + 1) {
            Ok(x) => x,
            Err(e) => return Err(e),
        };
        expr = Expr::new_binary(expr, op, right);
        q = q2;
    }
    Ok((expr, q))
}

fn unary(ts: &Vec<Token>, p: usize) -> (r: Result<(Expr, usize), ParseError>)
    requires
        all_wf(ts@),
        p <= ts@.len(),
    ensures
        parsed_as(r, parse_unary(token_views(ts@), p as int), token_views(ts@), p as int),
    decreases ts@.len() - p, 3int,
{
    if check_at(ts, p, TokenType::Minus) || check_at(ts, p, TokenType::Bang) {
        let op = ts[p].duplicate();
        assert(ts@[p as int].wf());
        match unary(ts, p + 1) {
            Ok((right, q)) => Ok((Expr::new_unary(op, right), q)),
            Err(e) => Err(e),
        }
    } else {
        primary(ts, p)
    }
}

fn primary(ts: &Vec<Token>, p: usize) -> (r: Result<(Expr, usize), ParseError>)
    requires
        all_wf(ts@),
        p <= ts@.len(),
    ensures
        parsed_as(r, parse_primary(token_views(ts@), p as int), token_views(ts@), p as int),
    decreases ts@.len() - p, 2int,
{
    if check_at(ts, p, TokenType::True) {
        Ok((Expr::new_literal(Literal::Bool(true)), p + 1))
    } else if check_at(ts, p, TokenType::False) {
        Ok((Expr::new_literal(Literal::Bool(false)), p + 1))
    } else if check_at(ts, p, TokenType::Nil) {
        Ok((Expr::new_literal(Literal::Nil), p + 1))
    } else if check_at(ts, p, TokenType::Number) || check_at(ts, p, TokenType::String) {
        assert(ts@[p as int].wf());
        match &ts[p].literal {
            Some(v) => Ok((Expr::new_literal(v.duplicate()), p + 1)),
            None => Err(error_exec(ts, p, ParseErrorKind::ExpectExpression)),
        }
    } else if check_at(ts, p, TokenType::LeftParen) {
        match expression(ts, p + 1) {
            Ok((e, q)) => {
                if check_at(ts, q, TokenType::RightParen) {
                    Ok((Expr::new_grouping(e), q + 1))
                } else {
                    Err(error_exec(ts, q, ParseErrorKind::ExpectRightParen))
                }
            },
            Err(e) => Err(e),
        }
    } else {
        Err(error_exec(ts, p, ParseErrorKind::ExpectExpression))
    }
}

/// Reads one expression from a token sequence, with a cursor over it.
pub struct Parser {
    pub tokens: Vec<Token>,
    /// Index of the first unconsumed token.
    pub current: usize,
}

impl Parser {
    pub open spec fn wf(&self) -> bool {
        &&& self.current <= self.tokens@.len()
        &&& all_wf(self.tokens@)
    }

    /// A parser at the first of `tokens_vector`.
    pub fn new(tokens_vector: Vec<Token>) -> (r: Parser)
        requires
            all_wf(tokens_vector@),
        ensures
            r.tokens == tokens_vector,
            r.current == 0,
            r.wf(),
    {
        Parser { tokens: tokens_vector, current: 0 }
    }

    /// Parses one expression at the cursor and moves the cursor past it.
    pub fn expression(&mut self) -> (r: Result<Expr, ParseError>)
        requires
            old(self).wf(),
        ensures
            final(self).tokens == old(self).tokens,
            final(self).wf(),
            match parse_expression(token_views(old(self).tokens@), old(self).current as int) {
                Ok((t, q)) => r matches Ok(e) && e.tree() == t && e.wf() && final(self).current == q,
                Err(err) => r == Err::<Expr, ParseError>(err) && final(self).current == old(self).current,
            },
    {
        match expression(&self.tokens, self.current) {
            Ok((e, q)) => {
                self.current = q;
                Ok(e)
            },
            Err(err) => Err(err),
        }
    }

    /// Parses the tokens from the cursor on as one expression followed by the end.
    pub fn parse(&mut self) -> (r: Result<Expr, ParseError>)
        requires
            old(self).wf(),
        ensures
            final(self).tokens == old(self).tokens,
            final(self).wf(),
            match parse_from(token_views(old(self).tokens@), old(self).current as int) {
                Ok(t) => r matches Ok(e) && e.tree() == t && e.wf(),
                Err(err) => r == Err::<Expr, ParseError>(err),
            },
    {
        let e = self.expression()?;
        if is_end(&self.tokens, self.current) {
            Ok(e)
        } else {
            Err(error_exec(&self.tokens, self.current, ParseErrorKind::ExpectEnd))
        }
    }
}

pub open spec fn literal_token(t: TokenView) -> bool {
    t.kind == TokenType::Number && t.literal is Some
}

pub open spec fn leaf(t: TokenView) -> Box<Tree> {
    Box::new(Tree::Literal(t.literal.unwrap()))
}

proof fn lemma_literal_operand(ts: Seq<TokenView>, p: int)
    requires
        0 <= p < ts.len(),
        literal_token(ts[p]),
        p + 1 < ts.len(),
        ts[p + 1].kind != TokenType::Slash,
        ts[p + 1].kind != TokenType::Star,
    ensures
        parse_factor(ts, p) == Ok::<(Tree, int), ParseError>((*leaf(ts[p]), p + 1)),
{
    assert(parse_primary(ts, p) == Ok::<(Tree, int), ParseError>((*leaf(ts[p]), p + 1)));
    assert(parse_unary(ts, p) == Ok::<(Tree, int), ParseError>((*leaf(ts[p]), p + 1)));
    assert(factor_rest(ts, p + 1, *leaf(ts[p])) == Ok::<(Tree, int), ParseError>((*leaf(ts[p]), p + 1)));
}

proof fn lemma_rest_at_stop(ts: Seq<TokenView>, q: int, t: Tree)
    requires
        0 <= q < ts.len(),
        ts[q].kind == TokenType::Eof || ts[q].kind == TokenType::RightParen,
    ensures
        factor_rest(ts, q, t) == Ok::<(Tree, int), ParseError>((t, q)),
        term_rest(ts, q, t) == Ok::<(Tree, int), ParseError>((t, q)),
        comparison_rest(ts, q, t) == Ok::<(Tree, int), ParseError>((t, q)),
        equality_rest(ts, q, t) == Ok::<(Tree, int), ParseError>((t, q)),
{
}

/// Multiplication binds tighter than addition: for any number tokens `a`, `b`
/// and `c`, `a + b * c` parses as `a + (b * c)`.
pub proof fn lemma_product_binds_tighter(
    a: TokenView,
    plus: TokenView,
    b: TokenView,
    star: TokenView,
    c: TokenView,
    end: TokenView,
)
    requires
        literal_token(a),
        literal_token(b),
        literal_token(c),
        plus.kind == TokenType::Plus,
        star.kind == TokenType::Star,
        end.kind == TokenType::Eof,
    ensures
        parse_tokens(seq![a, plus, b, star, c, end]) == Ok::<Tree, ParseError>(
            Tree::Binary(leaf(a), plus, Box::new(Tree::Binary(leaf(b), star, leaf(c)))),
        ),
{
    let ts = seq![a, plus, b, star, c, end];
    let bc = Tree::Binary(leaf(b), star, leaf(c));
    let all = Tree::Binary(leaf(a), plus, Box::new(bc));
    lemma_literal_operand(ts, 0);
    lemma_literal_operand(ts, 4);
    assert(parse_primary(ts, 2) == Ok::<(Tree, int), ParseError>((*leaf(b), 3)));
    assert(parse_unary(ts, 2) == Ok::<(Tree, int), ParseError>((*leaf(b), 3)));
    assert(parse_unary(ts, 4) == Ok::<(Tree, int), ParseError>((*leaf(c), 5)));
    lemma_rest_at_stop(ts, 5, bc);
    lemma_rest_at_stop(ts, 5, all);
    assert(factor_rest(ts, 3, *leaf(b)) == Ok::<(Tree, int), ParseError>((bc, 5)));
    assert(parse_factor(ts, 2) == Ok::<(Tree, int), ParseError>((bc, 5)));
    assert(term_rest(ts, 1, *leaf(a)) == Ok::<(Tree, int), ParseError>((all, 5)));
    assert(parse_term(ts, 0) == Ok::<(Tree, int), ParseError>((all, 5)));
    assert(parse_comparison(ts, 0) == Ok::<(Tree, int), ParseError>((all, 5)));
    assert(parse_equality(ts, 0) == Ok::<(Tree, int), ParseError>((all, 5)));
    assert(parse_expression(ts, 0) == Ok::<(Tree, int), ParseError>((all, 5)));
}

/// Grouping overrides precedence: for any number tokens `a`, `b` and `c`,
/// `(a + b) * c` parses as the group of `a + b`, times `c`.
pub proof fn lemma_grouping_binds_first(
    left_paren: TokenView,
    a: TokenView,
    plus: TokenView,
    b: TokenView,
    right_paren: TokenView,
    star: TokenView,
    c: TokenView,
    end: TokenView,
)
    requires
        literal_token(a),
        literal_token(b),
        literal_token(c),
        left_paren.kind == TokenType::LeftParen,
        right_paren.kind == TokenType::RightParen,
        plus.kind == TokenType::Plus,
        star.kind == TokenType::Star,
        end.kind == TokenType::Eof,
    ensures
        parse_tokens(seq![left_paren, a, plus, b, right_paren, star, c, end]) == Ok::<Tree, ParseError>(
            Tree::Binary(
                Box::new(Tree::Grouping(Box::new(Tree::Binary(leaf(a), plus, leaf(b))))),
                star,
                leaf(c),
            ),
        ),
{
    let ts = seq![left_paren, a, plus, b, right_paren, star, c, end];
    let ab = Tree::Binary(leaf(a), plus, leaf(b));
    let g = Tree::Grouping(Box::new(ab));
    let all = Tree::Binary(Box::new(g), star, leaf(c));
    lemma_literal_operand(ts, 1);
    lemma_literal_operand(ts, 3);
    lemma_rest_at_stop(ts, 4, ab);
    assert(term_rest(ts, 2, *leaf(a)) == Ok::<(Tree, int), ParseError>((ab, 4)));
    assert(parse_term(ts, 1) == Ok::<(Tree, int), ParseError>((ab, 4)));
    assert(parse_comparison(ts, 1) == Ok::<(Tree, int), ParseError>((ab, 4)));
    assert(parse_equality(ts, 1) == Ok::<(Tree, int), ParseError>((ab, 4)));
    assert(parse_expression(ts, 1) == Ok::<(Tree, int), ParseError>((ab, 4)));
    assert(parse_primary(ts, 0) == Ok::<(Tree, int), ParseError>((g, 5)));
    assert(parse_unary(ts, 0) == Ok::<(Tree, int), ParseError>((g, 5)));
    assert(parse_primary(ts, 6) == Ok::<(Tree, int), ParseError>((*leaf(c), 7)));
    assert(parse_unary(ts, 6) == Ok::<(Tree, int), ParseError>((*leaf(c), 7)));
    lemma_rest_at_stop(ts, 7, all);
    assert(factor_rest(ts, 5, g) == Ok::<(Tree, int), ParseError>((all, 7)));
    assert(parse_factor(ts, 0) == Ok::<(Tree, int), ParseError>((all, 7)));
    assert(parse_term(ts, 0) == Ok::<(Tree, int), ParseError>((all, 7)));
    assert(parse_comparison(ts, 0) == Ok::<(Tree, int), ParseError>((all, 7)));
    assert(parse_equality(ts, 0) == Ok::<(Tree, int), ParseError>((all, 7)));
    assert(parse_expression(ts, 0) == Ok::<(Tree, int), ParseError>((all, 7)));
}

} // verus!
