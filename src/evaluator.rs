//! Tree-walking evaluation of an expression to one value or one runtime error.
use vstd::prelude::*;
use crate::number::{Decimal, Number, result_text};
use crate::parser::{Expr, Tree};
use crate::scanner::{Literal, Token, TokenType, TokenView, Value};

verus! {

/// A failed evaluation: the operator token where it failed, and why.
#[derive(Debug)]
pub struct RunTimeError {
    pub token: Token,
    pub message: String,
}

impl RunTimeError {
    pub fn new(token: &Token, message: &str) -> (r: RunTimeError)
        ensures
            r.token@ == token@,
            r.message@ == message@,
    {
        RunTimeError { token: token.duplicate(), message: String::from_str(message) }
    }
}

/// A runtime error as the evaluation rules state it: operator token and message.
pub type Failure = (TokenView, Seq<char>);

/// Only `false` and `nil` are falsy.
pub open spec fn truthy(v: Value) -> bool {
    match v {
        Value::Bool(b) => b,
        Value::Nil => false,
        _ => true,
    }
}

/// Equality across the variants: values of different variants are never equal.
pub open spec fn values_equal(a: Value, b: Value) -> bool {
    match (a, b) {
        (Value::Number(x), Value::Number(y)) => x.same_value(y),
        (Value::Str(x), Value::Str(y)) => x == y,
        (Value::Bool(x), Value::Bool(y)) => x == y,
        (Value::Nil, Value::Nil) => true,
        _ => false,
    }
}

pub open spec fn unary_result(op: TokenView, v: Value) -> Result<Value, Failure> {
    if op.kind == TokenType::Minus {
        match v {
            Value::Number(n) => Ok(Value::Number(n.negation())),
            _ => Err((op, "Operand must be a number."@)),
        }
    } else if op.kind == TokenType::Bang {
        Ok(Value::Bool(!truthy(v)))
    } else {
        Err((op, "Invalid unary operator."@))
    }
}

/// Operators defined on two numbers only.
pub open spec fn is_numeric_operator(k: TokenType) -> bool {
    k == TokenType::Greater || k == TokenType::GreaterEqual || k == TokenType::Less || k
        == TokenType::LessEqual || k == TokenType::Minus || k == TokenType::Slash || k
        == TokenType::Star
}

pub open spec fn numeric_result(op: TokenView, x: Decimal, y: Decimal) -> Result<Value, Failure> {
    if op.kind == TokenType::Greater {
        Ok(Value::Bool(y.less_than(x)))
    } else if op.kind == TokenType::GreaterEqual {
        Ok(Value::Bool(!x.less_than(y)))
    } else if op.kind == TokenType::Less {
        Ok(Value::Bool(x.less_than(y)))
    } else if op.kind == TokenType::LessEqual {
        Ok(Value::Bool(!y.less_than(x)))
    } else if op.kind == TokenType::Minus {
        Ok(Value::Number(x.difference(y)))
    } else if op.kind == TokenType::Star {
        Ok(Value::Number(x.product(y)))
    } else if y.is_zero() {
        Err((op, "Division by zero"@))
    } else {
        Ok(Value::Number(x.quotient(y)))
    }
}

pub open spec fn binary_result(op: TokenView, a: Value, b: Value) -> Result<Value, Failure> {
    if is_numeric_operator(op.kind) {
        match (a, b) {
            (Value::Number(x), Value::Number(y)) => numeric_result(op, x, y),
            _ => Err((op, "Operands must be numbers."@)),
        }
    } else if op.kind == TokenType::Plus {
        match (a, b) {
            (Value::Number(x), Value::Number(y)) => Ok(Value::Number(x.sum(y))),
            (Value::Str(x), Value::Str(y)) => Ok(Value::Str(x + y)),
            _ => Err((op, "Operands must be two numbers or strings."@)),
        }
    } else if op.kind == TokenType::EqualEqual {
        Ok(Value::Bool(values_equal(a, b)))
    } else if op.kind == TokenType::BangEqual {
        Ok(Value::Bool(!values_equal(a, b)))
    } else {
        Err((op, "Unknown binary operator"@))
    }
}

/// The value of a tree: operands left to right, the first failure aborts.
pub open spec fn eval(t: Tree) -> Result<Value, Failure>
    decreases t,
{
    match t {
        Tree::Literal(v) => Ok(v),
        Tree::Grouping(e) => eval(*e),
        Tree::Unary(op, e) => match eval(*e) {
            Ok(v) => unary_result(op, v),
            Err(f) => Err(f),
        },
        Tree::Binary(l, op, r) => match eval(*l) {
            Ok(a) => match eval(*r) {
                Ok(b) => binary_result(op, a, b),
                Err(f) => Err(f),
            },
            Err(f) => Err(f),
        },
    }
}

/// The display text of a result.
pub open spec fn value_text(v: Value) -> Seq<char> {
    match v {
        Value::Number(n) => result_text(n),
        Value::Str(s) => s,
        Value::Bool(b) => if b {
            "true"@
        } else {
            "false"@
        },
        Value::Nil => "nil"@,
    }
}

/// `r` is the outcome `s` states.
pub open spec fn evaluated_as(r: Result<Literal, RunTimeError>, s: Result<Value, Failure>) -> bool {
    match s {
        Ok(v) => r matches Ok(l) && l@ == v && l.wf(),
        Err((tok, msg)) => r matches Err(e) && e.token@ == tok && e.message@ == msg,
    }
}

pub open spec fn height(e: &Expr) -> nat
    decreases e,
{
    match e {
        Expr::Binary { left, right, .. } => {
            let l = height(left);
            let r = height(right);
            1 + if l > r {
                l
            } else {
                r
            }
        },
        Expr::Grouping { expression } => 1 + height(expression),
        Expr::Literal { .. } => 0,
        Expr::Unary { right, .. } => 1 + height(right),
    }
}

/// Evaluates expression trees.
pub struct Interpreter {}

impl Interpreter {
    pub fn new() -> (r: Interpreter) {
        Interpreter {}
    }

    /// Only `false` and `nil` are falsy.
    pub fn is_truthy(&self, literal: &Literal) -> (r: bool)
        ensures
            r == truthy(literal@),
    {
        match literal {
            Literal::Bool(b) => *b,
            Literal::Nil => false,
            _ => true,
        }
    }

    /// Equality across the variants, with no coercion.
    pub fn is_equal(&self, left: &Literal, right: &Literal) -> (r: bool)
        requires
            left.wf(),
            right.wf(),
        ensures
            r == values_equal(left@, right@),
    {
        match (left, right) {
            (Literal::Number(x), Literal::Number(y)) => x.equals(y),
            (Literal::String(x), Literal::String(y)) => *x == *y,
            (Literal::Bool(x), Literal::Bool(y)) => *x == *y,
            (Literal::Nil, Literal::Nil) => true,
            _ => false,
        }
    }

    /// The number in `operand`, or the error of a unary operator on another value.
    pub fn check_number_operand(&self, operator: &Token, operand: &Literal) -> (r: Result<Number, RunTimeError>)
        requires
            operand.wf(),
        ensures
            match operand@ {
                Value::Number(n) => r matches Ok(m) && m@ == n && m.wf(),
                _ => r matches Err(e) && e.token@ == operator@ && e.message@ == "Operand must be a number."@,
            },
    {
        match operand {
            Literal::Number(x) => Ok(x.duplicate()),
            _ => Err(RunTimeError::new(operator, "Operand must be a number.")),
        }
    }

    /// The numbers in both operands, or the error of a numeric operator on other values.
    pub fn check_number_operands(&self, operator: &Token, left: &Literal, right: &Literal) -> (r: Result<(Number, Number), RunTimeError>)
        requires
            left.wf(),
            right.wf(),
        ensures
            match (left@, right@) {
                (Value::Number(x), Value::Number(y)) => r matches Ok((a, b)) && a@ == x && b@ == y
                    && a.wf() && b.wf(),
                _ => r matches Err(e) && e.token@ == operator@ && e.message@ == "Operands must be numbers."@,
            },
    {
        match (left, right) {
            (Literal::Number(x), Literal::Number(y)) => Ok((x.duplicate(), y.duplicate())),
            _ => Err(RunTimeError::new(operator, "Operands must be numbers.")),
        }
    }

    /// Evaluates a tree to its value, or to the first runtime error.
    pub fn evaluate(&self, expr: &Expr) -> (r: Result<Literal, RunTimeError>)
        requires
            expr.wf(),
        ensures
            evaluated_as(r, eval(expr.tree())),
        decreases height(expr), 1nat,
    {
        match expr {
            Expr::Binary { left, operator, right } => self.visit_binary_expression(left, operator, right),
            Expr::Grouping { expression } => self.visit_grouping_expr(expression),
            Expr::Literal { value } => self.visit_literal_expr(value),
            Expr::Unary { operator, right } => self.visit_unary_expr(operator, right),
        }
    }

    /// A literal evaluates to itself.
    pub fn visit_literal_expr(&self, value: &Literal) -> (r: Result<Literal, RunTimeError>)
        requires
            value.wf(),
        ensures
            evaluated_as(r, eval(Tree::Literal(value@))),
    {
        Ok(value.duplicate())
    }

    /// A grouping evaluates to the value of the expression inside it.
    pub fn visit_grouping_expr(&self, expression: &Expr) -> (r: Result<Literal, RunTimeError>)
        requires
            expression.wf(),
        ensures
            evaluated_as(r, eval(Tree::Grouping(Box::new(expression.tree())))),
        decreases height(expression) + 1, 0nat,
    {
        self.evaluate(expression)
    }

    /// Evaluates `operator` applied to `right`.
    pub fn visit_unary_expr(&self, operator: &Token, right: &Expr) -> (r: Result<Literal, RunTimeError>)
        requires
            right.wf(),
        ensures
            evaluated_as(r, eval(Tree::Unary(operator@, Box::new(right.tree())))),
        decreases height(right) + 1, 0nat,
    {
        let value = self.evaluate(right)?;
        match operator.token_type {
            TokenType::Minus => {
                let n = self.check_number_operand(operator, &value)?;
                Ok(Literal::Number(n.neg()))
            },
            TokenType::Bang => Ok(Literal::Bool(!self.is_truthy(&value))),
            _ => Err(RunTimeError::new(operator, "Invalid unary operator.")),
        }
    }

    /// Evaluates `left`, then `right`, then applies `operator`.
    pub fn visit_binary_expression(&self, left_expr: &Expr, operator: &Token, right_expr: &Expr) -> (r: Result<Literal, RunTimeError>)
        requires
            left_expr.wf(),
            right_expr.wf(),
        ensures
            evaluated_as(
                r,
                eval(Tree::Binary(Box::new(left_expr.tree()), operator@, Box::new(right_expr.tree()))),
            ),
        decreases 1 + if height(left_expr) > height(right_expr) {
            height(left_expr)
        } else {
            height(right_expr)
        }, 0nat,
    {
        let left = self.evaluate(left_expr)?;
        let right = self.evaluate(right_expr)?;
        match operator.token_type {
            TokenType::Greater => {
                let (x, y) = self.check_number_operands(operator, &left, &right)?;
                Ok(Literal::Bool(y.lt(&x)))
            },
            TokenType::GreaterEqual => {
                let (x, y) = self.check_number_operands(operator, &left, &right)?;
                Ok(Literal::Bool(!x.lt(&y)))
            },
            TokenType::Less => {
                let (x, y) = self.check_number_operands(operator, &left, &right)?;
                Ok(Literal::Bool(x.lt(&y)))
            },
            TokenType::LessEqual => {
                let (x, y) = self.check_number_operands(operator, &left, &right)?;
                Ok(Literal::Bool(!y.lt(&x)))
            },
            TokenType::Minus => {
                let (x, y) = self.check_number_operands(operator, &left, &right)?;
                Ok(Literal::Number(x.sub(&y)))
            },
            TokenType::Slash => {
                let (x, y) = self.check_number_operands(operator, &left, &right)?;
                if y.is_zero() {
                    return Err(RunTimeError::new(operator, "Division by zero"));
                }
                Ok(Literal::Number(x.div(&y)))
            },
            TokenType::Star => {
                let (x, y) = self.check_number_operands(operator, &left, &right)?;
                Ok(Literal::Number(x.mul(&y)))
            },
            TokenType::Plus => match (&left, &right) {
                (Literal::Number(x), Literal::Number(y)) => Ok(Literal::Number(x.add(y))),
                (Literal::String(x), Literal::String(y)) => Ok(
                    Literal::String(x.clone().concat(y.as_str())),
                ),
                _ => Err(RunTimeError::new(operator, "Operands must be two numbers or strings.")),
            },
            TokenType::BangEqual => Ok(Literal::Bool(!self.is_equal(&left, &right))),
            TokenType::EqualEqual => Ok(Literal::Bool(self.is_equal(&left, &right))),
            _ => Err(RunTimeError::new(operator, "Unknown binary operator")),
        }
    }

    /// The display text of a result; `None` shows as `nil`.
    pub fn stringify(&self, literal: &Option<Literal>) -> (r: String)
        requires
            literal matches Some(l) ==> l.wf(),
        ensures
            r@ == match literal {
                Some(l) => value_text(l@),
                None => "nil"@,
            },
    {
        match literal {
            None => String::from_str("nil"),
            Some(Literal::Number(n)) => n.to_result_text(),
            Some(Literal::String(s)) => s.clone(),
            Some(Literal::Bool(b)) => if *b {
                String::from_str("true")
            } else {
                String::from_str("false")
            },
            Some(Literal::Nil) => String::from_str("nil"),
        }
    }

    /// Evaluates a tree and gives the display text of its value, or the runtime error.
    pub fn interpret(&self, expression: &Expr) -> (r: Result<String, RunTimeError>)
        requires
            expression.wf(),
        ensures
            match eval(expression.tree()) {
                Ok(v) => r matches Ok(s) && s@ == value_text(v),
                Err((tok, msg)) => r matches Err(e) && e.token@ == tok && e.message@ == msg,
            },
    {
        let value = self.evaluate(expression)?;
        Ok(self.stringify(&Some(value)))
    }
}

pub open spec fn literal_tree(v: Value) -> Box<Tree> {
    Box::new(Tree::Literal(v))
}

pub open spec fn same_variant(a: Value, b: Value) -> bool {
    match (a, b) {
        (Value::Number(_), Value::Number(_)) => true,
        (Value::Str(_), Value::Str(_)) => true,
        (Value::Bool(_), Value::Bool(_)) => true,
        (Value::Nil, Value::Nil) => true,
        _ => false,
    }
}

/// Values of different variants are never equal and never an error: `==` gives
/// `false` and `!=` gives `true`.
pub proof fn lemma_cross_variant_equality(a: Value, op: TokenView, b: Value)
    requires
        !same_variant(a, b),
        op.kind == TokenType::EqualEqual || op.kind == TokenType::BangEqual,
    ensures
        eval(Tree::Binary(literal_tree(a), op, literal_tree(b))) == Ok::<Value, Failure>(
            Value::Bool(op.kind == TokenType::BangEqual),
        ),
{
    assert(eval(Tree::Literal(a)) == Ok::<Value, Failure>(a));
    assert(eval(Tree::Literal(b)) == Ok::<Value, Failure>(b));
}

/// Only `false` and `nil` are falsy: `!` gives `true` on those two values and
/// `false` on every other one, zero and the empty string included.
pub proof fn lemma_negation_truthiness(op: TokenView, v: Value)
    requires
        op.kind == TokenType::Bang,
    ensures
        eval(Tree::Unary(op, literal_tree(v))) == Ok::<Value, Failure>(
            Value::Bool(v == Value::Bool(false) || v == Value::Nil),
        ),
{
    assert(eval(Tree::Literal(v)) == Ok::<Value, Failure>(v));
}

/// `+` takes two numbers or two strings: on any other pair it is a runtime
/// error at the operator.
pub proof fn lemma_plus_mixed_operands(a: Value, op: TokenView, b: Value)
    requires
        op.kind == TokenType::Plus,
        !(a is Number && b is Number),
        !(a is Str && b is Str),
    ensures
        eval(Tree::Binary(literal_tree(a), op, literal_tree(b))) == Err::<Value, Failure>(
            (op, "Operands must be two numbers or strings."@),
        ),
{
    assert(eval(Tree::Literal(a)) == Ok::<Value, Failure>(a));
    assert(eval(Tree::Literal(b)) == Ok::<Value, Failure>(b));
}

/// Dividing a number by zero is the runtime error "Division by zero" at the
/// operator.
pub proof fn lemma_division_by_zero(x: Decimal, op: TokenView, y: Decimal)
    requires
        op.kind == TokenType::Slash,
        y.is_zero(),
    ensures
        eval(Tree::Binary(literal_tree(Value::Number(x)), op, literal_tree(Value::Number(y))))
            == Err::<Value, Failure>((op, "Division by zero"@)),
{
    assert(eval(Tree::Literal(Value::Number(x))) == Ok::<Value, Failure>(Value::Number(x)));
    assert(eval(Tree::Literal(Value::Number(y))) == Ok::<Value, Failure>(Value::Number(y)));
}

/// Arithmetic and comparison on two numbers never fail, but for division by
/// zero: `+`, `-`, `*` and `/` give the exact sum, difference and product and the
/// cut quotient, however large the operands.
pub proof fn lemma_numbers_never_overflow(x: Decimal, op: TokenView, y: Decimal)
    requires
        is_numeric_operator(op.kind) || op.kind == TokenType::Plus,
        !(op.kind == TokenType::Slash && y.is_zero()),
    ensures
        eval(Tree::Binary(literal_tree(Value::Number(x)), op, literal_tree(Value::Number(y)))) is Ok,
        op.kind == TokenType::Plus ==> eval(
            Tree::Binary(literal_tree(Value::Number(x)), op, literal_tree(Value::Number(y))),
        ) == Ok::<Value, Failure>(Value::Number(x.sum(y))),
        op.kind == TokenType::Minus ==> eval(
            Tree::Binary(literal_tree(Value::Number(x)), op, literal_tree(Value::Number(y))),
        ) == Ok::<Value, Failure>(Value::Number(x.difference(y))),
        op.kind == TokenType::Star ==> eval(
            Tree::Binary(literal_tree(Value::Number(x)), op, literal_tree(Value::Number(y))),
        ) == Ok::<Value, Failure>(Value::Number(x.product(y))),
        op.kind == TokenType::Slash ==> eval(
            Tree::Binary(literal_tree(Value::Number(x)), op, literal_tree(Value::Number(y))),
        ) == Ok::<Value, Failure>(Value::Number(x.quotient(y))),
{
    assert(eval(Tree::Literal(Value::Number(x))) == Ok::<Value, Failure>(Value::Number(x)));
    assert(eval(Tree::Literal(Value::Number(y))) == Ok::<Value, Failure>(Value::Number(y)));
}

/// Negating a number always gives its negation.
pub proof fn lemma_negation_never_fails(op: TokenView, x: Decimal)
    requires
        op.kind == TokenType::Minus,
    ensures
        eval(Tree::Unary(op, literal_tree(Value::Number(x)))) == Ok::<Value, Failure>(
            Value::Number(x.negation()),
        ),
{
    assert(eval(Tree::Literal(Value::Number(x))) == Ok::<Value, Failure>(Value::Number(x)));
}

} // verus!
