//! The evaluator: a syntax tree to a runtime value.
use vstd::prelude::*;
use crate::number::{
    Number, num_add, num_div, num_eq, num_le, num_lt, num_mul, num_neg, num_sub, number_of,
    lemma_view_number_of,
};
use crate::token::{Token, TokenType, chars_between, same_chars};
use crate::tree::{
    AstVisitor, Binary, Expr, ExprView, Grouping, Literal, LiteralView, Unary, expr_view,
};

verus! {

/// A runtime value.
pub enum Value {
    Number(Number),
    String(Vec<char>),
    Boolean(bool),
    Nil,
}

pub enum ValueView {
    Number(Number),
    String(Seq<char>),
    Boolean(bool),
    Nil,
}

impl View for Value {
    type V = ValueView;

    open spec fn view(&self) -> ValueView {
        match self {
            Value::Number(n) => ValueView::Number(*n),
            Value::String(s) => ValueView::String(s@),
            Value::Boolean(b) => ValueView::Boolean(*b),
            Value::Nil => ValueView::Nil,
        }
    }
}

/// Why an evaluation stopped.
#[derive(Clone, Copy, Debug, PartialEq, Eq, Structural)]
pub enum RuntimeError {
    /// An operator applied to operands of kinds it does not take.
    TypeMismatch,
    /// A name; no name is bound in this language.
    UndefinedVariable,
}

pub struct Interpreter;

/// `nil` and `false` are falsy; every other value is truthy.
pub open spec fn is_truthy(v: ValueView) -> bool {
    match v {
        ValueView::Nil => false,
        ValueView::Boolean(b) => b,
        _ => true,
    }
}

/// Equality within a kind; values of different kinds are unequal.
pub open spec fn values_equal(a: ValueView, b: ValueView) -> bool {
    match (a, b) {
        (ValueView::Number(x), ValueView::Number(y)) => num_eq(x@, y@),
        (ValueView::String(x), ValueView::String(y)) => x == y,
        (ValueView::Boolean(x), ValueView::Boolean(y)) => x == y,
        (ValueView::Nil, ValueView::Nil) => true,
        _ => false,
    }
}

pub open spec fn number_value(v: (int, int)) -> Result<ValueView, RuntimeError> {
    Ok(ValueView::Number(number_of(v)))
}

/// The result of the binary operator `op` on the values `l` and `r`.
pub open spec fn binary_value(op: TokenType, l: ValueView, r: ValueView) -> Result<ValueView, RuntimeError> {
    match op {
        TokenType::EqualEqual => Ok(ValueView::Boolean(values_equal(l, r))),
        TokenType::BangEqual => Ok(ValueView::Boolean(!values_equal(l, r))),
        TokenType::Plus => match (l, r) {
            (ValueView::Number(a), ValueView::Number(b)) => number_value(num_add(a@, b@)),
            (ValueView::String(a), ValueView::String(b)) => Ok(ValueView::String(a + b)),
            _ => Err(RuntimeError::TypeMismatch),
        },
        TokenType::Greater | TokenType::GreaterEqual | TokenType::Less | TokenType::LessEqual
        | TokenType::Minus | TokenType::Star | TokenType::Slash => match (l, r) {
            (ValueView::Number(a), ValueView::Number(b)) => match op {
                TokenType::Greater => Ok(ValueView::Boolean(num_lt(b@, a@))),
                TokenType::GreaterEqual => Ok(ValueView::Boolean(num_le(b@, a@))),
                TokenType::Less => Ok(ValueView::Boolean(num_lt(a@, b@))),
                TokenType::LessEqual => Ok(ValueView::Boolean(num_le(a@, b@))),
                TokenType::Minus => number_value(num_sub(a@, b@)),
                TokenType::Star => number_value(num_mul(a@, b@)),
                _ => number_value(num_div(a@, b@)),
            },
            _ => Err(RuntimeError::TypeMismatch),
        },
        _ => Ok(ValueView::Nil),
    }
}

/// The result of the prefix operator `op` on the value `v`.
pub open spec fn unary_value(op: TokenType, v: ValueView) -> Result<ValueView, RuntimeError> {
    match op {
        TokenType::Minus => match v {
            ValueView::Number(a) => Ok(ValueView::Number(number_of(num_neg(a@)))),
            _ => Err(RuntimeError::TypeMismatch),
        },
        TokenType::Bang => Ok(ValueView::Boolean(!is_truthy(v))),
        _ => Ok(ValueView::Nil),
    }
}

pub open spec fn literal_value(l: LiteralView) -> ValueView {
    match l {
        LiteralView::Number(n) => ValueView::Number(n),
        LiteralView::String(s) => ValueView::String(s),
        LiteralView::Boolean(b) => ValueView::Boolean(b),
        LiteralView::Nil => ValueView::Nil,
    }
}

/// The value of an expression: children first, then the operator.
pub open spec fn eval(e: ExprView) -> Result<ValueView, RuntimeError>
    decreases e,
{
    match e {
        ExprView::Binary(l, op, r) => match eval(*l) {
            Ok(a) => match eval(*r) {
                Ok(b) => binary_value(op.token_type, a, b),
                Err(x) => Err(x),
            },
            Err(x) => Err(x),
        },
        ExprView::Unary(op, r) => match eval(*r) {
            Ok(v) => unary_value(op.token_type, v),
            Err(x) => Err(x),
        },
        ExprView::Grouping(inner) => eval(*inner),
        ExprView::Literal(l) => Ok(literal_value(l)),
        ExprView::Variable(_) => Err(RuntimeError::UndefinedVariable),
    }
}

pub open spec fn eval_result_view(r: Result<Value, RuntimeError>) -> Result<ValueView, RuntimeError> {
    match r {
        Ok(v) => Ok(v@),
        Err(e) => Err(e),
    }
}

/// `true` when `a` and `b` are equal by `values_equal`.
pub fn is_equal(a: &Value, b: &Value) -> (r: bool)
    ensures
        r == values_equal(a@, b@),
{
    match (a, b) {
        (Value::Number(x), Value::Number(y)) => x.num_equals(y),
        (Value::String(x), Value::String(y)) => same_chars(x, y.as_slice()),
        (Value::Boolean(x), Value::Boolean(y)) => *x == *y,
        (Value::Nil, Value::Nil) => true,
        _ => false,
    }
}

fn is_truthy_exec(v: &Value) -> (r: bool)
    ensures
        r == is_truthy(v@),
{
    match v {
        Value::Nil => false,
        Value::Boolean(b) => *b,
        _ => true,
    }
}

fn number_result(n: Number) -> (v: Result<Value, RuntimeError>)
    ensures
        eval_result_view(v) == number_value(n@),
{
    proof {
        lemma_view_number_of(n);
    }
    Ok(Value::Number(n))
}

fn concat_chars(a: &Vec<char>, b: &Vec<char>) -> (r: Vec<char>)
    ensures
        r@ == a@ + b@,
{
    let mut r = chars_between(a, 0, a.len());
    let mut i: usize = 0;
    assert(r@ =~= a@ + b@.subrange(0, 0));
    while i < b.len()
        invariant
            0 <= i <= b@.len(),
            r@ == a@ + b@.subrange(0, i as int),
        decreases b@.len() - i,
    {
        r.push(b[i]);
        i = i + 1;
        assert(r@ =~= a@ + b@.subrange(0, i as int));
    }
    assert(b@.subrange(0, b@.len() as int) =~= b@);
    r
}

/// The result of the binary operator `op` on the values `l` and `r`.
pub fn apply_binary(op: TokenType, l: &Value, r: &Value) -> (v: Result<Value, RuntimeError>)
    ensures
        eval_result_view(v) == binary_value(op, l@, r@),
{
    match op {
        TokenType::EqualEqual => Ok(Value::Boolean(is_equal(l, r))),
        TokenType::BangEqual => Ok(Value::Boolean(!is_equal(l, r))),
        TokenType::Plus => match (l, r) {
            (Value::Number(a), Value::Number(b)) => number_result(a.add(b)),
            (Value::String(a), Value::String(b)) => Ok(Value::String(concat_chars(a, b))),
            _ => Err(RuntimeError::TypeMismatch),
        },
        TokenType::Greater | TokenType::GreaterEqual | TokenType::Less | TokenType::LessEqual
        | TokenType::Minus | TokenType::Star | TokenType::Slash => match (l, r) {
            (Value::Number(a), Value::Number(b)) => match op {
                TokenType::Greater => Ok(Value::Boolean(b.less_than(a))),
                TokenType::GreaterEqual => Ok(Value::Boolean(b.less_equal(a))),
                TokenType::Less => Ok(Value::Boolean(a.less_than(b))),
                TokenType::LessEqual => Ok(Value::Boolean(a.less_equal(b))),
                TokenType::Minus => number_result(a.sub(b)),
                TokenType::Star => number_result(a.mul(b)),
                _ => number_result(a.div(b)),
            },
            _ => Err(RuntimeError::TypeMismatch),
        },
        _ => Ok(Value::Nil),
    }
}

/// The result of the prefix operator `op` on the value `v`.
pub fn apply_unary(op: TokenType, v: &Value) -> (r: Result<Value, RuntimeError>)
    ensures
        eval_result_view(r) == unary_value(op, v@),
{
    match op {
        TokenType::Minus => match v {
            Value::Number(a) => {
                let n = a.neg();
                proof {
                    lemma_view_number_of(n);
                }
                Ok(Value::Number(n))
            },
            _ => Err(RuntimeError::TypeMismatch),
        },
        TokenType::Bang => Ok(Value::Boolean(!is_truthy_exec(v))),
        _ => Ok(Value::Nil),
    }
}

impl Interpreter {
    /// Evaluates `expr` to a value, or stops at the first runtime error.
    pub fn process(&self, expr: &Expr) -> (r: Result<Value, RuntimeError>)
        ensures
            eval_result_view(r) == eval(expr_view(expr)),
        decreases expr,
    {
        match expr {
            Expr::Binary(b) => self.visit_binary(b),
            Expr::Unary(u) => self.visit_unary(u),
            Expr::Grouping(g) => self.visit_grouping(g),
            Expr::Literal(l) => Ok(self.visit_literal(l)),
            Expr::Variable(_) => Err(RuntimeError::UndefinedVariable),
        }
    }

    pub fn visit_binary(&self, binary: &Binary) -> (r: Result<Value, RuntimeError>)
        ensures
            eval_result_view(r) == eval(
                ExprView::Binary(
                    Box::new(expr_view(&*binary.left)),
                    binary.operator@,
                    Box::new(expr_view(&*binary.right)),
                ),
            ),
        decreases binary,
    {
        let left = match self.process(&binary.left) {
            Ok(v) => v,
            Err(e) => return Err(e),
        };
        let right = match self.process(&binary.right) {
            Ok(v) => v,
            Err(e) => return Err(e),
        };
        apply_binary(binary.operator.token_type, &left, &right)
    }

    pub fn visit_unary(&self, unary: &Unary) -> (r: Result<Value, RuntimeError>)
        ensures
            eval_result_view(r) == eval(
                ExprView::Unary(unary.operator@, Box::new(expr_view(&*unary.right))),
            ),
        decreases unary,
    {
        let right = match self.process(&unary.right) {
            Ok(v) => v,
            Err(e) => return Err(e),
        };
        apply_unary(unary.operator.token_type, &right)
    }

    pub fn visit_grouping(&self, grouping: &Grouping) -> (r: Result<Value, RuntimeError>)
        ensures
            eval_result_view(r) == eval(expr_view(&*grouping.expression)),
        decreases grouping,
    {
        self.process(&grouping.expression)
    }

    pub fn visit_literal(&self, literal: &Literal) -> (r: Value)
        ensures
            r@ == literal_value(literal@),
    {
        match literal {
            Literal::Number(n) => Value::Number(*n),
            Literal::String(s) => {
                let copy = chars_between(s, 0, s.len());
                assert(copy@ =~= s@);
                Value::String(copy)
            },
            Literal::Boolean(b) => Value::Boolean(*b),
            Literal::Nil => Value::Nil,
        }
    }
}

impl AstVisitor<Result<Value, RuntimeError>, ()> for Interpreter {
    fn process(&mut self, expr: &Expr, _context: Option<&()>) -> Result<Value, RuntimeError> {
        Interpreter::process(&*self, expr)
    }

    fn visit_binary(&mut self, binary: &Binary, _context: Option<&()>) -> Result<Value, RuntimeError> {
        Interpreter::visit_binary(&*self, binary)
    }

    fn visit_unary(&mut self, unary: &Unary, _context: Option<&()>) -> Result<Value, RuntimeError> {
        Interpreter::visit_unary(&*self, unary)
    }

    fn visit_grouping(&mut self, grouping: &Grouping, _context: Option<&()>) -> Result<
        Value,
        RuntimeError,
    > {
        Interpreter::visit_grouping(&*self, grouping)
    }

    fn visit_literal(&mut self, literal: &Literal, _context: Option<&()>) -> Result<Value, RuntimeError> {
        Ok(Interpreter::visit_literal(&*self, literal))
    }

    fn visit_variable(&mut self, name: &Token, _context: Option<&()>) -> Result<Value, RuntimeError> {
        Err(RuntimeError::UndefinedVariable)
    }
}

} // verus!
