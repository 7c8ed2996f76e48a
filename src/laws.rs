//! Properties of parsing and evaluation, stated over the spec functions.
use vstd::prelude::*;
use crate::interpreter::{RuntimeError, ValueView, binary_value, values_equal};
use crate::parser::{
    ParseErrorKind, ParserErrView, error_at, lemma_expression_advances, lemma_operand_advances, op_at,
    p_binary, p_expression, p_operand, p_rest, p_unary, p_primary,
};
use crate::token::{TokenType, TokenView};
use crate::tree::ExprView;

verus! {

/// Two values are of the same runtime kind.
pub open spec fn same_kind(a: ValueView, b: ValueView) -> bool {
    match (a, b) {
        (ValueView::Number(_), ValueView::Number(_)) => true,
        (ValueView::String(_), ValueView::String(_)) => true,
        (ValueView::Boolean(_), ValueView::Boolean(_)) => true,
        (ValueView::Nil, ValueView::Nil) => true,
        _ => false,
    }
}

/// `==` and `!=` never fail, and values of different kinds are unequal.
pub proof fn lemma_equality_never_fails(l: ValueView, r: ValueView)
    ensures
        binary_value(TokenType::EqualEqual, l, r) == Ok::<ValueView, RuntimeError>(
            ValueView::Boolean(values_equal(l, r)),
        ),
        binary_value(TokenType::BangEqual, l, r) == Ok::<ValueView, RuntimeError>(
            ValueView::Boolean(!values_equal(l, r)),
        ),
        !same_kind(l, r) ==> binary_value(TokenType::EqualEqual, l, r) == Ok::<
            ValueView,
            RuntimeError,
        >(ValueView::Boolean(false)),
{
}

/// A comparison with an operand that is not a number is a type mismatch.
pub proof fn lemma_comparison_needs_numbers(op: TokenType, l: ValueView, r: ValueView)
    requires
        op is Greater || op is GreaterEqual || op is Less || op is LessEqual,
        !(l is Number && r is Number),
    ensures
        binary_value(op, l, r) == Err::<ValueView, RuntimeError>(RuntimeError::TypeMismatch),
{
}

/// `n` pairs `operator operand` of binary level `lv` from `pos` on, folded
/// onto `left`: each pair takes the whole tree built so far as its left
/// operand. Also gives the position after the last pair.
pub open spec fn fold_chain(ts: Seq<TokenView>, lv: nat, left: ExprView, pos: int, n: nat) -> (
    ExprView,
    int,
)
    decreases n,
{
    if n == 0 {
        (left, pos)
    } else {
        let (right, p) = p_operand(ts, lv, pos + 1)->Ok_0;
        fold_chain(
            ts,
            lv,
            ExprView::Binary(Box::new(left), ts[pos], Box::new(right)),
            p,
            (n - 1) as nat,
        )
    }
}

/// From `pos` on stand exactly `n` pairs `operator operand` of level `lv`.
pub open spec fn chain_of(ts: Seq<TokenView>, lv: nat, pos: int, n: nat) -> bool
    decreases n,
{
    if n == 0 {
        !op_at(ts, lv, pos)
    } else {
        &&& op_at(ts, lv, pos)
        &&& p_operand(ts, lv, pos + 1) is Ok
        &&& chain_of(ts, lv, p_operand(ts, lv, pos + 1)->Ok_0.1, (n - 1) as nat)
    }
}

proof fn lemma_rest_chain(ts: Seq<TokenView>, lv: nat, left: ExprView, pos: int, n: nat)
    requires
        lv <= 3,
        0 <= pos <= ts.len(),
        chain_of(ts, lv, pos, n),
    ensures
        p_rest(ts, lv, left, pos) == Ok::<(ExprView, int), ParserErrView>(
            fold_chain(ts, lv, left, pos, n),
        ),
    decreases n,
{
    if n > 0 {
        lemma_operand_advances(ts, lv, pos + 1);
        let (right, p) = p_operand(ts, lv, pos + 1)->Ok_0;
        let e = ExprView::Binary(Box::new(left), ts[pos], Box::new(right));
        lemma_rest_chain(ts, lv, e, p, (n - 1) as nat);
    }
}

/// A chain of any length of one binary level groups to the left:
/// `a op1 b op2 c ... opn z` is `((a op1 b) op2 c) ... opn z`.
pub proof fn lemma_left_associative(ts: Seq<TokenView>, lv: nat, pos: int, n: nat)
    requires
        lv <= 3,
        0 <= pos,
        p_operand(ts, lv, pos) is Ok,
        chain_of(ts, lv, p_operand(ts, lv, pos)->Ok_0.1, n),
    ensures
        p_binary(ts, lv, pos) == Ok::<(ExprView, int), ParserErrView>(
            fold_chain(ts, lv, p_operand(ts, lv, pos)->Ok_0.0, p_operand(ts, lv, pos)->Ok_0.1, n),
        ),
{
    lemma_operand_advances(ts, lv, pos);
    let (a, p1) = p_operand(ts, lv, pos)->Ok_0;
    lemma_rest_chain(ts, lv, a, p1, n);
}

/// `n` prefix operators from `pos` on, applied to `e`: the first is outermost.
pub open spec fn prefixed(ts: Seq<TokenView>, pos: int, n: nat, e: ExprView) -> ExprView
    decreases n,
{
    if n == 0 {
        e
    } else {
        ExprView::Unary(ts[pos], Box::new(prefixed(ts, pos + 1, (n - 1) as nat, e)))
    }
}

/// Any number of prefix operators chain, grouping to the right.
pub proof fn lemma_unary_chain(ts: Seq<TokenView>, pos: int, n: nat)
    requires
        0 <= pos,
        pos + n <= ts.len(),
        forall|k: int|
            pos <= k < pos + n ==> (#[trigger] ts[k].token_type is Bang || ts[k].token_type is Minus),
        p_unary(ts, pos + n) is Ok,
    ensures
        p_unary(ts, pos) == Ok::<(ExprView, int), ParserErrView>(
            (prefixed(ts, pos, n, p_unary(ts, pos + n)->Ok_0.0), p_unary(ts, pos + n)->Ok_0.1),
        ),
    decreases n,
{
    if n > 0 {
        lemma_unary_chain(ts, pos + 1, (n - 1) as nat);
        assert(ts[pos].token_type is Bang || ts[pos].token_type is Minus);
    }
}

/// No binary operator of any level stands at `p`.
pub open spec fn no_binary_op(ts: Seq<TokenView>, p: int) -> bool {
    !op_at(ts, 0, p) && !op_at(ts, 1, p) && !op_at(ts, 2, p) && !op_at(ts, 3, p)
}

/// A unary chain followed by no binary operator is the whole expression:
/// with `lemma_unary_chain`, a source of prefix operators and one operand
/// parses to the nested prefix nodes.
pub proof fn lemma_expression_of_unary(ts: Seq<TokenView>, pos: int)
    requires
        0 <= pos,
        p_unary(ts, pos) is Ok,
        no_binary_op(ts, p_unary(ts, pos)->Ok_0.1),
    ensures
        p_expression(ts, pos) == p_unary(ts, pos),
{
    let p = p_unary(ts, pos)->Ok_0.1;
    crate::parser::lemma_unary_advances(ts, pos);
    assert(p_operand(ts, 3, pos) == p_unary(ts, pos));
    assert(p_binary(ts, 3, pos) == p_unary(ts, pos));
    assert(p_binary(ts, 2, pos) == p_unary(ts, pos));
    assert(p_binary(ts, 1, pos) == p_unary(ts, pos));
    assert(p_binary(ts, 0, pos) == p_unary(ts, pos));
}

/// An opening parenthesis whose expression runs to the end of input is a
/// parse error at the end-of-input token.
pub proof fn lemma_unclosed_group(ts: Seq<TokenView>)
    requires
        ts.len() >= 2,
        ts[0].token_type is LeftParen,
        ts.last().token_type is Eof,
        p_expression(ts, 1) matches Ok((_, p)) && p == ts.len() - 1,
    ensures
        p_expression(ts, 0) == Err::<(ExprView, int), ParserErrView>(
            error_at(ts.last(), ParseErrorKind::ExpectRightParen),
        ),
{
    lemma_expression_advances(ts, 1);
    assert(p_primary(ts, 0) == Err::<(ExprView, int), ParserErrView>(
        error_at(ts.last(), ParseErrorKind::ExpectRightParen),
    ));
    assert(p_unary(ts, 0) == p_primary(ts, 0));
    assert(p_operand(ts, 3, 0) == p_unary(ts, 0));
    assert(p_binary(ts, 3, 0) == p_unary(ts, 0));
    assert(p_binary(ts, 2, 0) == p_unary(ts, 0));
    assert(p_binary(ts, 1, 0) == p_unary(ts, 0));
    assert(p_binary(ts, 0, 0) == p_unary(ts, 0));
}

} // verus!
