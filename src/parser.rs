//! The parser: a token sequence to a syntax tree, by recursive descent with
//! one token of lookahead.
//!
//! Precedence, lowest first: equality (`==` `!=`), comparison (`>` `>=` `<`
//! `<=`), term (`-` `+`), factor (`/` `*`), prefix unary (`!` `-`), primary.
//! The four binary levels are left-associative; they are numbered 0 to 3.
use vstd::prelude::*;
use crate::scanner::views;
use crate::token::{Token, TokenType, TokenView, chars_between};
use crate::tree::{Binary, Expr, ExprView, Grouping, Literal, LiteralView, Unary, expr_view};

verus! {

/// What the parser expected where it failed.
#[derive(Clone, Copy, Debug, PartialEq, Eq, Structural)]
pub enum ParseErrorKind {
    /// No expression starts at the token.
    ExpectExpression,
    /// A grouping lacks its closing parenthesis.
    ExpectRightParen,
}

/// A syntax error: the line of the offending token, its lexeme (`None` for
/// the end of input, `_` for a token without one) and what was expected.
pub struct ParserErr {
    pub line: usize,
    pub location: Option<Vec<char>>,
    pub kind: ParseErrorKind,
}

pub struct ParserErrView {
    pub line: nat,
    pub location: Option<Seq<char>>,
    pub kind: ParseErrorKind,
}

impl View for ParserErr {
    type V = ParserErrView;

    open spec fn view(&self) -> ParserErrView {
        ParserErrView {
            line: self.line as nat,
            location: match self.location {
                Some(l) => Some(l@),
                None => None,
            },
            kind: self.kind,
        }
    }
}

/// The error reported at token `t`.
pub open spec fn error_at(t: TokenView, kind: ParseErrorKind) -> ParserErrView {
    ParserErrView {
        line: t.line,
        location: if t.token_type is Eof {
            None
        } else {
            match t.lexeme {
                Some(l) => Some(l),
                None => Some(seq!['_']),
            }
        },
        kind,
    }
}

/// Token sequences the parser accepts: they end with the end-of-input token.
pub open spec fn well_formed(ts: Seq<TokenView>) -> bool {
    &&& 0 < ts.len() < usize::MAX
    &&& ts.last().token_type is Eof
}

/// The operators of binary level `lv`.
pub open spec fn level_op(lv: nat, ty: TokenType) -> bool {
    if lv == 0 {
        ty is BangEqual || ty is EqualEqual
    } else if lv == 1 {
        ty is Greater || ty is GreaterEqual || ty is Less || ty is LessEqual
    } else if lv == 2 {
        ty is Minus || ty is Plus
    } else {
        ty is Slash || ty is Star
    }
}

pub open spec fn op_at(ts: Seq<TokenView>, lv: nat, pos: int) -> bool {
    0 <= pos < ts.len() && level_op(lv, ts[pos].token_type)
}

/// The value of a string literal token: the characters between its quotes.
pub open spec fn string_value(t: TokenView) -> Seq<char> {
    match t.lexeme {
        Some(l) => if l.len() >= 2 {
            l.subrange(1, l.len() - 1)
        } else {
            Seq::empty()
        },
        None => Seq::empty(),
    }
}

/// A parse from a position: the tree and the position after it, or an error.
pub type PResult = Result<(ExprView, int), ParserErrView>;

/// Rank of binary level `lv` in the order in which the levels call each other.
pub open spec fn rank(lv: nat) -> nat {
    if lv >= 3 {
        2
    } else {
        (5 - lv) as nat
    }
}

pub open spec fn p_expression(ts: Seq<TokenView>, pos: int) -> PResult
    decreases ts.len() - pos, 6nat,
{
    p_binary(ts, 0, pos)
}

/// The operand of binary level `lv`: the next level up, or a unary.
pub open spec fn p_operand(ts: Seq<TokenView>, lv: nat, pos: int) -> PResult
    decreases ts.len() - pos, rank(lv), 0nat,
{
    if lv < 3 {
        p_binary(ts, lv + 1, pos)
    } else {
        p_unary(ts, pos)
    }
}

/// Binary level `lv` at `pos`: an operand, then any number of
/// `operator operand` pairs, folded to the left.
pub open spec fn p_binary(ts: Seq<TokenView>, lv: nat, pos: int) -> PResult
    decreases ts.len() - pos, rank(lv), 1nat,
{
    if lv > 3 {
        p_unary(ts, pos)
    } else {
        match p_operand(ts, lv, pos) {
            Ok((left, p)) => if pos < p <= ts.len() {
                p_rest(ts, lv, left, p)
            } else {
                Ok((left, p))
            },
            Err(e) => Err(e),
        }
    }
}

/// The pairs `operator operand` of level `lv` that follow `left` at `pos`.
pub open spec fn p_rest(ts: Seq<TokenView>, lv: nat, left: ExprView, pos: int) -> PResult
    decreases ts.len() - pos, rank(lv), 1nat,
{
    if lv <= 3 && op_at(ts, lv, pos) {
        match p_operand(ts, lv, pos + 1) {
            Ok((right, p)) => {
                let e = ExprView::Binary(Box::new(left), ts[pos], Box::new(right));
                if pos < p <= ts.len() {
                    p_rest(ts, lv, e, p)
                } else {
                    Ok((e, p))
                }
            },
            Err(e) => Err(e),
        }
    } else {
        Ok((left, pos))
    }
}

pub open spec fn p_unary(ts: Seq<TokenView>, pos: int) -> PResult
    decreases ts.len() - pos, 1nat, 0nat,
{
    if 0 <= pos < ts.len() && (ts[pos].token_type is Bang || ts[pos].token_type is Minus) {
        match p_unary(ts, pos + 1) {
            Ok((right, p)) => Ok((ExprView::Unary(ts[pos], Box::new(right)), p)),
            Err(e) => Err(e),
        }
    } else {
        p_primary(ts, pos)
    }
}

pub open spec fn p_primary(ts: Seq<TokenView>, pos: int) -> PResult
    decreases ts.len() - pos, 0nat, 0nat,
{
    if 0 <= pos < ts.len() {
        let t = ts[pos];
        match t.token_type {
            TokenType::False => Ok((ExprView::Literal(LiteralView::Boolean(false)), pos + 1)),
            TokenType::True => Ok((ExprView::Literal(LiteralView::Boolean(true)), pos + 1)),
            TokenType::Nil => Ok((ExprView::Literal(LiteralView::Nil), pos + 1)),
            TokenType::Number(n) => Ok((ExprView::Literal(LiteralView::Number(n)), pos + 1)),
            TokenType::StringLiteral => Ok(
                (ExprView::Literal(LiteralView::String(string_value(t))), pos + 1),
            ),
            TokenType::Identifier => Ok((ExprView::Variable(t), pos + 1)),
            TokenType::LeftParen => match p_expression(ts, pos + 1) {
                Ok((e, p)) => if 0 <= p < ts.len() && ts[p].token_type is RightParen {
                    Ok((ExprView::Grouping(Box::new(e)), p + 1))
                } else {
                    Err(error_at(ts[p], ParseErrorKind::ExpectRightParen))
                },
                Err(e) => Err(e),
            },
            _ => Err(error_at(t, ParseErrorKind::ExpectExpression)),
        }
    } else {
        Err(error_at(ts.last(), ParseErrorKind::ExpectExpression))
    }
}

/// The view of an executable parse result.
pub open spec fn presult_view(r: Result<(Box<Expr>, usize), ParserErr>) -> PResult {
    match r {
        Ok((e, p)) => Ok((expr_view(&*e), p as int)),
        Err(e) => Err(e@),
    }
}

pub struct Parser {
    tokens: Vec<Token>,
    pos: usize,
}

impl View for Parser {
    type V = (Seq<TokenView>, int);

    /// The tokens, and the position of the next token to read.
    closed spec fn view(&self) -> (Seq<TokenView>, int) {
        (views(self.tokens@), self.pos as int)
    }
}

impl ParserErr {
    pub fn new(token: &Token, kind: ParseErrorKind) -> (r: Self)
        ensures
            r@ == error_at(token@, kind),
    {
        let location = match token.token_type {
            TokenType::Eof => None,
            _ => match &token.lexeme {
                Some(l) => Some(chars_between(l, 0, l.len())),
                None => {
                    let placeholder = vec!['_'];
                    assert(placeholder@ =~= seq!['_']);
                    Some(placeholder)
                },
            },
        };
        proof {
            if let Some(l) = &token.lexeme {
                assert(l@.subrange(0, l@.len() as int) =~= l@);
            }
        }
        Self { line: token.line, location, kind }
    }
}

fn level_op_exec(lv: usize, ty: TokenType) -> (r: bool)
    ensures
        r == level_op(lv as nat, ty),
{
    match ty {
        TokenType::BangEqual | TokenType::EqualEqual => lv == 0,
        TokenType::Greater | TokenType::GreaterEqual | TokenType::Less | TokenType::LessEqual => lv
            == 1,
        TokenType::Minus | TokenType::Plus => lv == 2,
        TokenType::Slash | TokenType::Star => lv > 2,
        _ => false,
    }
}

fn expression(ts: &Vec<Token>, pos: usize) -> (r: Result<(Box<Expr>, usize), ParserErr>)
    requires
        well_formed(views(ts@)),
        pos < ts@.len(),
    ensures
        presult_view(r) == p_expression(views(ts@), pos as int),
        r matches Ok((_, p)) ==> pos < p < ts@.len(),
    decreases ts@.len() - pos, 6nat,
{
    binary_level(ts, 0, pos)
}

fn operand(ts: &Vec<Token>, lv: usize, pos: usize) -> (r: Result<(Box<Expr>, usize), ParserErr>)
    requires
        well_formed(views(ts@)),
        pos < ts@.len(),
        lv <= 3,
    ensures
        presult_view(r) == p_operand(views(ts@), lv as nat, pos as int),
        r matches Ok((_, p)) ==> pos < p < ts@.len(),
    decreases ts@.len() - pos, rank(lv as nat), 0nat,
{
    if lv < 3 {
        binary_level(ts, lv + 1, pos)
    } else {
        unary(ts, pos)
    }
}

/// Binary level `lv`: equality (0), comparison (1), term (2) or factor (3).
/// The loop, not recursion, makes the level left-associative.
fn binary_level(ts: &Vec<Token>, lv: usize, pos: usize) -> (r: Result<(Box<Expr>, usize), ParserErr>)
    requires
        well_formed(views(ts@)),
        pos < ts@.len(),
        lv <= 3,
    ensures
        presult_view(r) == p_binary(views(ts@), lv as nat, pos as int),
        r matches Ok((_, p)) ==> pos < p < ts@.len(),
    decreases ts@.len() - pos, rank(lv as nat), 1nat,
{
    let ghost vs = views(ts@);
    let (mut expr, mut p) = match operand(ts, lv, pos) {
        Ok(x) => x,
        Err(e) => return Err(e),
    };
    while p < ts.len() && level_op_exec(lv, ts[p].token_type)
        invariant
            vs == views(ts@),
            well_formed(vs),
            lv <= 3,
            pos < p < ts@.len(),
            p_binary(vs, lv as nat, pos as int) == p_rest(vs, lv as nat, expr_view(&*expr), p as int),
        decreases ts@.len() - p,
    {
        assert(vs[p as int] == ts@[p as int]@);
        let operator = ts[p].duplicate();
        // the end-of-input token is no operator
        assert(vs.last() == vs[ts@.len() - 1]);
        assert(p + 1 < ts@.len());
        let (right, p2) = match operand(ts, lv, p + 1) {
            Ok(x) => x,
            Err(e) => return Err(e),
        };
        expr = Box::new(Expr::Binary(Binary::new(expr, operator, right)));
        p = p2;
    }
    Ok((expr, p))
}

fn unary(ts: &Vec<Token>, pos: usize) -> (r: Result<(Box<Expr>, usize), ParserErr>)
    requires
        well_formed(views(ts@)),
        pos < ts@.len(),
    ensures
        presult_view(r) == p_unary(views(ts@), pos as int),
        r matches Ok((_, p)) ==> pos < p < ts@.len(),
    decreases ts@.len() - pos, 1nat, 0nat,
{
    let ghost vs = views(ts@);
    assert(vs[pos as int] == ts@[pos as int]@);
    match ts[pos].token_type {
        TokenType::Bang | TokenType::Minus => {
            assert(pos + 1 < ts@.len());
            let operator = ts[pos].duplicate();
            match unary(ts, pos + 1) {
                Ok((right, p)) => Ok((Box::new(Expr::Unary(Unary::new(operator, right))), p)),
                Err(e) => Err(e),
            }
        },
        _ => primary(ts, pos),
    }
}

fn primary(ts: &Vec<Token>, pos: usize) -> (r: Result<(Box<Expr>, usize), ParserErr>)
    requires
        well_formed(views(ts@)),
        pos < ts@.len(),
    ensures
        presult_view(r) == p_primary(views(ts@), pos as int),
        r matches Ok((_, p)) ==> pos < p < ts@.len(),
    decreases ts@.len() - pos, 0nat, 0nat,
{
    let ghost vs = views(ts@);
    assert(vs[pos as int] == ts@[pos as int]@);
    let t = &ts[pos];
    let literal = match t.token_type {
        TokenType::False => Literal::Boolean(false),
        TokenType::True => Literal::Boolean(true),
        TokenType::Nil => Literal::Nil,
        TokenType::Number(n) => Literal::Number(n),
        TokenType::StringLiteral => {
            let text = match &t.lexeme {
                Some(l) => if l.len() >= 2 {
                    chars_between(l, 1, l.len() - 1)
                } else {
                    Vec::new()
                },
                None => Vec::new(),
            };
            proof {
                assert(text@ =~= string_value(t@));
            }
            Literal::String(text)
        },
        TokenType::Identifier => {
            return Ok((Box::new(Expr::Variable(t.duplicate())), pos + 1));
        },
        TokenType::LeftParen => {
            let (inner, p) = match expression(ts, pos + 1) {
                Ok(x) => x,
                Err(e) => return Err(e),
            };
            assert(vs[p as int] == ts@[p as int]@);
            match ts[p].token_type {
                TokenType::RightParen => {
                    return Ok((Box::new(Expr::Grouping(Grouping::new(inner))), p + 1));
                },
                _ => {
                    return Err(ParserErr::new(&ts[p], ParseErrorKind::ExpectRightParen));
                },
            }
        },
        _ => {
            return Err(ParserErr::new(t, ParseErrorKind::ExpectExpression));
        },
    };
    Ok((Box::new(Expr::Literal(literal)), pos + 1))
}

impl Parser {
    pub fn new(tokens: Vec<Token>) -> (r: Self)
        ensures
            r@ == (views(tokens@), 0int),
    {
        Self { tokens, pos: 0 }
    }

    /// Parses one expression from the current position. On success the
    /// position moves past it; tokens after it are left unread.
    pub fn parse(&mut self) -> (r: Result<Box<Expr>, ParserErr>)
        requires
            well_formed(old(self)@.0),
            0 <= old(self)@.1 < old(self)@.0.len(),
        ensures
            final(self)@.0 == old(self)@.0,
            0 <= final(self)@.1 < final(self)@.0.len(),
            match p_expression(old(self)@.0, old(self)@.1) {
                Ok((e, p)) => r matches Ok(x) && expr_view(&*x) == e && final(self)@.1 == p,
                Err(e) => r matches Err(x) && x@ == e && final(self)@.1 == old(self)@.1,
            },
    {
        match expression(&self.tokens, self.pos) {
            Ok((e, p)) => {
                self.pos = p;
                Ok(e)
            },
            Err(e) => Err(e),
        }
    }
}

/// Parses one expression from the start of `tokens`.
pub fn parse_tokens(tokens: &Vec<Token>) -> (r: Result<Box<Expr>, ParserErr>)
    requires
        well_formed(views(tokens@)),
    ensures
        match p_expression(views(tokens@), 0) {
            Ok((e, _)) => r matches Ok(x) && expr_view(&*x) == e,
            Err(e) => r matches Err(x) && x@ == e,
        },
{
    match expression(tokens, 0) {
        Ok((e, _)) => Ok(e),
        Err(e) => Err(e),
    }
}

} // verus!

verus! {

pub open spec fn advanced(r: PResult, ts: Seq<TokenView>, pos: int) -> bool {
    r matches Ok((_, p)) ==> pos < p <= ts.len()
}

/// Every successful parse consumes at least one token.
pub proof fn lemma_expression_advances(ts: Seq<TokenView>, pos: int)
    requires
        0 <= pos,
    ensures
        advanced(p_expression(ts, pos), ts, pos),
    decreases ts.len() - pos, 6nat,
{
    lemma_binary_advances(ts, 0, pos);
}

pub proof fn lemma_operand_advances(ts: Seq<TokenView>, lv: nat, pos: int)
    requires
        0 <= pos,
    ensures
        advanced(p_operand(ts, lv, pos), ts, pos),
    decreases ts.len() - pos, rank(lv), 0nat,
{
    if lv < 3 {
        lemma_binary_advances(ts, lv + 1, pos);
    } else {
        lemma_unary_advances(ts, pos);
    }
}

pub proof fn lemma_binary_advances(ts: Seq<TokenView>, lv: nat, pos: int)
    requires
        0 <= pos,
    ensures
        advanced(p_binary(ts, lv, pos), ts, pos),
    decreases ts.len() - pos, rank(lv), 1nat,
{
    if lv > 3 {
        lemma_unary_advances(ts, pos);
    } else {
        lemma_operand_advances(ts, lv, pos);
        if let Ok((left, p)) = p_operand(ts, lv, pos) {
            lemma_rest_advances(ts, lv, left, p);
        }
    }
}

pub proof fn lemma_rest_advances(ts: Seq<TokenView>, lv: nat, left: ExprView, pos: int)
    requires
        0 <= pos <= ts.len(),
    ensures
        p_rest(ts, lv, left, pos) matches Ok((_, p)) ==> pos <= p <= ts.len(),
    decreases ts.len() - pos, rank(lv), 1nat,
{
    if lv <= 3 && op_at(ts, lv, pos) {
        lemma_operand_advances(ts, lv, pos + 1);
        if let Ok((right, p)) = p_operand(ts, lv, pos + 1) {
            let e = ExprView::Binary(Box::new(left), ts[pos], Box::new(right));
            lemma_rest_advances(ts, lv, e, p);
        }
    }
}

pub proof fn lemma_unary_advances(ts: Seq<TokenView>, pos: int)
    requires
        0 <= pos,
    ensures
        advanced(p_unary(ts, pos), ts, pos),
    decreases ts.len() - pos, 1nat, 0nat,
{
    if 0 <= pos < ts.len() && (ts[pos].token_type is Bang || ts[pos].token_type is Minus) {
        lemma_unary_advances(ts, pos + 1);
    } else {
        lemma_primary_advances(ts, pos);
    }
}

pub proof fn lemma_primary_advances(ts: Seq<TokenView>, pos: int)
    requires
        0 <= pos,
    ensures
        advanced(p_primary(ts, pos), ts, pos),
    decreases ts.len() - pos, 0nat, 0nat,
{
    if 0 <= pos < ts.len() && ts[pos].token_type is LeftParen {
        lemma_expression_advances(ts, pos + 1);
    }
}

} // verus!
