//! A parenthesised prefix rendering of a syntax tree, for debugging.
use vstd::prelude::*;
use crate::tree::{
    AstVisitor, Binary, Expr, ExprView, Grouping, Literal, LiteralView, Unary, expr_view,
};
use crate::token::{Token, lexeme_of};

verus! {

pub struct AstPrinter;

pub open spec fn digit_char(d: int) -> char {
    seq!['0', '1', '2', '3', '4', '5', '6', '7', '8', '9'][d]
}

/// The decimal digits of `n`.
pub open spec fn digits(n: nat) -> Seq<char>
    decreases n,
{
    if n < 10 {
        seq![digit_char(n as int)]
    } else {
        digits(n / 10).push(digit_char((n % 10) as int))
    }
}

/// A number in decimal notation when it has a finite decimal expansion
/// (`123`, `45.67`, `-0.5`), with as few fraction digits as that needs; any
/// other fraction as `numerator/denominator`; the special values as `inf`,
/// `-inf` and `NaN`.
pub open spec fn number_text(v: (int, int)) -> Seq<char> {
    if v.1 == 0 {
        if v.0 == 0 {
            seq!['N', 'a', 'N']
        } else if v.0 > 0 {
            seq!['i', 'n', 'f']
        } else {
            seq!['-', 'i', 'n', 'f']
        }
    } else {
        fraction_text(v)
    }
}

/// The number of steps of long division, starting from remainder `r` by `d`,
/// after which the remainder is zero, if that happens within `n` steps.
pub open spec fn places(r: nat, d: nat, n: nat) -> Option<nat>
    decreases n,
{
    if r == 0 {
        Some(0)
    } else if n == 0 {
        None
    } else {
        match places((r * 10) % d, d, (n - 1) as nat) {
            Some(k) => Some(k + 1),
            None => None,
        }
    }
}

/// The first `k` digits of long division from remainder `r` by `d`.
pub open spec fn long_division(r: nat, d: nat, k: nat) -> Seq<char>
    decreases k,
{
    if k == 0 {
        Seq::empty()
    } else {
        seq![digit_char(((r * 10) / d) as int)] + long_division((r * 10) % d, d, (k - 1) as nat)
    }
}

/// The most fraction digits written in decimal notation; a number that would
/// need more is written as a fraction. (A denominator up to `LIMIT` that
/// divides a power of ten already divides `10^63`.)
pub open spec fn max_places() -> nat {
    64
}

pub open spec fn fraction_text(v: (int, int)) -> Seq<char> {
    let sign = if v.0 < 0 { seq!['-'] } else { Seq::empty() };
    let m = crate::number::abs(v.0);
    let d = v.1 as nat;
    match places(m % d, d, max_places()) {
        Some(k) => if k == 0 {
            sign + digits(m / d)
        } else {
            sign + digits(m / d) + seq!['.'] + long_division(m % d, d, k)
        },
        None => ratio_text(v),
    }
}

pub open spec fn ratio_text(v: (int, int)) -> Seq<char> {
    let sign = if v.0 < 0 { seq!['-'] } else { Seq::empty() };
    let whole = sign + digits(crate::number::abs(v.0));
    if v.1 == 1 {
        whole
    } else {
        whole + seq!['/'] + digits(v.1 as nat)
    }
}

pub open spec fn literal_text(l: LiteralView) -> Seq<char> {
    match l {
        LiteralView::Number(n) => number_text(n@),
        LiteralView::String(s) => s,
        LiteralView::Boolean(b) => if b {
            seq!['t', 'r', 'u', 'e']
        } else {
            seq!['f', 'a', 'l', 's', 'e']
        },
        LiteralView::Nil => seq!['n', 'i', 'l'],
    }
}

/// The rendering of a tree: `(op left right)`, `(op right)`, `(group inner)`,
/// a literal's text, or a name.
pub open spec fn render(e: ExprView) -> Seq<char>
    decreases e,
{
    match e {
        ExprView::Binary(l, op, r) => seq!['('] + lexeme_of(op) + seq![' '] + render(*l) + seq![' ']
            + render(*r) + seq![')'],
        ExprView::Unary(op, r) => seq!['('] + lexeme_of(op) + seq![' '] + render(*r) + seq![')'],
        ExprView::Grouping(inner) => seq!['(', 'g', 'r', 'o', 'u', 'p', ' '] + render(*inner) + seq![
            ')',
        ],
        ExprView::Literal(l) => literal_text(l),
        ExprView::Variable(t) => lexeme_of(t),
    }
}

fn append(out: &mut Vec<char>, s: &[char])
    ensures
        final(out)@ == old(out)@ + s@,
{
    let mut i: usize = 0;
    while i < s.len()
        invariant
            0 <= i <= s@.len(),
            out@ == old(out)@ + s@.subrange(0, i as int),
        decreases s@.len() - i,
    {
        out.push(s[i]);
        i = i + 1;
        assert(out@ =~= old(out)@ + s@.subrange(0, i as int));
    }
    assert(s@.subrange(0, s@.len() as int) =~= s@);
}

fn append_lexeme(out: &mut Vec<char>, t: &Token)
    ensures
        final(out)@ == old(out)@ + lexeme_of(t@),
{
    match &t.lexeme {
        Some(l) => append(out, l.as_slice()),
        None => {
            assert(old(out)@ + Seq::<char>::empty() =~= old(out)@);
        },
    }
}

fn append_digits(out: &mut Vec<char>, n: u64)
    ensures
        final(out)@ == old(out)@ + digits(n as nat),
    decreases n,
{
    if n >= 10 {
        append_digits(out, n / 10);
    }
    let table = ['0', '1', '2', '3', '4', '5', '6', '7', '8', '9'];
    assert(table@ =~= seq!['0', '1', '2', '3', '4', '5', '6', '7', '8', '9']);
    out.push(table[(n % 10) as usize]);
    assert(out@ =~= old(out)@ + digits(n as nat));
}

/// Appends the first `k` digits of long division from `r` by `d`.
fn append_long_division(out: &mut Vec<char>, r: u64, d: u64, k: u64)
    requires
        0 < d,
        r < d,
    ensures
        final(out)@ == old(out)@ + long_division(r as nat, d as nat, k as nat),
    decreases k,
{
    if k == 0 {
        assert(out@ =~= old(out)@ + long_division(r as nat, d as nat, k as nat));
        return;
    }
    let table = ['0', '1', '2', '3', '4', '5', '6', '7', '8', '9'];
    assert(table@ =~= seq!['0', '1', '2', '3', '4', '5', '6', '7', '8', '9']);
    let r10: u128 = (r as u128) * 10;
    let digit = r10 / (d as u128);
    let next = r10 % (d as u128);
    assert(digit < 10) by (nonlinear_arith)
        requires
            r10 == r * 10,
            r < d,
            digit == r10 / (d as u128),
            0 < d,
    ;
    out.push(table[digit as usize]);
    append_long_division(out, next as u64, d, k - 1);
    assert(out@ =~= old(out)@ + long_division(r as nat, d as nat, k as nat));
}

/// The steps of long division from `r` by `d` until the remainder is zero,
/// if that happens within `n` steps.
fn count_places(r: u64, d: u64, n: u64) -> (k: Option<u64>)
    requires
        0 < d,
        r < d,
    ensures
        places(r as nat, d as nat, n as nat) == match k {
            Some(x) => Some(x as nat),
            None => None::<nat>,
        },
        k matches Some(x) ==> x <= n,
    decreases n,
{
    if r == 0 {
        Some(0)
    } else if n == 0 {
        None
    } else {
        let t: u128 = ((r as u128) * 10) % (d as u128);
        assert(t < d as u128);
        let next = t as u64;
        assert(next as nat == ((r as nat) * 10) % (d as nat));
        match count_places(next, d, n - 1) {
            Some(x) => Some(x + 1),
            None => None,
        }
    }
}

fn append_number(out: &mut Vec<char>, n: &crate::number::Number)
    ensures
        final(out)@ == old(out)@ + number_text(n@),
{
    let num = n.numerator();
    let den = n.denominator();
    let ghost v = n@;
    if den == 0 {
        if num == 0 {
            append(out, &['N', 'a', 'N']);
            assert(['N', 'a', 'N']@ =~= seq!['N', 'a', 'N']);
        } else if num > 0 {
            append(out, &['i', 'n', 'f']);
            assert(['i', 'n', 'f']@ =~= seq!['i', 'n', 'f']);
        } else {
            append(out, &['-', 'i', 'n', 'f']);
            assert(['-', 'i', 'n', 'f']@ =~= seq!['-', 'i', 'n', 'f']);
        }
        return;
    }
    let m: u64 = if num < 0 { (-(num as i128)) as u64 } else { num as u64 };
    let d: u64 = den as u64;
    let whole = m / d;
    let rem = m % d;
    assert(m as nat == crate::number::abs(v.0));
    assert(d as nat == v.1);
    match count_places(rem, d, 64) {
        Some(k) => {
            assert(places((m as nat) % (d as nat), d as nat, max_places()) == Some(k as nat));
            if num < 0 {
                append(out, &['-']);
                assert(['-']@ =~= seq!['-']);
            }
            let ghost sign: Seq<char> = if v.0 < 0 { seq!['-'] } else { Seq::empty() };
            assert(out@ =~= old(out)@ + sign);
            append_digits(out, whole);
            assert(out@ =~= old(out)@ + sign + digits((m as nat) / (d as nat)));
            if k != 0 {
                let ghost mid = out@;
                append(out, &['.']);
                assert(['.']@ =~= seq!['.']);
                append_long_division(out, rem, d, k);
                assert(out@ =~= mid + seq!['.'] + long_division((m as nat) % (d as nat), d as nat, k as nat));
            }
            assert(out@ =~= old(out)@ + fraction_text(v));
        },
        None => {
            append_ratio(out, num, den);
        },
    }
}

fn append_ratio(out: &mut Vec<char>, num: i64, den: i64)
    requires
        crate::number::valid((num as int, den as int)),
        den > 0,
    ensures
        final(out)@ == old(out)@ + ratio_text((num as int, den as int)),
{
    let ghost v = (num as int, den as int);
    let ghost sign: Seq<char> = if v.0 < 0 { seq!['-'] } else { Seq::empty() };
    if num < 0 {
        append(out, &['-']);
        assert(['-']@ =~= seq!['-']);
        append_digits(out, (-(num as i128)) as u64);
    } else {
        append_digits(out, num as u64);
        assert(old(out)@ + digits(crate::number::abs(v.0)) =~= old(out)@ + sign + digits(
            crate::number::abs(v.0),
        ));
    }
    assert(out@ =~= old(out)@ + (sign + digits(crate::number::abs(v.0))));
    let ghost mid = out@;
    if den != 1 {
        append(out, &['/']);
        assert(['/']@ =~= seq!['/']);
        append_digits(out, den as u64);
        assert(out@ =~= mid + (seq!['/'] + digits(v.1 as nat)));
    }
    assert(out@ =~= old(out)@ + ratio_text(v));
}

fn append_literal(out: &mut Vec<char>, literal: &Literal)
    ensures
        final(out)@ == old(out)@ + literal_text(literal@),
{
    match literal {
        Literal::Number(n) => append_number(out, n),
        Literal::String(s) => append(out, s.as_slice()),
        Literal::Boolean(b) => if *b {
            append(out, &['t', 'r', 'u', 'e']);
            assert(['t', 'r', 'u', 'e']@ =~= seq!['t', 'r', 'u', 'e']);
        } else {
            append(out, &['f', 'a', 'l', 's', 'e']);
            assert(['f', 'a', 'l', 's', 'e']@ =~= seq!['f', 'a', 'l', 's', 'e']);
        },
        Literal::Nil => {
            append(out, &['n', 'i', 'l']);
            assert(['n', 'i', 'l']@ =~= seq!['n', 'i', 'l']);
        },
    }
}

impl AstPrinter {
    /// The rendering of `expr`.
    pub fn process(&self, expr: &Expr) -> (r: Vec<char>)
        ensures
            r@ == render(expr_view(expr)),
    {
        let mut out: Vec<char> = Vec::new();
        self.write_expr(expr, &mut out);
        assert(out@ =~= render(expr_view(expr)));
        out
    }

    fn write_expr(&self, expr: &Expr, out: &mut Vec<char>)
        ensures
            final(out)@ == old(out)@ + render(expr_view(expr)),
        decreases expr, 1nat,
    {
        match expr {
            Expr::Binary(b) => self.visit_binary(b, out),
            Expr::Unary(u) => self.visit_unary(u, out),
            Expr::Grouping(g) => self.visit_grouping(g, out),
            Expr::Literal(l) => append_literal(out, l),
            Expr::Variable(t) => append_lexeme(out, t),
        }
    }

    pub fn visit_binary(&self, binary: &Binary, out: &mut Vec<char>)
        ensures
            final(out)@ == old(out)@ + render(
                ExprView::Binary(
                    Box::new(expr_view(&*binary.left)),
                    binary.operator@,
                    Box::new(expr_view(&*binary.right)),
                ),
            ),
        decreases binary, 0nat,
    {
        append(out, &['(']);
        append_lexeme(out, &binary.operator);
        append(out, &[' ']);
        self.write_expr(&binary.left, out);
        append(out, &[' ']);
        self.write_expr(&binary.right, out);
        append(out, &[')']);
        assert(['(']@ =~= seq!['(']);
        assert([' ']@ =~= seq![' ']);
        assert([')']@ =~= seq![')']);
        assert(out@ =~= old(out)@ + render(
            ExprView::Binary(
                Box::new(expr_view(&*binary.left)),
                binary.operator@,
                Box::new(expr_view(&*binary.right)),
            ),
        ));
    }

    pub fn visit_unary(&self, unary: &Unary, out: &mut Vec<char>)
        ensures
            final(out)@ == old(out)@ + render(
                ExprView::Unary(unary.operator@, Box::new(expr_view(&*unary.right))),
            ),
        decreases unary, 0nat,
    {
        append(out, &['(']);
        append_lexeme(out, &unary.operator);
        append(out, &[' ']);
        self.write_expr(&unary.right, out);
        append(out, &[')']);
        assert(['(']@ =~= seq!['(']);
        assert([' ']@ =~= seq![' ']);
        assert([')']@ =~= seq![')']);
        assert(out@ =~= old(out)@ + render(
            ExprView::Unary(unary.operator@, Box::new(expr_view(&*unary.right))),
        ));
    }

    pub fn visit_grouping(&self, grouping: &Grouping, out: &mut Vec<char>)
        ensures
            final(out)@ == old(out)@ + render(
                ExprView::Grouping(Box::new(expr_view(&*grouping.expression))),
            ),
        decreases grouping, 0nat,
    {
        append(out, &['(', 'g', 'r', 'o', 'u', 'p', ' ']);
        self.write_expr(&grouping.expression, out);
        append(out, &[')']);
        assert(['(', 'g', 'r', 'o', 'u', 'p', ' ']@ =~= seq!['(', 'g', 'r', 'o', 'u', 'p', ' ']);
        assert([')']@ =~= seq![')']);
        assert(out@ =~= old(out)@ + render(
            ExprView::Grouping(Box::new(expr_view(&*grouping.expression))),
        ));
    }

    pub fn visit_literal(&self, literal: &Literal, out: &mut Vec<char>)
        ensures
            final(out)@ == old(out)@ + literal_text(literal@),
    {
        append_literal(out, literal);
    }
}

impl AstVisitor<Vec<char>, ()> for AstPrinter {
    fn process(&mut self, expr: &Expr, _context: Option<&()>) -> Vec<char> {
        AstPrinter::process(&*self, expr)
    }

    fn visit_binary(&mut self, binary: &Binary, _context: Option<&()>) -> Vec<char> {
        let mut out: Vec<char> = Vec::new();
        AstPrinter::visit_binary(&*self, binary, &mut out);
        out
    }

    fn visit_unary(&mut self, unary: &Unary, _context: Option<&()>) -> Vec<char> {
        let mut out: Vec<char> = Vec::new();
        AstPrinter::visit_unary(&*self, unary, &mut out);
        out
    }

    fn visit_grouping(&mut self, grouping: &Grouping, _context: Option<&()>) -> Vec<char> {
        let mut out: Vec<char> = Vec::new();
        AstPrinter::visit_grouping(&*self, grouping, &mut out);
        out
    }

    fn visit_literal(&mut self, literal: &Literal, _context: Option<&()>) -> Vec<char> {
        let mut out: Vec<char> = Vec::new();
        AstPrinter::visit_literal(&*self, literal, &mut out);
        out
    }

    fn visit_variable(&mut self, name: &Token, _context: Option<&()>) -> Vec<char> {
        let mut out: Vec<char> = Vec::new();
        append_lexeme(&mut out, name);
        out
    }
}

} // verus!
