//! Scanning the lexemes of a scan again gives the same categories.
use vstd::prelude::*;
use crate::scanner::{
    Run, ScanErr, Step, continues, fraction_digits, has_fraction, integral_end, is_alpha, is_digit,
    lemma_run_end, lemma_scan_shape, lemma_step_advances, integral_digits, operator_types, run_end,
    scan, scan_from, single_char_type, step,
};
use crate::token::{TokenType, TokenView, lexeme_of};

verus! {

/// The lexemes of `ts` before its last token, with one space between each
/// two of them.
pub open spec fn spaced(ts: Seq<TokenView>) -> Seq<char>
    decreases ts.len(),
{
    if ts.len() <= 1 {
        Seq::empty()
    } else if ts.len() == 2 {
        lexeme_of(ts[0])
    } else {
        lexeme_of(ts[0]) + seq![' '] + spaced(ts.drop_first())
    }
}

pub open spec fn categories(ts: Seq<TokenView>) -> Seq<TokenType> {
    ts.map_values(|t: TokenView| t.token_type)
}

/// Where `u[k..k+n]` and `s[i..i+n]` agree, so do their parts.
proof fn lemma_agree(u: Seq<char>, k: int, s: Seq<char>, i: int, n: int, a: int, m: int)
    requires
        0 <= k,
        k + n <= u.len(),
        0 <= i,
        i + n <= s.len(),
        u.subrange(k, k + n) == s.subrange(i, i + n),
        0 <= a,
        0 <= m,
        a + m <= n,
    ensures
        u.subrange(k + a, k + a + m) == s.subrange(i + a, i + a + m),
        m > 0 ==> u[k + a] == s[i + a],
{
    assert forall|d: int| 0 <= d < m implies #[trigger] u.subrange(k + a, k + a + m)[d]
        == s.subrange(i + a, i + a + m)[d] by {
        assert(u.subrange(k, k + n)[a + d] == s.subrange(i, i + n)[a + d]);
        assert(u.subrange(k, k + n)[a + d] == u[k + (a + d)]);
        assert(s.subrange(i, i + n)[a + d] == s[i + (a + d)]);
        assert(u.subrange(k + a, k + a + m)[d] == u[k + a + d]);
        assert(s.subrange(i + a, i + a + m)[d] == s[i + a + d]);
    }
    assert(u.subrange(k + a, k + a + m) =~= s.subrange(i + a, i + a + m));
    if m > 0 {
        assert(u.subrange(k, k + n)[a] == s.subrange(i, i + n)[a]);
        assert(u.subrange(k, k + n)[a] == u[k + a]);
        assert(s.subrange(i, i + n)[a] == s[i + a]);
    }
}

/// A run in `s` from `a` reads the same in `u` from `b` when `u` holds the
/// same characters and then ends, or has a character that ends the run.
proof fn lemma_run_end_shift(s: Seq<char>, a: int, u: Seq<char>, b: int, run: Run)
    requires
        0 <= a <= s.len(),
        0 <= b,
        b + (run_end(s, a, run) - a) <= u.len(),
        u.subrange(b, b + (run_end(s, a, run) - a)) == s.subrange(a, run_end(s, a, run)),
        b + (run_end(s, a, run) - a) < u.len() ==> !continues(run, u[b + (run_end(s, a, run) - a)]),
    ensures
        run_end(u, b, run) == b + (run_end(s, a, run) - a),
    decreases s.len() - a,
{
    lemma_run_end(s, a, run);
    let e = run_end(s, a, run);
    if a < s.len() && continues(run, s[a]) {
        lemma_agree(u, b, s, a, e - a, 0, 1);
        lemma_agree(u, b, s, a, e - a, 1, e - a - 1);
        lemma_run_end_shift(s, a + 1, u, b + 1, run);
    }
}

proof fn lemma_step_space(u: Seq<char>, k: int, line: nat)
    requires
        0 <= k < u.len(),
        u[k] == ' ',
    ensures
        step(u, k, line) == Step::Skip(k + 1, line),
{
    reveal(step);
}

/// A token scanned at `i` in `s` is scanned again, with the same category and
/// lexeme, at `k` in `u`, where `u` holds the lexeme followed by a space or
/// by nothing.
proof fn lemma_rescan_step(s: Seq<char>, i: int, line: nat, u: Seq<char>, k: int, line2: nat)
    requires
        0 <= i < s.len(),
        step(s, i, line) is Emit,
        0 <= k,
        k + (step(s, i, line)->Emit_1 - i) <= u.len(),
        u.subrange(k, k + (step(s, i, line)->Emit_1 - i)) == s.subrange(i, step(s, i, line)->Emit_1),
        k + (step(s, i, line)->Emit_1 - i) < u.len() ==> u[k + (step(s, i, line)->Emit_1 - i)] == ' ',
    ensures
        step(u, k, line2) is Emit,
        step(u, k, line2)->Emit_1 == k + (step(s, i, line)->Emit_1 - i),
        step(u, k, line2)->Emit_0.token_type == step(s, i, line)->Emit_0.token_type,
{
    lemma_step_advances(s, i, line);
    reveal(step);
    let j = step(s, i, line)->Emit_1;
    let n = j - i;
    lemma_agree(u, k, s, i, n, 0, 1);
    if 1 < n {
        lemma_agree(u, k, s, i, n, 1, 1);
    }
    let c = s[i];
    if c == '"' {
        let q = run_end(s, i + 1, Run::StringBody);
        lemma_run_end(s, i + 1, Run::StringBody);
        lemma_agree(u, k, s, i, n, 1, q - i - 1);
        lemma_agree(u, k, s, i, n, q - i, 1);
        lemma_run_end_shift(s, i + 1, u, k + 1, Run::StringBody);
    } else if single_char_type(c) is None && operator_types(c) is None && c != '/' && is_digit(c) {
        let e1 = integral_end(s, i);
        lemma_run_end(s, i, Run::Digits);
        if has_fraction(s, i) {
            lemma_run_end(s, e1 + 1, Run::Digits);
        }
        lemma_agree(u, k, s, i, n, 0, e1 - i);
        if e1 < j {
            lemma_agree(u, k, s, i, n, e1 - i, 1);
        }
        lemma_run_end_shift(s, i, u, k, Run::Digits);
        let f1 = integral_end(u, k);
        if has_fraction(s, i) {
            let e2 = run_end(s, e1 + 1, Run::Digits);
            lemma_run_end(s, e1 + 1, Run::Digits);
            lemma_agree(u, k, s, i, n, e1 - i + 1, e2 - e1 - 1);
            lemma_run_end_shift(s, e1 + 1, u, f1 + 1, Run::Digits);
        }
        assert(integral_digits(u, k) == integral_digits(s, i));
        assert(fraction_digits(u, k) == fraction_digits(s, i));
    } else if single_char_type(c) is None && operator_types(c) is None && c != '/' && is_alpha(c) {
        let e = run_end(s, i + 1, Run::Word);
        lemma_run_end(s, i + 1, Run::Word);
        lemma_agree(u, k, s, i, n, 1, e - i - 1);
        lemma_run_end_shift(s, i + 1, u, k + 1, Run::Word);
    }
}

/// Scanning `p` followed by the spaced lexemes of a scan, from the end of `p`,
/// gives tokens of the same categories as that scan.
proof fn lemma_rescan_from(s: Seq<char>, i: int, line: nat, p: Seq<char>, line2: nat)
    requires
        0 <= i <= s.len(),
        scan_from(s, i, line) is Ok,
    ensures
        scan_from(p + spaced(scan_from(s, i, line)->Ok_0), p.len() as int, line2) is Ok,
        categories(scan_from(p + spaced(scan_from(s, i, line)->Ok_0), p.len() as int, line2)->Ok_0)
            == categories(scan_from(s, i, line)->Ok_0),
    decreases s.len() - i,
{
    let ts = scan_from(s, i, line)->Ok_0;
    let u = p + spaced(ts);
    if i >= s.len() {
        assert(spaced(ts) =~= Seq::<char>::empty());
        assert(u =~= p);
        assert(categories(scan_from(u, p.len() as int, line2)->Ok_0) =~= categories(ts));
    } else {
        lemma_step_advances(s, i, line);
        match step(s, i, line) {
            Step::Skip(j, l) => {
                lemma_rescan_from(s, j, l, p, line2);
            },
            Step::Emit(t, j, l) => {
                let rest = scan_from(s, j, l)->Ok_0;
                lemma_scan_shape(s, j, l);
                assert(ts == seq![t] + rest);
                assert(ts.drop_first() =~= rest);
                let lex = lexeme_of(t);
                let k = p.len() as int;
                let k2 = k + (j - i);
                if rest.len() == 1 {
                    assert(u =~= p + lex);
                    assert(u.subrange(k, k2) =~= lex);
                    lemma_rescan_step(s, i, line, u, k, line2);
                    let t2 = step(u, k, line2)->Emit_0;
                    let l2 = step(u, k, line2)->Emit_2;
                    let rest2 = scan_from(u, k2, l2)->Ok_0;
                    assert(categories(rest2) =~= categories(rest));
                    assert(categories(seq![t2] + rest2) =~= categories(ts));
                } else {
                    let p2 = p + lex + seq![' '];
                    assert(u =~= p2 + spaced(rest));
                    assert(u.subrange(k, k2) =~= lex);
                    assert(u[k2] == ' ');
                    lemma_rescan_step(s, i, line, u, k, line2);
                    let l2 = step(u, k, line2)->Emit_2;
                    let t2 = step(u, k, line2)->Emit_0;
                    lemma_step_space(u, k2, l2);
                    lemma_rescan_from(s, j, l, p2, l2);
                    let rest2 = scan_from(u, k2 + 1, l2)->Ok_0;
                    assert(scan_from(u, k2, l2) == scan_from(u, k2 + 1, l2));
                    assert(categories(rest2) == categories(rest));
                    assert(rest2.len() == categories(rest2).len());
                    assert(rest.len() == categories(rest).len());
                    assert(t2.token_type == t.token_type);
                    assert forall|x: int| 0 <= x < ts.len() implies #[trigger] categories(
                        seq![t2] + rest2,
                    )[x] == categories(ts)[x] by {
                        if x > 0 {
                            assert(categories(rest2)[x - 1] == categories(rest)[x - 1]);
                            assert((seq![t2] + rest2)[x] == rest2[x - 1]);
                            assert(ts[x] == rest[x - 1]);
                        } else {
                            assert((seq![t2] + rest2)[0] == t2);
                            assert(ts[0] == t);
                        }
                    }
                    assert(categories(seq![t2] + rest2) =~= categories(ts));
                }
            },
            Step::Fail(_) => {},
        }
    }
}

/// Scanning the lexemes of a successful scan again, joined with single
/// spaces, succeeds and gives tokens of the same categories, in order.
pub proof fn lemma_rescan_keeps_categories(s: Seq<char>)
    requires
        scan(s) is Ok,
    ensures
        scan(spaced(scan(s)->Ok_0)) is Ok,
        categories(scan(spaced(scan(s)->Ok_0))->Ok_0) == categories(scan(s)->Ok_0),
{
    lemma_rescan_from(s, 0, 1, Seq::empty(), 1);
    assert(Seq::<char>::empty() + spaced(scan(s)->Ok_0) =~= spaced(scan(s)->Ok_0));
}

} // verus!
