//! The scanner: source text to a sequence of tokens.
use vstd::prelude::*;
use crate::number::{Number, num_add, num_div, num_mul, number_of, lemma_view_number_of};
use crate::token::{Token, TokenType, TokenView, chars_between, same_chars};

verus! {

/// Why a scan stopped.
#[derive(Clone, Copy, Debug, PartialEq, Eq, Structural)]
pub enum ScanErrorKind {
    /// The input ended inside a string literal.
    UnterminatedString,
    /// A character that starts no token.
    UnexpectedCharacter(char),
}

/// A scan error and the line on which it arose.
#[derive(Clone, Copy, Debug, PartialEq, Eq, Structural)]
pub struct ScanErr {
    pub line: usize,
    pub kind: ScanErrorKind,
}

pub struct Scanner {
    pub source: String,
}

pub open spec fn is_digit(c: char) -> bool {
    '0' as u32 <= c as u32 <= '9' as u32
}

pub open spec fn is_alpha(c: char) -> bool {
    ('a' as u32 <= c as u32 <= 'z' as u32) || ('A' as u32 <= c as u32 <= 'Z' as u32) || c == '_'
}

pub open spec fn is_alpha_numeric(c: char) -> bool {
    is_alpha(c) || is_digit(c)
}

/// The kinds of character runs that a token or a comment extends over.
#[derive(Clone, Copy)]
pub enum Run {
    Digits,
    Word,
    Comment,
    StringBody,
}

pub open spec fn continues(run: Run, c: char) -> bool {
    match run {
        Run::Digits => is_digit(c),
        Run::Word => is_alpha_numeric(c),
        Run::Comment => c != '\n',
        Run::StringBody => c != '"',
    }
}

/// The end of the longest run of `run` characters in `s` from `i` on.
pub open spec fn run_end(s: Seq<char>, i: int, run: Run) -> int
    decreases s.len() - i,
{
    if 0 <= i < s.len() && continues(run, s[i]) {
        run_end(s, i + 1, run)
    } else {
        i
    }
}

/// The number of newlines in `s[a..b]`.
pub open spec fn newlines(s: Seq<char>, a: int, b: int) -> nat
    decreases b - a,
{
    if b <= a {
        0
    } else {
        newlines(s, a, b - 1) + if s[b - 1] == '\n' { 1nat } else { 0nat }
    }
}

/// The number that a decimal digit stands for.
pub open spec fn digit_number(c: char) -> (int, int) {
    ((c as u32 - '0' as u32) as int, 1int)
}

/// The value of a run of decimal digits, read left to right with the
/// arithmetic of numbers: each step multiplies by ten and adds a digit.
pub open spec fn digits_number(t: Seq<char>) -> (int, int)
    decreases t.len(),
{
    if t.len() == 0 {
        (0, 1)
    } else {
        num_add(num_mul(digits_number(t.drop_last()), (10, 1)), digit_number(t.last()))
    }
}

/// The digits `t` of a fraction added to `v`: each digit is multiplied by
/// its place value, a tenth of the one before. Also gives the last place value.
pub open spec fn with_fraction(v: (int, int), t: Seq<char>) -> ((int, int), (int, int))
    decreases t.len(),
{
    if t.len() == 0 {
        (v, (1, 1))
    } else {
        let (a, p) = with_fraction(v, t.drop_last());
        let p2 = num_div(p, (10, 1));
        (num_add(a, num_mul(digit_number(t.last()), p2)), p2)
    }
}

/// End of the run of digits of a number literal starting at `i`.
pub open spec fn integral_end(s: Seq<char>, i: int) -> int {
    run_end(s, i, Run::Digits)
}

pub open spec fn has_fraction(s: Seq<char>, i: int) -> bool {
    let e = integral_end(s, i);
    e < s.len() && s[e] == '.'
}

/// End of the number literal starting at `i`: its digits, then optionally a
/// `.` and a second run of digits.
pub open spec fn number_end(s: Seq<char>, i: int) -> int {
    if has_fraction(s, i) {
        run_end(s, integral_end(s, i) + 1, Run::Digits)
    } else {
        integral_end(s, i)
    }
}

/// The digits before the `.` of the number literal starting at `i`.
pub open spec fn integral_digits(s: Seq<char>, i: int) -> Seq<char> {
    s.subrange(i, integral_end(s, i))
}

/// The digits after the `.` of the number literal starting at `i`.
pub open spec fn fraction_digits(s: Seq<char>, i: int) -> Seq<char> {
    if has_fraction(s, i) {
        s.subrange(integral_end(s, i) + 1, number_end(s, i))
    } else {
        Seq::empty()
    }
}

/// The value of the number literal starting at `i`.
pub open spec fn number_value(s: Seq<char>, i: int) -> (int, int) {
    with_fraction(digits_number(integral_digits(s, i)), fraction_digits(s, i)).0
}

pub open spec fn single_char_type(c: char) -> Option<TokenType> {
    if c == '(' {
        Some(TokenType::LeftParen)
    } else if c == ')' {
        Some(TokenType::RightParen)
    } else if c == '{' {
        Some(TokenType::LeftBrace)
    } else if c == '}' {
        Some(TokenType::RightBrace)
    } else if c == ',' {
        Some(TokenType::Comma)
    } else if c == '.' {
        Some(TokenType::Dot)
    } else if c == '-' {
        Some(TokenType::Minus)
    } else if c == '+' {
        Some(TokenType::Plus)
    } else if c == ';' {
        Some(TokenType::Semicolon)
    } else if c == '*' {
        Some(TokenType::Star)
    } else {
        None
    }
}

/// For a character that may start a two-character operator: the category
/// alone, and the category when `=` follows.
pub open spec fn operator_types(c: char) -> Option<(TokenType, TokenType)> {
    if c == '!' {
        Some((TokenType::Bang, TokenType::BangEqual))
    } else if c == '=' {
        Some((TokenType::Equal, TokenType::EqualEqual))
    } else if c == '<' {
        Some((TokenType::Less, TokenType::LessEqual))
    } else if c == '>' {
        Some((TokenType::Greater, TokenType::GreaterEqual))
    } else {
        None
    }
}

pub open spec fn keyword(t: Seq<char>) -> Option<TokenType> {
    if t == seq!['a', 'n', 'd'] {
        Some(TokenType::And)
    } else if t == seq!['c', 'l', 'a', 's', 's'] {
        Some(TokenType::Class)
    } else if t == seq!['e', 'l', 's', 'e'] {
        Some(TokenType::Else)
    } else if t == seq!['f', 'a', 'l', 's', 'e'] {
        Some(TokenType::False)
    } else if t == seq!['f', 'o', 'r'] {
        Some(TokenType::For)
    } else if t == seq!['f', 'u', 'n'] {
        Some(TokenType::Fun)
    } else if t == seq!['i', 'f'] {
        Some(TokenType::If)
    } else if t == seq!['n', 'i', 'l'] {
        Some(TokenType::Nil)
    } else if t == seq!['o', 'r'] {
        Some(TokenType::Or)
    } else if t == seq!['p', 'r', 'i', 'n', 't'] {
        Some(TokenType::Print)
    } else if t == seq!['r', 'e', 't', 'u', 'r', 'n'] {
        Some(TokenType::Return)
    } else if t == seq!['s', 'u', 'p', 'e', 'r'] {
        Some(TokenType::Super)
    } else if t == seq!['t', 'h', 'i', 's'] {
        Some(TokenType::This)
    } else if t == seq!['t', 'r', 'u', 'e'] {
        Some(TokenType::True)
    } else if t == seq!['v', 'a', 'r'] {
        Some(TokenType::Var)
    } else if t == seq!['w', 'h', 'i', 'l', 'e'] {
        Some(TokenType::While)
    } else {
        None
    }
}

pub open spec fn token_view(token_type: TokenType, lexeme: Seq<char>, line: nat) -> TokenView {
    TokenView { token_type, lexeme: Some(lexeme), line }
}

pub open spec fn eof_view(line: nat) -> TokenView {
    TokenView { token_type: TokenType::Eof, lexeme: None, line }
}

/// What the scanner does at one position.
pub enum Step {
    /// Discard input up to the position, continuing on the given line.
    Skip(int, nat),
    /// Emit the token; continue at the position, on the given line.
    Emit(TokenView, int, nat),
    /// Stop with the error.
    Fail(ScanErr),
}

pub open spec fn scan_error(line: nat, kind: ScanErrorKind) -> ScanErr {
    ScanErr { line: line as usize, kind }
}

/// The scanner's action at position `i` (with `i < s.len()`) on line `line`.
#[verifier::opaque]
pub open spec fn step(s: Seq<char>, i: int, line: nat) -> Step {
    let c = s[i];
    let next_is = |d: char| i + 1 < s.len() && s[i + 1] == d;
    if single_char_type(c) is Some {
        Step::Emit(token_view(single_char_type(c)->0, s.subrange(i, i + 1), line), i + 1, line)
    } else if operator_types(c) is Some {
        let (one, two) = operator_types(c)->0;
        if next_is('=') {
            Step::Emit(token_view(two, s.subrange(i, i + 2), line), i + 2, line)
        } else {
            Step::Emit(token_view(one, s.subrange(i, i + 1), line), i + 1, line)
        }
    } else if c == '/' {
        if next_is('/') {
            Step::Skip(run_end(s, i + 2, Run::Comment), line)
        } else {
            Step::Emit(token_view(TokenType::Slash, s.subrange(i, i + 1), line), i + 1, line)
        }
    } else if c == ' ' || c == '\r' || c == '\t' {
        Step::Skip(i + 1, line)
    } else if c == '\n' {
        Step::Skip(i + 1, line + 1)
    } else if c == '"' {
        let q = run_end(s, i + 1, Run::StringBody);
        if q >= s.len() {
            Step::Fail(scan_error(line, ScanErrorKind::UnterminatedString))
        } else {
            Step::Emit(
                token_view(TokenType::StringLiteral, s.subrange(i, q + 1), line),
                q + 1,
                line + newlines(s, i + 1, q),
            )
        }
    } else if is_digit(c) {
        Step::Emit(
            token_view(
                TokenType::Number(number_of(number_value(s, i))),
                s.subrange(i, number_end(s, i)),
                line,
            ),
            number_end(s, i),
            line,
        )
    } else if is_alpha(c) {
        let t = s.subrange(i, run_end(s, i + 1, Run::Word));
        let ty = match keyword(t) {
            Some(k) => k,
            None => TokenType::Identifier,
        };
        Step::Emit(token_view(ty, t, line), i + t.len(), line)
    } else {
        Step::Fail(scan_error(line, ScanErrorKind::UnexpectedCharacter(c)))
    }
}

pub open spec fn prepend(ts: Seq<TokenView>, r: Result<Seq<TokenView>, ScanErr>) -> Result<
    Seq<TokenView>,
    ScanErr,
> {
    match r {
        Ok(rest) => Ok(ts + rest),
        Err(e) => Err(e),
    }
}

/// The tokens of `s` from position `i` on, starting on line `line`.
pub open spec fn scan_from(s: Seq<char>, i: int, line: nat) -> Result<Seq<TokenView>, ScanErr>
    decreases s.len() - i,
    when 0 <= i <= s.len()
    via scan_from_decreases
{
    if i >= s.len() {
        Ok(seq![eof_view(line)])
    } else {
        match step(s, i, line) {
            Step::Skip(j, l) => scan_from(s, j, l),
            Step::Emit(t, j, l) => prepend(seq![t], scan_from(s, j, l)),
            Step::Fail(e) => Err(e),
        }
    }
}

/// The tokens of the source text `s`.
pub open spec fn scan(s: Seq<char>) -> Result<Seq<TokenView>, ScanErr> {
    scan_from(s, 0, 1)
}

pub proof fn lemma_run_end(s: Seq<char>, i: int, run: Run)
    requires
        0 <= i <= s.len(),
    ensures
        i <= run_end(s, i, run) <= s.len(),
        forall|k: int| i <= k < run_end(s, i, run) ==> continues(run, #[trigger] s[k]),
        run_end(s, i, run) < s.len() ==> !continues(run, s[run_end(s, i, run)]),
    decreases s.len() - i,
{
    if i < s.len() && continues(run, s[i]) {
        lemma_run_end(s, i + 1, run);
    }
}

pub proof fn lemma_step_advances(s: Seq<char>, i: int, line: nat)
    requires
        0 <= i < s.len(),
    ensures
        step(s, i, line) matches Step::Skip(j, _) ==> i < j <= s.len(),
        step(s, i, line) matches Step::Emit(_, j, _) ==> i < j <= s.len(),
        step(s, i, line) matches Step::Emit(t, j, _) ==> t.lexeme == Some(s.subrange(i, j)),
        step(s, i, line) matches Step::Emit(t, _, _) ==> !(t.token_type is Eof),
        step(s, i, line) matches Step::Skip(_, l) ==> line <= l,
        step(s, i, line) matches Step::Emit(_, _, l) ==> line <= l,
{
    reveal(step);
    lemma_run_end(s, i + 1, Run::StringBody);
    lemma_run_end(s, i + 1, Run::Word);
    lemma_run_end(s, i, Run::Digits);
    if i + 2 <= s.len() {
        lemma_run_end(s, i + 2, Run::Comment);
    }
    let e = integral_end(s, i);
    if has_fraction(s, i) {
        lemma_run_end(s, e + 1, Run::Digits);
    }
}

#[via_fn]
proof fn scan_from_decreases(s: Seq<char>, i: int, line: nat) {
    if 0 <= i < s.len() {
        lemma_step_advances(s, i, line);
    }
}

/// A successful scan yields at most one token per character, and ends with
/// exactly one end-of-input token.
pub proof fn lemma_scan_shape(s: Seq<char>, i: int, line: nat)
    requires
        0 <= i <= s.len(),
    ensures
        scan_from(s, i, line) matches Ok(ts) ==> {
            &&& 1 <= ts.len() <= s.len() - i + 1
            &&& ts.last().token_type is Eof
            &&& forall|k: int| 0 <= k < ts.len() - 1 ==> !(#[trigger] ts[k].token_type is Eof)
        },
    decreases s.len() - i,
{
    if i < s.len() {
        lemma_step_advances(s, i, line);
        match step(s, i, line) {
            Step::Skip(j, l) => {
                lemma_scan_shape(s, j, l);
            },
            Step::Emit(t, j, l) => {
                lemma_scan_shape(s, j, l);
                if let Ok(rest) = scan_from(s, j, l) {
                    let ts = seq![t] + rest;
                    assert(ts.last() == rest.last());
                    assert forall|k: int| 0 <= k < ts.len() - 1 implies !(#[trigger] ts[k].token_type is Eof) by {
                        if k > 0 {
                            assert(ts[k] == rest[k - 1]);
                        }
                    }
                }
            },
            Step::Fail(_) => {},
        }
    }
}

pub open spec fn views(ts: Seq<Token>) -> Seq<TokenView> {
    ts.map_values(|t: Token| t@)
}

pub open spec fn scan_result_view(r: Result<Vec<Token>, ScanErr>) -> Result<Seq<TokenView>, ScanErr> {
    match r {
        Ok(ts) => Ok(views(ts@)),
        Err(e) => Err(e),
    }
}

proof fn lemma_newlines_bound(s: Seq<char>, a: int, b: int)
    ensures
        newlines(s, a, b) <= if b <= a { 0 } else { b - a },
    decreases b - a,
{
    if a < b {
        lemma_newlines_bound(s, a, b - 1);
    }
}

proof fn lemma_prepend_one(ts: Seq<TokenView>, t: TokenView, r: Result<Seq<TokenView>, ScanErr>)
    ensures
        prepend(ts, prepend(seq![t], r)) == prepend(ts.push(t), r),
{
    if let Ok(rest) = r {
        assert(ts + (seq![t] + rest) =~= ts.push(t) + rest);
    }
}

fn is_digit_char(c: char) -> (r: bool)
    ensures
        r == is_digit(c),
{
    '0' as u32 <= c as u32 && c as u32 <= '9' as u32
}

fn continues_exec(run: Run, c: char) -> (r: bool)
    ensures
        r == continues(run, c),
{
    match run {
        Run::Digits => is_digit_char(c),
        Run::Word => Scanner::is_alpha_numeric(c),
        Run::Comment => c != '\n',
        Run::StringBody => c != '"',
    }
}

fn run_end_exec(s: &Vec<char>, i: usize, run: Run) -> (r: usize)
    requires
        i <= s@.len(),
    ensures
        r == run_end(s@, i as int, run),
{
    let mut k: usize = i;
    while k < s.len() && continues_exec(run, s[k])
        invariant
            i <= k <= s@.len(),
            run_end(s@, k as int, run) == run_end(s@, i as int, run),
        decreases s@.len() - k,
    {
        k = k + 1;
    }
    k
}

fn count_newlines(s: &Vec<char>, a: usize, b: usize) -> (r: usize)
    requires
        a <= b <= s@.len(),
    ensures
        r == newlines(s@, a as int, b as int),
{
    let mut k: usize = a;
    let mut r: usize = 0;
    while k < b
        invariant
            a <= k <= b <= s@.len(),
            r == newlines(s@, a as int, k as int),
        decreases b - k,
    {
        proof {
            lemma_newlines_bound(s@, a as int, k as int);
        }
        if s[k] == '\n' {
            r = r + 1;
        }
        k = k + 1;
    }
    r
}

/// Reads the digits `s[a..b]` after those read into `v0`.
fn read_digits(s: &Vec<char>, a: usize, b: usize, v0: Number, Ghost(pre): Ghost<Seq<char>>) -> (r: Number)
    requires
        a <= b <= s@.len(),
        forall|k: int| a <= k < b ==> is_digit(#[trigger] s@[k]),
        v0@ == digits_number(pre),
    ensures
        r@ == digits_number(pre + s@.subrange(a as int, b as int)),
{
    let ten = Number::from_integer(10);
    let mut v = v0;
    let mut k: usize = a;
    assert(pre + s@.subrange(a as int, a as int) =~= pre);
    while k < b
        invariant
            a <= k <= b <= s@.len(),
            forall|j: int| a <= j < b ==> is_digit(#[trigger] s@[j]),
            ten@ == (10int, 1int),
            v@ == digits_number(pre + s@.subrange(a as int, k as int)),
        decreases b - k,
    {
        let ghost t = pre + s@.subrange(a as int, k as int);
        let ghost t2 = pre + s@.subrange(a as int, k + 1);
        assert(t2.drop_last() =~= t);
        assert(t2.last() == s@[k as int]);
        assert(is_digit(s@[k as int]));
        let d = Number::from_integer((s[k] as u32 - '0' as u32) as i64);
        v = v.mul(&ten).add(&d);
        k = k + 1;
    }
    v
}

/// Adds the fraction digits `s[a..b]` to `v0`, whose value is `whole`.
fn read_fraction(
    s: &Vec<char>,
    a: usize,
    b: usize,
    v0: Number,
    Ghost(whole): Ghost<(int, int)>,
) -> (r: Number)
    requires
        a <= b <= s@.len(),
        forall|k: int| a <= k < b ==> is_digit(#[trigger] s@[k]),
        v0@ == whole,
    ensures
        r@ == with_fraction(whole, s@.subrange(a as int, b as int)).0,
{
    let ten = Number::from_integer(10);
    let mut v = v0;
    let mut place = Number::from_integer(1);
    let mut k: usize = a;
    assert(s@.subrange(a as int, a as int) =~= Seq::<char>::empty());
    while k < b
        invariant
            a <= k <= b <= s@.len(),
            forall|j: int| a <= j < b ==> is_digit(#[trigger] s@[j]),
            ten@ == (10int, 1int),
            (v@, place@) == with_fraction(whole, s@.subrange(a as int, k as int)),
        decreases b - k,
    {
        let ghost t2 = s@.subrange(a as int, k + 1);
        assert(t2.drop_last() =~= s@.subrange(a as int, k as int));
        assert(t2.last() == s@[k as int]);
        assert(is_digit(s@[k as int]));
        let d = Number::from_integer((s[k] as u32 - '0' as u32) as i64);
        place = place.div(&ten);
        v = v.add(&d.mul(&place));
        k = k + 1;
    }
    v
}

fn single_char_exec(c: char) -> (r: Option<TokenType>)
    ensures
        r == single_char_type(c),
{
    match c {
        '(' => Some(TokenType::LeftParen),
        ')' => Some(TokenType::RightParen),
        '{' => Some(TokenType::LeftBrace),
        '}' => Some(TokenType::RightBrace),
        ',' => Some(TokenType::Comma),
        '.' => Some(TokenType::Dot),
        '-' => Some(TokenType::Minus),
        '+' => Some(TokenType::Plus),
        ';' => Some(TokenType::Semicolon),
        '*' => Some(TokenType::Star),
        _ => None,
    }
}

fn operator_types_exec(c: char) -> (r: Option<(TokenType, TokenType)>)
    ensures
        r == operator_types(c),
{
    match c {
        '!' => Some((TokenType::Bang, TokenType::BangEqual)),
        '=' => Some((TokenType::Equal, TokenType::EqualEqual)),
        '<' => Some((TokenType::Less, TokenType::LessEqual)),
        '>' => Some((TokenType::Greater, TokenType::GreaterEqual)),
        _ => None,
    }
}

fn keyword_exec(t: &Vec<char>) -> (r: Option<TokenType>)
    ensures
        r == keyword(t@),
{
    if same_chars(t, &['a', 'n', 'd']) {
        Some(TokenType::And)
    } else if same_chars(t, &['c', 'l', 'a', 's', 's']) {
        Some(TokenType::Class)
    } else if same_chars(t, &['e', 'l', 's', 'e']) {
        Some(TokenType::Else)
    } else if same_chars(t, &['f', 'a', 'l', 's', 'e']) {
        Some(TokenType::False)
    } else if same_chars(t, &['f', 'o', 'r']) {
        Some(TokenType::For)
    } else if same_chars(t, &['f', 'u', 'n']) {
        Some(TokenType::Fun)
    } else if same_chars(t, &['i', 'f']) {
        Some(TokenType::If)
    } else if same_chars(t, &['n', 'i', 'l']) {
        Some(TokenType::Nil)
    } else if same_chars(t, &['o', 'r']) {
        Some(TokenType::Or)
    } else if same_chars(t, &['p', 'r', 'i', 'n', 't']) {
        Some(TokenType::Print)
    } else if same_chars(t, &['r', 'e', 't', 'u', 'r', 'n']) {
        Some(TokenType::Return)
    } else if same_chars(t, &['s', 'u', 'p', 'e', 'r']) {
        Some(TokenType::Super)
    } else if same_chars(t, &['t', 'h', 'i', 's']) {
        Some(TokenType::This)
    } else if same_chars(t, &['t', 'r', 'u', 'e']) {
        Some(TokenType::True)
    } else if same_chars(t, &['v', 'a', 'r']) {
        Some(TokenType::Var)
    } else if same_chars(t, &['w', 'h', 'i', 'l', 'e']) {
        Some(TokenType::While)
    } else {
        None
    }
}

/// What the scanner does at one position, as executable values.
enum Action {
    Skip(usize, usize),
    Emit(Token, usize, usize),
    Fail(ScanErr),
}

spec fn action_view(a: Action) -> Step {
    match a {
        Action::Skip(j, l) => Step::Skip(j as int, l as nat),
        Action::Emit(t, j, l) => Step::Emit(t@, j as int, l as nat),
        Action::Fail(e) => Step::Fail(e),
    }
}

spec fn action_line_ok(a: Action) -> bool {
    match a {
        Action::Skip(j, l) => l <= j + 1,
        Action::Emit(_, j, l) => l <= j + 1,
        Action::Fail(_) => true,
    }
}

fn scan_number(s: &Vec<char>, i: usize, line: usize) -> (r: Action)
    requires
        i < s@.len(),
        is_digit(s@[i as int]),
        line <= i + 1,
    ensures
        action_view(r) == step(s@, i as int, line as nat),
        action_line_ok(r),
{
    reveal(step);
    let n = s.len();
    let e1 = run_end_exec(s, i, Run::Digits);
    proof {
        lemma_run_end(s@, i as int, Run::Digits);
    }
    let frac = e1 < n && s[e1] == '.';
    let e2 = if frac {
        run_end_exec(s, e1 + 1, Run::Digits)
    } else {
        e1
    };
    proof {
        if frac {
            lemma_run_end(s@, e1 + 1, Run::Digits);
        }
        assert(Seq::<char>::empty() + s@.subrange(i as int, e1 as int) =~= s@.subrange(i as int, e1 as int));
    }
    let zero = Number::from_integer(0);
    let v = read_digits(s, i, e1, zero, Ghost(Seq::empty()));
    let value = if frac {
        read_fraction(s, e1 + 1, e2, v, Ghost(v@))
    } else {
        assert(fraction_digits(s@, i as int) =~= Seq::<char>::empty());
        v
    };
    proof {
        lemma_view_number_of(value);
    }
    let lexeme = chars_between(s, i, e2);
    Action::Emit(Token { token_type: TokenType::Number(value), lexeme: Some(lexeme), line }, e2, line)
}

fn scan_step(s: &Vec<char>, i: usize, line: usize) -> (r: Action)
    requires
        i < s@.len(),
        s@.len() < usize::MAX,
        line <= i + 1,
    ensures
        action_view(r) == step(s@, i as int, line as nat),
        action_line_ok(r),
{
    reveal(step);
    let n = s.len();
    let c = s[i];
    if let Some(ty) = single_char_exec(c) {
        let lexeme = chars_between(s, i, i + 1);
        return Action::Emit(Token { token_type: ty, lexeme: Some(lexeme), line }, i + 1, line);
    }
    if let Some((one, two)) = operator_types_exec(c) {
        if i + 1 < n && s[i + 1] == '=' {
            let lexeme = chars_between(s, i, i + 2);
            return Action::Emit(Token { token_type: two, lexeme: Some(lexeme), line }, i + 2, line);
        } else {
            let lexeme = chars_between(s, i, i + 1);
            return Action::Emit(Token { token_type: one, lexeme: Some(lexeme), line }, i + 1, line);
        }
    }
    if c == '/' {
        if i + 1 < n && s[i + 1] == '/' {
            let e = run_end_exec(s, i + 2, Run::Comment);
            proof {
                lemma_run_end(s@, i + 2, Run::Comment);
            }
            return Action::Skip(e, line);
        } else {
            let lexeme = chars_between(s, i, i + 1);
            return Action::Emit(Token { token_type: TokenType::Slash, lexeme: Some(lexeme), line }, i + 1, line);
        }
    }
    if c == ' ' || c == '\r' || c == '\t' {
        return Action::Skip(i + 1, line);
    }
    if c == '\n' {
        return Action::Skip(i + 1, line + 1);
    }
    if c == '"' {
        let q = run_end_exec(s, i + 1, Run::StringBody);
        proof {
            lemma_run_end(s@, i + 1, Run::StringBody);
        }
        if q >= n {
            return Action::Fail(ScanErr { line, kind: ScanErrorKind::UnterminatedString });
        }
        let lines = count_newlines(s, i + 1, q);
        proof {
            lemma_newlines_bound(s@, i + 1, q as int);
        }
        let lexeme = chars_between(s, i, q + 1);
        return Action::Emit(
            Token { token_type: TokenType::StringLiteral, lexeme: Some(lexeme), line },
            q + 1,
            line + lines,
        );
    }
    if is_digit_char(c) {
        return scan_number(s, i, line);
    }
    if Scanner::is_alpha(c) {
        let e = run_end_exec(s, i + 1, Run::Word);
        proof {
            lemma_run_end(s@, i + 1, Run::Word);
        }
        let text = chars_between(s, i, e);
        let ty = match keyword_exec(&text) {
            Some(k) => k,
            None => TokenType::Identifier,
        };
        return Action::Emit(Token { token_type: ty, lexeme: Some(text), line }, e, line);
    }
    Action::Fail(ScanErr { line, kind: ScanErrorKind::UnexpectedCharacter(c) })
}

/// Scans the characters `s` into tokens.
pub fn scan_chars(s: &Vec<char>) -> (r: Result<Vec<Token>, ScanErr>)
    requires
        s@.len() < usize::MAX,
    ensures
        scan_result_view(r) == scan(s@),
{
    let n = s.len();
    let mut tokens: Vec<Token> = Vec::new();
    let mut line: usize = 1;
    let mut i: usize = 0;
    assert(views(tokens@) =~= Seq::<TokenView>::empty());
    assert(Seq::<TokenView>::empty() + Seq::<TokenView>::empty() =~= Seq::<TokenView>::empty());
    while i < n
        invariant
            n == s@.len(),
            n < usize::MAX,
            0 <= i <= n,
            1 <= line <= i + 1,
            scan(s@) == prepend(views(tokens@), scan_from(s@, i as int, line as nat)),
        decreases n - i,
    {
        proof {
            lemma_step_advances(s@, i as int, line as nat);
        }
        let ghost before = views(tokens@);
        match scan_step(s, i, line) {
            Action::Skip(j, l) => {
                i = j;
                line = l;
            },
            Action::Emit(t, j, l) => {
                let ghost tv = t@;
                tokens.push(t);
                proof {
                    assert(views(tokens@) =~= before.push(tv));
                    lemma_prepend_one(before, tv, scan_from(s@, j as int, l as nat));
                }
                i = j;
                line = l;
            },
            Action::Fail(e) => {
                return Err(e);
            },
        }
    }
    let ghost before = views(tokens@);
    tokens.push(Token { token_type: TokenType::Eof, lexeme: None, line });
    assert(views(tokens@) =~= before + seq![eof_view(line as nat)]);
    Ok(tokens)
}

impl Scanner {
    /// Scans the whole source into tokens, ending with one end-of-input token,
    /// or stops at the first illegal character or unterminated string literal.
    pub fn scan_tokens(self) -> (r: Result<Vec<Token>, ScanErr>)
        requires
            self.source@.len() < usize::MAX,
        ensures
            scan_result_view(r) == scan(self.source@),
    {
        let n = self.source.as_str().unicode_len();
        let mut s: Vec<char> = Vec::new();
        let mut i: usize = 0;
        while i < n
            invariant
                n == self.source@.len(),
                0 <= i <= n,
                s@ == self.source@.subrange(0, i as int),
            decreases n - i,
        {
            s.push(self.source.as_str().get_char(i));
            i = i + 1;
            assert(s@ =~= self.source@.subrange(0, i as int));
        }
        assert(s@ =~= self.source@);
        scan_chars(&s)
    }

    pub fn is_alpha(c: char) -> (r: bool)
        ensures
            r == is_alpha(c),
    {
        ('a' as u32 <= c as u32 && c as u32 <= 'z' as u32) || ('A' as u32 <= c as u32 && c as u32
            <= 'Z' as u32) || c == '_'
    }

    pub fn is_alpha_numeric(c: char) -> (r: bool)
        ensures
            r == is_alpha_numeric(c),
    {
        Scanner::is_alpha(c) || is_digit_char(c)
    }
}

} // verus!
