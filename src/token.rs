//! Tokens: the lexical categories of the language and the token values that
//! the scanner produces.
use vstd::prelude::*;
use crate::number::Number;

verus! {

/// The closed set of lexical categories. A number token carries its decoded
/// value; the text of an identifier or a string literal is in its lexeme.
#[derive(Clone, Copy, Debug)]
pub enum TokenType {
    // Single-character tokens.
    LeftParen,
    RightParen,
    LeftBrace,
    RightBrace,
    Comma,
    Dot,
    Minus,
    Plus,
    Semicolon,
    Slash,
    Star,
    // One or two character tokens.
    Bang,
    BangEqual,
    Equal,
    EqualEqual,
    Greater,
    GreaterEqual,
    Less,
    LessEqual,
    // Literals.
    Identifier,
    StringLiteral,
    Number(Number),
    // Keywords.
    And,
    Class,
    Else,
    False,
    Fun,
    For,
    If,
    Nil,
    Or,
    Print,
    Return,
    Super,
    This,
    True,
    Var,
    While,
    // End of input.
    Eof,
}

/// A token: its category, the source text it was read from (absent only for
/// the end-of-input marker) and the 1-based line on which it starts.
pub struct Token {
    pub token_type: TokenType,
    pub lexeme: Option<Vec<char>>,
    pub line: usize,
}

/// The mathematical value of a token.
pub struct TokenView {
    pub token_type: TokenType,
    pub lexeme: Option<Seq<char>>,
    pub line: nat,
}

pub open spec fn opt_chars(o: Option<Vec<char>>) -> Option<Seq<char>> {
    match o {
        Some(v) => Some(v@),
        None => None,
    }
}

impl View for Token {
    type V = TokenView;

    open spec fn view(&self) -> TokenView {
        TokenView { token_type: self.token_type, lexeme: opt_chars(self.lexeme), line: self.line as nat }
    }
}

/// The lexeme of a token, empty where it has none.
pub open spec fn lexeme_of(t: TokenView) -> Seq<char> {
    match t.lexeme {
        Some(l) => l,
        None => Seq::empty(),
    }
}

/// A copy of the characters of `v`.
pub fn copy_chars(v: &Vec<char>) -> (r: Vec<char>)
    ensures
        r@ == v@,
{
    let mut r: Vec<char> = Vec::new();
    let mut i: usize = 0;
    while i < v.len()
        invariant
            0 <= i <= v@.len(),
            r@ == v@.subrange(0, i as int),
        decreases v@.len() - i,
    {
        r.push(v[i]);
        i = i + 1;
        assert(r@ =~= v@.subrange(0, i as int));
    }
    assert(r@ =~= v@);
    r
}

/// The characters `s[a..b]`.
pub fn chars_between(s: &Vec<char>, a: usize, b: usize) -> (r: Vec<char>)
    requires
        a <= b <= s@.len(),
    ensures
        r@ == s@.subrange(a as int, b as int),
{
    let mut r: Vec<char> = Vec::new();
    let mut k: usize = a;
    while k < b
        invariant
            a <= k <= b <= s@.len(),
            r@ == s@.subrange(a as int, k as int),
        decreases b - k,
    {
        r.push(s[k]);
        k = k + 1;
        assert(r@ =~= s@.subrange(a as int, k as int));
    }
    r
}

/// `true` exactly when `t` and `w` hold the same characters.
pub fn same_chars(t: &Vec<char>, w: &[char]) -> (r: bool)
    ensures
        r == (t@ == w@),
{
    if t.len() != w.len() {
        return false;
    }
    let mut i: usize = 0;
    while i < t.len()
        invariant
            t@.len() == w@.len(),
            0 <= i <= t@.len(),
            forall|j: int| 0 <= j < i ==> t@[j] == w@[j],
        decreases t@.len() - i,
    {
        if t[i] != w[i] {
            return false;
        }
        i = i + 1;
    }
    assert(t@ =~= w@);
    true
}

impl Token {
    /// A token with the same category, lexeme and line.
    pub fn duplicate(&self) -> (r: Token)
        ensures
            r@ == self@,
    {
        let lexeme = match &self.lexeme {
            Some(v) => Some(copy_chars(v)),
            None => None,
        };
        Token { token_type: self.token_type, lexeme, line: self.line }
    }
}

} // verus!
