//! Tokens as plain values: a lexical category, the literal text, and the
//! byte range that the token covers in its buffer.

use vstd::prelude::*;

verus! {

/// The lexical category of a token.
#[derive(Clone, Copy, Debug, PartialEq, Eq, Structural)]
pub enum TokenKind {
    Name,
    Numeral,
    LiteralString,
    Punct,
    Keyword,
    Comment,
    /// Bytes that the lexer could not classify.
    Unknown,
}

/// A half-open byte range `[start, end)` into one buffer.
#[derive(Clone, Copy, Debug, PartialEq, Eq, Structural)]
pub struct Span {
    pub start: usize,
    pub end: usize,
}

/// A classified lexical unit with the range it was read from. Two tokens
/// have the same value when category and text agree; the spans belong to
/// their buffers and are never compared across them.
#[derive(Clone, Debug, PartialEq, Eq)]
pub struct Token {
    pub kind: TokenKind,
    pub text: Vec<u8>,
    pub span: Span,
}

/// The mathematical value of a [`Token`].
pub struct TokenView {
    pub kind: TokenKind,
    pub text: Seq<u8>,
    pub span: Span,
}

impl View for Token {
    type V = TokenView;

    open spec fn view(&self) -> TokenView {
        TokenView { kind: self.kind, text: self.text@, span: self.span }
    }
}

/// The views of a sequence of tokens, element by element.
pub open spec fn token_views(tokens: Seq<Token>) -> Seq<TokenView> {
    Seq::new(tokens.len(), |i: int| tokens[i]@)
}

/// Category and text agree.
pub open spec fn same_value(a: TokenView, b: TokenView) -> bool {
    a.kind == b.kind && a.text == b.text
}

/// Whether two byte strings are equal.
pub fn bytes_equal(a: &[u8], b: &[u8]) -> (eq: bool)
    ensures
        eq == (a@ == b@),
{
    if a.len() != b.len() {
        return false;
    }
    let mut i: usize = 0;
    while i < a.len()
        invariant
            a.len() == b.len(),
            i <= a.len(),
            forall|j: int| 0 <= j < i ==> a@[j] == b@[j],
        decreases a.len() - i,
    {
        if a[i] != b[i] {
            return false;
        }
        i = i + 1;
    }
    assert(a@ =~= b@);
    true
}

impl Token {
    /// Whether `self` and `other` have the same value.
    pub fn same_value(&self, other: &Token) -> (same: bool)
        ensures
            same == same_value(self@, other@),
    {
        self.kind == other.kind && bytes_equal(self.text.as_slice(), other.text.as_slice())
    }
}

} // verus!
