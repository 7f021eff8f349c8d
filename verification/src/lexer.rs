//! The Lua lexer of `lex_lua`, behind contracts, and the function that runs
//! it over a whole buffer.

use vstd::prelude::*;
use crate::brackets::{first_open_long_bracket, long_brackets_closed, open_bracket};
use crate::token::{token_views, Span, Token, TokenKind, TokenView};

verus! {

#[verifier::external_type_specification]
#[verifier::external_body]
pub struct ExSpannedLexer<'a>(lex_lua::SpannedLexer<'a>);

#[verifier::external_type_specification]
#[verifier::external_body]
pub struct ExLuaItem<'a>(lex_lua::Item<'a>);

/// The tokens that a lexer has yet to yield, in order.
pub uninterp spec fn lexer_pending(lexer: lex_lua::SpannedLexer<'_>) -> Seq<TokenView>;

/// The buffer that a lexer reads.
pub uninterp spec fn lexer_source(lexer: lex_lua::SpannedLexer<'_>) -> Seq<u8>;

/// The tokens that a fresh lexer over `src` yields, comments included.
pub uninterp spec fn lua_tokens(src: Seq<u8>) -> Seq<TokenView>;

/// What an item of the lexer holds: its category, which is the variant of its
/// token, its text, and its span. The text of a name, a numeral, a string, a
/// comment or an unknown token is the bytes that the variant carries; that
/// of a keyword is its spelling; that of a punctuation mark is the name of
/// its variant. Two tokens that the lexer's own `==` tells apart differ in
/// category or text.
pub uninterp spec fn item_value(item: lex_lua::Item<'_>) -> TokenView;

/// Every token lies in a buffer of `len` bytes and is not empty, and each
/// starts where the one before it ends, or later.
pub open spec fn well_placed(tokens: Seq<TokenView>, len: nat) -> bool {
    &&& forall|i: int|
        0 <= i < tokens.len() ==> (#[trigger] tokens[i]).span.start < tokens[i].span.end <= len
    &&& forall|i: int, j: int|
        0 <= i < j < tokens.len() ==> (#[trigger] tokens[i]).span.end <= (
        #[trigger] tokens[j]).span.start
}

/// What one call of `next` does to the tokens that are pending.
pub open spec fn yields(
    before: Seq<TokenView>,
    res: Option<lex_lua::Item<'_>>,
    after: Seq<TokenView>,
) -> bool {
    match res {
        Some(item) => {
            &&& before.len() > 0
            &&& before[0] == item_value(item)
            &&& after == before.skip(1)
        },
        None => before.len() == 0 && after.len() == 0,
    }
}

/// `lex_lua::SpannedLexer::new`: a lexer at the start of `src`. The lexer
/// reads no byte yet. It counts a position forward from 0 by at least one for
/// each character that it reads, never past the bytes read, and an item's
/// span runs from the position before its first character to the position
/// after its last: so every span is non-empty, ends within the buffer, and
/// starts no earlier than the span before it ends. The one loop of the
/// lexer that may not end is its search for the end of a long bracket. It
/// enters one where [`crate::brackets::step_context`] does, and the search
/// ends where that function leaves the bracket: so where
/// `long_brackets_closed` holds of `src`, each later call of `next`
/// returns, and after finitely many of them the lexer is at the end.
#[verifier::external_body]
fn lexer_new<'a>(src: &'a [u8]) -> (lexer: lex_lua::SpannedLexer<'a>)
    requires
        long_brackets_closed(src@),
    ensures
        lexer_source(lexer) == src@,
        lexer_pending(lexer) == lua_tokens(src@),
        well_placed(lexer_pending(lexer), src@.len()),
{
    lex_lua::SpannedLexer::new(src)
}

/// `lex_lua::SpannedLexer::next`: the next item, or `None` at the end of the
/// buffer, where the lexer stays. The call returns where the long brackets
/// of the lexer's buffer are closed. The lexer keeps its buffer.
#[verifier::external_body]
fn lexer_next<'a>(lexer: &mut lex_lua::SpannedLexer<'a>) -> (res: Option<lex_lua::Item<'a>>)
    requires
        long_brackets_closed(lexer_source(*old(lexer))),
    ensures
        yields(lexer_pending(*old(lexer)), res, lexer_pending(*final(lexer))),
        lexer_source(*final(lexer)) == lexer_source(*old(lexer)),
{
    lexer.next()
}

/// The category of an item of `lex_lua`: one arm for each variant of
/// `lex_lua::Token`.
#[verifier::external_body]
fn item_kind(item: &lex_lua::Item<'_>) -> (kind: TokenKind)
    ensures
        kind == item_value(*item).kind,
{
    match &item.token {
        lex_lua::Token::Name(_) => TokenKind::Name,
        lex_lua::Token::Numeral(_) => TokenKind::Numeral,
        lex_lua::Token::LiteralString(_) => TokenKind::LiteralString,
        lex_lua::Token::Punct(_) => TokenKind::Punct,
        lex_lua::Token::Keyword(_) => TokenKind::Keyword,
        lex_lua::Token::Comment(_) => TokenKind::Comment,
        lex_lua::Token::Unknown(_) => TokenKind::Unknown,
    }
}

/// The text of an item of `lex_lua`: the bytes that the variant of its token
/// carries, the result of `lex_lua::Keyword::as_str` for a keyword, and for a
/// punctuation mark the name of its variant as `Debug` prints it.
#[verifier::external_body]
fn item_text(item: &lex_lua::Item<'_>) -> (text: Vec<u8>)
    ensures
        text@ == item_value(*item).text,
{
    match &item.token {
        lex_lua::Token::Name(s) | lex_lua::Token::Numeral(s) => s.as_bytes().to_vec(),
        lex_lua::Token::LiteralString(s) => s.to_vec(),
        lex_lua::Token::Comment(s) | lex_lua::Token::Unknown(s) => s.to_vec(),
        lex_lua::Token::Punct(p) => format!("{p:?}").into_bytes(),
        lex_lua::Token::Keyword(k) => k.as_str().as_bytes().to_vec(),
    }
}

/// The span of an item of `lex_lua`: its two fields.
#[verifier::external_body]
fn item_span(item: &lex_lua::Item<'_>) -> (span: Span)
    ensures
        span == item_value(*item).span,
{
    Span { start: item.span.start, end: item.span.end }
}

/// Every token of `src`, comments included, in the order of the buffer.
pub fn tokenize(src: &[u8]) -> (tokens: Vec<Token>)
    requires
        long_brackets_closed(src@),
    ensures
        token_views(tokens@) == lua_tokens(src@),
        well_placed(lua_tokens(src@), src@.len()),
{
    let mut lexer = lexer_new(src);
    let mut tokens: Vec<Token> = Vec::new();
    loop
        invariant
            long_brackets_closed(lexer_source(lexer)),
            token_views(tokens@) + lexer_pending(lexer) == lua_tokens(src@),
        ensures
            token_views(tokens@) == lua_tokens(src@),
        decreases lexer_pending(lexer).len(),
    {
        let ghost before = lexer_pending(lexer);
        let ghost got = token_views(tokens@);
        match lexer_next(&mut lexer) {
            Some(item) => {
                let token = Token {
                    kind: item_kind(&item),
                    text: item_text(&item),
                    span: item_span(&item),
                };
                tokens.push(token);
                assert(token_views(tokens@) == got.push(before[0]));
                assert(got.push(before[0]) + before.skip(1) == got + before);
            },
            None => {
                assert(got + lexer_pending(lexer) == got);
                break ;
            },
        }
    }
    tokens
}

/// The tokens of `src`, comments included. Where the lexer would not come
/// back from a long bracket the result is the offset of the `[` that opens
/// it, and the lexer is not run.
pub fn lex(src: &[u8]) -> (res: Result<Vec<Token>, usize>)
    ensures
        match res {
            Ok(tokens) => long_brackets_closed(src@) && token_views(tokens@) == lua_tokens(src@)
                && well_placed(lua_tokens(src@), src@.len()),
            Err(offset) => open_bracket(src@) == Some(offset) && offset < src@.len()
                && long_brackets_closed(src@.take(offset as int)),
        },
{
    match first_open_long_bracket(src) {
        Some(offset) => Err(offset),
        None => Ok(tokenize(src)),
    }
}

} // verus!
