//! The parse driver. The statements of a buffer are parsed one after the
//! other by `analisar`; the first statement that does not parse ends the
//! work on the buffer, and nothing of that buffer is emitted: a malformed
//! buffer is reported, never emitted in part.

use vstd::prelude::*;
use vstd::slice::slice_subrange;
use crate::brackets::{
    first_open_long_bracket, lexable_part, long_brackets_closed, open_bracket,
};
use crate::diagnostic::{point_to_offset, pointed_line};
use crate::text::{decimal, push_decimal, push_text};

verus! {

#[verifier::external_type_specification]
#[verifier::external_body]
pub struct ExParser<'a>(analisar::aware::Parser<'a>);

#[verifier::external_type_specification]
#[verifier::external_body]
pub struct ExStatementWithComments<'a>(analisar::aware::ast::StatementWithComments<'a>);

/// Why a statement did not parse.
#[derive(Clone, Debug, PartialEq, Eq)]
pub enum ParseFailure {
    /// The buffer ends inside a statement.
    UnexpectedEof,
    /// The token that starts at `offset` cannot stand where it does.
    UnexpectedToken { offset: usize, message: String },
}

/// Why a buffer was not stripped.
#[derive(Clone, Debug, PartialEq, Eq)]
pub enum StripError {
    /// The long bracket that opens at `offset` is never closed.
    OpenLongBracket { offset: usize },
    /// A statement did not parse.
    Malformed(ParseFailure),
}

/// The mathematical value of a [`ParseFailure`].
pub enum ParseFailureView {
    UnexpectedEof,
    UnexpectedToken { offset: usize, message: Seq<char> },
}

/// The mathematical value of a [`StripError`].
pub enum StripErrorView {
    OpenLongBracket { offset: usize },
    Malformed(ParseFailureView),
}

impl View for ParseFailure {
    type V = ParseFailureView;

    open spec fn view(&self) -> ParseFailureView {
        match self {
            ParseFailure::UnexpectedEof => ParseFailureView::UnexpectedEof,
            ParseFailure::UnexpectedToken { offset, message } => ParseFailureView::UnexpectedToken {
                offset: *offset,
                message: message@,
            },
        }
    }
}

impl View for StripError {
    type V = StripErrorView;

    open spec fn view(&self) -> StripErrorView {
        match self {
            StripError::OpenLongBracket { offset } => StripErrorView::OpenLongBracket {
                offset: *offset,
            },
            StripError::Malformed(failure) => StripErrorView::Malformed(failure@),
        }
    }
}

/// The value that stands for a statement in contracts. It serves to tell
/// the statements of a buffer apart and to fix their order; no contract
/// says what the two offsets of a given statement are.
pub struct StatementView {
    pub start: Option<usize>,
    pub end: Option<usize>,
}

/// The value of a statement of the parser.
pub uninterp spec fn statement_value(
    statement: analisar::aware::ast::StatementWithComments<'_>,
) -> StatementView;

/// The values of a sequence of statements, element by element.
pub open spec fn statement_values(
    statements: Seq<analisar::aware::ast::StatementWithComments<'_>>,
) -> Seq<StatementView> {
    Seq::new(statements.len(), |i: int| statement_value(statements[i]))
}

/// What a parser has yet to yield: the statements that parse, in order, and
/// after them either the end of the buffer or a failure.
pub struct Rest {
    pub statements: Seq<StatementView>,
    pub failure: Option<ParseFailureView>,
}

/// What a parser has yet to yield.
pub uninterp spec fn parser_rest(parser: analisar::aware::Parser<'_>) -> Rest;

/// The buffer that a parser reads.
pub uninterp spec fn parser_source(parser: analisar::aware::Parser<'_>) -> Seq<u8>;

/// What a fresh parser over `src` yields.
pub uninterp spec fn lua_parse(src: Seq<u8>) -> Rest;

/// What one call of `next` does to what a parser has yet to yield.
pub open spec fn steps(
    before: Rest,
    res: Option<Result<analisar::aware::ast::StatementWithComments<'_>, ParseFailure>>,
    after: Rest,
) -> bool {
    match res {
        Some(Ok(statement)) => {
            &&& before.statements.len() > 0
            &&& before.statements[0] == statement_value(statement)
            &&& after == (Rest {
                statements: before.statements.skip(1),
                failure: before.failure,
            })
        },
        Some(Err(failure)) => before.statements.len() == 0 && before.failure == Some(failure@),
        None => before.statements.len() == 0 && before.failure is None && after == before,
    }
}

/// `analisar::aware::Parser::new`: a parser at the start of `src`. It reads
/// the first two tokens that are no comments through the lexer of
/// `lex_lua`, which comes back from every token where
/// `long_brackets_closed` holds of `src`.
#[verifier::external_body]
fn parser_new<'a>(src: &'a [u8]) -> (parser: analisar::aware::Parser<'a>)
    requires
        long_brackets_closed(src@),
    ensures
        parser_source(parser) == src@,
        parser_rest(parser) == lua_parse(src@),
{
    analisar::aware::Parser::new(src)
}

/// `analisar::aware::Parser::next`: the next statement with the comments
/// that belong to it, the failure of `analisar::Error` where the statement
/// does not parse, or `None` when no token is left. A statement that parses
/// consumes at least its first token. The call returns where the long
/// brackets of the parser's buffer are closed. The parser keeps its buffer.
#[verifier::external_body]
fn parser_next<'a>(parser: &mut analisar::aware::Parser<'a>) -> (res: Option<
    Result<analisar::aware::ast::StatementWithComments<'a>, ParseFailure>,
>)
    requires
        long_brackets_closed(parser_source(*old(parser))),
    ensures
        steps(parser_rest(*old(parser)), res, parser_rest(*final(parser))),
        res matches Some(Ok(statement)) ==> parser_rest(*old(parser)).statements.first()
            == statement_value(statement),
        parser_source(*final(parser)) == parser_source(*old(parser)),
{
    match parser.next()? {
        Ok(statement) => Some(Ok(statement)),
        Err(analisar::Error::UnexpectedEof) => Some(Err(ParseFailure::UnexpectedEof)),
        Err(analisar::Error::UnexpectedToken(offset, message)) => Some(
            Err(ParseFailure::UnexpectedToken { offset, message }),
        ),
    }
}

/// Runs the parser over `src` to its end or to its first failure.
fn parse_all<'a>(src: &'a [u8]) -> (res: Result<
    Vec<analisar::aware::ast::StatementWithComments<'a>>,
    ParseFailure,
>)
    requires
        long_brackets_closed(src@),
    ensures
        match res {
            Ok(statements) => lua_parse(src@).failure is None && statement_values(statements@)
                == lua_parse(src@).statements,
            Err(failure) => lua_parse(src@).failure == Some(failure@),
        },
{
    let mut parser = parser_new(src);
    let mut statements: Vec<analisar::aware::ast::StatementWithComments<'a>> = Vec::new();
    loop
        invariant
            long_brackets_closed(parser_source(parser)),
            statement_values(statements@) + parser_rest(parser).statements == lua_parse(
                src@,
            ).statements,
            parser_rest(parser).failure == lua_parse(src@).failure,
        decreases parser_rest(parser).statements.len(),
    {
        let ghost before = parser_rest(parser).statements;
        let ghost got = statement_values(statements@);
        match parser_next(&mut parser) {
            Some(Ok(statement)) => {
                statements.push(statement);
                assert(statement_values(statements@) == got.push(before[0]));
                assert(got.push(before[0]) + before.skip(1) == got + before);
            },
            Some(Err(failure)) => {
                return Err(failure);
            },
            None => {
                assert(got + before == got);
                return Ok(statements);
            },
        }
    }
}

/// The error with which the work on `src` ends, if it does, where `parse`
/// is what the parser yields on the part of `src` that the lexer comes back
/// from. With every long bracket closed it is the failure of the first
/// statement that does not parse. With a long bracket left open it is the
/// unexpected token that the parser meets before the bracket, if there is
/// one, and else the bracket: that the input ends there comes from the
/// bracket.
pub open spec fn strip_error(src: Seq<u8>, parse: Rest) -> Option<StripErrorView> {
    match open_bracket(src) {
        None => match parse.failure {
            Some(failure) => Some(StripErrorView::Malformed(failure)),
            None => None,
        },
        Some(open) => match parse.failure {
            Some(ParseFailureView::UnexpectedToken { offset, message }) => Some(
                StripErrorView::Malformed(ParseFailureView::UnexpectedToken { offset, message }),
            ),
            _ => Some(StripErrorView::OpenLongBracket { offset: open }),
        },
    }
}

/// The statements of `lua`, in the order of the buffer, each with its
/// comments: what is to be emitted again without them. The first statement
/// that does not parse ends the work with its failure. Where a long bracket
/// is left open, the parser is run on what stands before it: an unexpected
/// token there is the failure, else the bracket is.
pub fn parse_statements<'a>(lua: &'a [u8]) -> (res: Result<
    Vec<analisar::aware::ast::StatementWithComments<'a>>,
    StripError,
>)
    ensures
        match res {
            Ok(statements) => {
                &&& strip_error(lua@, lua_parse(lexable_part(lua@))) is None
                &&& lexable_part(lua@) == lua@
                &&& statement_values(statements@) == lua_parse(lua@).statements
            },
            Err(e) => strip_error(lua@, lua_parse(lexable_part(lua@))) == Some(e@),
        },
{
    match first_open_long_bracket(lua) {
        None => match parse_all(lua) {
            Ok(statements) => Ok(statements),
            Err(failure) => Err(StripError::Malformed(failure)),
        },
        Some(open) => match parse_all(slice_subrange(lua, 0, open)) {
            Err(ParseFailure::UnexpectedToken { offset, message }) => Err(
                StripError::Malformed(ParseFailure::UnexpectedToken { offset, message }),
            ),
            _ => Err(StripError::OpenLongBracket { offset: open }),
        },
    }
}

/// The text of the diagnostic for an error in `lua`. An error whose offset
/// lies in the buffer is shown with its line; one whose offset lies past
/// the end of the buffer is named with the offset alone.
pub open spec fn diagnostic_text(lua: Seq<u8>, error: StripErrorView) -> Seq<char> {
    match error {
        StripErrorView::Malformed(ParseFailureView::UnexpectedToken { offset, message }) => {
            if offset <= lua.len() {
                "Unexpected token: "@ + message + "\n"@ + pointed_line(lua, offset as nat)
            } else {
                "Error parsing: Unexpected token starting at byte "@ + decimal(offset as nat)
                    + ": "@ + message
            }
        },
        StripErrorView::Malformed(ParseFailureView::UnexpectedEof) => {
            "Error parsing: Unexpected End of Input"@
        },
        StripErrorView::OpenLongBracket { offset } => {
            if offset <= lua.len() {
                "Error parsing: long bracket is never closed\n"@ + pointed_line(
                    lua,
                    offset as nat,
                )
            } else {
                "Error parsing: long bracket is never closed at byte "@ + decimal(offset as nat)
            }
        },
    }
}

/// The diagnostic for `error`, which was found in `lua`: what went wrong,
/// and for an error with an offset the line that holds it with a caret
/// under the byte.
pub fn diagnostic(lua: &[u8], error: &StripError) -> (text: String)
    ensures
        text@ == diagnostic_text(lua@, error@),
{
    let mut text = String::new();
    match error {
        StripError::Malformed(ParseFailure::UnexpectedToken { offset, message }) => {
            if *offset <= lua.len() {
                let line = point_to_offset(lua, *offset);
                push_text(&mut text, "Unexpected token: ");
                push_text(&mut text, message.as_str());
                push_text(&mut text, "\n");
                push_text(&mut text, line.as_str());
                assert(text@ =~= "Unexpected token: "@ + message@ + "\n"@ + line@);
            } else {
                push_text(&mut text, "Error parsing: Unexpected token starting at byte ");
                push_decimal(&mut text, *offset);
                push_text(&mut text, ": ");
                push_text(&mut text, message.as_str());
                assert(text@ =~= "Error parsing: Unexpected token starting at byte "@ + decimal(
                    *offset as nat,
                ) + ": "@ + message@);
            }
        },
        StripError::Malformed(ParseFailure::UnexpectedEof) => {
            push_text(&mut text, "Error parsing: Unexpected End of Input");
            assert(text@ =~= "Error parsing: Unexpected End of Input"@);
        },
        StripError::OpenLongBracket { offset } => {
            if *offset <= lua.len() {
                let line = point_to_offset(lua, *offset);
                push_text(&mut text, "Error parsing: long bracket is never closed\n");
                push_text(&mut text, line.as_str());
                assert(text@ =~= "Error parsing: long bracket is never closed\n"@ + line@);
            } else {
                push_text(&mut text, "Error parsing: long bracket is never closed at byte ");
                push_decimal(&mut text, *offset);
                assert(text@ =~= "Error parsing: long bracket is never closed at byte "@
                    + decimal(*offset as nat));
            }
        },
    }
    text
}

} // verus!
