//! The two ways of comparing an original with its stripped copy, behind one
//! entry point.

use vstd::prelude::*;
use crate::brackets::lexable_part;
use crate::lexer::{lua_tokens, well_placed};
use crate::line_diff::{fits_table, generate_line_diff, line_changes, line_report, table_fits};
use crate::text::{decimal, lossy_text, optional_text, push_decimal, push_text};
use crate::token_diff::{generate_diff_from_tokens, token_diff_outcome, Buffer, DiffError, Fault};

verus! {

/// The way in which two buffers are compared.
#[derive(Clone, Copy, Debug, PartialEq, Eq, Structural)]
pub enum DiffMode {
    /// Token by token, comments and whitespace set aside.
    Tokens,
    /// Line by line, as text: the verbose mode.
    Lines,
}

/// Why a comparison gave no report.
#[derive(Clone, Copy, Debug, PartialEq, Eq, Structural)]
pub enum DiffFailure {
    /// A buffer could not be turned into tokens.
    Lex(DiffError),
    /// The buffers are too large for the table of the line comparison.
    TableTooLarge,
}

/// What a comparison of `orig` with `stripped` yields in `mode`, `o_tokens`
/// and `s_tokens` being the tokens of the parts of the two buffers that the
/// lexer comes back from.
pub open spec fn diff_result(
    mode: DiffMode,
    orig: Seq<u8>,
    stripped: Seq<u8>,
    o_tokens: Seq<crate::token::TokenView>,
    s_tokens: Seq<crate::token::TokenView>,
    o_path: Seq<char>,
    s_path: Seq<char>,
) -> Result<Option<Seq<char>>, DiffFailure> {
    match mode {
        DiffMode::Tokens => match token_diff_outcome(
            orig,
            stripped,
            o_tokens,
            s_tokens,
            o_path,
            s_path,
        ) {
            Ok(report) => Ok(report),
            Err(e) => Err(DiffFailure::Lex(e)),
        },
        DiffMode::Lines => if table_fits(orig.len(), stripped.len()) {
            Ok(line_report(line_changes(lossy_text(orig), lossy_text(stripped)), o_path, s_path))
        } else {
            Err(DiffFailure::TableTooLarge)
        },
    }
}

/// The view of what [`generate_diff`] returns.
pub open spec fn result_view(res: Result<Option<String>, DiffFailure>) -> Result<
    Option<Seq<char>>,
    DiffFailure,
> {
    match res {
        Ok(report) => Ok(optional_text(report)),
        Err(e) => Err(e),
    }
}

/// Compares `orig` with `stripped` in the given mode. `Ok(None)` says that
/// the comparison found nothing to report.
pub fn generate_diff(
    mode: DiffMode,
    orig: &[u8],
    stripped: &[u8],
    o_path: &str,
    s_path: &str,
) -> (res: Result<Option<String>, DiffFailure>)
    ensures
        result_view(res) == diff_result(
            mode,
            orig@,
            stripped@,
            lua_tokens(lexable_part(orig@)),
            lua_tokens(lexable_part(stripped@)),
            o_path@,
            s_path@,
        ),
        mode == DiffMode::Tokens && res is Ok ==> well_placed(lua_tokens(orig@), orig@.len()),
{
    match mode {
        DiffMode::Tokens => match generate_diff_from_tokens(orig, stripped, o_path, s_path) {
            Ok(report) => Ok(report),
            Err(e) => Err(DiffFailure::Lex(e)),
        },
        DiffMode::Lines => {
            if fits_table(orig.len(), stripped.len()) {
                Ok(generate_line_diff(orig, stripped, o_path, s_path))
            } else {
                Err(DiffFailure::TableTooLarge)
            }
        },
    }
}

/// The text that names a failure: what it is, the path of the buffer that
/// holds it, and the byte offset.
pub open spec fn failure_text(failure: DiffFailure, o_path: Seq<char>, s_path: Seq<char>) -> Seq<
    char,
> {
    match failure {
        DiffFailure::TableTooLarge => "buffers are too large for a line comparison"@,
        DiffFailure::Lex(e) => {
            let what = match e.fault {
                Fault::UnknownToken => "unknown token in "@,
                Fault::OpenLongBracket => "long bracket is never closed in "@,
            };
            let path = match e.buffer {
                Buffer::Original => o_path,
                Buffer::Stripped => s_path,
            };
            what + path + " at byte "@ + decimal(e.offset as nat)
        },
    }
}

/// The diagnostic for a failed comparison of the buffers read from `o_path`
/// and `s_path`.
pub fn describe_failure(failure: &DiffFailure, o_path: &str, s_path: &str) -> (text: String)
    ensures
        text@ == failure_text(*failure, o_path@, s_path@),
{
    let mut text = String::new();
    match failure {
        DiffFailure::TableTooLarge => {
            push_text(&mut text, "buffers are too large for a line comparison");
            assert(text@ =~= "buffers are too large for a line comparison"@);
        },
        DiffFailure::Lex(e) => {
            match e.fault {
                Fault::UnknownToken => push_text(&mut text, "unknown token in "),
                Fault::OpenLongBracket => push_text(&mut text, "long bracket is never closed in "),
            }
            let ghost what = text@;
            assert(what =~= match e.fault {
                Fault::UnknownToken => "unknown token in "@,
                Fault::OpenLongBracket => "long bracket is never closed in "@,
            });
            match e.buffer {
                Buffer::Original => push_text(&mut text, o_path),
                Buffer::Stripped => push_text(&mut text, s_path),
            }
            push_text(&mut text, " at byte ");
            push_decimal(&mut text, e.offset);
        },
    }
    text
}

} // verus!
