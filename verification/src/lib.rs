//! Strips comments from Lua sources and audits the result: the token
//! comparison that shows that nothing but comments was removed, the line
//! comparison for the verbose report, the parse driver with its diagnostics,
//! and the decisions of the directory walk.

pub mod brackets;
pub mod text;
pub mod token;
pub mod lexer;
pub mod lines;
pub mod report;
pub mod token_diff;
pub mod line_diff;
pub mod diagnostic;
pub mod parse;
pub mod audit;
pub mod walk;
